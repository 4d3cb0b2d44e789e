use nanoforge::collect::{get_all_nanoservices, ManifestPlan};
use nanoforge::configure::config_cargo;
use nanoforge::error::ForgeError;
use nanoforge::manifest::{CargoToml, Nanoservice, NanoserviceKernel, Package, RawCargoToml, TomlValue};
use nanoforge::wipe::{is_injected_dependency, wipe_nanoservices};

fn text(s: &str) -> String {
    s.to_string()
}

fn package() -> Package {
    Package { name: text("test"), version: text("0.1.0"), edition: text("2018") }
}

fn path_dep(path: &str) -> TomlValue {
    TomlValue::Table(vec![(text("path"), TomlValue::String(text(path)))])
}

fn nano(image: &str) -> Nanoservice {
    Nanoservice {
        dev_image: text(image),
        prod_image: text(image),
        entrypoint: text("."),
        features: None,
        local: None,
        package: None,
        kernel: None,
    }
}

fn lookup<'a>(deps: &'a [(String, TomlValue)], key: &str) -> Option<&'a TomlValue> {
    deps.iter().find(|(k, _)| k == key).map(|(_, v)| v)
}

fn sorted(deps: &[(String, TomlValue)]) -> Vec<(String, TomlValue)> {
    let mut keys: Vec<&String> = deps.iter().map(|(k, _)| k).collect();
    keys.sort();
    keys.into_iter()
        .map(|k| (k.clone(), copy_value(lookup(deps, k).unwrap())))
        .collect()
}

fn copy_value(v: &TomlValue) -> TomlValue {
    match v {
        TomlValue::String(s) => TomlValue::String(s.clone()),
        TomlValue::Integer(i) => TomlValue::Integer(*i),
        TomlValue::Float(s) => TomlValue::Float(s.clone()),
        TomlValue::Boolean(b) => TomlValue::Boolean(*b),
        TomlValue::Datetime(s) => TomlValue::Datetime(s.clone()),
        TomlValue::Array(items) => TomlValue::Array(items.iter().map(copy_value).collect()),
        TomlValue::Table(entries) => {
            TomlValue::Table(entries.iter().map(|(k, v)| (k.clone(), copy_value(v))).collect())
        }
    }
}

#[test]
fn test_wipe_nanoservices() {
    let mut dependencies = Vec::new();
    dependencies.push((text("test"), TomlValue::Table(Vec::new())));
    dependencies.push((text("test2"), TomlValue::Table(Vec::new())));
    dependencies.push((text("test3"), path_dep("test")));
    dependencies.push((text("test4"), path_dep(".nanoservices_cache/one/two")));
    let mut cargo_toml = RawCargoToml { package: package(), dependencies, nanoservices: None };
    wipe_nanoservices(&mut cargo_toml);
    assert_eq!(cargo_toml.dependencies.len(), 3);
    assert_eq!(lookup(&cargo_toml.dependencies, "test").is_some(), true);
    assert_eq!(lookup(&cargo_toml.dependencies, "test2").is_some(), true);
    assert_eq!(lookup(&cargo_toml.dependencies, "test3").is_some(), true);
}

#[test]
fn injected_dependencies_are_recognised() {
    assert!(is_injected_dependency(&path_dep("../../.nanoservices_cache/x")));
    assert!(!is_injected_dependency(&path_dep("../local")));
    assert!(!is_injected_dependency(&TomlValue::String(text(".nanoservices_cache"))));
    let not_text = TomlValue::Table(vec![(text("path"), TomlValue::Integer(3))]);
    assert!(!is_injected_dependency(&not_text));
}

#[test]
fn rewrite_adds_declarations_and_kernels() {
    let mut n = nano("org/nan-one");
    n.features = Some(vec![text("one"), text("two")]);
    n.package = Some(text("nan_one"));
    n.kernel = Some(NanoserviceKernel {
        entrypoint: text("kernel"),
        features: None,
        package: None,
        name: text("nan-one-kernel"),
    });
    let raw = RawCargoToml {
        package: package(),
        dependencies: vec![(text("tokio"), TomlValue::String(text("1.0.0")))],
        nanoservices: None,
    };
    let out = config_cargo(raw, vec![(text("nan-one"), n)], "/w/.nanoservices_cache/domain_services/nanoservices", "app/Cargo.toml", "/w").unwrap();
    assert_eq!(out.dependencies.len(), 3);
    assert_eq!(lookup(&out.dependencies, "tokio"), Some(&TomlValue::String(text("1.0.0"))));
    let expected = TomlValue::Table(vec![
        (text("path"), TomlValue::String(text("../.nanoservices_cache/domain_services/nanoservices/org_nan-one/."))),
        (
            text("features"),
            TomlValue::Array(vec![TomlValue::String(text("one")), TomlValue::String(text("two"))]),
        ),
        (text("package"), TomlValue::String(text("nan_one"))),
    ]);
    assert_eq!(lookup(&out.dependencies, "nan-one"), Some(&expected));
    let kernel = path_dep("../.nanoservices_cache/domain_services/nanoservices/org_nan-one/kernel");
    assert_eq!(lookup(&out.dependencies, "nan-one-kernel"), Some(&kernel));
}

#[test]
fn kernel_table_is_built_from_the_parent_image() {
    let mut n = nano("org/img");
    assert_eq!(n.construct_kernel("Cargo.toml", "/w/cache", "/w"), Ok(None));
    n.kernel = Some(NanoserviceKernel {
        entrypoint: text("k"),
        features: Some(vec![text("f")]),
        package: Some(text("p")),
        name: text("kern"),
    });
    let table = n.construct_kernel("Cargo.toml", "/w/cache", "/w").unwrap().unwrap();
    let expected = TomlValue::Table(vec![
        (text("path"), TomlValue::String(text("cache/org_img/k"))),
        (text("features"), TomlValue::Array(vec![TomlValue::String(text("f"))])),
        (text("package"), TomlValue::String(text("p"))),
    ]);
    assert_eq!(table, expected);
}

#[test]
fn features_and_package_are_added_only_when_present() {
    let n = nano("img");
    let mut table = vec![(text("path"), TomlValue::String(text("x")))];
    n.add_features(&mut table);
    n.add_package(&mut table);
    assert_eq!(table.len(), 1);
    let k = NanoserviceKernel { entrypoint: text("."), features: Some(vec![]), package: Some(text("p")), name: text("k") };
    k.add_features(&mut table);
    k.add_package(&mut table);
    assert_eq!(table.len(), 3);
    assert_eq!(lookup(&table, "features"), Some(&TomlValue::Array(vec![])));
    assert_eq!(lookup(&table, "package"), Some(&TomlValue::String(text("p"))));
}

#[test]
fn rewriting_twice_gives_the_same_manifest() {
    let make = || RawCargoToml {
        package: package(),
        dependencies: vec![
            (text("serde"), TomlValue::String(text("1"))),
            (text("old"), path_dep("../.nanoservices_cache/domain_services/nanoservices/gone/.")),
        ],
        nanoservices: None,
    };
    let decls = || vec![(text("nan"), nano("org/nan")), (text("serde"), nano("org/serde"))];
    let layout_dir = "/w/.nanoservices_cache/domain_services/nanoservices";
    let once = config_cargo(make(), decls(), layout_dir, "svc/Cargo.toml", "/w").unwrap();
    let once_sorted = sorted(&once.dependencies);
    let twice = config_cargo(once, decls(), layout_dir, "svc/Cargo.toml", "/w").unwrap();
    assert_eq!(sorted(&twice.dependencies), once_sorted);
    assert!(lookup(&twice.dependencies, "old").is_none());
}

#[test]
fn stale_entries_go_and_user_entries_stay() {
    let raw = RawCargoToml {
        package: package(),
        dependencies: vec![
            (text("mine"), path_dep("../mine")),
            (text("stale"), path_dep("../../.nanoservices_cache/domain_services/nanoservices/x/.")),
            (text("tokio"), TomlValue::String(text("1.0.0"))),
        ],
        nanoservices: None,
    };
    let out = config_cargo(raw, Vec::new(), "/w/.nanoservices_cache/domain_services/nanoservices", "a/b/Cargo.toml", "/w").unwrap();
    assert_eq!(out.dependencies, vec![(text("mine"), path_dep("../mine")), (text("tokio"), TomlValue::String(text("1.0.0")))]);
}

#[test]
fn rewrite_fails_without_a_relative_path() {
    let raw = RawCargoToml { package: package(), dependencies: Vec::new(), nanoservices: None };
    let out = config_cargo(raw, vec![(text("n"), nano("img"))], "rel/nanoservices", "/abs/Cargo.toml", "");
    assert_eq!(out, Err(ForgeError::NoRelativePath));
}

#[test]
fn into_raw_needs_package_and_dependencies() {
    let full = CargoToml { package: Some(package()), dependencies: Some(Vec::new()), nanoservices: None };
    assert!(full.into_raw().is_some());
    let no_deps = CargoToml { package: Some(package()), dependencies: None, nanoservices: None };
    assert!(no_deps.into_raw().is_none());
    let no_package = CargoToml { package: None, dependencies: Some(Vec::new()), nanoservices: None };
    assert!(no_package.into_raw().is_none());
}

#[test]
fn manifests_are_sorted_into_plans() {
    let skip = CargoToml { package: None, dependencies: None, nanoservices: None };
    let flush = CargoToml {
        package: Some(package()),
        dependencies: Some(vec![(text("stale"), path_dep(".nanoservices_cache/x"))]),
        nanoservices: Some(Vec::new()),
    };
    let declared = CargoToml {
        package: Some(package()),
        dependencies: Some(Vec::new()),
        nanoservices: Some(vec![(text("a"), nano("img")), (text("b"), nano("img2"))]),
    };
    let again = CargoToml {
        package: Some(package()),
        dependencies: Some(Vec::new()),
        nanoservices: Some(vec![(text("a"), nano("img"))]),
    };
    let collected = get_all_nanoservices(vec![
        (text("root/Cargo.toml"), skip),
        (text("x/Cargo.toml"), flush),
        (text("y/Cargo.toml"), declared),
        (text("z/Cargo.toml"), again),
    ]);
    assert_eq!(collected.plans.len(), 4);
    assert_eq!(collected.plans[0], (text("root/Cargo.toml"), ManifestPlan::Skip));
    assert_eq!(
        collected.plans[1],
        (text("x/Cargo.toml"), ManifestPlan::Flush(RawCargoToml { package: package(), dependencies: Vec::new(), nanoservices: Some(Vec::new()) }))
    );
    assert!(matches!(collected.plans[2].1, ManifestPlan::Declared(_)));
    assert_eq!(collected.all_nanoservices.len(), 2);
    assert_eq!(collected.all_nanoservices[0].0, "a");
    assert_eq!(collected.all_nanoservices[1].0, "b");
}
