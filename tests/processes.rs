use nanoforge::cache::CacheLayout;
use nanoforge::collect::{get_all_nanoservices, ManifestPlan};
use nanoforge::error::ForgeError;
use nanoforge::graph::graph_nanos;
use nanoforge::layers::{check_if_gzipped, extract_layers, JsonValue};
use nanoforge::manifest::{CargoToml, Nanoservice, Package, RawCargoToml, TomlValue};
use nanoforge::processes::{
    config_nanoservices_once, get_nanoservices_once, install_nanoservices_once, prep_nanoservices_once,
    recurrsive_install_nanoservices, recursive_config_nanoservices, recursive_prep_nanoservices, Command,
};

fn text(s: &str) -> String {
    s.to_string()
}

fn texts(items: &[&str]) -> Vec<String> {
    items.iter().map(|s| s.to_string()).collect()
}

fn nano(image: &str, local: Option<bool>) -> Nanoservice {
    Nanoservice {
        dev_image: text(image),
        prod_image: text(image),
        entrypoint: text("."),
        features: None,
        local,
        package: None,
        kernel: None,
    }
}

fn manifest(nanos: Option<Vec<(String, Nanoservice)>>) -> CargoToml {
    CargoToml {
        package: Some(Package { name: text("p"), version: text("0.1.0"), edition: text("2021") }),
        dependencies: Some(Vec::new()),
        nanoservices: nanos,
    }
}

#[test]
fn only_unseen_manifests_are_taken() {
    let scanned = texts(&["a/Cargo.toml", "b/Cargo.toml", "c/Cargo.toml"]);
    let seen = texts(&["b/Cargo.toml"]);
    assert_eq!(get_nanoservices_once(&scanned, &seen), texts(&["a/Cargo.toml", "c/Cargo.toml"]));
    assert_eq!(get_nanoservices_once(&scanned, &scanned), Vec::<String>::new());
}

#[test]
fn each_image_is_fetched_once_and_local_ones_never() {
    let all = vec![
        (text("a"), nano("org/a", None)),
        (text("a2"), nano("org/a", Some(false))),
        (text("b"), nano("org/b", Some(true))),
        (text("c"), nano("org/c", None)),
    ];
    let plan = install_nanoservices_once(&all, &texts(&["org/c"]));
    assert_eq!(plan.downloads, texts(&["org/a"]));
    assert_eq!(plan.images, texts(&["org/a", "org/b", "org/c"]));
}

#[test]
fn a_pass_fetches_and_rewrites() {
    let layout = CacheLayout::new("/w");
    let files = vec![
        (text("Cargo.toml"), CargoToml { package: None, dependencies: None, nanoservices: None }),
        (text("svc/Cargo.toml"), manifest(Some(vec![(text("nan"), nano("org/nan", None))]))),
        (text("lib/Cargo.toml"), manifest(None)),
    ];
    let plan = prep_nanoservices_once(files, &Vec::new(), &layout).unwrap();
    assert_eq!(plan.downloads, texts(&["org/nan"]));
    assert_eq!(plan.images, texts(&["org/nan"]));
    assert_eq!(plan.writes.len(), 3);
    assert!(plan.writes[0].1.is_none());
    let svc = plan.writes[1].1.as_ref().unwrap();
    assert_eq!(
        svc.dependencies,
        vec![(
            text("nan"),
            TomlValue::Table(vec![(
                text("path"),
                TomlValue::String(text("../.nanoservices_cache/domain_services/nanoservices/org_nan/."))
            )])
        )]
    );
    assert_eq!(plan.writes[2].0, "lib/Cargo.toml");
    assert!(plan.writes[2].1.is_some());
}

#[test]
fn a_pass_fails_on_the_first_bad_manifest() {
    let layout = CacheLayout::new("");
    let files = vec![(text("/abs/Cargo.toml"), manifest(Some(vec![(text("n"), nano("img", None))])))];
    assert!(matches!(prep_nanoservices_once(files, &Vec::new(), &layout), Err(ForgeError::NoRelativePath)));
}

#[test]
fn config_pass_writes_by_plan() {
    let layout = CacheLayout::new("/w");
    let collected = get_all_nanoservices(vec![
        (text("Cargo.toml"), CargoToml { package: None, dependencies: Some(Vec::new()), nanoservices: None }),
        (text("x/Cargo.toml"), manifest(Some(vec![(text("n"), nano("img", None))]))),
    ]);
    let writes = config_nanoservices_once(collected.plans, &layout).unwrap();
    assert!(writes[0].1.is_none());
    let x: &RawCargoToml = writes[1].1.as_ref().unwrap();
    assert_eq!(x.dependencies.len(), 1);
    assert_eq!(x.dependencies[0].0, "n");
}

#[test]
fn fixpoint_without_nested_declarations_ends_after_one_pass() {
    let mut run = recursive_prep_nanoservices();
    let first = run.next_request();
    assert!(first.wipe_cache && !first.include_cache);
    assert!(run.record_pass(&texts(&["Cargo.toml", "a/Cargo.toml"]), &Vec::new()));
    let second = run.next_request();
    assert!(!second.wipe_cache && second.include_cache);
    assert!(!run.record_pass(&Vec::new(), &Vec::new()));
    assert!(run.finished);
    assert_eq!(run.passes, 1);
}

#[test]
fn fixpoint_with_one_nested_declaration_ends_after_two_passes() {
    let mut run = recurrsive_install_nanoservices();
    assert_eq!(run.command, Command::Install);
    assert!(run.record_pass(&texts(&["Cargo.toml"]), &texts(&["org/a"])));
    assert!(run.record_pass(&texts(&[".nanoservices_cache/domain_services/nanoservices/org_a/Cargo.toml"]), &texts(&["org/b", "org/a"])));
    assert!(!run.record_pass(&Vec::new(), &Vec::new()));
    assert_eq!(run.passes, 2);
    assert_eq!(run.fetched_images, texts(&["org/a", "org/b"]));
    assert_eq!(run.seen_manifests.len(), 2);
}

#[test]
fn config_run_never_wipes_the_cache() {
    let mut run = recursive_config_nanoservices();
    assert!(!run.next_request().wipe_cache);
    assert!(run.record_pass(&Vec::new(), &Vec::new()));
    assert!(run.next_request().include_cache);
}

fn layer_manifest(layers: Vec<JsonValue>) -> JsonValue {
    JsonValue::Array(vec![JsonValue::Object(vec![
        (text("Config"), JsonValue::Str(text("c.json"))),
        (text("Layers"), JsonValue::Array(layers)),
    ])])
}

#[test]
fn layers_are_unpacked_in_manifest_order() {
    let m = layer_manifest(vec![JsonValue::Str(text("l1/layer.tar")), JsonValue::Str(text("l2/layer.tar"))]);
    assert_eq!(extract_layers(&m, "/blobs").unwrap(), texts(&["/blobs/l1/layer.tar", "/blobs/l2/layer.tar"]));
}

#[test]
fn a_manifest_without_layers_has_none() {
    assert_eq!(extract_layers(&JsonValue::Array(Vec::new()), "/b").unwrap(), Vec::<String>::new());
    assert_eq!(extract_layers(&JsonValue::Null, "/b").unwrap(), Vec::<String>::new());
    let no_layers = JsonValue::Array(vec![JsonValue::Object(vec![(text("Config"), JsonValue::Null)])]);
    assert_eq!(extract_layers(&no_layers, "/b").unwrap(), Vec::<String>::new());
}

#[test]
fn a_layer_that_is_not_text_is_an_error() {
    let m = layer_manifest(vec![JsonValue::Str(text("ok")), JsonValue::Bool(true)]);
    assert_eq!(extract_layers(&m, "/b"), Err(ForgeError::MalformedLayer));
}

#[test]
fn gzip_is_told_by_its_magic_number() {
    assert_eq!(check_if_gzipped(&[0x1f, 0x8b, 0x08]), Ok(true));
    assert_eq!(check_if_gzipped(&[0x75, 0x73]), Ok(false));
    assert_eq!(check_if_gzipped(&[0x1f]), Err(ForgeError::LayerTooShort));
}

#[test]
fn graph_lists_declaring_manifests() {
    let collected = get_all_nanoservices(vec![
        (text("Cargo.toml"), manifest(None)),
        (
            text(".nanoservices_cache/domain_services/nanoservices/org_a/Cargo.toml"),
            manifest(Some(vec![(text("b"), nano("org/b", None))])),
        ),
    ]);
    assert!(matches!(collected.plans[0].1, ManifestPlan::Flush(_)));
    let graph = graph_nanos(&collected.plans);
    assert_eq!(graph, vec![(text("nanoservice:org_a/Cargo.toml"), texts(&["b"]))]);
}
