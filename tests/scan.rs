use nanoforge::scan::{find_all_cargos, find_all_cargos_inc_cache, find_all_cargos_interface, is_cargo_toml};

fn walk(entries: &[&str]) -> Vec<String> {
    entries.iter().map(|e| e.to_string()).collect()
}

#[test]
fn test_find_all_cargos_at_base() {
    let entries = walk(&[
        "",
        "one",
        "one/Cargo.toml",
        "one/three",
        "one/three/Cargo.toml",
        "two",
        "two/Cargo.toml",
    ]);
    let expected_path = vec![
        "one/Cargo.toml".to_string(),
        "one/three/Cargo.toml".to_string(),
        "two/Cargo.toml".to_string(),
    ];
    assert_eq!(expected_path, find_all_cargos(&entries));
}

#[test]
fn test_find_all_cargos_at_one() {
    let entries = walk(&["", "Cargo.toml", "three", "three/Cargo.toml"]);
    let expected_path = vec!["Cargo.toml".to_string(), "three/Cargo.toml".to_string()];
    assert_eq!(expected_path, find_all_cargos(&entries));
}

#[test]
fn cache_manifests_only_with_the_cache() {
    let entries = walk(&[
        "Cargo.toml",
        ".nanoservices_cache",
        ".nanoservices_cache/foo",
        ".nanoservices_cache/foo/Cargo.toml",
        ".nanoservices_cache_other/Cargo.toml",
    ]);
    let without = find_all_cargos_interface(&entries, false);
    assert_eq!(without, walk(&["Cargo.toml", ".nanoservices_cache_other/Cargo.toml"]));
    let with = find_all_cargos_inc_cache(&entries);
    assert_eq!(
        with,
        walk(&["Cargo.toml", ".nanoservices_cache/foo/Cargo.toml", ".nanoservices_cache_other/Cargo.toml"])
    );
}

#[test]
fn manifest_names_match_exactly() {
    assert!(is_cargo_toml("Cargo.toml"));
    assert!(is_cargo_toml("a/b/Cargo.toml"));
    assert!(!is_cargo_toml("a/NotCargo.toml"));
    assert!(!is_cargo_toml("a/Cargo.toml.bak"));
    assert!(!is_cargo_toml("Cargo.toml/inner"));
}
