use nanoforge::cache::{process_image_name, CacheLayout};
use nanoforge::error::ForgeError;
use nanoforge::layers::download_nanoservice;
use nanoforge::paths::{calculate_relative_path, join_path, parent_path, relative_path_inputs, strip_prefix_or_keep};

const WORKING_DIR: &str = "/Users/maxwellflitton/Documents/github/personal/nanoservices/NanoForge";

#[test]
fn test_calculate_relative_path_for_full_paths() {
    let cargo_path =
        "/Users/maxwellflitton/Documents/github/personal/nanoservices/NanoForge/tests/path_testing/one/three/Cargo.toml";
    let nanoservice_cache_path = "/Users/maxwellflitton/Documents/github/personal/nanoservices/NanoForge/tests/path_testing/.nanoservices_cache/domain_services/nanoservices/";
    let outcome = calculate_relative_path(
        cargo_path,
        &"two".to_string(),
        &".".to_string(),
        nanoservice_cache_path,
        WORKING_DIR,
    )
    .unwrap();
    assert_eq!("../../.nanoservices_cache/domain_services/nanoservices/two/.", outcome);
}

#[test]
fn test_calculate_relative_path_for_relative_cargo_path() {
    let cargo_path = "tests/path_testing/one/three/Cargo.toml";
    let nanoservice_cache_path = "/Users/maxwellflitton/Documents/github/personal/nanoservices/NanoForge/tests/path_testing/.nanoservices_cache/domain_services/nanoservices/";
    let outcome = calculate_relative_path(
        cargo_path,
        &"two".to_string(),
        &".".to_string(),
        nanoservice_cache_path,
        WORKING_DIR,
    )
    .unwrap();
    assert_eq!("../../.nanoservices_cache/domain_services/nanoservices/two/.", outcome);
}

#[test]
fn resolves_the_documented_round_trip() {
    let outcome =
        calculate_relative_path("root/a/b/Cargo.toml", "x/y", ".", "root/.cache/domain/nanoservices", "").unwrap();
    assert_eq!("../../.cache/domain/nanoservices/x_y/.", outcome);
}

#[test]
fn resolution_inputs_are_stripped_of_the_working_dir() {
    let (target, base) = relative_path_inputs(
        "/w/one/Cargo.toml",
        "org/img:latest",
        "/w/.nanoservices_cache/domain_services/nanoservices",
        "/w",
    )
    .unwrap();
    assert_eq!(target, ".nanoservices_cache/domain_services/nanoservices/org_img");
    assert_eq!(base, "one");
    assert!(relative_path_inputs("", "img", "/w/cache", "/w").is_none());
}

#[test]
fn resolution_into_a_sibling_image() {
    let outcome = calculate_relative_path(
        ".nanoservices_cache/domain_services/nanoservices/a/Cargo.toml",
        "b",
        "kernel",
        "/w/.nanoservices_cache/domain_services/nanoservices",
        "/w",
    )
    .unwrap();
    assert_eq!(outcome, "../b/kernel");
}

#[test]
fn manifest_without_parent_is_an_error() {
    assert_eq!(
        calculate_relative_path("", "img", ".", "/w/.nanoservices_cache", "/w"),
        Err(ForgeError::NoParentDirectory)
    );
}

#[test]
fn relative_target_from_absolute_base_is_an_error() {
    assert_eq!(
        calculate_relative_path("/abs/Cargo.toml", "img", ".", "rel/nanoservices", ""),
        Err(ForgeError::NoRelativePath)
    );
}

#[test]
fn joins_paths_like_a_path_buffer() {
    assert_eq!(join_path("a", "b"), "a/b");
    assert_eq!(join_path("a/", "b"), "a/b");
    assert_eq!(join_path("", "b"), "b");
    assert_eq!(join_path("a", "/b"), "/b");
    assert_eq!(join_path("../x", "."), "../x/.");
}

#[test]
fn parents_and_prefixes() {
    assert_eq!(parent_path("a/b/Cargo.toml"), Some("a/b".to_string()));
    assert_eq!(parent_path("Cargo.toml"), Some("".to_string()));
    assert_eq!(parent_path("/Cargo.toml"), Some("/".to_string()));
    assert_eq!(parent_path("/"), None);
    assert_eq!(parent_path(""), None);
    assert_eq!(strip_prefix_or_keep("/w/a/b", "/w"), "a/b");
    assert_eq!(strip_prefix_or_keep("/w/a/b", "/w/"), "a/b");
    assert_eq!(strip_prefix_or_keep("/wa/b", "/w"), "/wa/b");
    assert_eq!(strip_prefix_or_keep("a/b", "/w"), "a/b");
}

#[test]
fn image_names_become_directory_names() {
    assert_eq!(process_image_name(&"maxwellflitton/nan-one:latest".to_string()), "maxwellflitton_nan-one");
    assert_eq!(process_image_name(&"registry:5000/org/img:v1".to_string()), "registry_5000_org_img_v1");
    assert_eq!(process_image_name(&"plain".to_string()), "plain");
}

#[test]
fn distinct_registry_paths_get_distinct_directories() {
    let a = process_image_name(&"org/a-b".to_string());
    let b = process_image_name(&"org-a/b".to_string());
    assert_ne!(a, b);
    assert_eq!(a, "org_a-b");
    assert_eq!(b, "org-a_b");
}

#[test]
fn cache_layout_from_working_dir() {
    let layout = CacheLayout::new("/w");
    assert_eq!(layout.cache_dir, "/w/.nanoservices_cache");
    assert_eq!(layout.nanoservices_dir, "/w/.nanoservices_cache/domain_services/nanoservices");
    assert_eq!(layout.nanoservices_tar_dir, "/w/.nanoservices_cache/domain_services_tar/nanoservices_tar");
    assert_eq!(layout.working_dir, "/w");
}

#[test]
fn download_places_image_by_sanitized_name() {
    let layout = CacheLayout::new("/w");
    let plan = download_nanoservice(&layout, "org/img:latest");
    assert_eq!(plan.archive_path, "/w/.nanoservices_cache/domain_services_tar/nanoservices_tar/org_img.tar");
    assert_eq!(plan.package_dir, "/w/.nanoservices_cache/domain_services_tar/nanoservices_tar/org_img");
    assert_eq!(plan.unpack_dir, "/w/.nanoservices_cache/domain_services/nanoservices/org_img");
}
