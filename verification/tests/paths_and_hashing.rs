use cargo_resources::ContentHasher;
use cargo_resources::{
    file_name_of, is_absolute_path, join_paths, parent_path, path_starts_with,
};

#[test]
fn absolute_paths_are_recognized() {
    assert!(is_absolute_path("/etc/config"));
    assert!(!is_absolute_path("etc/config"));
    assert!(!is_absolute_path(""));
}

#[test]
fn join_inserts_a_single_separator() {
    assert_eq!(join_paths("target/resources", "logo.png"), "target/resources/logo.png");
    assert_eq!(join_paths("target/", "logo.png"), "target/logo.png");
    assert_eq!(join_paths("", "logo.png"), "logo.png");
    assert_eq!(join_paths("target", "/abs.png"), "/abs.png");
}

#[test]
fn parent_drops_the_final_component() {
    assert_eq!(parent_path("target/resources/logo.png"), Some("target/resources".to_string()));
    assert_eq!(parent_path("logo.png"), Some(String::new()));
    assert_eq!(parent_path("/logo.png"), Some("/".to_string()));
    assert_eq!(parent_path("/"), None);
    assert_eq!(parent_path(""), None);
}

#[test]
fn file_name_skips_dot_components() {
    assert_eq!(file_name_of("data/res.txt"), Some("res.txt".to_string()));
    assert_eq!(file_name_of("res.txt"), Some("res.txt".to_string()));
    assert_eq!(file_name_of("data/.."), None);
    assert_eq!(file_name_of("data/."), None);
    assert_eq!(file_name_of("data/"), None);
}

#[test]
fn prefix_check_respects_component_boundaries() {
    assert!(path_starts_with("/root/target/resources/a.txt", "/root/target/resources"));
    assert!(path_starts_with("/root/target/resources", "/root/target/resources"));
    assert!(!path_starts_with("/root/target/resources-evil", "/root/target/resources"));
    assert!(!path_starts_with("/outside/evil.txt", "/root/target/resources"));
    assert!(path_starts_with("/anything", "/"));
}

#[test]
fn sha256_of_known_content() {
    let mut hasher = ContentHasher::new();
    assert!(hasher.update(b"hello"));
    assert_eq!(
        hasher.finish_hex(),
        "2cf24dba5fb0a30e26e83b2ac5b9e29e1b161e5c1fa7425e73043362938b9824"
    );
}

#[test]
fn sha256_of_empty_content() {
    let hasher = ContentHasher::new();
    assert_eq!(
        hasher.finish_hex(),
        "e3b0c44298fc1c149afbf4c8996fb92427ae41e4649b934ca495991b7852b855"
    );
}

#[test]
fn sha256_is_the_same_fed_in_chunks() {
    let mut one = ContentHasher::new();
    assert!(one.update(b"hello world"));
    let mut two = ContentHasher::new();
    assert!(two.update(b"hello "));
    assert!(two.update(b"world"));
    assert_eq!(one.finish_hex(), two.finish_hex());
}
