use harald::paths::{path_ends_with, path_extension, path_file_stem, path_has_component};

#[test]
fn extensions_and_stems() {
    assert_eq!(path_extension("a/b/file.tar.gz"), Some("gz".to_string()));
    assert_eq!(path_file_stem("a/b/file.tar.gz"), Some("file.tar".to_string()));
    assert_eq!(path_extension(".bashrc"), None);
    assert_eq!(path_file_stem(".bashrc"), Some(".bashrc".to_string()));
    assert_eq!(path_extension("a."), Some(String::new()));
    assert_eq!(path_file_stem("a/.."), None);
    assert_eq!(path_file_stem("foo.txt/."), Some("foo".to_string()));
    assert_eq!(path_extension("/"), None);
}

#[test]
fn components_and_endings() {
    assert!(path_has_component("/x/./config//y", "config"));
    assert!(!path_has_component("/x/configs/y", "config"));
    assert!(path_ends_with("a/docs/api/", "docs/api"));
    assert!(!path_ends_with("a/mydocs/api", "docs/api"));
    assert!(!path_ends_with("api", "docs/api"));
}
