use pathfinder::utils::{extension_from_uri, language_id_for_path, str_eq, uri_to_path};

#[test]
fn test_extension_from_uri() {
    assert_eq!(
        extension_from_uri("file:///path/to/file.rs"),
        Some("rs".to_string())
    );
    assert_eq!(
        extension_from_uri("file:///path/to/file.py"),
        Some("py".to_string())
    );
    assert_eq!(extension_from_uri("file:///path/to/file"), None);
}

#[test]
fn test_language_id_for_path() {
    assert_eq!(language_id_for_path("file.rs"), "rust");
    assert_eq!(language_id_for_path("file.py"), "python");
    assert_eq!(language_id_for_path("file.ts"), "typescript");
    assert_eq!(language_id_for_path("file.tsx"), "typescriptreact");
    assert_eq!(language_id_for_path("file.js"), "javascript");
    assert_eq!(language_id_for_path("file.jsx"), "javascriptreact");
    assert_eq!(language_id_for_path("file.unknown"), "unknown");
    assert_eq!(language_id_for_path("file"), "plaintext");
}

#[test]
fn more_language_ids() {
    assert_eq!(language_id_for_path("a/b/x.go"), "go");
    assert_eq!(language_id_for_path("x.json"), "json");
    assert_eq!(language_id_for_path("x.toml"), "toml");
    assert_eq!(language_id_for_path("x.yaml"), "yaml");
    assert_eq!(language_id_for_path("x.yml"), "yaml");
    assert_eq!(language_id_for_path("x.md"), "markdown");
}

#[test]
fn hidden_files_have_no_extension() {
    assert_eq!(extension_from_uri("file:///home/user/.bashrc"), None);
    assert_eq!(extension_from_uri("file:///home/user/.config.toml"), Some("toml".to_string()));
}

#[test]
fn str_eq_compares_by_content() {
    assert!(str_eq("abc", "abc"));
    assert!(!str_eq("abc", "abd"));
    assert!(!str_eq("abc", "ab"));
    assert!(str_eq("", ""));
}

#[test]
fn uri_to_path_accepts_only_local_files() {
    assert_eq!(uri_to_path("file:///tmp/x.rs"), Some("/tmp/x.rs".to_string()));
    assert_eq!(uri_to_path("not a uri"), None);
    assert_eq!(uri_to_path("https://example.com/x.rs"), None);
}
