use pathfinder::args::ServerSpec;
use pathfinder::config::{Config, ConfigError, ServerConfig};

#[test]
fn parse_valid_config() {
    let config = Config {
        server: ServerConfig {
            extensions: vec!["js".to_string(), "ts".to_string()],
            command: vec!["typescript-language-server".to_string(), "--stdio".to_string()],
            root_dir: ".".to_string(),
        },
    };
    assert_eq!(config.server.extensions, vec!["js", "ts"]);
}

#[test]
fn reject_empty_extensions() {
    let config = Config {
        server: ServerConfig {
            extensions: vec![],
            command: vec!["server1".to_string()],
            root_dir: ".".to_string(),
        },
    };
    assert!(config.validate().is_err());
}

#[test]
fn reject_empty_command() {
    let config = Config {
        server: ServerConfig {
            extensions: vec!["rs".to_string()],
            command: vec![],
            root_dir: ".".to_string(),
        },
    };
    assert_eq!(config.validate().unwrap_err(), ConfigError::EmptyCommand);
}

#[test]
fn from_server_spec_defaults_root() {
    let spec = ServerSpec {
        extensions: vec!["rs".to_string()],
        command: vec!["rust-analyzer".to_string()],
    };
    let config = Config::from_server_spec(spec).unwrap();
    assert_eq!(config.server.root_dir, ".");
    assert_eq!(config.server.extensions, vec!["rs"]);
    assert_eq!(config.server.command, vec!["rust-analyzer"]);
}

#[test]
fn from_server_spec_validates() {
    let spec = ServerSpec { extensions: vec![], command: vec!["x".to_string()] };
    assert_eq!(
        Config::from_server_spec(spec).unwrap_err(),
        ConfigError::NoExtensions
    );
}

#[test]
fn has_extension_matches_exactly() {
    let config = Config {
        server: ServerConfig {
            extensions: vec!["rs".to_string(), "toml".to_string()],
            command: vec!["rust-analyzer".to_string()],
            root_dir: ".".to_string(),
        },
    };
    assert!(config.has_extension("rs"));
    assert!(config.has_extension("toml"));
    assert!(!config.has_extension("py"));
    assert!(!config.has_extension("r"));
}

#[test]
fn resolve_root_dir_joins_paths() {
    let relative = ServerConfig {
        extensions: vec!["rs".to_string()],
        command: vec!["x".to_string()],
        root_dir: "sub/dir".to_string(),
    };
    assert_eq!(relative.resolve_root_dir("/base"), "/base/sub/dir");
    assert_eq!(relative.resolve_root_dir("/base/"), "/base/sub/dir");
    assert_eq!(relative.resolve_root_dir(""), "sub/dir");

    let absolute = ServerConfig {
        extensions: vec!["rs".to_string()],
        command: vec!["x".to_string()],
        root_dir: "/abs/path".to_string(),
    };
    assert_eq!(absolute.resolve_root_dir("/base"), "/abs/path");
}
