use httpdispatcher::format::{extension_of, ConfigFormat};
use httpdispatcher::RuntimeError;

#[test]
fn extension_of_plain_file() {
    assert_eq!(extension_of("config/app.toml"), Some("toml".to_string()));
    assert_eq!(extension_of("a.b.yaml"), Some("yaml".to_string()));
}

#[test]
fn extension_of_edge_cases() {
    assert_eq!(extension_of(".bashrc"), None);
    assert_eq!(extension_of("a."), Some("".to_string()));
    assert_eq!(extension_of("x/.."), None);
    assert_eq!(extension_of("noext"), None);
    assert_eq!(extension_of(""), None);
    assert_eq!(extension_of("dir/file.json/"), Some("json".to_string()));
    assert_eq!(extension_of("dir.d/file"), None);
}

#[test]
fn from_extension_known_names() {
    assert_eq!(ConfigFormat::from_extension("toml"), Some(ConfigFormat::Toml));
    assert_eq!(ConfigFormat::from_extension("yaml"), Some(ConfigFormat::Yaml));
    assert_eq!(ConfigFormat::from_extension("yml"), Some(ConfigFormat::Yaml));
    assert_eq!(ConfigFormat::from_extension("json"), Some(ConfigFormat::Json));
    assert_eq!(ConfigFormat::from_extension("TOML"), None);
    assert_eq!(ConfigFormat::from_extension("ini"), None);
}

#[test]
fn for_path_ignores_case() {
    assert_eq!(ConfigFormat::for_path("X.TOML").ok(), Some(ConfigFormat::Toml));
    assert_eq!(ConfigFormat::for_path("c.yml").ok(), Some(ConfigFormat::Yaml));
    assert_eq!(ConfigFormat::for_path("/etc/d/config.Json").ok(), Some(ConfigFormat::Json));
}

#[test]
fn for_path_unknown_format_is_config_error() {
    match ConfigFormat::for_path("settings.ini") {
        Err(RuntimeError::ConfigError(m)) => assert_eq!(m, "Unknown config file format: settings.ini"),
        other => panic!("unexpected: {:?}", other.ok()),
    }
    match ConfigFormat::for_path("config") {
        Err(RuntimeError::ConfigError(m)) => assert_eq!(m, "Unknown config file format: config"),
        other => panic!("unexpected: {:?}", other.ok()),
    }
}
