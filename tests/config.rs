use diem::config::Config;
use diem::error::ConfigError;

#[test]
fn test_config_validation() {
    let mut config = Config::default();
    assert!(config.validate().is_ok());

    // Test invalid temp_path
    config.temp_path = "relative/path".to_string();
    assert!(config.validate().is_err());

    // Reset and test invalid bin_path
    config = Config::default();
    config.bin_path = "relative/path".to_string();
    assert!(config.validate().is_err());

    // Test empty repositories
    config = Config::default();
    config.repositories.clear();
    assert!(config.validate().is_err());
}

#[test]
fn test_repository_management() {
    let mut config = Config::default();

    // Test adding repository
    assert!(config
        .add_repository(
            "test".to_string(),
            "https://test-repo.example.com".to_string()
        )
        .is_ok());

    // Test adding duplicate repository
    assert!(config
        .add_repository(
            "test".to_string(),
            "https://another-repo.example.com".to_string()
        )
        .is_err());

    // Test removing repository
    assert!(config.remove_repository("test").is_ok());

    // Test removing non-existent repository
    assert!(config.remove_repository("nonexistent").is_err());

    // Test removing last repository
    assert!(config.remove_repository("default").is_err());
}

#[test]
fn removing_last_repository_changes_nothing() {
    let mut config = diem::config::config_with_dirs(None, None);
    assert!(matches!(config.remove_repository("default"), Err(ConfigError::ValidationError(_))));
    assert_eq!(config.repositories.len(), 1);
    assert_eq!(config.repositories[0].0, "default");
}

#[test]
fn config_defaults_without_directories() {
    let config = diem::config::config_with_dirs(None, None);
    assert_eq!(config.config_version, "1.0");
    assert_eq!(config.temp_path, "/tmp/rust-package-manager");
    assert_eq!(config.bin_path, "/usr/local/.local/bin");
    assert_eq!(config.repositories.len(), 1);
    assert_eq!(config.repositories[0].0, "default");
    assert_eq!(config.repositories[0].1.url, "https://default-repo.example.com");
    assert_eq!(config.repositories[0].1.priority, 100);
    assert!(config.validate().is_ok());
}

#[test]
fn config_defaults_under_given_directories() {
    let config = diem::config::config_with_dirs(Some("/home/u/.cache".to_string()), Some("/home/u".to_string()));
    assert_eq!(config.temp_path, "/home/u/.cache/rust-package-manager");
    assert_eq!(config.bin_path, "/home/u/.local/bin");
}

#[test]
fn config_rejects_bad_urls() {
    let mut config = diem::config::config_with_dirs(None, None);
    config.add_repository("ftp".to_string(), "ftp://example.com".to_string()).unwrap();
    assert!(matches!(config.validate(), Err(ConfigError::ValidationError(_))));
    let mut config = diem::config::config_with_dirs(None, None);
    config.add_repository("empty".to_string(), String::new()).unwrap();
    assert!(matches!(config.validate(), Err(ConfigError::ValidationError(_))));
    let mut config = diem::config::config_with_dirs(None, None);
    config.add_repository("plain".to_string(), "http://example.com".to_string()).unwrap();
    assert!(config.validate().is_ok());
}

#[test]
fn added_repository_is_enabled_with_default_priority() {
    let mut config = diem::config::config_with_dirs(None, None);
    config.add_repository("extra".to_string(), "https://x.example.com".to_string()).unwrap();
    assert_eq!(config.repositories.len(), 2);
    assert_eq!(config.repositories[1].0, "extra");
    assert!(config.repositories[1].1.enabled);
    assert_eq!(config.repositories[1].1.priority, 100);
}
