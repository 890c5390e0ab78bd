use graph_rank::config::{connection_of, parse_config, ConfigError, DbConfig};

const SETTINGS: &str = "database:\n  connection:\n    uri: bolt://localhost:7687\n    user: neo4j\n    password: secret\n";

#[test]
fn create_keeps_the_three_settings() {
    let config = DbConfig::create("bolt://host:7687", "admin", "hunter2");
    assert_eq!(config.uri(), "bolt://host:7687");
    assert_eq!(config.user(), "admin");
    assert_eq!(config.password(), "hunter2");
}

#[test]
fn create_keeps_empty_settings() {
    let config = DbConfig::create("", "", "");
    assert_eq!(config.uri(), "");
    assert_eq!(config.user(), "");
    assert_eq!(config.password(), "");
}

#[test]
fn settings_are_read_from_a_document() {
    let config = parse_config(SETTINGS).unwrap();
    assert_eq!(config.uri(), "bolt://localhost:7687");
    assert_eq!(config.user(), "neo4j");
    assert_eq!(config.password(), "secret");
}

#[test]
fn other_entries_of_the_document_are_passed_over() {
    let text = "other: 1\ndatabase:\n  engine: graph\n  connection:\n    password: p\n    pool: 7687\n    user: u\n    uri: x\n";
    let config = parse_config(text).unwrap();
    assert_eq!(config.uri(), "x");
    assert_eq!(config.user(), "u");
    assert_eq!(config.password(), "p");
}

#[test]
fn a_text_that_is_no_document_is_malformed() {
    assert_eq!(parse_config("database: [1, 2").err(), Some(ConfigError::Malformed));
}

#[test]
fn a_document_without_the_database_entry_lacks_the_settings() {
    assert_eq!(parse_config("connection:\n  uri: x\n").err(), Some(ConfigError::Missing));
    assert_eq!(parse_config("").err(), Some(ConfigError::Missing));
    assert_eq!(parse_config("database: 3\n").err(), Some(ConfigError::Missing));
}

#[test]
fn a_document_without_the_connection_entry_lacks_the_settings() {
    assert_eq!(parse_config("database:\n  uri: x\n").err(), Some(ConfigError::Missing));
}

#[test]
fn a_document_without_one_setting_lacks_the_settings() {
    let text = "database:\n  connection:\n    uri: x\n    user: u\n";
    assert_eq!(parse_config(text).err(), Some(ConfigError::Missing));
}

#[test]
fn a_setting_that_is_no_text_is_missing() {
    let text = "database:\n  connection:\n    uri: x\n    user: u\n    password: 12345\n";
    assert_eq!(parse_config(text).err(), Some(ConfigError::Missing));
}

#[test]
fn settings_are_taken_from_a_parsed_value() {
    let document: serde_yaml::Value = serde_yaml::from_str(SETTINGS).unwrap();
    let config = connection_of(&document).unwrap();
    assert_eq!(config.uri(), "bolt://localhost:7687");
    assert_eq!(config.user(), "neo4j");
    assert_eq!(config.password(), "secret");
    let other: serde_yaml::Value = serde_yaml::from_str("database: {}").unwrap();
    assert!(connection_of(&other).is_none());
}
