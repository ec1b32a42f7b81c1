//! Loading and rendering the project configuration.

use artisan_tools::config::{AtConfig, ConfigError, DEFAULT_CONFIG_TOML};

#[test]
fn test_load_from_toml_string() {
    let toml_str = r#"
[version]
link = ["Cargo.toml", "RELEASE"]

[version.extended]
raw = ["VERSION"]
"#;

    let config = AtConfig::from_toml_str(toml_str).unwrap();
    assert_eq!(config.version.link, vec!["Cargo.toml", "RELEASE"]);
    assert_eq!(config.version.extended.raw, vec!["VERSION"]);
}

#[test]
fn test_load_from_toml_string_version_table_only_errors() {
    let toml_str = r#"
[version]
link = ["Cargo.toml", "RELEASE"]
"#;

    let config = AtConfig::from_toml_str(toml_str).unwrap_err();
    assert_eq!(
        config.message(),
        "missing field `extended` for key `version`"
    );
}

#[test]
fn test_load_with_defaults() {
    let config = AtConfig::load_with_defaults(None).unwrap();
    assert!(config.version.link.is_empty());
    assert!(config.version.extended.raw.is_empty());
}

#[test]
fn load_with_defaults_overlays_file_contents() {
    let toml_str = "[version]\nlink = [\"RELEASE\"]\n";
    let config = AtConfig::load_with_defaults(Some(toml_str)).unwrap();
    assert_eq!(config.version.link, vec!["RELEASE"]);
    assert!(config.version.extended.raw.is_empty());
}

#[test]
fn missing_version_table_errors() {
    let err = AtConfig::from_toml_str("# nothing here\n").unwrap_err();
    assert!(matches!(err, ConfigError::MissingVersion));
    assert_eq!(err.message(), "missing field `version`");
}

#[test]
fn missing_link_errors() {
    let err = AtConfig::from_toml_str("[version]\n[version.extended]\nraw = []\n").unwrap_err();
    assert!(matches!(err, ConfigError::MissingLink));
    assert_eq!(err.message(), "missing field `link` for key `version`");
}

#[test]
fn missing_raw_errors() {
    let err = AtConfig::from_toml_str("[version]\nlink = []\n[version.extended]\n").unwrap_err();
    assert!(matches!(err, ConfigError::MissingRaw));
    assert_eq!(err.message(), "missing field `raw` for key `version.extended`");
}

#[test]
fn malformed_line_errors() {
    let err = AtConfig::from_toml_str("[version]\nlink is broken\n").unwrap_err();
    assert!(matches!(err, ConfigError::InvalidLine(_)));
    assert!(err.message().starts_with("invalid configuration line: "));
}

#[test]
fn malformed_array_errors() {
    let err = AtConfig::from_toml_str("[version]\nlink = [\"unclosed\n").unwrap_err();
    assert!(matches!(err, ConfigError::InvalidLine(_)));
}

#[test]
fn unknown_keys_and_tables_are_ignored() {
    let toml_str = "[other]\nstuff = \"x\"\n[version]\nlink = []\nextra = [\"y\"]\n[version.extended]\nraw = [\"VERSION\"]\n";
    let config = AtConfig::from_toml_str(toml_str).unwrap();
    assert!(config.version.link.is_empty());
    assert_eq!(config.version.extended.raw, vec!["VERSION"]);
}

#[test]
fn default_template_parses_to_default_lists() {
    let config = AtConfig::from_toml_str(AtConfig::default_config_template()).unwrap();
    assert!(config.version.link.is_empty());
    assert_eq!(config.version.extended.raw, vec!["VERSION"]);
    assert_eq!(AtConfig::default_config_template(), DEFAULT_CONFIG_TOML);
}

#[test]
fn to_toml_string_round_trips_through_the_loader() {
    let toml_str = "[version]\nlink = [\"pyproject.toml\"]\n\n[version.extended]\nraw = [\"VERSION\"]\n";
    let config = AtConfig::from_toml_str(toml_str).unwrap();
    let rendered = config.to_toml_string();
    assert_eq!(rendered, toml_str);
    let parsed = AtConfig::from_toml_str(&rendered).unwrap();
    assert_eq!(parsed.version.link, vec!["pyproject.toml"]);
    assert_eq!(parsed.version.extended.raw, vec!["VERSION"]);
}

#[test]
fn to_toml_string_round_trips_awkward_names() {
    let source = "[version]\nlink = [\"a b.toml\", \"x=y\", \"sub/dir file\"]\n\n[version.extended]\nraw = [\"VERSION\"]\n";
    let config = AtConfig::from_toml_str(source).unwrap();
    let rendered = config.to_toml_string();
    let parsed = AtConfig::from_toml_str(&rendered).unwrap();
    assert_eq!(parsed.version.link, vec!["a b.toml", "x=y", "sub/dir file"]);
    assert_eq!(parsed.version.extended.raw, vec!["VERSION"]);
}

#[test]
fn default_config_is_empty() {
    let config = AtConfig::default();
    assert!(config.version.link.is_empty());
    assert!(config.version.extended.raw.is_empty());
}
