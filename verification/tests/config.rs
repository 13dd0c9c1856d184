use ipdetect::config::{effectiveRefreshSecs, Config, StoredConfig, MIN_REFRESH_SECS};

#[test]
fn default_is_valid() {
    let c = Config::default();
    assert_eq!(c.refresh_secs, MIN_REFRESH_SECS);
    assert!(c.proxy_override.is_empty());
}

#[test]
#[allow(non_snake_case)]
fn refreshIntervalHasFiveMinuteMinimum() {
    assert_eq!(effectiveRefreshSecs(5), 300);
    assert_eq!(effectiveRefreshSecs(600), 600);
}

#[test]
fn missing_settings_take_their_defaults() {
    let config = Config::load(Some(StoredConfig {
        proxy_override: Some("127.0.0.1:1".to_string()),
        refresh_secs: None,
        probe_url: None,
    }));
    assert_eq!(config.proxy_override, "127.0.0.1:1");
    assert_eq!(config.refresh_secs, 300);
    assert_eq!(config.probe_url, "");
    let config = Config::load(None);
    assert_eq!(config.proxy_override, "");
    assert_eq!(config.refresh_secs, 300);
}

#[test]
fn saved_settings_are_loaded_again() {
    let config = Config {
        proxy_override: "socks5://h:1".to_string(),
        refresh_secs: 5,
        probe_url: "https://example.org".to_string(),
    };
    let again = Config::load(Some(config.save()));
    assert_eq!(again.proxy_override, config.proxy_override);
    assert_eq!(again.refresh_secs, config.refresh_secs);
    assert_eq!(again.probe_url, config.probe_url);
}

#[test]
fn configuration_file_lies_in_the_application_data() {
    assert_eq!(
        Config::config_path(Some("C:\\Data".to_string())),
        vec!["C:\\Data", "ipDetect", "config.toml"]
    );
    assert_eq!(
        Config::config_path(None),
        vec![".", "ipDetect", "config.toml"]
    );
}

#[test]
fn interval_at_its_bounds() {
    assert_eq!(effectiveRefreshSecs(0), 300);
    assert_eq!(effectiveRefreshSecs(299), 300);
    assert_eq!(effectiveRefreshSecs(300), 300);
    assert_eq!(effectiveRefreshSecs(u64::MAX), u64::MAX);
}

fn document(stored: &StoredConfig) -> toml::Table {
    let mut table = toml::Table::new();
    if let Some(text) = &stored.proxy_override {
        table.insert("proxy_override".to_string(), toml::Value::String(text.clone()));
    }
    if let Some(secs) = stored.refresh_secs {
        table.insert("refresh_secs".to_string(), toml::Value::Integer(secs as i64));
    }
    if let Some(text) = &stored.probe_url {
        table.insert("probe_url".to_string(), toml::Value::String(text.clone()));
    }
    table
}

fn stored(table: &toml::Table) -> StoredConfig {
    let text = |name: &str| table.get(name).and_then(|value| value.as_str()).map(String::from);
    StoredConfig {
        proxy_override: text("proxy_override"),
        refresh_secs: table
            .get("refresh_secs")
            .and_then(|value| value.as_integer())
            .map(|secs| secs as u64),
        probe_url: text("probe_url"),
    }
}

#[test]
fn roundtrip_toml() {
    let c = Config::default();
    let s = toml::to_string_pretty(&document(&c.save())).unwrap();
    let table: toml::Table = toml::from_str(&s).unwrap();
    let back = Config::load(Some(stored(&table)));
    assert_eq!(back.refresh_secs, c.refresh_secs);
    assert_eq!(back.proxy_override, c.proxy_override);
    assert_eq!(back.probe_url, c.probe_url);
}

/// The settings of the plugin and nothing else are written.
#[test]
#[allow(non_snake_case)]
fn serializedConfigContainsOnlyPluginSettings() {
    let serialized = toml::to_string_pretty(&document(&Config::default().save())).unwrap();

    assert!(serialized.contains("proxy_override"));
    assert!(serialized.contains("refresh_secs"));
    assert!(serialized.contains("probe_url"));
    assert!(!serialized.contains("font_family"));
    assert!(!serialized.contains("background_color"));
    assert!(!serialized.contains("x_offset"));
    assert!(!serialized.contains("autostart"));
}
