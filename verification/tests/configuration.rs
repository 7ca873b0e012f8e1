use zero2prod::configuration::{
    decode_settings, env_overrides, merge_sources, parse_bool, resolve_environment,
    resolve_settings, ConfigError, Entry, Environment, SslMode,
};
use zero2prod::text::parse_u16;

fn entry(key: &str, value: &str) -> Entry {
    Entry { key: key.to_string(), value: value.to_string() }
}

fn full_source() -> Vec<Entry> {
    vec![
        entry("database.user", "postgres"),
        entry("database.password", "password"),
        entry("database.port", "5432"),
        entry("database.host", "127.0.0.1"),
        entry("database.name", "newsletter"),
        entry("database.require_ssl", "false"),
        entry("application.port", "8000"),
        entry("application.host", "0.0.0.0"),
    ]
}

#[test]
fn environment_as_str_names_the_profiles() {
    assert_eq!(Environment::Local.as_str(), "local");
    assert_eq!(Environment::Production.as_str(), "production");
}

#[test]
fn environment_try_from_ignores_ascii_case() {
    assert_eq!(Environment::try_from("local").unwrap(), Environment::Local);
    assert_eq!(Environment::try_from("LOCAL").unwrap(), Environment::Local);
    assert_eq!(Environment::try_from("Production").unwrap(), Environment::Production);
    assert!(matches!(
        Environment::try_from("staging"),
        Err(ConfigError::UnsupportedEnvironment)
    ));
}

#[test]
fn unset_environment_variable_means_local() {
    assert_eq!(resolve_environment(&None).unwrap(), Environment::Local);
}

#[test]
fn production_environment_variable_means_production() {
    let value = Some("production".to_string());
    assert_eq!(resolve_environment(&value).unwrap(), Environment::Production);
}

#[test]
fn unknown_environment_variable_is_refused() {
    let value = Some("staging".to_string());
    assert!(matches!(
        resolve_environment(&value),
        Err(ConfigError::UnsupportedEnvironment)
    ));
}

#[test]
fn decode_settings_reads_every_field() {
    let settings = decode_settings(&full_source()).unwrap();
    assert_eq!(settings.database.user, "postgres");
    assert_eq!(settings.database.password.expose_secret(), "password");
    assert_eq!(settings.database.port, 5432);
    assert_eq!(settings.database.host, "127.0.0.1");
    assert_eq!(settings.database.name, "newsletter");
    assert!(!settings.database.require_ssl);
    assert_eq!(settings.application.port, 8000);
    assert_eq!(settings.application.host, "0.0.0.0");
}

#[test]
fn decode_settings_reports_the_missing_field() {
    let entries: Vec<Entry> = full_source()
        .into_iter()
        .filter(|e| e.key != "database.host")
        .collect();
    let error = match decode_settings(&entries) {
        Err(e) => e,
        Ok(_) => panic!("decoding succeeded without database.host"),
    };
    assert!(matches!(error, ConfigError::MissingField(p) if p == "database.host"));
}

#[test]
fn decode_settings_reports_an_unparsable_port() {
    let mut entries = full_source();
    entries.push(entry("application.port", "eighty"));
    let error = match decode_settings(&entries) {
        Err(e) => e,
        Ok(_) => panic!("decoding succeeded with an unparsable port"),
    };
    assert!(matches!(error, ConfigError::InvalidValue(p) if p == "application.port"));
}

#[test]
fn later_sources_override_earlier_ones() {
    let overlay = vec![entry("database.name", "newsletter_test"), entry(
        "application.port",
        "0",
    )];
    let settings = resolve_settings(&vec![full_source(), overlay]).unwrap();
    assert_eq!(settings.database.name, "newsletter_test");
    assert_eq!(settings.application.port, 0);
    assert_eq!(settings.database.user, "postgres");
}

#[test]
fn merge_sources_keeps_order() {
    let merged = merge_sources(&vec![
        vec![entry("a", "1")],
        vec![entry("b", "2"), entry("a", "3")],
    ]);
    assert_eq!(merged.len(), 3);
    assert_eq!(merged[0].key, "a");
    assert_eq!(merged[0].value, "1");
    assert_eq!(merged[2].value, "3");
}

#[test]
fn env_overrides_rewrites_prefixed_variables() {
    let vars = vec![
        entry("APP_DATABASE__PORT", "5433"),
        entry("PATH", "/usr/bin"),
        entry("APP_APPLICATION__HOST", "10.0.0.1"),
        entry("APPLES", "ignored"),
    ];
    let overrides = env_overrides(&vars);
    assert_eq!(overrides.len(), 2);
    assert_eq!(overrides[0].key, "database.port");
    assert_eq!(overrides[0].value, "5433");
    assert_eq!(overrides[1].key, "application.host");
    assert_eq!(overrides[1].value, "10.0.0.1");
}

#[test]
fn env_overrides_take_highest_precedence() {
    let vars = vec![entry("APP_DATABASE__REQUIRE_SSL", "true")];
    let sources = vec![full_source(), env_overrides(&vars)];
    let settings = resolve_settings(&sources).unwrap();
    assert!(settings.database.require_ssl);
}

#[test]
fn connection_descriptors_carry_the_settings() {
    let mut settings = decode_settings(&full_source()).unwrap();
    let admin = settings.database.without_db();
    assert_eq!(admin.host, "127.0.0.1");
    assert_eq!(admin.port, 5432);
    assert_eq!(admin.username, "postgres");
    assert_eq!(admin.password.expose_secret(), "password");
    assert!(admin.database.is_none());
    assert_eq!(admin.ssl_mode, SslMode::Prefer);

    settings.database.require_ssl = true;
    let full = settings.database.with_db();
    assert_eq!(full.database.as_deref(), Some("newsletter"));
    assert_eq!(full.ssl_mode, SslMode::Require);
}

#[test]
fn parse_u16_reads_decimal_ports() {
    assert_eq!(parse_u16("8000"), Some(8000));
    assert_eq!(parse_u16("0"), Some(0));
    assert_eq!(parse_u16("+123"), Some(123));
    assert_eq!(parse_u16("65535"), Some(65535));
    assert_eq!(parse_u16("65536"), None);
    assert_eq!(parse_u16(""), None);
    assert_eq!(parse_u16("+"), None);
    assert_eq!(parse_u16("80a"), None);
    assert_eq!(parse_u16("-1"), None);
}

#[test]
fn parse_bool_reads_exactly_true_and_false() {
    assert_eq!(parse_bool("true"), Some(true));
    assert_eq!(parse_bool("false"), Some(false));
    assert_eq!(parse_bool("True"), None);
    assert_eq!(parse_bool(""), None);
}
