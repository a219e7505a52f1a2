use content_paulmcbride_com::config::{
    env_or, optional_env, parse_port, required_env, value_or, AppConfig, ConfigError,
    EnvConfigError, EnvValue, PortError,
};

fn present(v: &str) -> EnvValue {
    EnvValue::Present(v.to_string())
}

#[test]
fn uses_defaults_when_variables_are_unset() {
    let config = AppConfig::from_env(EnvValue::NotPresent, EnvValue::NotPresent, present(""))
        .expect("defaults apply");
    assert_eq!(config.port, 8000);
    assert_eq!(config.content_dir, "content");
    assert_eq!(config.public_dir, "public");
}

#[test]
fn reads_set_variables() {
    let config = AppConfig::from_env(present("+8080"), present("/srv/content"), present("/srv/public"))
        .expect("values are valid");
    assert_eq!(config.port, 8080);
    assert_eq!(config.content_dir, "/srv/content");
    assert_eq!(config.public_dir, "/srv/public");
}

#[test]
fn invalid_port_fails_startup() {
    let error = AppConfig::from_env(present("80a"), EnvValue::NotPresent, EnvValue::NotPresent)
        .expect_err("port is invalid");
    assert!(matches!(error, ConfigError::InvalidPort { source: PortError::InvalidDigit, .. }));
    assert_eq!(error.message(), "invalid PORT value '80a': invalid digit found in string");
}

#[test]
fn parses_ports_as_u16() {
    assert_eq!(parse_port("65535"), Ok(65535));
    assert_eq!(parse_port("65536"), Err(PortError::PosOverflow));
    assert_eq!(parse_port(""), Err(PortError::Empty));
    assert_eq!(parse_port("-1"), Err(PortError::InvalidDigit));
    assert_eq!(parse_port("+"), Err(PortError::InvalidDigit));
    assert_eq!(parse_port("007"), Ok(7));
}

#[test]
fn unreadable_variable_is_an_error() {
    let error = AppConfig::from_env(EnvValue::NotPresent, EnvValue::Unreadable("not unicode".to_string()), EnvValue::NotPresent)
        .expect_err("content dir is unreadable");
    assert_eq!(
        error.message(),
        "failed to read CONTENT_DIR environment variable: not unicode"
    );
}

#[test]
fn reads_single_variables() {
    assert_eq!(required_env("X", present("v")).expect("set"), "v");
    assert!(matches!(required_env("X", present("")), Err(EnvConfigError::MissingEnv { name: "X" })));
    assert_eq!(optional_env("X", present("")).expect("readable"), None);
    assert_eq!(env_or("X", EnvValue::NotPresent, "d").expect("readable"), "d");
    assert_eq!(value_or(present(""), "d"), "");
    assert_eq!(value_or(EnvValue::Unreadable("e".to_string()), "d"), "d");
    assert_eq!(
        EnvConfigError::MissingEnv { name: "X" }.message(),
        "missing X environment variable"
    );
    assert!(present("").is_present());
    assert!(!EnvValue::NotPresent.is_present());
}
