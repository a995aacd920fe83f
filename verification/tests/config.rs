use imgproc::config::{AppConfig, ConfigVar};

fn s(v: &str) -> Option<String> {
    Some(v.to_string())
}

#[test]
fn complete_environment_gives_configuration() {
    let c = AppConfig::from_values(s("k"), s("u"), s("postgres://db"), s("0.0.0.0"), s("8080"), s("/tmp/w"))
        .unwrap();
    assert_eq!(c.vmbfcoreapi_imgproc_mkey, "k");
    assert_eq!(c.vmbfcoreapi_imgproc_muid, "u");
    assert_eq!(c.database_url, "postgres://db");
    assert_eq!(c.host, "0.0.0.0");
    assert_eq!(c.port, "8080");
    assert_eq!(c.working_dir, "/tmp/w");
    assert_eq!(c.bind_address(), "0.0.0.0:8080");
}

#[test]
fn first_missing_variable_is_reported() {
    assert_eq!(AppConfig::from_values(None, None, None, None, None, None).err(), Some(ConfigVar::Mkey));
    assert_eq!(AppConfig::from_values(s("k"), None, s("d"), None, s("p"), s("w")).err(), Some(ConfigVar::Muid));
    assert_eq!(AppConfig::from_values(s("k"), s("u"), None, s("h"), s("p"), s("w")).err(), Some(ConfigVar::DatabaseUrl));
    assert_eq!(AppConfig::from_values(s("k"), s("u"), s("d"), None, s("p"), s("w")).err(), Some(ConfigVar::Host));
    assert_eq!(AppConfig::from_values(s("k"), s("u"), s("d"), s("h"), None, None).err(), Some(ConfigVar::Port));
    assert_eq!(AppConfig::from_values(s("k"), s("u"), s("d"), s("h"), s("p"), None).err(), Some(ConfigVar::WorkingDir));
}

#[test]
fn variables_have_their_environment_names() {
    assert_eq!(ConfigVar::Mkey.name(), "VMBFCOREAPI_IMGPROC_MKEY");
    assert_eq!(ConfigVar::Muid.name(), "VMBFCOREAPI_IMGPROC_MUID");
    assert_eq!(ConfigVar::DatabaseUrl.name(), "DATABASE_URL");
    assert_eq!(ConfigVar::Host.name(), "HOST");
    assert_eq!(ConfigVar::Port.name(), "PORT");
    assert_eq!(ConfigVar::WorkingDir.name(), "WORKING_DIR");
}
