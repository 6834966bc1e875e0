use myrust::config::{format_from_extension, Error, EtcdConfig, Format};
use myrust::util::config as env_config;

#[test]
fn extension_maps_to_format() {
    assert!(matches!(format_from_extension("json"), Ok(Format::Json)));
    assert!(matches!(format_from_extension("yaml"), Ok(Format::Yaml)));
    assert!(matches!(format_from_extension("toml"), Ok(Format::Toml)));
    match format_from_extension("ini") {
        Err(Error::UnsupportedFormat(s)) => assert_eq!(s, "ini"),
        _ => panic!("expected an unsupported format error"),
    }
}

#[test]
fn etcd_config_without_auth() {
    let c = EtcdConfig::from_raw("http://etcd:2379".to_string(), None, None, None).unwrap();
    assert_eq!(c.endpoint().as_str(), "http://etcd:2379");
    assert!(!c.enable_auth());
    assert!(c.user().is_none());
    assert!(c.password().is_none());
}

#[test]
fn etcd_config_auth_flag_spellings() {
    for off in ["false", "FALSE", "False", "no", "No", "NO", "0"] {
        let c = EtcdConfig::from_raw(
            "e".to_string(),
            Some(off.to_string()),
            None,
            None,
        )
        .unwrap();
        assert!(!c.enable_auth(), "{off} should disable auth");
    }
    let on = EtcdConfig::from_raw(
        "e".to_string(),
        Some("true".to_string()),
        Some("u".to_string()),
        Some("p".to_string()),
    )
    .unwrap();
    assert!(on.enable_auth());
    assert_eq!(on.user().unwrap().as_str(), "u");
    assert_eq!(on.password().unwrap().as_str(), "p");
}

#[test]
fn etcd_config_missing_credentials() {
    match EtcdConfig::from_raw("e".to_string(), Some("yes".to_string()), None, None) {
        Err(Error::MissingValue(v)) => assert_eq!(v, "ETCD_USER"),
        _ => panic!("expected a missing value error"),
    }
    match EtcdConfig::from_raw(
        "e".to_string(),
        Some("yes".to_string()),
        Some("u".to_string()),
        None,
    ) {
        Err(Error::MissingValue(v)) => assert_eq!(v, "ETCD_PASSWORD"),
        _ => panic!("expected a missing value error"),
    }
}

#[test]
fn env_variant_behaves_alike() {
    let c = env_config::EtcdConfig::from_raw(
        "http://etcd:2379".to_string(),
        Some("1".to_string()),
        Some("root".to_string()),
        Some("secret".to_string()),
    )
    .unwrap();
    assert!(c.enable_auth());
    assert_eq!(c.endpoint().as_str(), "http://etcd:2379");
    assert!(matches!(
        env_config::format_from_extension("yaml"),
        Ok(env_config::Format::Yaml)
    ));
}
