use plexspaces_services::service_config::lock_db_url;
use plexspaces_services::service_config::{
    discover_has_more, discover_page_size, is_auth_disabled, optional_code, optional_filter,
    str_eq_ignore_ascii_case, validate_channel_config, BackendConfig, ChannelProvider,
};

#[test]
fn auth_switch() {
    assert!(is_auth_disabled(Some("1"), None));
    assert!(is_auth_disabled(Some("TRUE"), Some(false)));
    assert!(is_auth_disabled(Some("Yes"), None));
    assert!(!is_auth_disabled(Some("no"), None));
    assert!(!is_auth_disabled(Some("0"), Some(false)));
    assert!(is_auth_disabled(Some("0"), Some(true)));
    assert!(is_auth_disabled(None, Some(true)));
    assert!(!is_auth_disabled(None, None));
}

#[test]
fn ascii_case_comparison() {
    assert!(str_eq_ignore_ascii_case("TrUe", "true"));
    assert!(!str_eq_ignore_ascii_case("true", "tru"));
    assert!(!str_eq_ignore_ascii_case("é", "É"));
    assert!(str_eq_ignore_ascii_case("", ""));
}

#[test]
fn channel_configs_are_validated() {
    assert!(validate_channel_config(ChannelProvider::InMemory, &None).is_ok());
    assert_eq!(
        validate_channel_config(ChannelProvider::Kafka, &None).unwrap_err(),
        "Kafka provider requires kafka config"
    );
    assert_eq!(
        validate_channel_config(ChannelProvider::Kafka, &Some(BackendConfig::Kafka { brokers: vec![] })).unwrap_err(),
        "Kafka provider requires brokers configuration"
    );
    assert!(validate_channel_config(
        ChannelProvider::Kafka,
        &Some(BackendConfig::Kafka { brokers: vec!["b:9092".to_string()] })
    )
    .is_ok());
    assert_eq!(
        validate_channel_config(ChannelProvider::Nats, &Some(BackendConfig::Other)).unwrap_err(),
        "NATS provider requires nats config"
    );
    assert_eq!(
        validate_channel_config(ChannelProvider::Nats, &Some(BackendConfig::Nats { servers: vec![] })).unwrap_err(),
        "NATS provider requires servers configuration"
    );
    assert_eq!(
        validate_channel_config(ChannelProvider::Sqs, &Some(BackendConfig::Sqs { region: String::new() })).unwrap_err(),
        "SQS provider requires region configuration"
    );
    assert_eq!(
        validate_channel_config(ChannelProvider::Redis, &Some(BackendConfig::Redis { url: String::new() })).unwrap_err(),
        "Redis provider requires url configuration"
    );
    assert_eq!(
        validate_channel_config(ChannelProvider::Redis, &None).unwrap_err(),
        "Redis provider requires redis config"
    );
    assert!(validate_channel_config(ChannelProvider::Postgres, &Some(BackendConfig::Other)).is_ok());
}

#[test]
fn discovery_bounds() {
    assert_eq!(discover_page_size(0), 100);
    assert_eq!(discover_page_size(-4), 100);
    assert_eq!(discover_page_size(20), 20);
    assert_eq!(discover_page_size(5000), 1000);
    assert!(discover_has_more(20, 20));
    assert!(!discover_has_more(19, 20));
    assert_eq!(optional_filter(String::new()), None);
    assert_eq!(optional_filter("x".to_string()), Some("x".to_string()));
    assert_eq!(optional_code(0, true), None);
    assert_eq!(optional_code(3, true), Some(3));
    assert_eq!(optional_code(999, false), None);
}

#[test]
fn lock_managers_use_the_shared_database_or_a_file_per_node() {
    assert_eq!(lock_db_url(Some("sqlite://shared.db?mode=rwc"), "n1"), "sqlite://shared.db?mode=rwc");
    assert_eq!(
        lock_db_url(None, "node@host:9000/a\\b"),
        "sqlite:///tmp/plexspaces-node-host-9000-a-b.db?mode=rwc"
    );
}
