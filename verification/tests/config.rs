use topiq_explorer::config::{
    build_config, consumer_config, KafkaConnection, SaslConfig, Ssl, TlsConfig,
};

fn plain() -> KafkaConnection {
    KafkaConnection {
        id: "c1".to_string(),
        brokers: vec!["b1:9092".to_string(), "b2:9092".to_string()],
        ssl: None,
        sasl: None,
    }
}

fn tls() -> TlsConfig {
    TlsConfig {
        ca: Some("CA".to_string()),
        cert: Some("CERT".to_string()),
        key: Some("KEY".to_string()),
        passphrase: Some("PASS".to_string()),
        reject_unauthorized: None,
    }
}

fn sasl(mechanism: &str) -> SaslConfig {
    SaslConfig {
        mechanism: mechanism.to_string(),
        username: "user".to_string(),
        password: "secret".to_string(),
    }
}

#[test]
fn plaintext_connection() {
    let c = build_config(&plain()).unwrap();
    assert_eq!(c.get("bootstrap.servers"), Some("b1:9092,b2:9092"));
    assert_eq!(c.get("client.id"), Some("topiq-explorer-c1"));
    assert_eq!(c.get("socket.timeout.ms"), Some("30000"));
    assert_eq!(c.get("security.protocol"), Some("plaintext"));
    assert_eq!(c.config_map().len(), 4);
}

#[test]
fn sasl_connection() {
    let c = build_config(&KafkaConnection { sasl: Some(sasl("scram-sha-256")), ..plain() }).unwrap();
    assert_eq!(c.get("security.protocol"), Some("sasl_plaintext"));
    assert_eq!(c.get("sasl.mechanism"), Some("SCRAM-SHA-256"));
    assert_eq!(c.get("sasl.username"), Some("user"));
    assert_eq!(c.get("sasl.password"), Some("secret"));
    assert_eq!(c.config_map().len(), 7);
}

#[test]
fn tls_connection() {
    let c = build_config(&KafkaConnection {
        ssl: Some(Ssl::Config(tls())),
        sasl: Some(sasl("PLAIN")),
        ..plain()
    })
    .unwrap();
    assert_eq!(c.get("security.protocol"), Some("sasl_ssl"));
    assert_eq!(c.get("ssl.ca.pem"), Some("CA"));
    assert_eq!(c.get("ssl.certificate.pem"), Some("CERT"));
    assert_eq!(c.get("ssl.key.pem"), Some("KEY"));
    assert_eq!(c.get("ssl.key.password"), Some("PASS"));
    assert_eq!(c.get("enable.ssl.certificate.verification"), None);
}

#[test]
fn verification_is_off_only_on_request() {
    for (reject, expected) in [(None, None), (Some(true), None), (Some(false), Some("false"))] {
        let ssl = Some(Ssl::Config(TlsConfig { reject_unauthorized: reject, ..tls() }));
        let c = build_config(&KafkaConnection { ssl, ..plain() }).unwrap();
        assert_eq!(c.get("enable.ssl.certificate.verification"), expected);
    }
}

#[test]
fn ssl_can_be_toggled() {
    for (on, expected) in [(true, "ssl"), (false, "plaintext")] {
        let c = build_config(&KafkaConnection { ssl: Some(Ssl::Toggle(on)), ..plain() }).unwrap();
        assert_eq!(c.get("security.protocol"), Some(expected));
        assert_eq!(c.get("ssl.ca.pem"), None);
    }
}

#[test]
fn missing_parts_of_tls_are_not_set() {
    let bare = TlsConfig {
        ca: None,
        cert: None,
        key: None,
        passphrase: None,
        reject_unauthorized: None,
    };
    let c = build_config(&KafkaConnection { ssl: Some(Ssl::Config(bare)), ..plain() }).unwrap();
    assert_eq!(c.get("security.protocol"), Some("ssl"));
    assert_eq!(c.config_map().len(), 4);
}

#[test]
fn brokers_are_required() {
    let e = build_config(&KafkaConnection { brokers: vec![], ..plain() }).unwrap_err();
    assert_eq!(e, "At least one broker is required");
    let both = KafkaConnection { brokers: vec![], sasl: Some(sasl("gssapi")), ..plain() };
    assert_eq!(build_config(&both).unwrap_err(), "At least one broker is required");
}

#[test]
fn mechanism_has_to_be_supported() {
    let e = build_config(&KafkaConnection { sasl: Some(sasl("GSSAPI")), ..plain() }).unwrap_err();
    assert_eq!(e, "Unsupported SASL mechanism: gssapi");
}

#[test]
fn consumer_has_a_group_of_its_own() {
    let c = build_config(&plain()).unwrap();
    let a = consumer_config(&c, 12, 3);
    assert_eq!(a.get("group.id"), Some("topiq-explorer-spike-12-3"));
    assert_eq!(a.get("enable.auto.commit"), Some("false"));
    assert_eq!(a.get("client.id"), Some("topiq-explorer-c1"));
    assert_eq!(c.get("group.id"), None);
    let b = consumer_config(&c, 1, 23);
    assert_ne!(a.get("group.id"), b.get("group.id"));
}

#[test]
fn secrets_stay_in_their_properties() {
    let secrets = ["sasl.username", "sasl.password", "ssl.key.pem", "ssl.key.password"];
    let connection = KafkaConnection {
        ssl: Some(Ssl::Config(tls())),
        sasl: Some(sasl("plain")),
        ..plain()
    };
    let other = KafkaConnection {
        ssl: Some(Ssl::Config(TlsConfig {
            key: Some("KEY2".to_string()),
            passphrase: None,
            ..tls()
        })),
        sasl: Some(SaslConfig {
            username: "user2".to_string(),
            password: "secret2".to_string(),
            ..sasl("plain")
        }),
        ..plain()
    };
    let open = |c: &KafkaConnection| {
        let config = build_config(c).unwrap();
        let mut settings: Vec<(String, String)> = config
            .config_map()
            .iter()
            .filter(|(name, _)| !secrets.contains(*name))
            .map(|(name, value)| (name.to_string(), value.to_string()))
            .collect();
        settings.sort();
        settings
    };
    assert_eq!(open(&connection), open(&other));
    assert_eq!(build_config(&other).unwrap().get("sasl.password"), Some("secret2"));

    let refused = |username: &str| {
        let sasl = Some(SaslConfig { username: username.to_string(), ..sasl("gssapi") });
        build_config(&KafkaConnection { sasl, ..plain() }).unwrap_err()
    };
    assert_eq!(refused("a"), refused("b"));
}
