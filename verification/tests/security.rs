use topiq_explorer::security::{sasl_mechanism, security_protocol, SecurityProtocol};

#[test]
fn security_protocol_matrix() {
    assert_eq!(security_protocol(false, false).as_librdkafka(), "plaintext");
    assert_eq!(security_protocol(true, false).as_librdkafka(), "ssl");
    assert_eq!(security_protocol(false, true).as_librdkafka(), "sasl_plaintext");
    assert_eq!(security_protocol(true, true).as_librdkafka(), "sasl_ssl");
}

#[test]
fn sasl_mechanism_maps_and_rejects() {
    assert_eq!(sasl_mechanism("plain").unwrap(), "PLAIN");
    assert_eq!(sasl_mechanism("SCRAM-SHA-256").unwrap(), "SCRAM-SHA-256");
    assert_eq!(sasl_mechanism("scram-sha-512").unwrap(), "SCRAM-SHA-512");
    assert!(sasl_mechanism("gssapi").is_err());
}

#[test]
fn mechanism_ignores_case_and_is_stable() {
    assert_eq!(sasl_mechanism("PlAiN").unwrap(), "PLAIN");
    for name in ["PLAIN", "SCRAM-SHA-256", "SCRAM-SHA-512"] {
        assert_eq!(sasl_mechanism(name).unwrap(), name);
    }
}

#[test]
fn unsupported_mechanism_is_named_in_lower_case() {
    assert_eq!(
        sasl_mechanism("GSSAPI").unwrap_err(),
        "Unsupported SASL mechanism: gssapi"
    );
    assert_eq!(sasl_mechanism("").unwrap_err(), "Unsupported SASL mechanism: ");
    assert_eq!(sasl_mechanism("plaiN ").unwrap_err(), "Unsupported SASL mechanism: plain ");
    assert_eq!(sasl_mechanism("ÄPLAIN").unwrap_err(), "Unsupported SASL mechanism: Äplain");
}

#[test]
fn protocols_differ() {
    assert_eq!(security_protocol(true, true), SecurityProtocol::SaslSsl);
    assert_ne!(security_protocol(true, false), security_protocol(false, true));
}
