use topiq_explorer::redact::sanitize_error;

#[test]
fn sanitize_strips_ip_host_sasl_and_stack() {
    assert_eq!(
        sanitize_error("connect ECONNREFUSED 10.0.0.5:9092"),
        "connect ECONNREFUSED <redacted>"
    );
    assert_eq!(sanitize_error("broker kafka-1.example.com:9093 down"), "broker <redacted> down");
    assert_eq!(sanitize_error("SASL SCRAM authentication failed"), "SASL authentication failed");
    assert_eq!(sanitize_error("boom\n    at foo (bar.js:1)"), "boom");
}

#[test]
fn clean_text_is_left_alone() {
    for text in ["", "Local: Timed out", "topic orders: no leader", "price is 3.14"] {
        assert_eq!(sanitize_error(text), text);
    }
}

#[test]
fn every_match_is_taken_out() {
    assert_eq!(
        sanitize_error("1.2.3.4 and 5.6.7.8:90 and a.b.c:1234"),
        "<redacted> and <redacted> and <redacted>"
    );
    assert_eq!(
        sanitize_error("e\n  at a (x.js:1)\n  at b (y.js:2)\nrest"),
        "e\nrest"
    );
    assert_eq!(
        sanitize_error("sasl Plain AUTHENTICATION"),
        "SASL authentication"
    );
}

#[test]
fn host_without_a_port_stays() {
    assert_eq!(sanitize_error("kafka-1.example.com down"), "kafka-1.example.com down");
    assert_eq!(sanitize_error("localhost down"), "localhost down");
}

#[test]
fn host_without_a_dot_is_taken_out() {
    assert_eq!(sanitize_error("connect to localhost:9092 failed"), "connect to <redacted> failed");
    assert_eq!(sanitize_error("kafka-1:19092/1: down"), "<redacted>/1: down");
    assert_eq!(sanitize_error("0-1a:9092 and 9.b-2:9093"), "<redacted> and <redacted>");
}

#[test]
fn clock_time_stays() {
    for text in ["timed out at 12:30:05", "12:30", "2024-01-02 12:30", "ratio 3:10"] {
        assert_eq!(sanitize_error(text), text);
    }
}

#[test]
fn mechanism_with_hyphens_is_taken_out() {
    for mechanism in ["PLAIN", "SCRAM-SHA-256", "SCRAM-SHA-512"] {
        assert_eq!(
            sanitize_error(&format!("SASL {mechanism} authentication failed")),
            "SASL authentication failed"
        );
    }
}
