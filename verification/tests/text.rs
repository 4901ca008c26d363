use topiq_explorer::text::{
    comma_join, integer_text, parse_numeral, truncate, unsigned_text, TRUNCATED_SUFFIX,
};

#[test]
fn truncate_passes_short_and_none() {
    assert_eq!(truncate(Some("hello"), 10).as_deref(), Some("hello"));
    assert_eq!(truncate(None, 10), None);
    assert_eq!(truncate(Some(""), 10).as_deref(), Some(""));
}

#[test]
fn truncate_cuts_long_strings_and_marks_them() {
    assert_eq!(truncate(Some("abcdef"), 3).unwrap(), format!("abc{TRUNCATED_SUFFIX}"));
    // boundary: exactly `max` chars is NOT truncated
    assert_eq!(truncate(Some("abc"), 3).as_deref(), Some("abc"));
}

#[test]
fn truncate_counts_characters_not_bytes() {
    assert_eq!(truncate(Some("äöü"), 3).as_deref(), Some("äöü"));
    assert_eq!(truncate(Some("äöüß"), 3).unwrap(), "äöü\n...[truncated]");
    assert_eq!(truncate(Some("abc"), 0).unwrap(), "\n...[truncated]");
}

#[test]
fn truncation_bounds_size() {
    let long = "x".repeat(500);
    let cut = truncate(Some(&long), 100).unwrap();
    assert_eq!(cut.chars().count(), 100 + TRUNCATED_SUFFIX.chars().count());
    assert!(cut.starts_with(&long[..100]));
}

#[test]
fn numerals_read_back() {
    for n in [0u64, 7, 10, 99, 100, 1_234_567_890, u64::MAX] {
        let text = unsigned_text(n as u128);
        assert_eq!(text, n.to_string());
        assert_eq!(parse_numeral(&text), Some(n));
    }
    assert_eq!(unsigned_text(u128::MAX), u128::MAX.to_string());
}

#[test]
fn signed_numerals() {
    for n in [0i64, 5, -5, 10, -10, i64::MAX, i64::MIN] {
        assert_eq!(integer_text(n), n.to_string());
    }
}

#[test]
fn only_digits_are_numerals() {
    assert_eq!(parse_numeral(""), None);
    assert_eq!(parse_numeral("+5"), None);
    assert_eq!(parse_numeral("-5"), None);
    assert_eq!(parse_numeral(" 5"), None);
    assert_eq!(parse_numeral("5x"), None);
    assert_eq!(parse_numeral("٣"), None);
    assert_eq!(parse_numeral("007"), Some(7));
    assert_eq!(parse_numeral("18446744073709551615"), Some(u64::MAX));
    assert_eq!(parse_numeral("18446744073709551616"), None);
    assert_eq!(parse_numeral("99999999999999999999999"), None);
}

#[test]
fn commas_between_neighbours() {
    let list = |parts: &[&str]| parts.iter().map(|p| p.to_string()).collect::<Vec<_>>();
    assert_eq!(comma_join(&list(&[])), "");
    assert_eq!(comma_join(&list(&["a"])), "a");
    assert_eq!(comma_join(&list(&["a", "", "c"])), "a,,c");
}
