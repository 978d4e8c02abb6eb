use sgit::cache::{parse_last_check, render_last_check, time_since_check};

#[test]
fn plain_number_parses() {
    assert_eq!(parse_last_check("1700000000"), Some(1700000000));
}

#[test]
fn surrounding_whitespace_is_tolerated() {
    assert_eq!(parse_last_check("  1700000000\n"), Some(1700000000));
}

#[test]
fn garbage_reads_as_absent() {
    assert_eq!(parse_last_check(""), None);
    assert_eq!(parse_last_check("   "), None);
    assert_eq!(parse_last_check("abc"), None);
    assert_eq!(parse_last_check("12x"), None);
    assert_eq!(parse_last_check("-5"), None);
}

#[test]
fn overflowing_number_reads_as_absent() {
    assert_eq!(parse_last_check("99999999999999999999"), None);
}

#[test]
fn rendering_writes_plain_decimal() {
    assert_eq!(render_last_check(0), "0".to_string());
    assert_eq!(render_last_check(1700000000), "1700000000".to_string());
}

#[test]
fn written_timestamp_reads_back() {
    let stored = render_last_check(123456789);
    assert_eq!(parse_last_check(&stored), Some(123456789));
}

#[test]
fn elapsed_time_saturates_at_zero() {
    assert_eq!(time_since_check(100, 40), 60);
    assert_eq!(time_since_check(40, 100), 0);
}
