use sgit::release::{normalize_version_tag, parse_tag_name};

#[test]
fn finds_tag_in_payload() {
    let payload = "{\n  \"url\": \"https://host/releases/1\",\n  \"tag_name\": \"v1.2.3\",\n  \"name\": \"release\"\n}\n";
    assert_eq!(parse_tag_name(payload), Some("1.2.3".to_string()));
}

#[test]
fn tag_without_v_prefix_is_kept() {
    let payload = "  \"tag_name\": \"2.0.0\",\n";
    assert_eq!(parse_tag_name(payload), Some("2.0.0".to_string()));
}

#[test]
fn last_field_without_comma_parses() {
    let payload = "{\n\"tag_name\": \"v0.4.0\"\n}";
    assert_eq!(parse_tag_name(payload), Some("0.4.0".to_string()));
}

#[test]
fn missing_field_yields_nothing() {
    let payload = "{\n  \"name\": \"release\"\n}";
    assert_eq!(parse_tag_name(payload), None);
}

#[test]
fn first_matching_line_wins() {
    let payload = "\"tag_name\": \"v1.0.0\",\n\"tag_name\": \"v2.0.0\",\n";
    assert_eq!(parse_tag_name(payload), Some("1.0.0".to_string()));
}

#[test]
fn empty_payload_yields_nothing() {
    assert_eq!(parse_tag_name(""), None);
}

#[test]
fn installer_tag_gains_a_v_prefix() {
    assert_eq!(normalize_version_tag("1.2.3"), "v1.2.3".to_string());
    assert_eq!(normalize_version_tag("v2"), "v2".to_string());
    assert_eq!(normalize_version_tag(""), "v".to_string());
}
