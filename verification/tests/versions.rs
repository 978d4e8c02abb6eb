use sgit::version_is_newer;

#[test]
fn patch_difference_decides() {
    assert!(version_is_newer("1.2.0", "1.1.9"));
}

#[test]
fn missing_positions_compare_as_zero() {
    assert!(!version_is_newer("1.0", "1.0.0"));
    assert!(!version_is_newer("1.0.0", "1.0"));
}

#[test]
fn shorter_but_larger_wins() {
    assert!(version_is_newer("2", "1.9.9"));
}

#[test]
fn malformed_segment_is_dropped_not_zeroed() {
    // "1.a.0" compares as "1.0", which equals "1.0.0" position by position.
    assert!(!version_is_newer("1.a.0", "1.0.0"));
    // The drop shifts later segments: "1.a.1" compares as "1.1".
    assert!(version_is_newer("1.a.1", "1.0.9"));
}

#[test]
fn equal_versions_are_not_newer() {
    assert!(!version_is_newer("1.0.0", "1.0.0"));
    assert!(!version_is_newer("", ""));
}

#[test]
fn older_is_not_newer() {
    assert!(!version_is_newer("0.9", "1.0"));
}

#[test]
fn anything_beats_an_empty_version() {
    assert!(version_is_newer("1", ""));
    assert!(!version_is_newer("", "1"));
}

#[test]
fn oversized_segment_is_dropped() {
    // A segment beyond the unsigned 32-bit range does not parse, so it is
    // dropped and the remaining positions shift.
    assert!(!version_is_newer("1.99999999999999999999.0", "1.0.1"));
    assert!(version_is_newer("1.0.1", "1.99999999999999999999.0"));
}
