use sgit::gate::{
    run_update_gate, UpdateCollaborators, UpdateOutcome, UPDATE_CHECK_INTERVAL_SECS,
};

struct Stub {
    fetch_calls: usize,
    record_calls: usize,
    install_calls: usize,
    fetch_result: Option<String>,
    install_ok: bool,
}

impl Stub {
    fn new(fetch_result: Option<&str>, install_ok: bool) -> Stub {
        Stub {
            fetch_calls: 0,
            record_calls: 0,
            install_calls: 0,
            fetch_result: fetch_result.map(|s| s.to_string()),
            install_ok,
        }
    }
}

impl UpdateCollaborators for Stub {
    fn fetch_latest(&mut self) -> Option<String> {
        self.fetch_calls += 1;
        self.fetch_result.clone()
    }

    fn record_check(&mut self) {
        self.record_calls += 1;
    }

    fn install(&mut self, _version: &str) -> bool {
        self.install_calls += 1;
        self.install_ok
    }
}

#[test]
fn opt_out_never_fetches() {
    let mut stub = Stub::new(Some("9.9.9"), true);
    let outcome = run_update_gate(&mut stub, true, None, "1.0.0");
    assert_eq!(outcome, UpdateOutcome::SkippedByEnv);
    assert_eq!(stub.fetch_calls, 0);
    assert_eq!(stub.record_calls, 0);
    assert_eq!(stub.install_calls, 0);
}

#[test]
fn recent_check_throttles_without_fetch() {
    let mut stub = Stub::new(Some("9.9.9"), true);
    let outcome = run_update_gate(&mut stub, false, Some(3600), "1.0.0");
    assert_eq!(outcome, UpdateOutcome::Throttled);
    assert_eq!(stub.fetch_calls, 0);
    assert_eq!(stub.record_calls, 0);
}

#[test]
fn stale_check_proceeds_to_fetch() {
    let mut stub = Stub::new(Some("1.0.0"), true);
    let outcome = run_update_gate(&mut stub, false, Some(25 * 3600), "1.0.0");
    assert_eq!(outcome, UpdateOutcome::UpToDate);
    assert_eq!(stub.fetch_calls, 1);
}

#[test]
fn throttle_boundary_is_strict() {
    let mut throttled = Stub::new(Some("1.0.0"), true);
    run_update_gate(
        &mut throttled,
        false,
        Some(UPDATE_CHECK_INTERVAL_SECS - 1),
        "1.0.0",
    );
    assert_eq!(throttled.fetch_calls, 0);

    let mut due = Stub::new(Some("1.0.0"), true);
    run_update_gate(&mut due, false, Some(UPDATE_CHECK_INTERVAL_SECS), "1.0.0");
    assert_eq!(due.fetch_calls, 1);
}

#[test]
fn cache_age_drives_the_throttle() {
    let now: u64 = 1_700_000_000;

    let hour_old = sgit::cache::render_last_check(now - 3600);
    let stored = sgit::cache::parse_last_check(&hour_old).unwrap();
    let elapsed = sgit::cache::time_since_check(now, stored);
    let mut stub = Stub::new(Some("9.9.9"), true);
    let outcome = run_update_gate(&mut stub, false, Some(elapsed), "1.0.0");
    assert_eq!(outcome, UpdateOutcome::Throttled);
    assert_eq!(stub.fetch_calls, 0);

    let day_old = sgit::cache::render_last_check(now - 25 * 3600);
    let stored = sgit::cache::parse_last_check(&day_old).unwrap();
    let elapsed = sgit::cache::time_since_check(now, stored);
    let mut stub = Stub::new(Some("1.0.0"), true);
    run_update_gate(&mut stub, false, Some(elapsed), "1.0.0");
    assert_eq!(stub.fetch_calls, 1);
}

#[test]
fn absent_cache_proceeds_to_fetch() {
    let mut stub = Stub::new(Some("1.0.0"), true);
    run_update_gate(&mut stub, false, None, "1.0.0");
    assert_eq!(stub.fetch_calls, 1);
}

#[test]
fn fetch_failure_still_records_and_ends_quietly() {
    let mut stub = Stub::new(None, true);
    let outcome = run_update_gate(&mut stub, false, None, "1.0.0");
    assert_eq!(outcome, UpdateOutcome::FetchFailed);
    assert_eq!(stub.fetch_calls, 1);
    assert_eq!(stub.record_calls, 1);
    assert_eq!(stub.install_calls, 0);
}

#[test]
fn no_newer_version_is_up_to_date() {
    let mut stub = Stub::new(Some("1.0.0"), true);
    let outcome = run_update_gate(&mut stub, false, None, "1.0.0");
    assert_eq!(outcome, UpdateOutcome::UpToDate);
    assert_eq!(stub.record_calls, 1);
    assert_eq!(stub.install_calls, 0);
}

#[test]
fn newer_version_runs_installer() {
    let mut stub = Stub::new(Some("1.1.0"), true);
    let outcome = run_update_gate(&mut stub, false, None, "1.0.9");
    assert_eq!(outcome, UpdateOutcome::Updated("1.1.0".to_string()));
    assert_eq!(stub.record_calls, 1);
    assert_eq!(stub.install_calls, 1);
}

#[test]
fn installer_failure_is_swallowed() {
    let mut stub = Stub::new(Some("1.1.0"), false);
    let outcome = run_update_gate(&mut stub, false, None, "1.0.9");
    assert_eq!(outcome, UpdateOutcome::UpdateAttempted("1.1.0".to_string()));
    assert_eq!(stub.install_calls, 1);
}
