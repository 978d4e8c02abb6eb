//! The policy deciding whether an automatic update runs. Evaluated in
//! order, terminal on first match: an opt-out signal skips everything; a
//! recent enough last check throttles; otherwise the latest version is
//! fetched and the check is recorded whether or not the fetch succeeded; a
//! fetch that yields no newer version ends quietly; a newer one has the
//! installer run, and its failure is swallowed. The collaborators that
//! fetch, record and install are injected, so the decisions stay testable
//! on their own.

use vstd::prelude::*;
use crate::version;

verus! {

/// Minimum spacing between automatic update checks.
pub const UPDATE_CHECK_INTERVAL_SECS: u64 = 24 * 60 * 60;

/// The terminal states of one run of the update policy.
#[derive(Debug, PartialEq, Eq)]
pub enum UpdateOutcome {
    SkippedByEnv,
    Throttled,
    FetchFailed,
    UpToDate,
    UpdateAttempted(String),
    Updated(String),
}

/// What the policy decides before any side effect.
#[derive(Clone, Copy, Debug, PartialEq, Eq, Structural)]
pub enum PreFetchDecision {
    SkipByEnv,
    SkipThrottled,
    Fetch,
}

/// A stored elapsed time below the interval throttles; an absent one never
/// does.
pub open spec fn throttles(elapsed: Option<u64>) -> bool {
    elapsed matches Some(e) && e < UPDATE_CHECK_INTERVAL_SECS
}

/// The two checks that run before any fetch or cache write: the opt-out
/// signal first, the throttle second.
pub fn gate_before_fetch(opt_out: bool, elapsed: Option<u64>) -> (d: PreFetchDecision)
    ensures
        d == if opt_out {
            PreFetchDecision::SkipByEnv
        } else if throttles(elapsed) {
            PreFetchDecision::SkipThrottled
        } else {
            PreFetchDecision::Fetch
        },
{
    if opt_out {
        return PreFetchDecision::SkipByEnv;
    }
    match elapsed {
        Some(e) => {
            if e < UPDATE_CHECK_INTERVAL_SECS {
                PreFetchDecision::SkipThrottled
            } else {
                PreFetchDecision::Fetch
            }
        },
        None => PreFetchDecision::Fetch,
    }
}

/// What each fetch result leads to: no version is a quiet failure, a
/// version no newer than `current` is up to date, and a newer one is an
/// update attempt carrying that version.
pub fn gate_after_fetch(fetched: Option<String>, current: &str) -> (o: UpdateOutcome)
    ensures
        fetched is None ==> o is FetchFailed,
        fetched matches Some(v) ==> if version::version_newer(v@, current@) {
            o matches UpdateOutcome::UpdateAttempted(u) && u@ == v@
        } else {
            o is UpToDate
        },
{
    match fetched {
        None => UpdateOutcome::FetchFailed,
        Some(v) => {
            if version::version_is_newer(v.as_str(), current) {
                UpdateOutcome::UpdateAttempted(v)
            } else {
                UpdateOutcome::UpToDate
            }
        },
    }
}

/// What an installer exit leads to: success moves the attempt to `Updated`,
/// failure leaves it an attempt and is swallowed.
pub fn gate_after_install(attempted: String, install_ok: bool) -> (o: UpdateOutcome)
    ensures
        install_ok ==> (o matches UpdateOutcome::Updated(v) && v@ == attempted@),
        !install_ok ==> (o matches UpdateOutcome::UpdateAttempted(v) && v@ == attempted@),
{
    if install_ok {
        UpdateOutcome::Updated(attempted)
    } else {
        UpdateOutcome::UpdateAttempted(attempted)
    }
}

/// The outside work the update policy sequences. The fetch may fail and
/// yield nothing; recording the check is best-effort; the installer reports
/// only whether it exited successfully. Nothing is promised of any of them:
/// the policy's own contract holds whatever they do.
pub trait UpdateCollaborators {
    fn fetch_latest(&mut self) -> Option<String>;

    fn record_check(&mut self);

    fn install(&mut self, version: &str) -> bool;
}

/// One run of the update policy. The opt-out signal and the throttle are
/// decided before the fetch collaborator or the cache is touched; after a
/// fetch, failed or not, the check is recorded; only a strictly newer
/// fetched version reaches the installer.
pub fn run_update_gate<C: UpdateCollaborators>(
    collab: &mut C,
    opt_out: bool,
    elapsed: Option<u64>,
    current: &str,
) -> (o: UpdateOutcome)
    ensures
        opt_out ==> o is SkippedByEnv,
        !opt_out && throttles(elapsed) ==> o is Throttled,
        !opt_out && !throttles(elapsed) ==> !(o is SkippedByEnv) && !(o is Throttled),
        o matches UpdateOutcome::UpdateAttempted(v) ==> version::version_newer(v@, current@),
        o matches UpdateOutcome::Updated(v) ==> version::version_newer(v@, current@),
{
    match gate_before_fetch(opt_out, elapsed) {
        PreFetchDecision::SkipByEnv => UpdateOutcome::SkippedByEnv,
        PreFetchDecision::SkipThrottled => UpdateOutcome::Throttled,
        PreFetchDecision::Fetch => {
            let fetched = collab.fetch_latest();
            collab.record_check();
            let decided = gate_after_fetch(fetched, current);
            match decided {
                UpdateOutcome::UpdateAttempted(v) => {
                    let install_ok = collab.install(v.as_str());
                    gate_after_install(v, install_ok)
                },
                other => other,
            }
        },
    }
}

} // verus!
