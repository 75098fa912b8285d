//! Decisions that read RFC 3339 timestamps: whether a run's lease is live,
//! whether the inject gate is still waiting, whether a harness has an active
//! run, and how many days a trashed harness has left.
//!
//! The timestamps are compared with chrono; everything decided from the
//! elapsed seconds is verified here.
use crate::domain::{Run, RunStatus, RunView};
use crate::dto::{ActiveRunDto, TrashItemDto};
use crate::error::{CoreError, ErrorView};
use vstd::prelude::*;
use vstd::string::*;

verus! {

/// What chrono gives for the seconds from `earlier` to `later`: both parsed
/// with `DateTime::parse_from_rfc3339`, subtracted with
/// `signed_duration_since` and counted with `TimeDelta::num_seconds`
/// (whole seconds, truncated toward zero); `None` when either text does not
/// parse.
pub uninterp spec fn rfc3339_elapsed_secs(later: Seq<char>, earlier: Seq<char>) -> Option<i64>;

/// The text of chrono's parse error for `s`, or `None` when `s` parses as
/// an RFC 3339 date-time.
pub uninterp spec fn rfc3339_parse_error(s: Seq<char>) -> Option<Seq<char>>;

/// Calls chrono's `DateTime::parse_from_rfc3339` on both texts and, when
/// both parse, `signed_duration_since` and `num_seconds` on the difference.
/// The contract names that result; chrono's calendar arithmetic is not
/// restated.
#[verifier::external_body]
fn elapsed_secs(later: &str, earlier: &str) -> (r: Option<i64>)
    ensures
        r == rfc3339_elapsed_secs(later@, earlier@),
{
    match (chrono::DateTime::parse_from_rfc3339(later), chrono::DateTime::parse_from_rfc3339(earlier)) {
        (Ok(a), Ok(b)) => Some(a.signed_duration_since(b).num_seconds()),
        _ => None,
    }
}

/// Calls chrono's `DateTime::parse_from_rfc3339` and renders its
/// `ParseError` with `to_string` when the text does not parse. The contract
/// names that result.
#[verifier::external_body]
fn parse_error(s: &str) -> (r: Option<String>)
    ensures
        r.deep_view() == rfc3339_parse_error(s@),
{
    match chrono::DateTime::parse_from_rfc3339(s) {
        Ok(_) => None,
        Err(e) => Some(e.to_string()),
    }
}

// ---------------------------------------------------------------------------
// Lease liveness
// ---------------------------------------------------------------------------
/// Heartbeats come every 5 s; three missed beats end the lease.
pub const LEASE_TTL_SECS: i64 = 15;

/// A lease is live when the heartbeat is between 0 and `ttl` seconds old.
pub open spec fn live_for(elapsed: Option<i64>, ttl: i64) -> bool {
    elapsed matches Some(e) && 0 <= e && e <= ttl
}

/// Whether a heartbeat `elapsed` seconds old keeps a lease of `ttl_secs`
/// live; an unreadable age never does.
pub fn lease_live(elapsed: Option<i64>, ttl_secs: i64) -> (r: bool)
    ensures
        r == live_for(elapsed, ttl_secs),
{
    match elapsed {
        Some(e) => 0 <= e && e <= ttl_secs,
        None => false,
    }
}

/// Whether the lease with its last heartbeat at `last_heartbeat_at` is live
/// at `now`: a missing or unparseable timestamp, a heartbeat in the future
/// or one older than `ttl_secs` means it is not.
pub fn is_live(last_heartbeat_at: Option<&str>, now: &str, ttl_secs: i64) -> (r: bool)
    ensures
        r == match last_heartbeat_at {
            Some(h) => live_for(rfc3339_elapsed_secs(now@, h@), ttl_secs),
            None => false,
        },
{
    match last_heartbeat_at {
        Some(h) => lease_live(elapsed_secs(now, h), ttl_secs),
        None => false,
    }
}

// ---------------------------------------------------------------------------
// The inject gate
// ---------------------------------------------------------------------------
/// An unacknowledged inject is given up after this many seconds.
pub const INJECT_TIMEOUT_SECS: i64 = 30;

/// Whether an advance may proceed while an inject may be unacknowledged.
#[derive(Clone, Copy, Debug, PartialEq, Eq, Structural)]
pub enum InjectGate {
    /// No inject is waiting for its acknowledgement.
    Open,
    /// An inject is waiting and the timeout has not passed.
    Pending,
    /// The acknowledgement never came; `elapsed` seconds have passed.
    TimedOut { elapsed: i64 },
}

/// The age of a pending inject as the inject check counts it: unreadable ages count
/// as zero and negative ones are raised to zero.
pub open spec fn pending_age(elapsed: Option<i64>) -> i64 {
    match elapsed {
        Some(e) => if e < 0 {
            0
        } else {
            e
        },
        None => 0,
    }
}

pub open spec fn gate_for_age(elapsed: Option<i64>) -> InjectGate {
    let a = pending_age(elapsed);
    if a < INJECT_TIMEOUT_SECS {
        InjectGate::Pending
    } else {
        InjectGate::TimedOut { elapsed: a }
    }
}

/// The verdict for an inject pending `elapsed` seconds.
pub fn gate_after(elapsed: Option<i64>) -> (r: InjectGate)
    ensures
        r == gate_for_age(elapsed),
{
    let a = match elapsed {
        Some(e) => if e < 0 {
            0
        } else {
            e
        },
        None => 0,
    };
    if a < INJECT_TIMEOUT_SECS {
        InjectGate::Pending
    } else {
        InjectGate::TimedOut { elapsed: a }
    }
}

/// The verdict for `run` at `now`.
pub open spec fn gate_of(run: RunView, now: Seq<char>) -> InjectGate {
    match run.inject_pending_since {
        None => InjectGate::Open,
        Some(p) => gate_for_age(rfc3339_elapsed_secs(now, p)),
    }
}

/// Decides whether `run` may advance at `now`: open when no inject is
/// pending, pending until 30 s have passed, timed out after.
pub fn inject_gate(run: &Run, now: &str) -> (r: InjectGate)
    ensures
        r == gate_of(run@, now@),
{
    match &run.inject_pending_since {
        None => InjectGate::Open,
        Some(p) => gate_after(elapsed_secs(now, p.as_str())),
    }
}

/// A run whose inject timed out: it is marked stalled and stamped `now`.
pub fn stall_run(run: Run, now: String) -> (r: Run)
    ensures
        r@ == (RunView { status: RunStatus::Stalled, updated_at: now@, ..run@ }),
{
    Run { status: RunStatus::Stalled, updated_at: now, ..run }
}

// ---------------------------------------------------------------------------
// Active runs
// ---------------------------------------------------------------------------
/// A running run counts as active when touched within this many seconds.
pub const ACTIVE_RUN_STALE_SECS: i64 = 300;

/// The time a run was last known alive: its heartbeat, else its update.
pub open spec fn freshness_stamp(r: RunView) -> Seq<char> {
    match r.last_heartbeat_at {
        Some(h) => h,
        None => r.updated_at,
    }
}

/// A stamp `elapsed` seconds old is fresh when under 300 s (also when in the
/// future); an unreadable one is not.
pub open spec fn fresh(elapsed: Option<i64>) -> bool {
    elapsed matches Some(e) && e < ACTIVE_RUN_STALE_SECS
}

/// Whether `r` is an active run at `now`.
pub open spec fn active_at(r: RunView, now: Seq<char>) -> bool {
    r.status == RunStatus::Running && fresh(rfc3339_elapsed_secs(now, freshness_stamp(r)))
}

/// Whether a stamp `elapsed` seconds old is fresh.
pub fn is_fresh(elapsed: Option<i64>) -> (r: bool)
    ensures
        r == fresh(elapsed),
{
    match elapsed {
        Some(e) => e < ACTIVE_RUN_STALE_SECS,
        None => false,
    }
}

/// Whether `run` is active at `now`.
pub fn run_is_active(run: &Run, now: &str) -> (r: bool)
    ensures
        r == active_at(run@, now@),
{
    if run.status != RunStatus::Running {
        return false;
    }
    let stamp = match &run.last_heartbeat_at {
        Some(h) => h.as_str(),
        None => run.updated_at.as_str(),
    };
    is_fresh(elapsed_secs(now, stamp))
}

pub open spec fn runs_view(runs: Seq<Run>) -> Seq<RunView> {
    runs.map_values(|r: Run| r@)
}

/// Whether some run is active at `now`.
pub open spec fn any_active(runs: Seq<RunView>, now: Seq<char>) -> bool {
    exists|i: int| 0 <= i < runs.len() && active_at(#[trigger] runs[i], now)
}

/// Whether some run of `runs` is active at `now`.
pub fn has_active_run(runs: &Vec<Run>, now: &str) -> (r: bool)
    ensures
        r == any_active(runs_view(runs@), now@),
{
    let ghost rv = runs_view(runs@);
    let mut i: usize = 0;
    while i < runs.len()
        invariant
            rv == runs_view(runs@),
            i <= runs.len(),
            forall|j: int| 0 <= j < i ==> !active_at(#[trigger] rv[j], now@),
        decreases runs.len() - i,
    {
        if run_is_active(&runs[i], now) {
            assert(active_at(rv[i as int], now@));
            return true;
        }
        i = i + 1;
    }
    false
}

/// The runs active at `now`, in order, as the canvas lists them.
pub open spec fn active_views(runs: Seq<RunView>, now: Seq<char>) -> Seq<RunView>
    decreases runs.len(),
{
    if runs.len() == 0 {
        seq![]
    } else {
        active_views(runs.drop_last(), now) + if active_at(runs.last(), now) {
            seq![runs.last()]
        } else {
            seq![]
        }
    }
}

pub open spec fn active_dto_matches(d: ActiveRunDto, r: RunView) -> bool {
    &&& d.run_id@ == r.id
    &&& d.current_cell_id@ == r.current_cell_id
    &&& d.project_path.deep_view() == r.project_path
}

/// The active runs among `runs` at `now`.
pub fn active_runs(runs: Vec<Run>, now: &str) -> (r: Vec<ActiveRunDto>)
    ensures
        r.len() == active_views(runs_view(runs@), now@).len(),
        forall|i: int| 0 <= i < r.len() ==> active_dto_matches(#[trigger] r@[i], active_views(runs_view(runs@), now@)[i]),
{
    let ghost rv = runs_view(runs@);
    let mut out: Vec<ActiveRunDto> = Vec::new();
    let mut i: usize = 0;
    while i < runs.len()
        invariant
            rv == runs_view(runs@),
            i <= runs.len(),
            out.len() == active_views(rv.take(i as int), now@).len(),
            forall|k: int| 0 <= k < out.len() ==> active_dto_matches(#[trigger] out@[k], active_views(rv.take(i as int), now@)[k]),
        decreases runs.len() - i,
    {
        let ghost before = active_views(rv.take(i as int), now@);
        let r = &runs[i];
        let act = run_is_active(r, now);
        if act {
            let p = match &r.project_path {
                Some(p) => Some(p.clone()),
                None => None,
            };
            out.push(ActiveRunDto { run_id: r.id.clone(), current_cell_id: r.current_cell_id.clone(), project_path: p });
        }
        proof {
            let t = rv.take(i + 1);
            assert(t.drop_last() =~= rv.take(i as int));
            assert(t.last() == rv[i as int]);
            let after = active_views(t, now@);
            if act {
                assert(after =~= before.push(rv[i as int]));
            } else {
                assert(after =~= before);
            }
            assert forall|k: int| 0 <= k < out.len() implies active_dto_matches(#[trigger] out@[k], after[k]) by {
                if k < before.len() {
                    assert(after[k] == before[k]);
                }
            }
        }
        i = i + 1;
    }
    assert(rv.take(runs.len() as int) =~= rv);
    out
}

/// Input for moving a harness to the trash.
#[derive(Debug)]
pub struct DeleteHarnessInput {
    pub harness_id: String,
}

/// Moving a harness to the trash from a tool: refused with a storage error
/// when `now` does not parse, with `ActiveRunExists` when a run is active.
pub open spec fn delete_check(runs: Seq<RunView>, now: Seq<char>) -> Result<(), ErrorView> {
    match rfc3339_parse_error(now) {
        Some(e) => Err(ErrorView::Storage("invalid now_iso: "@ + e)),
        None => if any_active(runs, now) {
            Err(ErrorView::ActiveRunExists)
        } else {
            Ok(())
        },
    }
}

/// The decision once the clock's parse error and the active-run check are
/// known.
pub fn delete_decision(now_error: Option<String>, active: bool) -> (r: Result<(), CoreError>)
    ensures
        match now_error {
            Some(e) => r matches Err(x) && x@ == ErrorView::Storage("invalid now_iso: "@ + e@),
            None => if active {
                r matches Err(x) && x@ == ErrorView::ActiveRunExists
            } else {
                r is Ok
            },
        },
{
    match now_error {
        Some(e) => {
            let mut m = String::from_str("invalid now_iso: ");
            m.append(e.as_str());
            Err(CoreError::Storage(m))
        },
        None => if active {
            Err(CoreError::ActiveRunExists)
        } else {
            Ok(())
        },
    }
}

/// Decides whether the harness whose runs are `runs` may be moved to the
/// trash at `now`.
pub fn check_delete_harness(runs: &Vec<Run>, now: &str) -> (r: Result<(), CoreError>)
    ensures
        match delete_check(runs_view(runs@), now@) {
            Ok(_) => r is Ok,
            Err(e) => r matches Err(x) && x@ == e,
        },
{
    let err = parse_error(now);
    let active = match &err {
        Some(_) => false,
        None => has_active_run(runs, now),
    };
    delete_decision(err, active)
}

/// Moving a harness to the trash from the canvas: refused with `active_run`
/// when a run is active at `now`.
pub fn check_trash_harness(runs: &Vec<Run>, now: &str) -> (r: Result<(), String>)
    ensures
        match r {
            Ok(_) => !any_active(runs_view(runs@), now@),
            Err(m) => any_active(runs_view(runs@), now@) && m@ == "active_run"@,
        },
{
    if has_active_run(runs, now) {
        Err(String::from_str("active_run"))
    } else {
        Ok(())
    }
}

// ---------------------------------------------------------------------------
// Trash retention
// ---------------------------------------------------------------------------
/// A trashed harness is kept this many days.
pub const TRASH_RETENTION_DAYS: i64 = 180;

/// Whole days in `secs` seconds, truncated toward zero.
pub open spec fn whole_days(secs: int) -> int {
    if secs >= 0 {
        secs / 86400
    } else {
        -((-secs) / 86400)
    }
}

/// Days left for an item trashed `elapsed` seconds ago: 180 less the whole
/// days passed, never below zero; zero when the age is unreadable.
pub open spec fn days_left(elapsed: Option<i64>) -> int {
    match elapsed {
        Some(e) => {
            let d = TRASH_RETENTION_DAYS - whole_days(e as int);
            if d < 0 {
                0
            } else {
                d
            }
        },
        None => 0,
    }
}

/// Days left for an item trashed `elapsed` seconds ago.
pub fn remaining_days_for(elapsed: Option<i64>) -> (r: i64)
    ensures
        r == days_left(elapsed),
{
    match elapsed {
        Some(e) => {
            let x: i128 = e as i128;
            let days: i128 = if x >= 0 {
                x / 86400
            } else {
                -((-x) / 86400)
            };
            let d: i128 = 180 - days;
            if d < 0 {
                0
            } else {
                assert(d <= 180 + 0x8000_0000_0000_0000i128 / 86400);
                d as i64
            }
        },
        None => 0,
    }
}

/// The trash entry for a harness trashed at `deleted_at`, seen at `now`.
pub fn trash_item(harness_id: String, name: String, deleted_at: String, now: &str) -> (r: TrashItemDto)
    ensures
        r.harness_id@ == harness_id@,
        r.name@ == name@,
        r.deleted_at@ == deleted_at@,
        r.remaining_days == days_left(rfc3339_elapsed_secs(now@, deleted_at@)),
{
    let days = remaining_days_for(elapsed_secs(now, deleted_at.as_str()));
    TrashItemDto { harness_id, name, deleted_at, remaining_days: days }
}

} // verus!
