use sugo::clock::{IdClock, RealIdClock};
use sugo::domain::{Run, RunStatus};
use sugo::error::CoreError;
use sugo::timing::{
    active_runs, check_delete_harness, check_trash_harness, delete_decision, gate_after, has_active_run, inject_gate, is_fresh,
    is_live, lease_live, remaining_days_for, run_is_active, stall_run, trash_item, InjectGate, LEASE_TTL_SECS,
};

#[test]
fn none_heartbeat_is_dead() {
    assert!(!is_live(None, "2026-06-28T00:00:10+09:00", 15));
}

#[test]
fn within_ttl_is_live() {
    assert!(is_live(Some("2026-06-28T00:00:00+09:00"), "2026-06-28T00:00:14+09:00", 15));
}

#[test]
fn exactly_ttl_is_live() {
    assert!(is_live(Some("2026-06-28T00:00:00+09:00"), "2026-06-28T00:00:15+09:00", 15));
}

#[test]
fn beyond_ttl_is_dead() {
    assert!(!is_live(Some("2026-06-28T00:00:00+09:00"), "2026-06-28T00:00:16+09:00", 15));
}

#[test]
fn clock_skew_negative_elapsed_is_dead() {
    assert!(!is_live(Some("2026-06-28T00:00:10+09:00"), "2026-06-28T00:00:00+09:00", 15));
}

#[test]
fn unparseable_is_dead() {
    assert!(!is_live(Some("not-a-date"), "2026-06-28T00:00:10+09:00", 15));
}

#[test]
fn lease_compares_across_offsets() {
    // 00:00:05Z is 09:00:05+09:00
    assert!(is_live(Some("2026-06-28T00:00:00Z"), "2026-06-28T09:00:05+09:00", LEASE_TTL_SECS));
    assert!(lease_live(Some(0), 15));
    assert!(!lease_live(Some(-1), 15));
    assert!(!lease_live(None, 15));
}

fn run(status: RunStatus, heartbeat: Option<&str>, updated: &str, pending: Option<&str>) -> Run {
    Run {
        id: "r1".into(),
        harness_id: "h1".into(),
        board_version_no: 1,
        current_cell_id: "start".into(),
        status,
        project_path: Some("/abs/p".into()),
        created_at: "2026-01-01T00:00:00+09:00".into(),
        last_heartbeat_at: heartbeat.map(String::from),
        updated_at: updated.into(),
        inject_pending_since: pending.map(String::from),
        current_step_token: None,
    }
}

const NOW: &str = "2026-01-01T00:00:00+09:00";

#[test]
fn inject_gate_waits_then_times_out() {
    assert_eq!(inject_gate(&run(RunStatus::Running, None, NOW, None), NOW), InjectGate::Open);
    assert_eq!(inject_gate(&run(RunStatus::Running, None, NOW, Some("2025-12-31T23:59:50+09:00")), NOW), InjectGate::Pending);
    assert_eq!(
        inject_gate(&run(RunStatus::Running, None, NOW, Some("2025-12-31T23:59:00+09:00")), NOW),
        InjectGate::TimedOut { elapsed: 60 }
    );
    // an unreadable stamp counts as just sent
    assert_eq!(inject_gate(&run(RunStatus::Running, None, NOW, Some("garbage")), NOW), InjectGate::Pending);
    // a stamp in the future counts as zero
    assert_eq!(gate_after(Some(-5)), InjectGate::Pending);
    assert_eq!(gate_after(Some(29)), InjectGate::Pending);
    assert_eq!(gate_after(Some(30)), InjectGate::TimedOut { elapsed: 30 });
}

#[test]
fn a_timed_out_run_is_stalled() {
    let r = stall_run(run(RunStatus::Running, None, NOW, Some(NOW)), "t9".into());
    assert_eq!(r.status, RunStatus::Stalled);
    assert_eq!(r.updated_at, "t9");
}

#[test]
fn active_runs_are_running_and_fresh() {
    let fresh = run(RunStatus::Running, None, "2025-12-31T23:59:00+09:00", None);
    let stale = run(RunStatus::Running, None, "2025-12-31T23:00:00+09:00", None);
    let beat = run(RunStatus::Running, Some("2025-12-31T23:58:00+09:00"), "2025-12-01T00:00:00+09:00", None);
    let done = run(RunStatus::Done, None, NOW, None);
    assert!(run_is_active(&fresh, NOW));
    assert!(!run_is_active(&stale, NOW));
    assert!(run_is_active(&beat, NOW));
    assert!(!run_is_active(&done, NOW));
    assert!(!run_is_active(&run(RunStatus::Running, None, "bad", None), NOW));
    assert!(is_fresh(Some(299)));
    assert!(!is_fresh(Some(300)));
    assert!(is_fresh(Some(-10)));
    let list = active_runs(vec![stale, fresh, done, beat], NOW);
    assert_eq!(list.len(), 2);
    assert_eq!(list[0].run_id, "r1");
    assert_eq!(list[0].project_path.as_deref(), Some("/abs/p"));
}

#[test]
fn delete_is_refused_while_a_run_is_active() {
    let runs = vec![run(RunStatus::Running, None, "2025-12-31T23:59:00+09:00", None)];
    assert!(has_active_run(&runs, NOW));
    assert!(matches!(check_delete_harness(&runs, NOW), Err(CoreError::ActiveRunExists)));
    assert_eq!(check_trash_harness(&runs, NOW).unwrap_err(), "active_run");
    let stale = vec![run(RunStatus::Running, None, "2025-12-31T23:00:00+09:00", None)];
    assert!(check_delete_harness(&stale, NOW).is_ok());
    assert!(check_trash_harness(&stale, NOW).is_ok());
    assert!(check_delete_harness(&vec![], NOW).is_ok());
}

#[test]
fn delete_with_an_unreadable_clock_is_a_storage_error() {
    match check_delete_harness(&vec![], "not a time") {
        Err(CoreError::Storage(m)) => assert!(m.starts_with("invalid now_iso: ")),
        other => panic!("unexpected {:?}", other),
    }
    assert!(matches!(delete_decision(Some("x".into()), true), Err(CoreError::Storage(ref m)) if m == "invalid now_iso: x"));
    assert!(matches!(delete_decision(None, true), Err(CoreError::ActiveRunExists)));
    assert!(delete_decision(None, false).is_ok());
}

#[test]
fn trash_keeps_items_for_180_days() {
    assert_eq!(remaining_days_for(Some(0)), 180);
    assert_eq!(remaining_days_for(Some(86_399)), 180);
    assert_eq!(remaining_days_for(Some(86_400)), 179);
    assert_eq!(remaining_days_for(Some(200 * 86_400)), 0);
    assert_eq!(remaining_days_for(Some(-86_400)), 181);
    assert_eq!(remaining_days_for(Some(i64::MIN)), 180 - (i64::MIN / 86_400));
    assert_eq!(remaining_days_for(None), 0);
    let item = trash_item("h1".into(), "n".into(), "2026-01-01T00:00:00+09:00".into(), "2026-01-11T12:00:00+09:00");
    assert_eq!(item.remaining_days, 170);
    assert_eq!(item.deleted_at, "2026-01-01T00:00:00+09:00");
    assert_eq!(trash_item("h1".into(), "n".into(), "bad".into(), NOW).remaining_days, 0);
}

#[test]
fn real_id_clock_produces_unique_ids() {
    let clock = RealIdClock;
    let a = clock.new_id();
    let b = clock.new_id();
    assert_ne!(a, b);
    assert_eq!(a.len(), 36);
}

#[test]
fn real_id_clock_now_is_rfc3339() {
    let now = RealIdClock.now_iso();
    assert!(chrono::DateTime::parse_from_rfc3339(&now).is_ok());
    assert!(check_delete_harness(&vec![], &now).is_ok());
}

#[test]
fn real_id_clock_ids_are_hyphenated_v4_uuids() {
    let id = RealIdClock.new_id();
    let chars: Vec<char> = id.chars().collect();
    assert_eq!(chars.len(), 36);
    for (i, c) in chars.iter().enumerate() {
        if [8, 13, 18, 23].contains(&i) {
            assert_eq!(*c, '-');
        } else {
            assert!(c.is_ascii_hexdigit() && !c.is_ascii_uppercase());
        }
    }
    assert_eq!(chars[14], '4');
    assert!("89ab".contains(chars[19]));
}
