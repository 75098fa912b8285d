use sugo::agent::{
    build_inject_text, choose_validate_target, classify, gate_refusal, nipper_refusal, parse_cell_status, reminder_step,
    reminder_text, start_project_path, NipperOutcome, ReminderAction, ValidateTarget,
};
use sugo::args::{CellAddArgs, CellChangeArgs, EdgeAddArgs, EdgeKeyArgs, UpdateArgs};
use sugo::domain::{BoardDefinition, CellStatus, Run, RunStatus};
use sugo::run::EdgeInfo;
use sugo::timing::InjectGate;
use sugo::versioning::default_board;

#[test]
fn classify_maps_statuses() {
    assert_eq!(classify(200), NipperOutcome::Accepted);
    assert_eq!(classify(404), NipperOutcome::NoSession);
    assert_eq!(classify(401), NipperOutcome::Unauthorized);
    assert_eq!(classify(400), NipperOutcome::BadRequest);
}

#[test]
fn nipper_failures_become_refusals() {
    assert!(nipper_refusal(NipperOutcome::Accepted).is_none());
    assert_eq!(nipper_refusal(NipperOutcome::Unreachable).unwrap().code, "nipper_unreachable");
    assert_eq!(nipper_refusal(NipperOutcome::NoSession).unwrap().code, "nipper_no_session");
    assert_eq!(nipper_refusal(NipperOutcome::TokenPermissionDenied).unwrap().code, "nipper_token_permission_denied");
}

#[test]
fn cell_status_text_is_active_or_draft() {
    assert_eq!(parse_cell_status("active").unwrap(), CellStatus::Active);
    assert_eq!(parse_cell_status("draft").unwrap(), CellStatus::Draft);
    let e = parse_cell_status("Active").unwrap_err();
    assert_eq!(e.code, "invalid_arguments");
    assert_eq!(e.message, "unknown status 'Active': must be 'active' or 'draft'");
}

#[test]
fn sugo_start_empty_project_path_is_invalid() {
    let e = start_project_path("   ").unwrap_err();
    assert_eq!(e.code, "invalid_arguments");
    assert_eq!(e.message, "project_path must be a non-empty absolute path");
    assert_eq!(start_project_path("  /abs/p ").unwrap(), "/abs/p");
}

#[test]
fn validate_takes_exactly_one_input() {
    let e = choose_validate_target(Some("h".into()), Some(default_board())).unwrap_err();
    assert_eq!(e.code, "invalid_arguments");
    assert_eq!(e.message, "provide exactly one of harness_id or definition, not both");
    let e = choose_validate_target(None, None).unwrap_err();
    assert_eq!(e.message, "one of harness_id or definition is required");
    assert!(matches!(choose_validate_target(Some("h".into()), None).unwrap(), ValidateTarget::Stored(ref h) if h == "h"));
    let d: BoardDefinition = default_board();
    assert!(matches!(choose_validate_target(None, Some(d)).unwrap(), ValidateTarget::Given(ref b) if b.start == "start"));
}

fn info(label: &str, to: &str, guard: Option<&str>) -> EdgeInfo {
    EdgeInfo { label: label.into(), to_cell_id: "x".into(), to_cell_name: to.into(), guard: guard.map(String::from) }
}

#[test]
fn terminal_inject_text_announces_the_end() {
    assert_eq!(
        build_inject_text("wrap up", "r1", &vec![], true),
        "wrap up\n\n---\n【Sugo ハーネス】このセルは終端です。ハーネスの実行が完了しました。\nrun_id: r1"
    );
}

#[test]
fn step_inject_text_lists_the_edges() {
    let t = build_inject_text("do it", "r1", &vec![info("next", "step2", None), info("retry", "step1", Some("tests fail"))], false);
    let expected = "do it\n\n---\n【Sugo ハーネス】このターンのタスクが完了したら sugo_advance を1回だけ呼んでください。\n呼んだ後は、次の Sugo メッセージ（inject）が実際に届くまで待機すること。ループ構造から「次も同じステップだ」と推測して、injectを待たずに次の作業へ進んではいけません。1 inject ＝ 1 ステップを厳守してください。\nrun_id: r1\n選択できるエッジ:\n  - \"next\" → step2\n  - \"retry\" (条件: tests fail) → step1";
    assert_eq!(t, expected);
}

#[test]
fn inject_gate_refusals_have_codes() {
    assert!(gate_refusal(&InjectGate::Open).is_none());
    let p = gate_refusal(&InjectGate::Pending).unwrap();
    assert_eq!(p.code, "inject_pending");
    let t = gate_refusal(&InjectGate::TimedOut { elapsed: 60 }).unwrap();
    assert_eq!(t.code, "inject_timeout");
    assert_eq!(
        t.message,
        "inject timeout: Nipper did not acknowledge the inject after 60s. The run is now Stalled. Call sugo_start to begin a new run."
    );
}

fn run(status: RunStatus, pending: bool) -> Run {
    Run {
        id: "r1".into(),
        harness_id: "h1".into(),
        board_version_no: 1,
        current_cell_id: "c".into(),
        status,
        project_path: Some("/p".into()),
        created_at: "t".into(),
        last_heartbeat_at: None,
        updated_at: "t".into(),
        inject_pending_since: if pending { Some("t".into()) } else { None },
        current_step_token: None,
    }
}

#[test]
fn reminder_watch_decisions() {
    assert_eq!(reminder_step(&None, true, 0), ReminderAction::Stop);
    assert_eq!(reminder_step(&Some(run(RunStatus::Done, false)), true, 0), ReminderAction::Stop);
    assert_eq!(reminder_step(&Some(run(RunStatus::Running, true)), true, 0), ReminderAction::Stop);
    assert_eq!(reminder_step(&Some(run(RunStatus::Running, false)), false, 0), ReminderAction::Wait);
    assert_eq!(reminder_step(&Some(run(RunStatus::Running, false)), true, 2), ReminderAction::Remind);
    assert_eq!(reminder_step(&Some(run(RunStatus::Running, false)), true, 3), ReminderAction::Stop);
    assert!(reminder_text("r9").ends_with("run_id: `r9`"));
    assert!(reminder_text("r9").starts_with("【Sugo】"));
}

fn update_args() -> UpdateArgs {
    UpdateArgs {
        harness_id: "h1".into(),
        expected_lock_version: 4,
        cell_changes: vec![CellChangeArgs { cell_id: "c1".into(), prompt: None, status: Some("draft".into()), memo: Some("m".into()) }],
        cell_add: vec![CellAddArgs { id: "n".into(), name: "n".into(), prompt: "p".into(), status: "active".into(), terminal: true }],
        edge_add: vec![EdgeAddArgs { from: "c1".into(), to: "n".into(), label: "go".into(), guard: Some("g".into()) }],
        edge_remove: vec![EdgeKeyArgs { from: "a".into(), to: "b".into(), label: "x".into() }],
        cell_remove: vec!["old".into()],
    }
}

#[test]
fn update_args_become_an_update_input() {
    let u = sugo::args::update_input(update_args()).unwrap();
    assert_eq!(u.harness_id, "h1");
    assert_eq!(u.expected_lock_version, 4);
    assert_eq!(u.cell_changes[0].status, Some(CellStatus::Draft));
    assert_eq!(u.cell_changes[0].memo.as_deref(), Some("m"));
    assert_eq!(u.cell_add[0].status, CellStatus::Active);
    assert_eq!(u.edge_add[0].guard.as_ref().unwrap().expr, "g");
    assert_eq!(u.edge_remove[0].label, "x");
    assert_eq!(u.cell_remove, vec!["old".to_string()]);
}

#[test]
fn update_harness_unknown_status_returns_invalid_arguments() {
    let mut a = update_args();
    a.cell_changes[0].status = Some("archived".into());
    a.cell_add[0].status = "bogus".into();
    let e = sugo::args::update_input(a).unwrap_err();
    assert_eq!(e.code, "invalid_arguments");
    assert_eq!(e.message, "unknown status 'archived': must be 'active' or 'draft'");
    let mut a = update_args();
    a.cell_add[0].status = "bogus".into();
    assert_eq!(sugo::args::update_input(a).unwrap_err().message, "unknown status 'bogus': must be 'active' or 'draft'");
}
