use sugo::content::content_hash;
use sugo::domain::{BoardDefinition, BoardVersion, Cell, CellStatus, Edge, Guard, Harness, Run, RunStatus};
use sugo::error::CoreError;
use sugo::run::{
    apply_session_event, check_running, new_run, outgoing_edges, parse_status, plan_advance, plan_stop_run, prepare_start_run,
    start_output, status_for_reason, status_str, stopped_run,
};

fn cell(id: &str, name: &str, prompt: &str, status: CellStatus, terminal: bool) -> Cell {
    Cell { id: id.into(), name: name.into(), prompt: prompt.into(), status, terminal, request_memo: String::new() }
}

fn linear_board() -> BoardDefinition {
    BoardDefinition {
        schema_version: 1,
        start: "c1".into(),
        cells: vec![
            cell("c1", "step1", "do step1", CellStatus::Active, false),
            cell("c2", "step2", "do step2", CellStatus::Active, false),
            cell("c3", "end", "done", CellStatus::Active, true),
        ],
        edges: vec![
            Edge { from: "c1".into(), to: "c2".into(), label: "next".into(), guard: None },
            Edge { from: "c2".into(), to: "c3".into(), label: "finish".into(), guard: Some(Guard { expr: "all green".into() }) },
        ],
    }
}

fn version(def: BoardDefinition, no: i64) -> BoardVersion {
    BoardVersion { id: format!("v{no}"), harness_id: "h1".into(), version_no: no, content_hash: content_hash(&def), definition: def, created_at: "t".into() }
}

fn head(def: BoardDefinition) -> Option<(Harness, BoardVersion)> {
    let h = Harness {
        id: "h1".into(),
        name: "h".into(),
        description: None,
        folder_id: None,
        current_version: 1,
        has_draft: false,
        lock_version: 0,
        created_at: "t".into(),
        updated_at: "t".into(),
    };
    Some((h, version(def, 1)))
}

fn run_at(cell: &str, status: RunStatus) -> Run {
    Run {
        id: "r1".into(),
        harness_id: "h1".into(),
        board_version_no: 1,
        current_cell_id: cell.into(),
        status,
        project_path: Some("/p".into()),
        created_at: "t0".into(),
        last_heartbeat_at: None,
        updated_at: "t0".into(),
        inject_pending_since: Some("t0".into()),
        current_step_token: Some("tok-abc".into()),
    }
}

#[test]
fn reason_mapping() {
    assert_eq!(status_for_reason("user_closed"), Some(RunStatus::Closed));
    assert_eq!(status_for_reason("session_exited"), Some(RunStatus::Disconnected));
    assert_eq!(status_for_reason("weird"), None);
}

#[test]
fn session_events_update_status_and_stamp() {
    let r = apply_session_event(run_at("c1", RunStatus::Running), "user_closed", "t9".into()).unwrap();
    assert_eq!(r.status, RunStatus::Closed);
    assert_eq!(r.updated_at, "t9");
    assert!(apply_session_event(run_at("c1", RunStatus::Running), "other", "t9".into()).is_none());
}

#[test]
fn status_text_round_trips() {
    for s in [RunStatus::Running, RunStatus::Done, RunStatus::Stalled, RunStatus::Disconnected, RunStatus::Closed] {
        assert_eq!(parse_status(status_str(&s)), s);
    }
    assert_eq!(status_str(&RunStatus::Disconnected), "disconnected");
    assert_eq!(parse_status("garbage"), RunStatus::Running);
}

#[test]
fn start_run_creates_run_at_start_cell() {
    let plan = prepare_start_run(head(linear_board()), "h1").unwrap();
    assert_eq!(plan.start_cell_id, "c1");
    assert_eq!(plan.board_version_no, 1);
    let run = new_run(&plan, "r1".into(), "now".into(), Some("/p".into()));
    assert_eq!(run.current_cell_id, "c1");
    assert_eq!(run.status, RunStatus::Running);
    assert_eq!(run.board_version_no, 1);
    assert!(run.inject_pending_since.is_none() && run.last_heartbeat_at.is_none() && run.current_step_token.is_none());
    let out = start_output(plan, "r1".into());
    assert_eq!(out.cell_name, "step1");
    assert_eq!(out.prompt, "do step1");
    assert_eq!(out.edges.len(), 1);
    assert_eq!(out.edges[0].label, "next");
    assert_eq!(out.edges[0].to_cell_name, "step2");
}

#[test]
fn start_run_rejects_draft_cells() {
    let mut def = linear_board();
    def.cells[1].status = CellStatus::Draft;
    assert!(matches!(prepare_start_run(head(def), "h1").unwrap_err(), CoreError::DraftCellsExist));
}

#[test]
fn start_run_missing_harness_is_not_found() {
    assert!(matches!(prepare_start_run(None, "nope").unwrap_err(), CoreError::NotFound(ref s) if s == "nope"));
}

#[test]
fn start_run_without_start_cell_is_a_storage_error() {
    let mut def = linear_board();
    def.start = "gone".into();
    let e = prepare_start_run(head(def), "h1").unwrap_err();
    assert!(matches!(e, CoreError::Storage(ref m) if m == "start cell not found in board"));
}

#[test]
fn outgoing_edges_name_their_targets() {
    let mut def = linear_board();
    def.edges.push(Edge { from: "c2".into(), to: "ghost".into(), label: "lost".into(), guard: None });
    let es = outgoing_edges(&def, &"c2".to_string());
    assert_eq!(es.len(), 2);
    assert_eq!(es[0].to_cell_name, "end");
    assert_eq!(es[0].guard.as_deref(), Some("all green"));
    assert_eq!(es[1].to_cell_name, "");
}

#[test]
fn advance_moves_to_next_cell() {
    let run = check_running(Some(run_at("c1", RunStatus::Running)), "r1").unwrap();
    let (moved, out) = plan_advance(run, Some(version(linear_board(), 1)), &"next".to_string(), "t1".into()).unwrap();
    assert_eq!(out.cell_name, "step2");
    assert_eq!(out.prompt, "do step2");
    assert!(!out.terminal);
    assert_eq!(out.edges.len(), 1);
    assert_eq!(out.edges[0].label, "finish");
    assert_eq!(moved.current_cell_id, "c2");
    assert_eq!(moved.status, RunStatus::Running);
    assert_eq!(moved.updated_at, "t1");
}

#[test]
fn advance_to_terminal_cell_marks_run_done() {
    let (moved, out) = plan_advance(run_at("c2", RunStatus::Running), Some(version(linear_board(), 1)), &"finish".to_string(), "t1".into()).unwrap();
    assert!(out.terminal);
    assert!(out.edges.is_empty());
    assert_eq!(moved.status, RunStatus::Done);
}

#[test]
fn advance_refusals() {
    assert!(matches!(check_running(None, "rx").unwrap_err(), CoreError::NotFound(ref m) if m == "run not found: rx"));
    assert!(matches!(check_running(Some(run_at("c1", RunStatus::Done)), "r1").unwrap_err(), CoreError::RunNotRunning));
    let e = plan_advance(run_at("c1", RunStatus::Running), Some(version(linear_board(), 1)), &"nope".to_string(), "t".into()).unwrap_err();
    assert!(matches!(e, CoreError::NotFound(ref m) if m == "edge 'nope' not found from cell 'c1'"));
    let e = plan_advance(run_at("c1", RunStatus::Running), None, &"next".to_string(), "t".into()).unwrap_err();
    assert!(matches!(e, CoreError::Storage(ref m) if m == "pinned version 1 missing"));
    let mut def = linear_board();
    def.edges[0].to = "ghost".into();
    let e = plan_advance(run_at("c1", RunStatus::Running), Some(version(def, 1)), &"next".to_string(), "t".into()).unwrap_err();
    assert!(matches!(e, CoreError::Storage(ref m) if m == "target cell 'ghost' not found"));
}

#[test]
fn stopping_running_run_closes_it_and_clears_inject_and_token() {
    let fetched = Some(run_at("c10", RunStatus::Running));
    let out = plan_stop_run(&fetched, "r1").unwrap();
    assert_eq!(out.stopped_at_cell_id, "c10");
    assert_eq!(out.harness_id, "h1");
    assert!(out.was_in_flight);
    let run = stopped_run(fetched.unwrap(), "t2".into());
    assert_eq!(run.status, RunStatus::Closed);
    assert_eq!(run.current_step_token, None);
    assert_eq!(run.inject_pending_since, None);
    assert_eq!(run.current_cell_id, "c10");
}

#[test]
fn stopping_stalled_or_disconnected_closes() {
    for s in [RunStatus::Stalled, RunStatus::Disconnected] {
        let f = Some(run_at("c1", s));
        assert!(plan_stop_run(&f, "r1").unwrap().was_in_flight);
        assert_eq!(stopped_run(f.unwrap(), "t".into()).status, RunStatus::Closed);
    }
}

#[test]
fn stopping_finished_run_is_a_no_op() {
    for s in [RunStatus::Done, RunStatus::Closed] {
        let f = Some(run_at("c1", s));
        assert!(!plan_stop_run(&f, "r1").unwrap().was_in_flight);
        let r = stopped_run(f.unwrap(), "t".into());
        assert_eq!(r.status, s);
        assert_eq!(r.updated_at, "t0");
        assert_eq!(r.current_step_token.as_deref(), Some("tok-abc"));
    }
}

#[test]
fn stopping_twice_is_the_same_as_once() {
    let once = stopped_run(run_at("c1", RunStatus::Running), "t1".into());
    let twice = stopped_run(stopped_run(run_at("c1", RunStatus::Running), "t1".into()), "t2".into());
    assert_eq!(once.status, twice.status);
    assert_eq!(once.updated_at, twice.updated_at);
}

#[test]
fn stopping_missing_run_is_not_found() {
    assert!(matches!(plan_stop_run(&None, "nope").unwrap_err(), CoreError::NotFound(_)));
}
