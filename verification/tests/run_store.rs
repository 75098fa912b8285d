use sugo::domain::{Run, RunStatus};
use sugo::error::CoreError;
use sugo::run_store::{MemoryRunRepository, RunRepository};
use sugo::text::text_less;

fn sample_run(id: &str, harness_id: &str, cell_id: &str) -> Run {
    Run {
        id: id.into(),
        harness_id: harness_id.into(),
        board_version_no: 3,
        current_cell_id: cell_id.into(),
        status: RunStatus::Running,
        project_path: Some("/abs/project".into()),
        created_at: "2026-01-01T00:00:00+09:00".into(),
        last_heartbeat_at: Some("2026-01-01T00:00:05+09:00".into()),
        updated_at: "2026-01-01T00:00:05+09:00".into(),
        inject_pending_since: Some("2026-01-01T00:00:04+09:00".into()),
        current_step_token: Some("tok-seed".into()),
    }
}

#[test]
fn run_store_create_get_roundtrip() {
    let mut repo = MemoryRunRepository::new();
    let run = sample_run("r1", "h1", "c1");
    repo.create(&run).expect("create ok");
    let got = repo.get("r1").expect("get ok").expect("present");
    assert_eq!(got.id, run.id);
    assert_eq!(got.harness_id, run.harness_id);
    assert_eq!(got.board_version_no, run.board_version_no);
    assert_eq!(got.current_cell_id, run.current_cell_id);
    assert_eq!(got.status, run.status);
    assert_eq!(got.project_path, run.project_path);
    assert_eq!(got.created_at, run.created_at);
    assert_eq!(got.last_heartbeat_at, run.last_heartbeat_at);
    assert_eq!(got.updated_at, run.updated_at);
    assert_eq!(got.inject_pending_since, run.inject_pending_since);
    assert_eq!(got.current_step_token, run.current_step_token);
}

#[test]
fn run_store_get_missing_returns_none() {
    let repo = MemoryRunRepository::new();
    assert!(repo.get("nope").expect("get ok").is_none());
}

#[test]
fn run_store_duplicate_id_rejected() {
    let mut repo = MemoryRunRepository::new();
    let run = sample_run("r1", "h1", "c1");
    repo.create(&run).expect("create ok");
    match repo.create(&run) {
        Err(CoreError::Storage(m)) => assert_eq!(m, "duplicate run id: r1"),
        other => panic!("expected a storage error, got {other:?}"),
    }
}

#[test]
fn run_store_set_position_writes_only_position_and_status() {
    let mut repo = MemoryRunRepository::new();
    repo.create(&sample_run("r1", "h1", "c1")).expect("create ok");
    repo.set_position("r1", "c2", RunStatus::Done, "2026-01-01T00:01:00+09:00").expect("set_position ok");
    let got = repo.get("r1").expect("get ok").expect("present");
    assert_eq!(got.current_cell_id, "c2");
    assert_eq!(got.status, RunStatus::Done);
    assert_eq!(got.updated_at, "2026-01-01T00:01:00+09:00");
    assert_eq!(got.harness_id, "h1");
    assert_eq!(got.board_version_no, 3);
    assert_eq!(got.project_path.as_deref(), Some("/abs/project"));
    assert_eq!(got.created_at, "2026-01-01T00:00:00+09:00");
    assert_eq!(got.last_heartbeat_at.as_deref(), Some("2026-01-01T00:00:05+09:00"));
    assert_eq!(got.inject_pending_since.as_deref(), Some("2026-01-01T00:00:04+09:00"));
    assert_eq!(got.current_step_token.as_deref(), Some("tok-seed"));
}

#[test]
fn run_store_set_status_writes_only_status() {
    let mut repo = MemoryRunRepository::new();
    repo.create(&sample_run("r1", "h1", "c1")).expect("create ok");
    repo.set_status("r1", RunStatus::Closed, "2026-01-01T00:01:00+09:00").expect("set_status ok");
    let got = repo.get("r1").expect("get ok").expect("present");
    assert_eq!(got.status, RunStatus::Closed);
    assert_eq!(got.updated_at, "2026-01-01T00:01:00+09:00");
    assert_eq!(got.current_cell_id, "c1");
    assert_eq!(got.last_heartbeat_at.as_deref(), Some("2026-01-01T00:00:05+09:00"));
    assert_eq!(got.current_step_token.as_deref(), Some("tok-seed"));
}

#[test]
fn run_store_writers_report_missing_run() {
    let mut repo = MemoryRunRepository::new();
    let err = repo
        .set_position("nope", "c2", RunStatus::Running, "2026-01-01T00:01:00+09:00")
        .expect_err("set_position on a missing run must fail");
    assert!(matches!(err, CoreError::NotFound(ref id) if id == "nope"));
    let err = repo
        .set_status("nope", RunStatus::Closed, "2026-01-01T00:01:00+09:00")
        .expect_err("set_status on a missing run must fail");
    assert!(matches!(err, CoreError::NotFound(ref id) if id == "nope"));
}

#[test]
fn run_store_heartbeat_writes_only_heartbeat() {
    let mut repo = MemoryRunRepository::new();
    repo.create(&sample_run("r1", "h1", "c1")).expect("create ok");
    repo.update_heartbeat("r1", "2026-01-01T00:02:00+09:00").expect("setter ok");
    let got = repo.get("r1").expect("get ok").expect("present");
    assert_eq!(got.last_heartbeat_at.as_deref(), Some("2026-01-01T00:02:00+09:00"));
    assert_eq!(got.current_cell_id, "c1");
    assert_eq!(got.status, RunStatus::Running);
    assert_eq!(got.updated_at, "2026-01-01T00:00:05+09:00");
}

#[test]
fn run_store_set_inject_pending_roundtrip() {
    let mut repo = MemoryRunRepository::new();
    repo.create(&sample_run("r1", "h1", "c1")).expect("create ok");
    repo.set_inject_pending("r1", Some("2026-01-01T00:03:00+09:00")).expect("setter ok");
    let got = repo.get("r1").expect("get ok").expect("present");
    assert_eq!(got.inject_pending_since.as_deref(), Some("2026-01-01T00:03:00+09:00"));
    assert_eq!(got.current_step_token.as_deref(), Some("tok-seed"));
    repo.set_inject_pending("r1", None).expect("setter ok");
    let got = repo.get("r1").expect("get ok").expect("present");
    assert_eq!(got.inject_pending_since, None);
    assert_eq!(got.current_step_token.as_deref(), Some("tok-seed"));
}

#[test]
fn run_store_set_step_token_roundtrip() {
    let mut repo = MemoryRunRepository::new();
    repo.create(&sample_run("r1", "h1", "c1")).expect("create ok");
    repo.set_step_token("r1", Some("tok-next")).expect("setter ok");
    let got = repo.get("r1").expect("get ok").expect("present");
    assert_eq!(got.current_step_token.as_deref(), Some("tok-next"));
    repo.set_step_token("r1", None).expect("setter ok");
    let got = repo.get("r1").expect("get ok").expect("present");
    assert_eq!(got.current_step_token, None);
    assert_eq!(got.inject_pending_since.as_deref(), Some("2026-01-01T00:00:04+09:00"));
}

#[test]
fn run_store_setters_ignore_missing_run() {
    let mut repo = MemoryRunRepository::new();
    repo.create(&sample_run("r1", "h1", "c1")).expect("create ok");
    repo.update_heartbeat("nope", "2026-01-01T00:02:00+09:00").expect("setter ok");
    repo.set_inject_pending("nope", Some("2026-01-01T00:02:00+09:00")).expect("setter ok");
    repo.set_step_token("nope", Some("tok")).expect("setter ok");
    assert!(repo.get("nope").expect("get ok").is_none());
    let got = repo.get("r1").expect("get ok").expect("present");
    assert_eq!(got.last_heartbeat_at.as_deref(), Some("2026-01-01T00:00:05+09:00"));
    assert_eq!(got.current_step_token.as_deref(), Some("tok-seed"));
}

#[test]
fn run_store_list_by_harness_is_newest_first() {
    let mut repo = MemoryRunRepository::new();
    let mut older = sample_run("r-old", "h1", "c1");
    older.created_at = "2026-01-01T00:00:00+09:00".into();
    let mut newer = sample_run("r-new", "h1", "c2");
    newer.created_at = "2026-01-02T00:00:00+09:00".into();
    let other = sample_run("r-other", "h2", "c1");
    repo.create(&older).expect("create ok");
    repo.create(&newer).expect("create ok");
    repo.create(&other).expect("create ok");
    let listed = repo.list_by_harness("h1").expect("list ok");
    let ids: Vec<&str> = listed.iter().map(|r| r.id.as_str()).collect();
    assert_eq!(ids, vec!["r-new", "r-old"]);
    assert!(repo.list_by_harness("h3").expect("list ok").is_empty());
}

#[test]
fn run_store_list_orders_three_runs_whatever_the_insert_order() {
    let mut repo = MemoryRunRepository::new();
    for (id, at) in [("b", "2026-02-01T00:00:00Z"), ("c", "2026-03-01T00:00:00Z"), ("a", "2026-01-01T00:00:00Z")] {
        let mut r = sample_run(id, "h1", "c1");
        r.created_at = at.into();
        repo.create(&r).expect("create ok");
    }
    let ids: Vec<String> = repo.list_by_harness("h1").expect("list ok").into_iter().map(|r| r.id).collect();
    assert_eq!(ids, vec!["c", "b", "a"]);
}

#[test]
fn text_less_orders_by_code_point_with_prefix_first() {
    assert!(text_less("a", "b"));
    assert!(!text_less("b", "a"));
    assert!(text_less("ab", "abc"));
    assert!(!text_less("abc", "ab"));
    assert!(!text_less("same", "same"));
    assert!(text_less("", "x"));
    assert!(text_less("Z", "a"));
    assert!(text_less("あ", "い"));
}
