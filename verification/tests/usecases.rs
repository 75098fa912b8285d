use sugo::agent::{inject_end, inject_start, InjectEnd, InjectStep, NipperOutcome};
use sugo::clock::RealIdClock;
use sugo::content::content_hash;
use sugo::domain::{BoardDefinition, BoardVersion, Cell, CellStatus, Edge, Harness};
use sugo::error::CoreError;
use sugo::names::other_names;
use sugo::store::{HarnessRepository, MemoryRepository};
use sugo::update::{CellAdd, UpdateHarnessInput};
use sugo::usecase::update_harness;

fn board() -> BoardDefinition {
    let cell = |id: &str, terminal: bool| Cell {
        id: id.into(),
        name: id.into(),
        prompt: "p".into(),
        status: CellStatus::Active,
        terminal,
        request_memo: String::new(),
    };
    BoardDefinition {
        schema_version: 1,
        start: "c1".into(),
        cells: vec![cell("c1", false), cell("c2", true)],
        edges: vec![Edge { from: "c1".into(), to: "c2".into(), label: "next".into(), guard: None }],
    }
}

fn seeded() -> MemoryRepository {
    let mut repo = MemoryRepository::new();
    let def = board();
    let h = Harness {
        id: "h1".into(),
        name: "first".into(),
        description: None,
        folder_id: None,
        current_version: 1,
        has_draft: false,
        lock_version: 0,
        created_at: "t0".into(),
        updated_at: "t0".into(),
    };
    let v = BoardVersion { id: "v1".into(), harness_id: "h1".into(), version_no: 1, content_hash: content_hash(&def), definition: def, created_at: "t0".into() };
    repo.create(&h, &v).unwrap();
    repo
}

fn input(lock: i64) -> UpdateHarnessInput {
    UpdateHarnessInput {
        harness_id: "h1".into(),
        expected_lock_version: lock,
        cell_changes: vec![],
        cell_add: vec![CellAdd { id: "c3".into(), name: "three".into(), prompt: "p3".into(), status: CellStatus::Draft, terminal: false }],
        edge_add: vec![Edge { from: "c2".into(), to: "c3".into(), label: "more".into(), guard: None }],
        edge_remove: vec![],
        cell_remove: vec![],
    }
}

#[test]
fn update_harness_stores_the_next_version_and_keeps_the_old_one() {
    let mut repo = seeded();
    let out = update_harness(&mut repo, &RealIdClock, &input(0)).unwrap();
    assert_eq!((out.harness_id.as_str(), out.new_version, out.lock_version), ("h1", 2, 1));
    let (h, v) = repo.get("h1").unwrap().unwrap();
    assert_eq!((h.current_version, h.lock_version, v.version_no), (2, 1, 2));
    assert_eq!(h.name, "first");
    assert!(h.has_draft);
    assert_eq!(v.definition.cells.len(), 3);
    assert_eq!(v.definition.edges.len(), 2);
    let old = repo.get_version("h1", 1).unwrap().unwrap();
    assert_eq!(old.definition.cells.len(), 2);
}

#[test]
fn update_harness_with_a_stale_lock_writes_nothing() {
    let mut repo = seeded();
    match update_harness(&mut repo, &RealIdClock, &input(7)) {
        Err(CoreError::LockConflict { expected: 7, actual: 0 }) => {}
        other => panic!("expected a lock conflict, got {other:?}"),
    }
    let (h, v) = repo.get("h1").unwrap().unwrap();
    assert_eq!((h.current_version, h.lock_version, v.version_no), (1, 0, 1));
    assert!(repo.get_version("h1", 2).unwrap().is_none());
}

#[test]
fn update_harness_of_an_unknown_harness_is_not_found() {
    let mut repo = seeded();
    let mut i = input(0);
    i.harness_id = "nope".into();
    assert!(matches!(update_harness(&mut repo, &RealIdClock, &i), Err(CoreError::NotFound(ref s)) if s == "nope"));
}

#[test]
fn inject_marks_pending_only_before_a_non_terminal_cell() {
    assert_eq!(inject_start(true, false), InjectStep::Send { mark_pending: true });
    assert_eq!(inject_start(true, true), InjectStep::Send { mark_pending: false });
    assert_eq!(inject_start(false, false), InjectStep::Skip);
}

#[test]
fn inject_end_refuses_failures_and_detaches_at_the_end() {
    match inject_end(NipperOutcome::Unreachable, false) {
        InjectEnd::Refuse(r) => assert_eq!(r.code, "nipper_unreachable"),
        other => panic!("unexpected {other:?}"),
    }
    assert!(matches!(inject_end(NipperOutcome::Accepted, true), InjectEnd::Detach));
    assert!(matches!(inject_end(NipperOutcome::Accepted, false), InjectEnd::Done));
}

#[test]
fn other_names_leaves_out_the_renamed_harness() {
    let mk = |id: &str, name: &str| Harness {
        id: id.into(),
        name: name.into(),
        description: None,
        folder_id: None,
        current_version: 1,
        has_draft: false,
        lock_version: 0,
        created_at: "t".into(),
        updated_at: "t".into(),
    };
    let heads = vec![mk("a", "alpha"), mk("b", "beta"), mk("c", "gamma")];
    assert_eq!(other_names(&heads, "b"), vec!["alpha".to_string(), "gamma".to_string()]);
}
