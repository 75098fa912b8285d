use sha2::Digest;
use sugo::content::{board_to_json, content_hash, to_hex_lower};
use sugo::domain::{BoardDefinition, BoardVersion, Cell, CellStatus, Edge, Guard, Harness};
use sugo::error::CoreError;
use sugo::update::{apply_update, prepare_update_harness, update_output, CellAdd, CellChange, EdgeKey, UpdateHarnessInput};
use sugo::validate::IssueCode;
use sugo::versioning::{
    build_created_harness, check_append, commit_version, create_output, default_board, edit_output, prepare_create_harness,
    prepare_edit_cell, CreateHarnessInput, EditCellInput,
};

fn cell(id: &str, name: &str, prompt: &str, status: CellStatus, terminal: bool) -> Cell {
    Cell { id: id.into(), name: name.into(), prompt: prompt.into(), status, terminal, request_memo: String::new() }
}

fn two_cell_board() -> BoardDefinition {
    BoardDefinition {
        schema_version: 1,
        start: "c1".into(),
        cells: vec![cell("c1", "intro", "do intro", CellStatus::Active, false), cell("c2", "done", "wrap up", CellStatus::Active, true)],
        edges: vec![Edge { from: "c1".into(), to: "c2".into(), label: "next".into(), guard: None }],
    }
}

fn head(def: BoardDefinition, lock: i64) -> (Harness, BoardVersion) {
    let h = Harness {
        id: "h1".into(),
        name: "h".into(),
        description: None,
        folder_id: None,
        current_version: 1,
        has_draft: false,
        lock_version: lock,
        created_at: "t0".into(),
        updated_at: "t0".into(),
    };
    let v = BoardVersion {
        id: "v1".into(),
        harness_id: "h1".into(),
        version_no: 1,
        content_hash: content_hash(&def),
        definition: def,
        created_at: "t0".into(),
    };
    (h, v)
}

fn sha_hex(s: &str) -> String {
    sha2::Sha256::digest(s.as_bytes()).iter().map(|b| format!("{:02x}", b)).collect()
}

#[test]
fn content_hash_is_deterministic() {
    let make_def = || BoardDefinition {
        schema_version: 1,
        start: "c1".into(),
        cells: vec![cell("c1", "intro", "hello", CellStatus::Active, true)],
        edges: vec![],
    };
    assert_eq!(content_hash(&make_def()), content_hash(&make_def()));
}

#[test]
fn board_json_is_compact_in_field_order() {
    let mut def = two_cell_board();
    def.edges[0].guard = Some(Guard { expr: "x > \"1\"".into() });
    def.cells[0].request_memo = "memo\n".into();
    assert_eq!(
        board_to_json(&def),
        "{\"schema_version\":1,\"start\":\"c1\",\"cells\":[{\"id\":\"c1\",\"name\":\"intro\",\"prompt\":\"do intro\",\"status\":\"active\",\"terminal\":false,\"request_memo\":\"memo\\n\"},{\"id\":\"c2\",\"name\":\"done\",\"prompt\":\"wrap up\",\"status\":\"active\",\"terminal\":true,\"request_memo\":\"\"}],\"edges\":[{\"from\":\"c1\",\"to\":\"c2\",\"label\":\"next\",\"guard\":{\"expr\":\"x > \\\"1\\\"\"}}]}"
    );
}

#[test]
fn content_hash_is_sha256_hex_of_the_json() {
    let def = two_cell_board();
    let h = content_hash(&def);
    assert_eq!(h.len(), 64);
    assert_eq!(h, sha_hex(&board_to_json(&def)));
    // a different board hashes differently: the digest is not handed back unchanged
    let mut other = two_cell_board();
    other.cells[0].prompt = "changed".into();
    assert_ne!(content_hash(&other), h);
}

#[test]
fn hex_is_lowercase_two_digits_per_byte() {
    assert_eq!(to_hex_lower(&vec![0x00, 0x0f, 0xab, 0xff]), "000fabff");
}

#[test]
fn default_board_is_one_active_terminal_start_cell() {
    let d = default_board();
    assert_eq!(d.schema_version, 1);
    assert_eq!(d.start, "start");
    assert_eq!(d.cells.len(), 1);
    assert_eq!(d.cells[0].id, "start");
    assert_eq!(d.cells[0].status, CellStatus::Active);
    assert!(d.cells[0].terminal);
    assert!(d.edges.is_empty());
}

#[test]
fn creating_uses_the_default_board_and_version_one() {
    let (name, desc, def) =
        prepare_create_harness(CreateHarnessInput { name: "  mine ".into(), description: Some("d".into()), definition: None }).unwrap();
    assert_eq!(name, "mine");
    assert_eq!(desc.as_deref(), Some("d"));
    assert_eq!(def.start, "start");
    let (h, v) = build_created_harness(name, desc, def, "h9".into(), "v9".into(), "now".into());
    assert_eq!(h.current_version, 1);
    assert_eq!(h.lock_version, 0);
    assert!(!h.has_draft);
    assert!(h.folder_id.is_none());
    assert_eq!(v.version_no, 1);
    assert_eq!(v.harness_id, "h9");
    assert_eq!(v.content_hash, content_hash(&v.definition));
    let out = create_output(&h);
    assert_eq!((out.harness_id.as_str(), out.version_no, out.lock_version), ("h9", 1, 0));
}

#[test]
fn creating_with_an_empty_name_fails() {
    let err = prepare_create_harness(CreateHarnessInput { name: " ".into(), description: None, definition: None }).unwrap_err();
    assert!(matches!(err, CoreError::Validation(ref v) if v[0].code == IssueCode::InvalidHarnessName));
}

#[test]
fn a_draft_board_creates_a_head_with_drafts() {
    let mut def = two_cell_board();
    def.cells[1].status = CellStatus::Draft;
    let (h, _) = build_created_harness("n".into(), None, def, "h".into(), "v".into(), "t".into());
    assert!(h.has_draft);
}

#[test]
fn editing_a_prompt_makes_the_next_version() {
    let p = prepare_edit_cell(
        Some(head(two_cell_board(), 0)),
        EditCellInput { harness_id: "h1".into(), cell_id: "c2".into(), prompt: "new".into(), expected_lock_version: 0 },
    )
    .unwrap();
    assert_eq!(p.version_no, 2);
    assert_eq!(p.lock_version, 1);
    assert_eq!(p.definition.cells[1].prompt, "new");
    assert_eq!(p.definition.cells[0].prompt, "do intro");
    let (h, v) = commit_version(p, "v2".into(), "t1".into());
    assert_eq!(h.current_version, 2);
    assert_eq!(h.lock_version, 1);
    assert_eq!(h.updated_at, "t1");
    assert_eq!(h.created_at, "t0");
    assert_eq!(v.id, "v2");
    assert_eq!(v.version_no, 2);
    assert_eq!(v.content_hash, content_hash(&v.definition));
    let out = edit_output(&h);
    assert_eq!((out.new_version, out.lock_version), (2, 1));
}

#[test]
fn editing_with_a_stale_lock_conflicts() {
    let err = prepare_edit_cell(
        Some(head(two_cell_board(), 3)),
        EditCellInput { harness_id: "h1".into(), cell_id: "c2".into(), prompt: "new".into(), expected_lock_version: 2 },
    )
    .unwrap_err();
    assert!(matches!(err, CoreError::LockConflict { expected: 2, actual: 3 }));
}

#[test]
fn editing_an_unknown_cell_or_harness_is_not_found() {
    let err = prepare_edit_cell(
        Some(head(two_cell_board(), 0)),
        EditCellInput { harness_id: "h1".into(), cell_id: "zz".into(), prompt: "new".into(), expected_lock_version: 0 },
    )
    .unwrap_err();
    assert!(matches!(err, CoreError::NotFound(ref s) if s == "cell zz"));
    let err = prepare_edit_cell(
        None,
        EditCellInput { harness_id: "h7".into(), cell_id: "c1".into(), prompt: "new".into(), expected_lock_version: 0 },
    )
    .unwrap_err();
    assert!(matches!(err, CoreError::NotFound(ref s) if s == "h7"));
}

fn empty_update(lock: i64) -> UpdateHarnessInput {
    UpdateHarnessInput {
        harness_id: "h1".into(),
        expected_lock_version: lock,
        cell_changes: vec![],
        cell_add: vec![],
        edge_add: vec![],
        edge_remove: vec![],
        cell_remove: vec![],
    }
}

#[test]
fn update_applies_changes_adds_and_edge_edits() {
    let mut u = empty_update(0);
    u.cell_changes.push(CellChange { cell_id: "c2".into(), prompt: Some("p2".into()), status: Some(CellStatus::Draft), memo: Some("  fix it  ".into()) });
    u.cell_add.push(CellAdd { id: "c3".into(), name: "three".into(), prompt: "p3".into(), status: CellStatus::Active, terminal: true });
    u.edge_add.push(Edge { from: "c2".into(), to: "c3".into(), label: "on".into(), guard: Some(Guard { expr: "g".into() }) });
    u.edge_remove.push(EdgeKey { from: "c1".into(), to: "c2".into(), label: "next".into() });
    let d = apply_update(&two_cell_board(), &u).unwrap();
    assert_eq!(d.cells.len(), 3);
    assert_eq!(d.cells[1].prompt, "p2");
    assert_eq!(d.cells[1].status, CellStatus::Draft);
    assert_eq!(d.cells[1].request_memo, "fix it");
    assert_eq!(d.cells[2].id, "c3");
    assert_eq!(d.edges.len(), 1);
    assert_eq!(d.edges[0].label, "on");
}

#[test]
fn update_removing_a_cell_drops_its_edges() {
    let mut u = empty_update(0);
    u.cell_remove.push("c2".into());
    let d = apply_update(&two_cell_board(), &u).unwrap();
    assert_eq!(d.cells.len(), 1);
    assert!(d.edges.is_empty());
}

#[test]
fn update_refuses_start_removal_and_duplicate_adds() {
    let mut u = empty_update(0);
    u.cell_remove.push("c1".into());
    match apply_update(&two_cell_board(), &u).unwrap_err() {
        CoreError::Validation(v) => {
            assert_eq!(v[0].code, IssueCode::CannotRemoveStartCell);
            assert_eq!(v[0].message, "cannot remove start cell 'c1'");
        }
        e => panic!("unexpected {:?}", e),
    }
    let mut u = empty_update(0);
    u.cell_add.push(CellAdd { id: "c1".into(), name: "dup".into(), prompt: "".into(), status: CellStatus::Active, terminal: false });
    match apply_update(&two_cell_board(), &u).unwrap_err() {
        CoreError::Validation(v) => {
            assert_eq!(v[0].code, IssueCode::DuplicateCellId);
            assert_eq!(v[0].message, "cell id 'c1' already exists");
        }
        e => panic!("unexpected {:?}", e),
    }
}

#[test]
fn update_with_an_unknown_cell_change_is_not_found() {
    let mut u = empty_update(0);
    u.cell_changes.push(CellChange { cell_id: "zz".into(), prompt: None, status: None, memo: None });
    assert!(matches!(apply_update(&two_cell_board(), &u).unwrap_err(), CoreError::NotFound(_)));
}

#[test]
fn prepared_update_checks_the_lock_and_bumps() {
    let err = prepare_update_harness(Some(head(two_cell_board(), 5)), &empty_update(4)).unwrap_err();
    assert!(matches!(err, CoreError::LockConflict { expected: 4, actual: 5 }));
    let p = prepare_update_harness(Some(head(two_cell_board(), 5)), &empty_update(5)).unwrap();
    assert_eq!((p.version_no, p.lock_version), (2, 6));
    let (h, _) = commit_version(p, "v2".into(), "t".into());
    let out = update_output(&h);
    assert_eq!((out.harness_id.as_str(), out.new_version, out.lock_version), ("h1", 2, 6));
}

#[test]
fn append_checks_existence_and_lock() {
    let (h, _) = head(two_cell_board(), 2);
    assert!(check_append(&Some(h), &"h1".to_string(), 2).is_ok());
    let (h, _) = head(two_cell_board(), 2);
    assert!(matches!(check_append(&Some(h), &"h1".to_string(), 1), Err(CoreError::LockConflict { expected: 1, actual: 2 })));
    assert!(matches!(check_append(&None, &"h1".to_string(), 1), Err(CoreError::NotFound(ref s)) if s == "h1"));
}

#[test]
fn refused_edits_report_their_error_even_at_the_counter_limit() {
    let (h, mut v) = head(two_cell_board(), i64::MAX);
    v.version_no = i64::MAX;
    let err = prepare_edit_cell(
        Some((h.copy(), v.copy())),
        EditCellInput { harness_id: "h1".into(), cell_id: "c1".into(), prompt: "new".into(), expected_lock_version: 0 },
    )
    .unwrap_err();
    assert!(matches!(err, CoreError::LockConflict { expected: 0, actual: i64::MAX }));
    let err = prepare_edit_cell(
        Some((h, v)),
        EditCellInput { harness_id: "h1".into(), cell_id: "zz".into(), prompt: "new".into(), expected_lock_version: i64::MAX },
    )
    .unwrap_err();
    assert!(matches!(err, CoreError::NotFound(ref s) if s == "cell zz"));
}

#[test]
fn update_drops_added_edges_that_touch_a_removed_cell() {
    let mut u = empty_update(0);
    u.cell_add.push(CellAdd { id: "c3".into(), name: "three".into(), prompt: "p3".into(), status: CellStatus::Active, terminal: true });
    u.cell_remove.push("c2".into());
    u.edge_add.push(Edge { from: "c1".into(), to: "c2".into(), label: "back".into(), guard: None });
    u.edge_add.push(Edge { from: "c2".into(), to: "c3".into(), label: "on".into(), guard: None });
    u.edge_add.push(Edge { from: "c1".into(), to: "c3".into(), label: "skip".into(), guard: None });
    let d = apply_update(&two_cell_board(), &u).unwrap();
    let labels: Vec<&str> = d.edges.iter().map(|e| e.label.as_str()).collect();
    assert_eq!(labels, vec!["skip"]);
    assert!(d.edges.iter().all(|e| e.from != "c2" && e.to != "c2"));
}
