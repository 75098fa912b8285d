use sugo::content::content_hash;
use sugo::domain::{BoardDefinition, BoardVersion, Cell, CellStatus, Edge, Folder, Guard, Harness};
use sugo::error::CoreError;
use sugo::stall::{cwd_matches, fresher, stall_info, transcript_mentions};
use sugo::status::{
    baseline_next, baseline_start, cell_detail, delete_folder_result, draft_diff, folder_dto, harness_detail, harness_status,
    harness_summary_dto, list_summaries, validate_fetched, BaselineStep,
};

fn cell(id: &str, status: CellStatus, memo: &str) -> Cell {
    Cell { id: id.into(), name: format!("n-{id}"), prompt: format!("p-{id}"), status, terminal: true, request_memo: memo.into() }
}

fn board(cells: Vec<Cell>) -> BoardDefinition {
    BoardDefinition {
        schema_version: 1,
        start: "c1".into(),
        cells,
        edges: vec![Edge { from: "c1".into(), to: "c2".into(), label: "go".into(), guard: Some(Guard { expr: "g".into() }) }],
    }
}

fn version(def: BoardDefinition, no: i64) -> BoardVersion {
    BoardVersion { id: format!("v{no}"), harness_id: "h1".into(), version_no: no, content_hash: content_hash(&def), definition: def, created_at: "t".into() }
}

fn harness(folder: Option<&str>) -> Harness {
    Harness {
        id: "h1".into(),
        name: "h".into(),
        description: Some("d".into()),
        folder_id: folder.map(String::from),
        current_version: 3,
        has_draft: true,
        lock_version: 5,
        created_at: "t".into(),
        updated_at: "t".into(),
    }
}

#[test]
fn baseline_walk_starts_below_the_head() {
    assert!(matches!(baseline_start(3), BaselineStep::Fetch(2)));
    assert!(matches!(baseline_start(1), BaselineStep::Found(ref v) if v.is_empty()));
}

#[test]
fn baseline_walk_skips_drafty_and_missing_versions() {
    let drafty = version(board(vec![cell("c1", CellStatus::Active, ""), cell("c2", CellStatus::Draft, "")]), 2);
    assert!(matches!(baseline_next(2, Some(drafty)), BaselineStep::Fetch(1)));
    assert!(matches!(baseline_next(2, None), BaselineStep::Fetch(1)));
    let clean = version(board(vec![cell("c1", CellStatus::Active, ""), cell("c0", CellStatus::Active, "")]), 1);
    match baseline_next(1, Some(clean)) {
        BaselineStep::Found(ids) => assert_eq!(ids, vec!["c1".to_string(), "c0".to_string()]),
        other => panic!("unexpected {:?}", other),
    }
    assert!(matches!(baseline_next(1, None), BaselineStep::Found(ref v) if v.is_empty()));
}

#[test]
fn draft_diff_lists_new_drafts_with_memo() {
    let cells = vec![cell("c1", CellStatus::Active, ""), cell("c2", CellStatus::Draft, "please"), cell("c3", CellStatus::Draft, "")];
    let d = draft_diff(&cells, &vec!["c1".to_string(), "c3".to_string()]);
    assert_eq!(d.len(), 1);
    assert_eq!(d[0].cell_id, "c2");
    assert_eq!(d[0].name, "n-c2");
    assert_eq!(d[0].memo, "please");
    // with no baseline every draft is listed
    assert_eq!(draft_diff(&cells, &vec![]).len(), 2);
}

#[test]
fn status_carries_head_fields_and_diff() {
    let def = board(vec![cell("c1", CellStatus::Active, ""), cell("c2", CellStatus::Draft, "m")]);
    let st = harness_status(Some((harness(None), version(def, 3))), "h1", &vec!["c1".to_string()]).unwrap();
    assert_eq!(st.harness_id, "h1");
    assert_eq!(st.current_version, 3);
    assert!(st.has_draft);
    assert_eq!(st.draft_diff.len(), 1);
    assert_eq!(st.definition.cells.len(), 2);
    assert!(matches!(harness_status(None, "hx", &vec![]).unwrap_err(), CoreError::NotFound(ref s) if s == "hx"));
}

#[test]
fn get_harness_detail_has_start_cells_edges_and_lock() {
    let def = board(vec![cell("c1", CellStatus::Active, ""), cell("c2", CellStatus::Draft, "m")]);
    let st = harness_status(Some((harness(None), version(def, 3))), "h1", &vec![]).unwrap();
    let d = harness_detail(&st, Some(5));
    assert_eq!(d.lock_version, 5);
    assert_eq!(d.start_cell_id, "c1");
    assert_eq!(d.cells[1].status, "draft");
    assert_eq!(d.cells[0].status, "active");
    assert_eq!(d.cells[1].memo, "m");
    assert_eq!(d.cells[1].prompt, "p-c2");
    assert_eq!(d.edges[0].guard.as_deref(), Some("g"));
    assert_eq!(d.draft_diff.len(), 1);
    assert_eq!(harness_detail(&st, None).lock_version, 0);
}

#[test]
fn summaries_keep_order_and_description() {
    let mut b = harness(None);
    b.id = "h2".into();
    let s = list_summaries(vec![harness(None), b]);
    assert_eq!(s.len(), 2);
    assert_eq!(s[0].harness_id, "h1");
    assert_eq!(s[1].harness_id, "h2");
    assert_eq!(s[0].description.as_deref(), Some("d"));
}

fn folder(id: &str, name: &str) -> Folder {
    Folder { id: id.into(), name: name.into(), parent_id: None, sort_order: 0, created_at: "t".into(), updated_at: "t".into() }
}

#[test]
fn listed_harness_shows_its_folder_name() {
    let folders = vec![(folder("f1", "開発"), 1), (folder("f2", "運用"), 0)];
    let d = harness_summary_dto(&harness(Some("f2")), &folders);
    assert_eq!(d.folder_id.as_deref(), Some("f2"));
    assert_eq!(d.folder_name.as_deref(), Some("運用"));
    assert!(harness_summary_dto(&harness(Some("zz")), &folders).folder_name.is_none());
    assert!(harness_summary_dto(&harness(None), &folders).folder_id.is_none());
    let f = folder_dto(&folders[0].0, folders[0].1);
    assert_eq!((f.folder_id.as_str(), f.name.as_str(), f.harness_count), ("f1", "開発", 1));
    let r = delete_folder_result("開発".into(), 3);
    assert_eq!(r.moved_to_uncategorized, 3);
}

#[test]
fn get_cell_returns_full_detail_or_not_found() {
    let def = board(vec![cell("c1", CellStatus::Active, "memo1")]);
    let c = cell_detail(&def, &"c1".to_string()).unwrap();
    assert_eq!(c.prompt, "p-c1");
    assert_eq!(c.request_memo, "memo1");
    assert!(matches!(cell_detail(&def, &"zz".to_string()).unwrap_err(), CoreError::NotFound(ref s) if s == "zz"));
}

#[test]
fn validating_a_stored_harness() {
    let def = board(vec![cell("c1", CellStatus::Active, ""), cell("c2", CellStatus::Active, "")]);
    let r = validate_fetched(&Some((harness(None), version(def, 3))), "h1").unwrap();
    assert!(r.ok);
    assert!(matches!(validate_fetched(&None, "hx").unwrap_err(), CoreError::NotFound(_)));
}

#[test]
fn returns_not_stalled_for_unknown_path() {
    let info = stall_info(None, 60);
    assert!(!info.is_stalled);
    assert!(info.secs_since_last_modified.is_none());
}

#[test]
fn stall_uses_the_freshest_transcript() {
    let m = fresher(fresher(fresher(None, 500), 120), 300);
    assert_eq!(m, Some(120));
    assert!(!stall_info(m, 300).is_stalled);
    assert!(stall_info(Some(301), 300).is_stalled);
    assert!(!stall_info(Some(300), 300).is_stalled);
}

#[test]
fn jsonl_record_cwd_matching_logic() {
    let lines = vec![
        r#"{"type":"message","cwd":"/my/special/project"}"#.to_string(),
        r#"{"type":"result","cwd":"/my/special/project"}"#.to_string(),
    ];
    assert!(transcript_mentions(&lines, "/my/special/project"));
    assert!(!transcript_mentions(&lines, "/other/project"));
    let odd = vec!["not json".to_string(), r#"{"cwd":5}"#.to_string(), r#"{"x":"/p"}"#.to_string()];
    assert!(!transcript_mentions(&odd, "/p"));
    assert!(cwd_matches(Some("/p".into()), "/p"));
    assert!(!cwd_matches(None, "/p"));
}
