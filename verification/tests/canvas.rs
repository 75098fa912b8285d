use sugo::board_edit::{prepare_add_cell, prepare_add_edge, prepare_delete_cell, prepare_delete_edge, prepare_rename_cell};
use sugo::content::content_hash;
use sugo::domain::{BoardDefinition, BoardVersion, Cell, CellStatus, Edge, Guard, Harness};

fn cell(id: &str, status: CellStatus) -> Cell {
    Cell { id: id.into(), name: id.into(), prompt: "p".into(), status, terminal: false, request_memo: String::new() }
}

fn fetched(cells: Vec<Cell>, edges: Vec<Edge>) -> Option<(Harness, BoardVersion)> {
    let def = BoardDefinition { schema_version: 1, start: "a".into(), cells, edges };
    let h = Harness {
        id: "h1".into(),
        name: "h".into(),
        description: None,
        folder_id: None,
        current_version: 3,
        has_draft: false,
        lock_version: 7,
        created_at: "t".into(),
        updated_at: "t".into(),
    };
    let v = BoardVersion { id: "v3".into(), harness_id: "h1".into(), version_no: 3, content_hash: content_hash(&def), definition: def, created_at: "t".into() };
    Some((h, v))
}

fn edge(from: &str, to: &str, label: &str) -> Edge {
    Edge { from: from.into(), to: to.into(), label: label.into(), guard: None }
}

#[test]
fn add_cell_appends_a_draft_and_bumps_version() {
    let p = prepare_add_cell(fetched(vec![cell("a", CellStatus::Active)], vec![]), "h1", "n1".into(), "new".into(), 7).unwrap();
    assert_eq!(p.version_no, 4);
    assert_eq!(p.lock_version, 8);
    let c = &p.definition.cells[1];
    assert_eq!((c.id.as_str(), c.name.as_str(), c.prompt.as_str()), ("n1", "new", ""));
    assert_eq!(c.status, CellStatus::Draft);
    assert!(!c.terminal);
}

#[test]
fn add_cell_unknown_harness_is_not_found() {
    assert_eq!(prepare_add_cell(None, "hx", "n".into(), "x".into(), 0).unwrap_err(), "not found: hx");
}

#[test]
fn rename_trims_and_rejects_empty() {
    let p = prepare_rename_cell(fetched(vec![cell("a", CellStatus::Active)], vec![]), "h1", "a".into(), "  nice  ", 7).unwrap();
    assert_eq!(p.definition.cells[0].name, "nice");
    assert_eq!(p.definition.cells[0].prompt, "p");
    assert_eq!(prepare_rename_cell(fetched(vec![], vec![]), "h1", "a".into(), "   ", 7).unwrap_err(), "empty_name");
    assert_eq!(prepare_rename_cell(fetched(vec![], vec![]), "h1", "a".into(), "x", 7).unwrap_err(), "not found: a");
}

#[test]
fn delete_cell_removes_draft_and_its_edges() {
    let p = prepare_delete_cell(
        fetched(vec![cell("a", CellStatus::Active), cell("d", CellStatus::Draft)], vec![edge("a", "d", "x"), edge("d", "a", "y"), edge("a", "a", "z")]),
        "h1",
        "d".into(),
        7,
    )
    .unwrap();
    assert_eq!(p.definition.cells.len(), 1);
    assert_eq!(p.definition.edges.len(), 1);
    assert_eq!(p.definition.edges[0].label, "z");
}

#[test]
fn delete_cell_rejects_non_draft() {
    let e = prepare_delete_cell(fetched(vec![cell("a", CellStatus::Active)], vec![]), "h1", "a".into(), 7).unwrap_err();
    assert_eq!(e, "not_draft");
}

#[test]
fn add_edge_trims_label_and_guard() {
    let p = prepare_add_edge(
        fetched(vec![cell("a", CellStatus::Active), cell("b", CellStatus::Active)], vec![]),
        "h1",
        "a".into(),
        "b".into(),
        "  go ",
        Some("  ok?  ".into()),
        7,
    )
    .unwrap();
    let e = &p.definition.edges[0];
    assert_eq!(e.label, "go");
    assert_eq!(e.guard.as_ref().map(|g| g.expr.as_str()), Some("ok?"));
    let p = prepare_add_edge(
        fetched(vec![cell("a", CellStatus::Active), cell("b", CellStatus::Active)], vec![]),
        "h1",
        "a".into(),
        "b".into(),
        "go",
        Some("   ".into()),
        7,
    )
    .unwrap();
    assert!(p.definition.edges[0].guard.is_none());
}

#[test]
fn add_edge_refusals() {
    let f = || fetched(vec![cell("a", CellStatus::Active), cell("b", CellStatus::Active)], vec![edge("a", "b", "go")]);
    assert_eq!(prepare_add_edge(f(), "h1", "a".into(), "b".into(), "  ", None, 7).unwrap_err(), "empty_label");
    assert_eq!(prepare_add_edge(f(), "h1", "a".into(), "zz".into(), "x", None, 7).unwrap_err(), "not found: zz");
    assert_eq!(prepare_add_edge(f(), "h1", "a".into(), "b".into(), " go ", None, 7).unwrap_err(), "duplicate_edge");
}

#[test]
fn delete_edge_removes_the_first_match_only() {
    let mut g = edge("a", "b", "go");
    g.guard = Some(Guard { expr: "g".into() });
    let p = prepare_delete_edge(
        fetched(vec![cell("a", CellStatus::Active), cell("b", CellStatus::Active)], vec![edge("b", "a", "back"), g, edge("a", "b", "go")]),
        "h1",
        "a".into(),
        "b".into(),
        "go".into(),
        7,
    )
    .unwrap();
    assert_eq!(p.definition.edges.len(), 2);
    assert_eq!(p.definition.edges[0].label, "back");
    assert!(p.definition.edges[1].guard.is_none());
    let e = prepare_delete_edge(fetched(vec![], vec![]), "h1", "a".into(), "b".into(), "go".into(), 7).unwrap_err();
    assert_eq!(e, "edge_not_found");
}
