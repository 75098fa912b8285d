use sugo::domain::{BoardDefinition, Cell, CellStatus, Edge};
use sugo::validate::{err, validate_board, IssueCode, Severity, ValidationIssue, ValidationReport};

fn cell(id: &str, terminal: bool, status: CellStatus) -> Cell {
    Cell { id: id.into(), name: id.into(), prompt: "p".into(), status, terminal, request_memo: "".into() }
}
fn edge(from: &str, to: &str) -> Edge {
    Edge { from: from.into(), to: to.into(), label: "l".into(), guard: None }
}
fn board(cells: Vec<Cell>, edges: Vec<Edge>, start: &str) -> BoardDefinition {
    BoardDefinition { schema_version: 1, start: start.into(), cells, edges }
}
fn find(r: &ValidationReport, code: IssueCode) -> Option<&ValidationIssue> {
    r.issues.iter().find(|i| i.code == code)
}

#[test]
fn valid_board_is_ok() {
    let b = board(
        vec![cell("c1", false, CellStatus::Active), cell("c2", true, CellStatus::Active)],
        vec![edge("c1", "c2")],
        "c1",
    );
    let r = validate_board(&b);
    assert!(r.ok);
    assert!(r.issues.is_empty());
}

#[test]
fn detects_duplicate_cell_id() {
    let b = board(vec![cell("c1", true, CellStatus::Active), cell("c1", false, CellStatus::Active)], vec![], "c1");
    let r = validate_board(&b);
    let issue = find(&r, IssueCode::DuplicateCellId).expect("duplicate_cell_id issue");
    assert_eq!(issue.severity, Severity::Error);
    assert!(!r.ok);
}

#[test]
fn detects_start_missing() {
    let b = board(vec![cell("c1", true, CellStatus::Active)], vec![], "nope");
    let r = validate_board(&b);
    let issue = find(&r, IssueCode::StartMissing).expect("start_missing issue");
    assert_eq!(issue.severity, Severity::Error);
    assert!(!r.ok);
}

#[test]
fn detects_unknown_cell_ref() {
    let b = board(vec![cell("c1", true, CellStatus::Active)], vec![edge("c1", "ghost")], "c1");
    let r = validate_board(&b);
    let issue = find(&r, IssueCode::UnknownCellRef).expect("unknown_cell_ref issue");
    assert_eq!(issue.severity, Severity::Error);
    assert!(!r.ok);
}

#[test]
fn detects_unreachable_cell() {
    let b = board(vec![cell("c1", true, CellStatus::Active), cell("c2", true, CellStatus::Active)], vec![], "c1");
    let r = validate_board(&b);
    let issue = find(&r, IssueCode::UnreachableCell).expect("unreachable_cell issue");
    assert_eq!(issue.severity, Severity::Error);
    assert!(!r.ok);
}

#[test]
fn detects_no_terminal() {
    let b = board(
        vec![cell("c1", false, CellStatus::Active), cell("c2", false, CellStatus::Active)],
        vec![edge("c1", "c2")],
        "c1",
    );
    let r = validate_board(&b);
    let issue = find(&r, IssueCode::NoTerminal).expect("no_terminal issue");
    assert_eq!(issue.severity, Severity::Error);
    assert!(!r.ok);
}

#[test]
fn reports_has_draft_as_warning() {
    let b = board(
        vec![cell("c1", false, CellStatus::Active), cell("c2", true, CellStatus::Draft)],
        vec![edge("c1", "c2")],
        "c1",
    );
    let r = validate_board(&b);
    let draft = find(&r, IssueCode::HasDraft).expect("has_draft issue");
    assert_eq!(draft.severity, Severity::Warning);
    assert!(r.ok);
}

#[test]
fn reachability_handles_cycle_without_infinite_loop() {
    let b = board(
        vec![cell("c1", false, CellStatus::Active), cell("c2", false, CellStatus::Active), cell("c3", true, CellStatus::Active)],
        vec![edge("c1", "c2"), edge("c2", "c1"), edge("c1", "c3")],
        "c1",
    );
    let r = validate_board(&b);
    assert!(find(&r, IssueCode::UnreachableCell).is_none(), "no cell should be unreachable in a cycle");
    assert!(r.ok);
}

#[test]
fn reachability_handles_diamond_branch() {
    let b = board(
        vec![
            cell("c1", false, CellStatus::Active),
            cell("c2", false, CellStatus::Active),
            cell("c3", false, CellStatus::Active),
            cell("c4", true, CellStatus::Active),
        ],
        vec![edge("c1", "c2"), edge("c1", "c3"), edge("c2", "c4"), edge("c3", "c4")],
        "c1",
    );
    let r = validate_board(&b);
    assert!(find(&r, IssueCode::UnreachableCell).is_none(), "all diamond cells should be reachable");
    assert!(r.ok);
}

#[test]
fn reachability_handles_multi_hop_path() {
    let b = board(
        vec![
            cell("c1", false, CellStatus::Active),
            cell("c2", false, CellStatus::Active),
            cell("c3", false, CellStatus::Active),
            cell("c4", true, CellStatus::Active),
        ],
        vec![edge("c1", "c2"), edge("c2", "c3"), edge("c3", "c4")],
        "c1",
    );
    let r = validate_board(&b);
    assert!(find(&r, IssueCode::UnreachableCell).is_none(), "all cells on the path should be reachable");
    assert!(r.ok);
}

#[test]
fn issues_come_in_detection_order_with_their_texts() {
    let b = board(
        vec![cell("c1", false, CellStatus::Active), cell("c1", false, CellStatus::Draft), cell("c9", false, CellStatus::Active)],
        vec![edge("c1", "ghost")],
        "c1",
    );
    let r = validate_board(&b);
    let codes: Vec<IssueCode> = r.issues.iter().map(|i| i.code).collect();
    assert_eq!(
        codes,
        vec![IssueCode::DuplicateCellId, IssueCode::UnknownCellRef, IssueCode::UnreachableCell, IssueCode::NoTerminal, IssueCode::HasDraft]
    );
    assert_eq!(r.issues[0].message, "duplicate cell id: c1");
    assert_eq!(r.issues[0].cell_id.as_deref(), Some("c1"));
    assert_eq!(r.issues[1].message, "edge.to unknown: ghost");
    assert_eq!(r.issues[2].cell_id.as_deref(), Some("c9"));
    assert!(!r.ok);
}

#[test]
fn start_missing_skips_reachability() {
    let b = board(vec![cell("c1", true, CellStatus::Active), cell("c2", true, CellStatus::Active)], vec![], "nope");
    let r = validate_board(&b);
    assert_eq!(r.issues.len(), 1);
    assert_eq!(r.issues[0].code, IssueCode::StartMissing);
    assert_eq!(r.issues[0].message, "start cell not found: nope");
}

#[test]
fn err_builds_an_error_issue() {
    let i = err(IssueCode::NoTerminal, "m".into(), Some("c".into()));
    assert_eq!(i.severity, Severity::Error);
    assert_eq!(i.code, IssueCode::NoTerminal);
    assert_eq!(i.message, "m");
    assert_eq!(i.cell_id.as_deref(), Some("c"));
}

#[test]
fn issue_code_serializes_to_snake_case_json() {
    let pairs = [
        (IssueCode::DuplicateCellId, "\"duplicate_cell_id\""),
        (IssueCode::StartMissing, "\"start_missing\""),
        (IssueCode::UnknownCellRef, "\"unknown_cell_ref\""),
        (IssueCode::UnreachableCell, "\"unreachable_cell\""),
        (IssueCode::NoTerminal, "\"no_terminal\""),
        (IssueCode::HasDraft, "\"has_draft\""),
    ];
    for (code, json) in pairs {
        assert_eq!(format!("\"{}\"", code.as_str()), json);
    }
}

#[test]
fn issue_codes_have_their_snake_case_names() {
    assert_eq!(IssueCode::DuplicateCellId.as_str(), "duplicate_cell_id");
    assert_eq!(IssueCode::StartMissing.as_str(), "start_missing");
    assert_eq!(IssueCode::UnknownCellRef.as_str(), "unknown_cell_ref");
    assert_eq!(IssueCode::UnreachableCell.as_str(), "unreachable_cell");
    assert_eq!(IssueCode::NoTerminal.as_str(), "no_terminal");
    assert_eq!(IssueCode::HasDraft.as_str(), "has_draft");
    assert_eq!(Severity::Error.as_str(), "error");
    assert_eq!(Severity::Warning.as_str(), "warning");
}
