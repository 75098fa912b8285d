//! Structural validation of board definitions.
//!
//! [`validate_board`] reports duplicate cell ids, a missing start cell,
//! edges that name unknown cells, cells unreachable from the start, a board
//! without a terminal cell (all errors) and draft cells (warnings). The report
//! is `ok` exactly when no error-severity issue was found.
use crate::domain::{
    cells_view, find_cell_index, has_cell_id, BoardDefinition, BoardView, Cell, CellStatus, CellView,
    EdgeView,
};
use vstd::prelude::*;
use vstd::string::*;

verus! {

/// Severity of a single validation issue.
#[derive(Clone, Copy, Debug, PartialEq, Eq, Structural)]
pub enum Severity {
    /// Blocking problem; the board is invalid.
    Error,
    /// Advisory problem; the board stays valid.
    Warning,
}

/// Stable machine-readable category of a validation issue.
#[derive(Clone, Copy, Debug, PartialEq, Eq, Structural)]
pub enum IssueCode {
    DuplicateCellId,
    StartMissing,
    UnknownCellRef,
    UnreachableCell,
    NoTerminal,
    HasDraft,
    CannotRemoveStartCell,
    InvalidFolderName,
    InvalidHarnessName,
}

/// The snake_case text of an issue code, as the I/O contract spells it.
pub open spec fn issue_code_text(c: IssueCode) -> Seq<char> {
    match c {
        IssueCode::DuplicateCellId => "duplicate_cell_id"@,
        IssueCode::StartMissing => "start_missing"@,
        IssueCode::UnknownCellRef => "unknown_cell_ref"@,
        IssueCode::UnreachableCell => "unreachable_cell"@,
        IssueCode::NoTerminal => "no_terminal"@,
        IssueCode::HasDraft => "has_draft"@,
        IssueCode::CannotRemoveStartCell => "cannot_remove_start_cell"@,
        IssueCode::InvalidFolderName => "invalid_folder_name"@,
        IssueCode::InvalidHarnessName => "invalid_harness_name"@,
    }
}

impl IssueCode {
    /// The snake_case text of this code.
    pub fn as_str(&self) -> (r: &'static str)
        ensures
            r@ == issue_code_text(*self),
    {
        match self {
            IssueCode::DuplicateCellId => "duplicate_cell_id",
            IssueCode::StartMissing => "start_missing",
            IssueCode::UnknownCellRef => "unknown_cell_ref",
            IssueCode::UnreachableCell => "unreachable_cell",
            IssueCode::NoTerminal => "no_terminal",
            IssueCode::HasDraft => "has_draft",
            IssueCode::CannotRemoveStartCell => "cannot_remove_start_cell",
            IssueCode::InvalidFolderName => "invalid_folder_name",
            IssueCode::InvalidHarnessName => "invalid_harness_name",
        }
    }
}

impl Severity {
    /// The lowercase text of this severity (`error` / `warning`).
    pub fn as_str(&self) -> (r: &'static str)
        ensures
            r@ == (match *self {
                Severity::Error => "error"@,
                Severity::Warning => "warning"@,
            }),
    {
        match self {
            Severity::Error => "error",
            Severity::Warning => "warning",
        }
    }
}

/// A single problem found while validating a board.
#[derive(Debug)]
pub struct ValidationIssue {
    pub severity: Severity,
    pub code: IssueCode,
    /// Human-readable description.
    pub message: String,
    /// The cell concerned, when there is one.
    pub cell_id: Option<String>,
}

/// Mathematical view of a [`ValidationIssue`].
pub struct IssueView {
    pub severity: Severity,
    pub code: IssueCode,
    pub message: Seq<char>,
    pub cell_id: Option<Seq<char>>,
}

impl View for ValidationIssue {
    type V = IssueView;

    open spec fn view(&self) -> IssueView {
        IssueView {
            severity: self.severity,
            code: self.code,
            message: self.message@,
            cell_id: self.cell_id.deep_view(),
        }
    }
}

pub open spec fn issues_view(v: Seq<ValidationIssue>) -> Seq<IssueView> {
    v.map_values(|i: ValidationIssue| i@)
}

/// The outcome of validating a board.
#[derive(Debug)]
pub struct ValidationReport {
    /// `true` exactly when no issue has `Error` severity.
    pub ok: bool,
    /// All issues, in detection order.
    pub issues: Vec<ValidationIssue>,
}

/// Mathematical view of a [`ValidationReport`].
pub struct ReportView {
    pub ok: bool,
    pub issues: Seq<IssueView>,
}

impl View for ValidationReport {
    type V = ReportView;

    open spec fn view(&self) -> ReportView {
        ReportView { ok: self.ok, issues: issues_view(self.issues@) }
    }
}

pub open spec fn error_issue(code: IssueCode, message: Seq<char>, cell_id: Option<Seq<char>>) -> IssueView {
    IssueView { severity: Severity::Error, code, message, cell_id }
}

// ---------------------------------------------------------------------------
// What the report contains
// ---------------------------------------------------------------------------
/// One duplicate-id error for every cell whose id already occurred earlier.
pub open spec fn dup_issues(cells: Seq<CellView>) -> Seq<IssueView>
    decreases cells.len(),
{
    if cells.len() == 0 {
        seq![]
    } else {
        let c = cells.last();
        dup_issues(cells.drop_last()) + if has_cell_id(cells.drop_last(), c.id) {
            seq![error_issue(IssueCode::DuplicateCellId, "duplicate cell id: "@ + c.id, Some(c.id))]
        } else {
            seq![]
        }
    }
}

/// An error when the start cell is not among the cells.
pub open spec fn start_issues(b: BoardView) -> Seq<IssueView> {
    if has_cell_id(b.cells, b.start) {
        seq![]
    } else {
        seq![error_issue(IssueCode::StartMissing, "start cell not found: "@ + b.start, None)]
    }
}

/// Errors for the unknown endpoints of one edge, `from` before `to`.
pub open spec fn edge_ref_issues(cells: Seq<CellView>, e: EdgeView) -> Seq<IssueView> {
    (if has_cell_id(cells, e.from) {
        seq![]
    } else {
        seq![error_issue(IssueCode::UnknownCellRef, "edge.from unknown: "@ + e.from, Some(e.from))]
    }) + (if has_cell_id(cells, e.to) {
        seq![]
    } else {
        seq![error_issue(IssueCode::UnknownCellRef, "edge.to unknown: "@ + e.to, Some(e.to))]
    })
}

/// Unknown-endpoint errors for every edge, in edge order.
pub open spec fn ref_issues(cells: Seq<CellView>, edges: Seq<EdgeView>) -> Seq<IssueView>
    decreases edges.len(),
{
    if edges.len() == 0 {
        seq![]
    } else {
        ref_issues(cells, edges.drop_last()) + edge_ref_issues(cells, edges.last())
    }
}

/// `y` follows `x` in one step: an edge leads from `x` to the existing cell `y`.
pub open spec fn step(b: BoardView, x: Seq<char>, y: Seq<char>) -> bool {
    has_cell_id(b.cells, y) && exists|e: int|
        0 <= e < b.edges.len() && #[trigger] b.edges[e].from == x && b.edges[e].to == y
}

/// `p` is a walk along steps: each element follows the one before it.
pub open spec fn path_ok(b: BoardView, p: Seq<Seq<char>>) -> bool
    decreases p.len(),
{
    if p.len() <= 1 {
        true
    } else {
        path_ok(b, p.drop_last()) && step(b, p[p.len() - 2], p.last())
    }
}

/// `x` can be reached from the start by following edges into existing cells.
pub open spec fn reachable(b: BoardView, x: Seq<char>) -> bool {
    exists|p: Seq<Seq<char>>| p.len() > 0 && p[0] == b.start && #[trigger] path_ok(b, p) && p.last() == x
}

/// One unreachable-cell error for each cell not reachable from the start.
pub open spec fn unreachable_issues(b: BoardView, cells: Seq<CellView>) -> Seq<IssueView>
    decreases cells.len(),
{
    if cells.len() == 0 {
        seq![]
    } else {
        let c = cells.last();
        unreachable_issues(b, cells.drop_last()) + if reachable(b, c.id) {
            seq![]
        } else {
            seq![error_issue(IssueCode::UnreachableCell, "cell unreachable from start: "@ + c.id, Some(c.id))]
        }
    }
}

/// Reachability is only judged when the start cell exists.
pub open spec fn reach_issues(b: BoardView) -> Seq<IssueView> {
    if has_cell_id(b.cells, b.start) {
        unreachable_issues(b, b.cells)
    } else {
        seq![]
    }
}

pub open spec fn any_terminal(cells: Seq<CellView>) -> bool {
    exists|i: int| 0 <= i < cells.len() && #[trigger] cells[i].terminal
}

/// An error when no cell is terminal.
pub open spec fn terminal_issues(b: BoardView) -> Seq<IssueView> {
    if any_terminal(b.cells) {
        seq![]
    } else {
        seq![error_issue(IssueCode::NoTerminal, "no terminal cell"@, None)]
    }
}

/// One warning for each draft cell.
pub open spec fn draft_issues(cells: Seq<CellView>) -> Seq<IssueView>
    decreases cells.len(),
{
    if cells.len() == 0 {
        seq![]
    } else {
        let c = cells.last();
        draft_issues(cells.drop_last()) + if c.status == CellStatus::Draft {
            seq![
                IssueView {
                    severity: Severity::Warning,
                    code: IssueCode::HasDraft,
                    message: "draft cell: "@ + c.id,
                    cell_id: Some(c.id),
                },
            ]
        } else {
            seq![]
        }
    }
}

/// Every issue of a board, in detection order.
pub open spec fn board_issues(b: BoardView) -> Seq<IssueView> {
    dup_issues(b.cells) + start_issues(b) + ref_issues(b.cells, b.edges) + reach_issues(b)
        + terminal_issues(b) + draft_issues(b.cells)
}

pub open spec fn has_error(issues: Seq<IssueView>) -> bool {
    exists|i: int| 0 <= i < issues.len() && #[trigger] issues[i].severity == Severity::Error
}

/// The report that validating `b` yields.
pub open spec fn board_report(b: BoardView) -> ReportView {
    ReportView { ok: !has_error(board_issues(b)), issues: board_issues(b) }
}

// ---------------------------------------------------------------------------
// Helpers
// ---------------------------------------------------------------------------
pub open spec fn strings_view(v: Seq<String>) -> Seq<Seq<char>> {
    v.map_values(|s: String| s@)
}

/// Whether some cell has the id `id`.
pub fn contains_cell_id(cells: &Vec<Cell>, id: &String) -> (r: bool)
    ensures
        r == has_cell_id(cells_view(cells@), id@),
{
    match find_cell_index(cells, id) {
        Some(i) => {
            assert(cells_view(cells@)[i as int].id == id@);
            true
        },
        None => {
            assert forall|j: int| 0 <= j < cells@.len() implies #[trigger] cells_view(
                cells@,
            )[j].id != id@ by {
                assert(cells@[j].id@ != id@);
            }
            false
        },
    }
}

/// Whether `s` occurs in `v`.
pub fn contains_string(v: &Vec<String>, s: &String) -> (r: bool)
    ensures
        r == strings_view(v@).contains(s@),
{
    let mut i: usize = 0;
    while i < v.len()
        invariant
            i <= v.len(),
            forall|j: int| 0 <= j < i ==> (#[trigger] v@[j])@ != s@,
        decreases v.len() - i,
    {
        if v[i] == *s {
            assert(strings_view(v@)[i as int] == s@);
            return true;
        }
        i = i + 1;
    }
    proof {
        if strings_view(v@).contains(s@) {
            let k = choose|k: int| 0 <= k < strings_view(v@).len() && strings_view(v@)[k] == s@;
            assert(v@[k]@ == s@);
        }
    }
    false
}

fn id_before(cells: &Vec<Cell>, i: usize) -> (r: bool)
    requires
        i < cells.len(),
    ensures
        r == has_cell_id(cells_view(cells@).take(i as int), cells@[i as int].id@),
{
    let mut j: usize = 0;
    while j < i
        invariant
            j <= i < cells.len(),
            forall|k: int| 0 <= k < j ==> (#[trigger] cells@[k]).id@ != cells@[i as int].id@,
        decreases i - j,
    {
        if cells[j].id == cells[i].id {
            assert(cells_view(cells@).take(i as int)[j as int].id == cells@[i as int].id@);
            return true;
        }
        j = j + 1;
    }
    proof {
        let t = cells_view(cells@).take(i as int);
        if has_cell_id(t, cells@[i as int].id@) {
            let k = choose|k: int| 0 <= k < t.len() && #[trigger] t[k].id == cells@[i as int].id@;
            assert(cells@[k].id@ == t[k].id);
        }
    }
    false
}

fn message(prefix: &str, tail: &String) -> (r: String)
    ensures
        r@ == prefix@ + tail@,
{
    let mut m = String::from_str(prefix);
    m.append(tail.as_str());
    m
}

/// An error-severity issue with this code, message and cell.
pub fn err(code: IssueCode, message: String, cell_id: Option<String>) -> (r: ValidationIssue)
    ensures
        r@ == error_issue(code, message@, cell_id.deep_view()),
{
    ValidationIssue { severity: Severity::Error, code, message, cell_id }
}

// ---------------------------------------------------------------------------
// Reachability
// ---------------------------------------------------------------------------
proof fn lemma_distinct_bound(a: Seq<Seq<char>>, b: Seq<Seq<char>>)
    requires
        a.no_duplicates(),
        forall|i: int| 0 <= i < a.len() ==> b.contains(#[trigger] a[i]),
    ensures
        a.len() <= b.len(),
{
    a.unique_seq_to_set();
    b.lemma_cardinality_of_set();
    vstd::seq_lib::seq_to_set_is_finite(b);
    assert(a.to_set().subset_of(b.to_set())) by {
        assert forall|x: Seq<char>| a.to_set().contains(x) implies b.to_set().contains(x) by {
            let i = choose|i: int| 0 <= i < a.len() && a[i] == x;
            assert(b.contains(a[i]));
        }
    }
    vstd::set_lib::lemma_len_subset(a.to_set(), b.to_set());
}

proof fn lemma_reach_step(b: BoardView, y: Seq<char>, x: Seq<char>)
    requires
        reachable(b, y),
        step(b, y, x),
    ensures
        reachable(b, x),
{
    let p = choose|p: Seq<Seq<char>>| p.len() > 0 && p[0] == b.start && #[trigger] path_ok(b, p) && p.last() == y;
    let q = p.push(x);
    assert(q.drop_last() =~= p);
    assert(q[q.len() - 2] == y);
    assert(path_ok(b, q));
    assert(q[0] == b.start);
}

proof fn lemma_complete(b: BoardView, r: Seq<Seq<char>>, p: Seq<Seq<char>>)
    requires
        r.contains(b.start),
        forall|k: int, e: int|
            0 <= k < r.len() && 0 <= e < b.edges.len() && #[trigger] b.edges[e].from == #[trigger] r[k]
                && has_cell_id(b.cells, b.edges[e].to) ==> r.contains(b.edges[e].to),
        p.len() > 0,
        p[0] == b.start,
        path_ok(b, p),
    ensures
        r.contains(p.last()),
    decreases p.len(),
{
    if p.len() > 1 {
        let q = p.drop_last();
        assert(q[0] == p[0]);
        lemma_complete(b, r, q);
        let y = p[p.len() - 2];
        assert(q.last() == y);
        let x = p.last();
        assert(step(b, y, x));
        let k = choose|k: int| 0 <= k < r.len() && r[k] == y;
        let e = choose|e: int| 0 <= e < b.edges.len() && #[trigger] b.edges[e].from == y && b.edges[e].to == x;
        assert(b.edges[e].from == r[k]);
    }
}

/// The ids reachable from the start, each exactly once.
fn reachable_ids(b: &BoardDefinition) -> (r: Vec<String>)
    requires
        has_cell_id(b@.cells, b@.start),
    ensures
        forall|x: Seq<char>| strings_view(r@).contains(x) <==> reachable(b@, x),
{
    let ghost bv = b@;
    let mut reached: Vec<String> = Vec::new();
    reached.push(b.start.clone());
    proof {
        let p0 = seq![bv.start];
        assert(path_ok(bv, p0));
        assert(p0.last() == bv.start);
        assert(strings_view(reached@)[0] == bv.start);
        assert(strings_view(reached@).no_duplicates());
        let ids = bv.cells.map_values(|c: CellView| c.id);
        let k = choose|k: int| 0 <= k < bv.cells.len() && #[trigger] bv.cells[k].id == bv.start;
        assert(ids[k] == bv.start);
        lemma_distinct_bound(strings_view(reached@), ids);
    }
    let mut head: usize = 0;
    while head < reached.len()
        invariant
            bv == b@,
            head <= reached.len(),
            reached.len() <= b.cells.len(),
            strings_view(reached@).contains(bv.start),
            strings_view(reached@).no_duplicates(),
            forall|k: int| 0 <= k < reached.len() ==> #[trigger] reachable(bv, strings_view(reached@)[k]),
            forall|k: int| 0 <= k < reached.len() ==> has_cell_id(bv.cells, #[trigger] strings_view(reached@)[k]),
            forall|k: int, e: int|
                0 <= k < head && 0 <= e < bv.edges.len() && #[trigger] bv.edges[e].from
                    == #[trigger] strings_view(reached@)[k] && has_cell_id(bv.cells, bv.edges[e].to)
                    ==> strings_view(reached@).contains(bv.edges[e].to),
        decreases b.cells.len() - head,
    {
        let cur = reached[head].clone();
        let mut j: usize = 0;
        while j < b.edges.len()
            invariant
                bv == b@,
                head < reached.len(),
                reached.len() <= b.cells.len(),
                cur@ == strings_view(reached@)[head as int],
                j <= b.edges.len(),
                strings_view(reached@).contains(bv.start),
                strings_view(reached@).no_duplicates(),
                forall|k: int| 0 <= k < reached.len() ==> #[trigger] reachable(bv, strings_view(reached@)[k]),
                forall|k: int| 0 <= k < reached.len() ==> has_cell_id(bv.cells, #[trigger] strings_view(reached@)[k]),
                forall|k: int, e: int|
                    0 <= k < head && 0 <= e < bv.edges.len() && #[trigger] bv.edges[e].from
                        == #[trigger] strings_view(reached@)[k] && has_cell_id(bv.cells, bv.edges[e].to)
                        ==> strings_view(reached@).contains(bv.edges[e].to),
                forall|e: int|
                    0 <= e < j && #[trigger] bv.edges[e].from == cur@ && has_cell_id(bv.cells, bv.edges[e].to)
                        ==> strings_view(reached@).contains(bv.edges[e].to),
            decreases b.edges.len() - j,
        {
            let ghost old_view = strings_view(reached@);
            assert(bv.edges[j as int] == b.edges@[j as int]@);
            if b.edges[j].from == cur && contains_cell_id(&b.cells, &b.edges[j].to) && !contains_string(&reached, &b.edges[j].to) {
                proof {
                    let to = bv.edges[j as int].to;
                    let hk = head as int;
                    assert(reachable(bv, old_view[hk]));
                    assert(bv.edges[j as int].from == cur@);
                    assert(has_cell_id(bv.cells, to));
                    assert(step(bv, cur@, to));
                    lemma_reach_step(bv, cur@, to);
                    let ids = bv.cells.map_values(|c: CellView| c.id);
                    let pushed = old_view.push(to);
                    assert forall|i: int| 0 <= i < pushed.len() implies ids.contains(#[trigger] pushed[i]) by {
                        let id = pushed[i];
                        assert(has_cell_id(bv.cells, id));
                        let c = choose|c: int| 0 <= c < bv.cells.len() && #[trigger] bv.cells[c].id == id;
                        assert(ids[c] == id);
                    }
                    assert(pushed.no_duplicates());
                    lemma_distinct_bound(pushed, ids);
                }
                reached.push(b.edges[j].to.clone());
                proof {
                    let nv = strings_view(reached@);
                    assert(nv =~= old_view.push(bv.edges[j as int].to));
                    assert forall|k: int| 0 <= k < reached.len() implies #[trigger] reachable(bv, nv[k]) by {
                        if k < old_view.len() {
                            assert(nv[k] == old_view[k]);
                        } else {
                            let to = bv.edges[j as int].to;
                            assert(bv.edges[j as int].from == cur@);
                            assert(step(bv, cur@, to));
                            lemma_reach_step(bv, cur@, to);
                            assert(nv[k] == to);
                        }
                    }
                    assert forall|x: Seq<char>| old_view.contains(x) implies nv.contains(x) by {
                        let i = choose|i: int| 0 <= i < old_view.len() && old_view[i] == x;
                        assert(nv[i] == x);
                    }
                    assert(nv[old_view.len() as int] == bv.edges[j as int].to);
                }
            }
            proof {
                let nv = strings_view(reached@);
                assert forall|x: Seq<char>| old_view.contains(x) implies nv.contains(x) by {
                    let i = choose|i: int| 0 <= i < old_view.len() && old_view[i] == x;
                    assert(nv[i] == old_view[i]);
                }
                assert forall|k: int| 0 <= k < old_view.len() implies nv[k] == old_view[k] by {}
            }
            j = j + 1;
        }
        head = head + 1;
    }
    proof {
        let rv = strings_view(reached@);
        assert forall|x: Seq<char>| rv.contains(x) <==> reachable(bv, x) by {
            if rv.contains(x) {
                let k = choose|k: int| 0 <= k < rv.len() && rv[k] == x;
                assert(reachable(bv, rv[k]));
            }
            if reachable(bv, x) {
                let p = choose|p: Seq<Seq<char>>| p.len() > 0 && p[0] == bv.start && #[trigger] path_ok(bv, p) && p.last() == x;
                lemma_complete(bv, rv, p);
            }
        }
    }
    reached
}

// ---------------------------------------------------------------------------
// Validation
// ---------------------------------------------------------------------------
/// Validates a board definition and returns every issue found.
///
/// The checks run in this order: duplicate cell ids, missing start cell,
/// unknown edge endpoints, cells unreachable from the start (only judged when
/// the start exists), absence of a terminal cell, and draft cells (warnings).
pub fn validate_board(board: &BoardDefinition) -> (r: ValidationReport)
    ensures
        r@ == board_report(board@),
{
    let ghost bv = board@;
    let mut issues: Vec<ValidationIssue> = Vec::new();

    // duplicate cell ids
    let mut i: usize = 0;
    while i < board.cells.len()
        invariant
            bv == board@,
            i <= board.cells.len(),
            issues_view(issues@) == dup_issues(bv.cells.take(i as int)),
        decreases board.cells.len() - i,
    {
        let ghost before = issues_view(issues@);
        if id_before(&board.cells, i) {
            let m = message("duplicate cell id: ", &board.cells[i].id);
            issues.push(err(IssueCode::DuplicateCellId, m, Some(board.cells[i].id.clone())));
        }
        proof {
            let t = bv.cells.take(i + 1);
            assert(t.drop_last() =~= bv.cells.take(i as int));
            assert(t.last() == bv.cells[i as int]);
            assert(cells_view(board.cells@).take(i as int) =~= bv.cells.take(i as int));
            assert(issues_view(issues@) =~= dup_issues(t));
        }
        i = i + 1;
    }
    assert(bv.cells.take(board.cells.len() as int) =~= bv.cells);
    let ghost after_dup = issues_view(issues@);

    // missing start
    let start_ok = contains_cell_id(&board.cells, &board.start);
    if !start_ok {
        let m = message("start cell not found: ", &board.start);
        issues.push(err(IssueCode::StartMissing, m, None));
    }
    assert(issues_view(issues@) =~= after_dup + start_issues(bv));
    let ghost after_start = issues_view(issues@);

    // unknown edge endpoints
    let mut j: usize = 0;
    while j < board.edges.len()
        invariant
            bv == board@,
            j <= board.edges.len(),
            issues_view(issues@) == after_start + ref_issues(bv.cells, bv.edges.take(j as int)),
        decreases board.edges.len() - j,
    {
        let ghost before = issues_view(issues@);
        let e = &board.edges[j];
        assert(bv.edges[j as int] == e@);
        if !contains_cell_id(&board.cells, &e.from) {
            let m = message("edge.from unknown: ", &e.from);
            issues.push(err(IssueCode::UnknownCellRef, m, Some(e.from.clone())));
        }
        if !contains_cell_id(&board.cells, &e.to) {
            let m = message("edge.to unknown: ", &e.to);
            issues.push(err(IssueCode::UnknownCellRef, m, Some(e.to.clone())));
        }
        proof {
            let t = bv.edges.take(j + 1);
            assert(t.drop_last() =~= bv.edges.take(j as int));
            assert(t.last() == e@);
            assert(issues_view(issues@) =~= before + edge_ref_issues(bv.cells, e@));
            assert(issues_view(issues@) =~= after_start + ref_issues(bv.cells, t));
        }
        j = j + 1;
    }
    assert(bv.edges.take(board.edges.len() as int) =~= bv.edges);
    let ghost after_refs = issues_view(issues@);

    // unreachable cells
    if start_ok {
        let reached = reachable_ids(board);
        let mut k: usize = 0;
        while k < board.cells.len()
            invariant
                bv == board@,
                k <= board.cells.len(),
                has_cell_id(bv.cells, bv.start),
                forall|x: Seq<char>| strings_view(reached@).contains(x) <==> reachable(bv, x),
                issues_view(issues@) == after_refs + unreachable_issues(bv, bv.cells.take(k as int)),
            decreases board.cells.len() - k,
        {
            let ghost before = issues_view(issues@);
            let c = &board.cells[k];
            assert(bv.cells[k as int] == c@);
            if !contains_string(&reached, &c.id) {
                let m = message("cell unreachable from start: ", &c.id);
                issues.push(err(IssueCode::UnreachableCell, m, Some(c.id.clone())));
            }
            proof {
                let t = bv.cells.take(k + 1);
                assert(t.drop_last() =~= bv.cells.take(k as int));
                assert(t.last() == c@);
                if reachable(bv, c@.id) {
                    assert(strings_view(reached@).contains(c@.id));
                    assert(issues_view(issues@) =~= before);
                } else {
                    assert(!strings_view(reached@).contains(c@.id));
                    assert(issues_view(issues@) =~= before + seq![error_issue(IssueCode::UnreachableCell, "cell unreachable from start: "@ + c@.id, Some(c@.id))]);
                }
                assert(issues_view(issues@) =~= after_refs + unreachable_issues(bv, t));
            }
            k = k + 1;
        }
        assert(bv.cells.take(board.cells.len() as int) =~= bv.cells);
    }
    assert(issues_view(issues@) =~= after_refs + reach_issues(bv));
    let ghost after_reach = issues_view(issues@);

    // no terminal
    let mut t: usize = 0;
    let mut found = false;
    while t < board.cells.len()
        invariant
            bv == board@,
            t <= board.cells.len(),
            found == exists|q: int| 0 <= q < t && #[trigger] bv.cells[q].terminal,
        decreases board.cells.len() - t,
    {
        if board.cells[t].terminal {
            assert(bv.cells[t as int].terminal);
            found = true;
        }
        t = t + 1;
    }
    if !found {
        let m = String::from_str("no terminal cell");
        issues.push(err(IssueCode::NoTerminal, m, None));
    }
    assert(issues_view(issues@) =~= after_reach + terminal_issues(bv));
    let ghost after_term = issues_view(issues@);

    // drafts (warnings)
    let mut d: usize = 0;
    while d < board.cells.len()
        invariant
            bv == board@,
            d <= board.cells.len(),
            issues_view(issues@) == after_term + draft_issues(bv.cells.take(d as int)),
        decreases board.cells.len() - d,
    {
        let ghost before = issues_view(issues@);
        let c = &board.cells[d];
        assert(bv.cells[d as int] == c@);
        if c.status == CellStatus::Draft {
            let m = message("draft cell: ", &c.id);
            issues.push(ValidationIssue { severity: Severity::Warning, code: IssueCode::HasDraft, message: m, cell_id: Some(c.id.clone()) });
        }
        proof {
            let tk = bv.cells.take(d + 1);
            assert(tk.drop_last() =~= bv.cells.take(d as int));
            assert(tk.last() == c@);
            if c@.status == CellStatus::Draft {
                assert(issues_view(issues@) =~= before + seq![IssueView { severity: Severity::Warning, code: IssueCode::HasDraft, message: "draft cell: "@ + c@.id, cell_id: Some(c@.id) }]);
            } else {
                assert(issues_view(issues@) =~= before);
            }
            assert(issues_view(issues@) =~= after_term + draft_issues(tk));
        }
        d = d + 1;
    }
    assert(bv.cells.take(board.cells.len() as int) =~= bv.cells);
    assert(issues_view(issues@) =~= board_issues(bv));

    // ok flag
    let mut q: usize = 0;
    let mut ok = true;
    while q < issues.len()
        invariant
            q <= issues.len(),
            ok == !exists|z: int| 0 <= z < q && #[trigger] issues_view(issues@)[z].severity == Severity::Error,
        decreases issues.len() - q,
    {
        if issues[q].severity == Severity::Error {
            assert(issues_view(issues@)[q as int].severity == Severity::Error);
            ok = false;
        }
        q = q + 1;
    }
    ValidationReport { ok, issues }
}

proof fn lemma_ref_issues_name_unknown_endpoints(cells: Seq<CellView>, edges: Seq<EdgeView>, k: int)
    requires
        0 <= k < edges.len(),
    ensures
        (forall|c: int| 0 <= c < cells.len() ==> #[trigger] cells[c].id != edges[k].from) ==> ref_issues(cells, edges).contains(
            error_issue(IssueCode::UnknownCellRef, "edge.from unknown: "@ + edges[k].from, Some(edges[k].from)),
        ),
        (forall|c: int| 0 <= c < cells.len() ==> #[trigger] cells[c].id != edges[k].to) ==> ref_issues(cells, edges).contains(
            error_issue(IssueCode::UnknownCellRef, "edge.to unknown: "@ + edges[k].to, Some(edges[k].to)),
        ),
    decreases edges.len(),
{
    let init = edges.drop_last();
    let ri = ref_issues(cells, init);
    let last = edge_ref_issues(cells, edges.last());
    assert(ref_issues(cells, edges) == ri + last);
    if k < edges.len() - 1 {
        lemma_ref_issues_name_unknown_endpoints(cells, init, k);
        assert(init[k] == edges[k]);
        let x = error_issue(IssueCode::UnknownCellRef, "edge.from unknown: "@ + edges[k].from, Some(edges[k].from));
        let y = error_issue(IssueCode::UnknownCellRef, "edge.to unknown: "@ + edges[k].to, Some(edges[k].to));
        if ri.contains(x) {
            let i = choose|i: int| 0 <= i < ri.len() && ri[i] == x;
            assert((ri + last)[i] == x);
        }
        if ri.contains(y) {
            let i = choose|i: int| 0 <= i < ri.len() && ri[i] == y;
            assert((ri + last)[i] == y);
        }
    } else {
        let e = edges[k];
        assert(e == edges.last());
        let fr = if has_cell_id(cells, e.from) {
            seq![]
        } else {
            seq![error_issue(IssueCode::UnknownCellRef, "edge.from unknown: "@ + e.from, Some(e.from))]
        };
        assert(last == fr + (if has_cell_id(cells, e.to) {
            seq![]
        } else {
            seq![error_issue(IssueCode::UnknownCellRef, "edge.to unknown: "@ + e.to, Some(e.to))]
        }));
        if forall|c: int| 0 <= c < cells.len() ==> #[trigger] cells[c].id != e.from {
            assert(!has_cell_id(cells, e.from));
            assert((ri + last)[ri.len() as int] == error_issue(IssueCode::UnknownCellRef, "edge.from unknown: "@ + e.from, Some(e.from)));
        }
        if forall|c: int| 0 <= c < cells.len() ==> #[trigger] cells[c].id != e.to {
            assert(!has_cell_id(cells, e.to));
            let at = (ri.len() + fr.len()) as int;
            assert((ri + last)[at] == error_issue(IssueCode::UnknownCellRef, "edge.to unknown: "@ + e.to, Some(e.to)));
        }
    }
}

/// Every edge whose source or target names no cell is reported: the report
/// holds an unknown-cell-reference error naming that endpoint, and is not ok.
pub proof fn lemma_dangling_edges_are_reported(b: BoardView, k: int)
    requires
        0 <= k < b.edges.len(),
    ensures
        (forall|c: int| 0 <= c < b.cells.len() ==> #[trigger] b.cells[c].id != b.edges[k].from) ==> board_report(b).issues.contains(
            error_issue(IssueCode::UnknownCellRef, "edge.from unknown: "@ + b.edges[k].from, Some(b.edges[k].from)),
        ) && !board_report(b).ok,
        (forall|c: int| 0 <= c < b.cells.len() ==> #[trigger] b.cells[c].id != b.edges[k].to) ==> board_report(b).issues.contains(
            error_issue(IssueCode::UnknownCellRef, "edge.to unknown: "@ + b.edges[k].to, Some(b.edges[k].to)),
        ) && !board_report(b).ok,
{
    lemma_ref_issues_name_unknown_endpoints(b.cells, b.edges, k);
    let pre = dup_issues(b.cells) + start_issues(b);
    let refs = ref_issues(b.cells, b.edges);
    let post = reach_issues(b) + terminal_issues(b) + draft_issues(b.cells);
    let all = board_issues(b);
    assert(all =~= pre + refs + post);
    let x = error_issue(IssueCode::UnknownCellRef, "edge.from unknown: "@ + b.edges[k].from, Some(b.edges[k].from));
    let y = error_issue(IssueCode::UnknownCellRef, "edge.to unknown: "@ + b.edges[k].to, Some(b.edges[k].to));
    if refs.contains(x) {
        let i = choose|i: int| 0 <= i < refs.len() && refs[i] == x;
        assert(all[pre.len() + i] == x);
        assert(all[pre.len() + i].severity == Severity::Error);
    }
    if refs.contains(y) {
        let i = choose|i: int| 0 <= i < refs.len() && refs[i] == y;
        assert(all[pre.len() + i] == y);
        assert(all[pre.len() + i].severity == Severity::Error);
    }
}

} // verus!
