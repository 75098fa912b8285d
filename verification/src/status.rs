//! What a harness looks like from outside: its status with the draft cells
//! added since the last draft-free version, the summaries of a listing, and
//! the detail the canvas draws.
//!
//! The baseline for the draft diff is found by walking the earlier versions
//! downward; the walk is a small state machine whose fetches the caller does.
use crate::board_edit::locate;
use crate::domain::{
    any_draft, board_has_draft, cells_view, BoardDefinition, BoardVersion, BoardView, Cell, CellStatus,
    CellView, Folder, Harness,
};
use crate::dto::{
    CellDto, DeleteFolderResultDto, DraftCellDto, EdgeDto, FolderDto, HarnessDetailDto, HarnessSummaryDto,
};
use crate::error::{CoreError, ErrorView};
use crate::validate::{board_report, contains_string, strings_view, validate_board, ValidationReport};
use crate::versioning::first_index;
use vstd::prelude::*;
use vstd::string::*;

verus! {

// ---------------------------------------------------------------------------
// Finding the baseline
// ---------------------------------------------------------------------------
/// The next move while looking for the baseline of the draft diff.
#[derive(Debug)]
pub enum BaselineStep {
    /// Fetch the version with this number and hand it to [`baseline_next`].
    Fetch(i64),
    /// The baseline's cell ids (empty when no draft-free version exists).
    Found(Vec<String>),
}

/// The ids of the cells, in order.
pub open spec fn cell_ids(cells: Seq<CellView>) -> Seq<Seq<char>> {
    cells.map_values(|c: CellView| c.id)
}

/// Where the walk stands after looking below version `vno`: the version
/// under it is fetched next, or, at the bottom, nothing was found.
pub open spec fn step_below(vno: int) -> Result<int, Seq<Seq<char>>> {
    if vno - 1 >= 1 {
        Ok(vno - 1)
    } else {
        Err(seq![])
    }
}

pub open spec fn step_is(r: BaselineStep, s: Result<int, Seq<Seq<char>>>) -> bool {
    match s {
        Ok(n) => r matches BaselineStep::Fetch(x) && x == n,
        Err(ids) => r matches BaselineStep::Found(v) && strings_view(v@) == ids,
    }
}

/// The first move of the walk for a head at `current_version_no`.
pub fn baseline_start(current_version_no: i64) -> (r: BaselineStep)
    ensures
        step_is(r, step_below(current_version_no as int)),
{
    if current_version_no > 1 {
        BaselineStep::Fetch(current_version_no - 1)
    } else {
        let v: Vec<String> = Vec::new();
        assert(strings_view(v@) =~= seq![]);
        BaselineStep::Found(v)
    }
}

/// After fetching version `vno`: a draft-free version ends the walk with its
/// cell ids; a missing one or one with drafts moves one version down.
pub open spec fn baseline_after(vno: int, fetched: Option<BoardVersion>) -> Result<int, Seq<Seq<char>>> {
    match fetched {
        Some(v) => if !any_draft(v.definition@.cells) {
            Err(cell_ids(v.definition@.cells))
        } else {
            step_below(vno)
        },
        None => step_below(vno),
    }
}

fn ids_of(cells: &Vec<Cell>) -> (r: Vec<String>)
    ensures
        strings_view(r@) == cell_ids(cells_view(cells@)),
{
    let mut out: Vec<String> = Vec::new();
    let mut i: usize = 0;
    while i < cells.len()
        invariant
            i <= cells.len(),
            out.len() == i,
            forall|k: int| 0 <= k < i ==> (#[trigger] out@[k])@ == cells@[k].id@,
        decreases cells.len() - i,
    {
        out.push(cells[i].id.clone());
        i = i + 1;
    }
    assert(strings_view(out@) =~= cell_ids(cells_view(cells@)));
    out
}

/// The next move after fetching version `vno`.
pub fn baseline_next(vno: i64, fetched: Option<BoardVersion>) -> (r: BaselineStep)
    ensures
        step_is(r, baseline_after(vno as int, fetched)),
{
    if let Some(v) = &fetched {
        if !board_has_draft(&v.definition.cells) {
            return BaselineStep::Found(ids_of(&v.definition.cells));
        }
    }
    if vno > 1 {
        BaselineStep::Fetch(vno - 1)
    } else {
        let v: Vec<String> = Vec::new();
        assert(strings_view(v@) =~= seq![]);
        BaselineStep::Found(v)
    }
}

/// The baseline the walk finds over the versions below the head, given
/// from the one just under the head downward (`None` for a missing one).
pub open spec fn baseline_of(below: Seq<Option<BoardVersion>>) -> Seq<Seq<char>>
    decreases below.len(),
{
    if below.len() == 0 {
        seq![]
    } else {
        match below[0] {
            Some(v) => if !any_draft(v.definition@.cells) {
                cell_ids(v.definition@.cells)
            } else {
                baseline_of(below.drop_first())
            },
            None => baseline_of(below.drop_first()),
        }
    }
}

/// The walk's move after fetching the `j`-th version below a head at
/// `head_no` (numbered `head_no - 1 - j`).
pub open spec fn walk_step(head_no: int, below: Seq<Option<BoardVersion>>, j: int) -> Result<int, Seq<Seq<char>>> {
    baseline_after(head_no - 1 - j, below[j])
}

/// The walk finds the most recent draft-free version: fed the versions
/// below a head at `head_no` from the top down, when every earlier step
/// asked for the next lower number, a step that ends the walk ends it with
/// `baseline_of` those versions, and a step that continues asks for the
/// number under the one just fetched.
pub proof fn lemma_baseline_walk(head_no: int, below: Seq<Option<BoardVersion>>, k: int)
    requires
        below.len() == head_no - 1,
        0 <= k < below.len(),
        forall|j: int| 0 <= j < k ==> #[trigger] walk_step(head_no, below, j) == Ok::<int, Seq<Seq<char>>>(head_no - 2 - j),
    ensures
        walk_step(head_no, below, k) matches Err(ids) ==> ids == baseline_of(below),
        walk_step(head_no, below, k) matches Ok(n) ==> n == head_no - 2 - k && k + 1 < below.len(),
    decreases k,
{
    if k == 0 {
        if below[0] matches Some(v) && !any_draft(v.definition@.cells) {
        } else {
            assert(baseline_of(below) == baseline_of(below.drop_first()));
            if below.len() == 1 {
                assert(below.drop_first().len() == 0);
            }
        }
    } else {
        let rest = below.drop_first();
        assert forall|j: int| 0 <= j < k - 1 implies #[trigger] walk_step(head_no - 1, rest, j) == Ok::<int, Seq<Seq<char>>>(head_no - 3 - j) by {
            assert(rest[j] == below[j + 1]);
            assert(walk_step(head_no, below, j + 1) == Ok::<int, Seq<Seq<char>>>(head_no - 2 - (j + 1)));
        }
        assert(walk_step(head_no, below, 0) == Ok::<int, Seq<Seq<char>>>(head_no - 2));
        assert(baseline_of(below) == baseline_of(rest));
        assert(rest[k - 1] == below[k]);
        assert(walk_step(head_no - 1, rest, k - 1) == walk_step(head_no, below, k));
        lemma_baseline_walk(head_no - 1, rest, k - 1);
    }
}

// ---------------------------------------------------------------------------
// The draft diff
// ---------------------------------------------------------------------------
/// A draft cell added since the baseline.
#[derive(Debug)]
pub struct DraftDiffEntry {
    pub cell_id: String,
    pub name: String,
    /// The human's request memo for the cell.
    pub memo: String,
}

pub struct DraftEntryView {
    pub cell_id: Seq<char>,
    pub name: Seq<char>,
    pub memo: Seq<char>,
}

impl View for DraftDiffEntry {
    type V = DraftEntryView;

    open spec fn view(&self) -> DraftEntryView {
        DraftEntryView { cell_id: self.cell_id@, name: self.name@, memo: self.memo@ }
    }
}

pub open spec fn entries_view(v: Seq<DraftDiffEntry>) -> Seq<DraftEntryView> {
    v.map_values(|e: DraftDiffEntry| e@)
}

/// The draft cells, in board order, whose ids are not in the baseline.
pub open spec fn draft_entries(cells: Seq<CellView>, baseline: Seq<Seq<char>>) -> Seq<DraftEntryView>
    decreases cells.len(),
{
    if cells.len() == 0 {
        seq![]
    } else {
        let c = cells.last();
        draft_entries(cells.drop_last(), baseline) + if c.status == CellStatus::Draft && !baseline.contains(c.id) {
            seq![DraftEntryView { cell_id: c.id, name: c.name, memo: c.request_memo }]
        } else {
            seq![]
        }
    }
}

/// The draft cells of `cells` missing from `baseline`.
pub fn draft_diff(cells: &Vec<Cell>, baseline: &Vec<String>) -> (r: Vec<DraftDiffEntry>)
    ensures
        entries_view(r@) == draft_entries(cells_view(cells@), strings_view(baseline@)),
{
    let ghost cv = cells_view(cells@);
    let ghost bv = strings_view(baseline@);
    let mut out: Vec<DraftDiffEntry> = Vec::new();
    let mut i: usize = 0;
    while i < cells.len()
        invariant
            cv == cells_view(cells@),
            bv == strings_view(baseline@),
            i <= cells.len(),
            entries_view(out@) == draft_entries(cv.take(i as int), bv),
        decreases cells.len() - i,
    {
        let c = &cells[i];
        if c.status == CellStatus::Draft && !contains_string(baseline, &c.id) {
            out.push(DraftDiffEntry { cell_id: c.id.clone(), name: c.name.clone(), memo: c.request_memo.clone() });
        }
        proof {
            let t = cv.take(i + 1);
            assert(t.drop_last() =~= cv.take(i as int));
            assert(t.last() == cv[i as int]);
            assert(entries_view(out@) =~= draft_entries(t, bv));
        }
        i = i + 1;
    }
    assert(cv.take(cells.len() as int) =~= cv);
    out
}

/// Whether some draft cell has the id `id`.
pub open spec fn is_draft_cell_id(cells: Seq<CellView>, id: Seq<char>) -> bool {
    exists|i: int| 0 <= i < cells.len() && #[trigger] cells[i].id == id && cells[i].status == CellStatus::Draft
}

/// Every entry of the draft diff is a draft cell absent from the baseline;
/// with an empty baseline every draft cell is listed.
pub proof fn lemma_draft_entries_members(cells: Seq<CellView>, baseline: Seq<Seq<char>>)
    ensures
        forall|k: int| 0 <= k < draft_entries(cells, baseline).len() ==> is_draft_cell_id(cells, #[trigger] draft_entries(cells, baseline)[k].cell_id)
            && !baseline.contains(draft_entries(cells, baseline)[k].cell_id),
        baseline.len() == 0 ==> draft_entries(cells, baseline).len() == drafts_in(cells),
    decreases cells.len(),
{
    if cells.len() > 0 {
        let init = cells.drop_last();
        lemma_draft_entries_members(init, baseline);
        let d = draft_entries(cells, baseline);
        let di = draft_entries(init, baseline);
        assert forall|k: int| 0 <= k < d.len() implies is_draft_cell_id(cells, #[trigger] d[k].cell_id) && !baseline.contains(d[k].cell_id) by {
            if k < di.len() {
                assert(d[k] == di[k]);
                assert(is_draft_cell_id(init, di[k].cell_id));
                let i = choose|i: int| 0 <= i < init.len() && #[trigger] init[i].id == di[k].cell_id && init[i].status == CellStatus::Draft;
                assert(cells[i] == init[i]);
                assert(cells[i].id == d[k].cell_id);
            } else {
                let c = cells.last();
                assert(c.status == CellStatus::Draft && !baseline.contains(c.id));
                assert(d == di + seq![DraftEntryView { cell_id: c.id, name: c.name, memo: c.request_memo }]);
                assert(cells[cells.len() - 1].id == d[k].cell_id);
            }
        }
    }
}

/// The number of draft cells.
pub open spec fn drafts_in(cells: Seq<CellView>) -> nat
    decreases cells.len(),
{
    if cells.len() == 0 {
        0
    } else {
        drafts_in(cells.drop_last()) + if cells.last().status == CellStatus::Draft {
            1nat
        } else {
            0nat
        }
    }
}

// ---------------------------------------------------------------------------
// Status and summaries
// ---------------------------------------------------------------------------
/// A harness's current state and the drafts added since its baseline.
#[derive(Debug)]
pub struct HarnessStatus {
    pub harness_id: String,
    pub name: String,
    pub current_version: i64,
    pub has_draft: bool,
    pub draft_diff: Vec<DraftDiffEntry>,
    /// The current board.
    pub definition: BoardDefinition,
}

/// The status of the fetched head given the baseline the walk found.
pub fn harness_status(fetched: Option<(Harness, BoardVersion)>, harness_id: &str, baseline: &Vec<String>) -> (r: Result<HarnessStatus, CoreError>)
    ensures
        match fetched {
            None => r matches Err(e) && e@ == ErrorView::NotFound(harness_id@),
            Some(f) => r matches Ok(s) && {
                &&& s.harness_id@ == f.0.id@
                &&& s.name@ == f.0.name@
                &&& s.current_version == f.0.current_version
                &&& s.has_draft == f.0.has_draft
                &&& entries_view(s.draft_diff@) == draft_entries(f.1.definition@.cells, strings_view(baseline@))
                &&& s.definition@ == f.1.definition@
            },
        },
{
    let (h, v) = match fetched {
        Some(p) => p,
        None => return Err(CoreError::NotFound(String::from_str(harness_id))),
    };
    let diff = draft_diff(&v.definition.cells, baseline);
    Ok(
        HarnessStatus {
            harness_id: h.id,
            name: h.name,
            current_version: h.current_version,
            has_draft: h.has_draft,
            draft_diff: diff,
            definition: v.definition,
        },
    )
}

/// Validates the current board of the fetched head; an unknown harness is
/// not found.
pub fn validate_fetched(fetched: &Option<(Harness, BoardVersion)>, harness_id: &str) -> (r: Result<ValidationReport, CoreError>)
    ensures
        match fetched {
            None => r matches Err(e) && e@ == ErrorView::NotFound(harness_id@),
            Some(f) => r matches Ok(rep) && rep@ == board_report(f.1.definition@),
        },
{
    match fetched {
        None => Err(CoreError::NotFound(String::from_str(harness_id))),
        Some(f) => Ok(validate_board(&f.1.definition)),
    }
}

/// A harness as a listing shows it.
#[derive(Debug)]
pub struct HarnessSummary {
    pub harness_id: String,
    pub name: String,
    pub description: Option<String>,
    pub current_version: i64,
    pub has_draft: bool,
}

/// The summary of a harness.
pub fn summarize(h: Harness) -> (r: HarnessSummary)
    ensures
        r.harness_id@ == h.id@,
        r.name@ == h.name@,
        r.description.deep_view() == h.description.deep_view(),
        r.current_version == h.current_version,
        r.has_draft == h.has_draft,
{
    HarnessSummary { harness_id: h.id, name: h.name, description: h.description, current_version: h.current_version, has_draft: h.has_draft }
}

/// The summaries of all harnesses, in order.
pub fn list_summaries(harnesses: Vec<Harness>) -> (r: Vec<HarnessSummary>)
    ensures
        r.len() == harnesses.len(),
        forall|i: int| 0 <= i < r.len() ==> (#[trigger] r@[i]).harness_id@ == harnesses@[i].id@ && r@[i].name@
            == harnesses@[i].name@ && r@[i].description.deep_view() == harnesses@[i].description.deep_view()
            && r@[i].current_version == harnesses@[i].current_version && r@[i].has_draft == harnesses@[i].has_draft,
{
    let ghost hs = harnesses@;
    let mut rest = harnesses;
    let mut acc: Vec<HarnessSummary> = Vec::new();
    while rest.len() > 0
        invariant
            acc.len() + rest.len() == hs.len(),
            rest@ == hs.subrange(0, rest.len() as int),
            forall|i: int| 0 <= i < acc.len() ==> (#[trigger] acc@[i]).harness_id@ == hs[hs.len() - 1 - i].id@ && acc@[i].name@
                == hs[hs.len() - 1 - i].name@ && acc@[i].description.deep_view() == hs[hs.len() - 1 - i].description.deep_view()
                && acc@[i].current_version == hs[hs.len() - 1 - i].current_version && acc@[i].has_draft == hs[hs.len() - 1 - i].has_draft,
        decreases rest.len(),
    {
        let h = rest.pop().unwrap();
        acc.push(summarize(h));
    }
    let mut out: Vec<HarnessSummary> = Vec::new();
    while acc.len() > 0
        invariant
            acc.len() + out.len() == hs.len(),
            forall|i: int| 0 <= i < acc.len() ==> (#[trigger] acc@[i]).harness_id@ == hs[hs.len() - 1 - i].id@ && acc@[i].name@
                == hs[hs.len() - 1 - i].name@ && acc@[i].description.deep_view() == hs[hs.len() - 1 - i].description.deep_view()
                && acc@[i].current_version == hs[hs.len() - 1 - i].current_version && acc@[i].has_draft == hs[hs.len() - 1 - i].has_draft,
            forall|i: int| 0 <= i < out.len() ==> (#[trigger] out@[i]).harness_id@ == hs[i].id@ && out@[i].name@ == hs[i].name@
                && out@[i].description.deep_view() == hs[i].description.deep_view() && out@[i].current_version
                == hs[i].current_version && out@[i].has_draft == hs[i].has_draft,
        decreases acc.len(),
    {
        let s = acc.pop().unwrap();
        out.push(s);
    }
    out
}

/// The cell of the current board with id `cell_id`, or `NotFound(cell_id)`.
pub fn cell_detail(def: &BoardDefinition, cell_id: &String) -> (r: Result<Cell, CoreError>)
    ensures
        has_cell_id_in(def@, cell_id@) ==> (r matches Ok(c) && c@ == def@.cells[first_index(def@.cells, cell_id@)]),
        !has_cell_id_in(def@, cell_id@) ==> (r matches Err(e) && e@ == ErrorView::NotFound(cell_id@)),
{
    match locate(&def.cells, cell_id) {
        Some(i) => Ok(def.cells[i].copy()),
        None => Err(CoreError::NotFound(cell_id.clone())),
    }
}

pub open spec fn has_cell_id_in(b: BoardView, id: Seq<char>) -> bool {
    crate::domain::has_cell_id(b.cells, id)
}

// ---------------------------------------------------------------------------
// What the canvas draws
// ---------------------------------------------------------------------------
/// The text of a cell status.
pub open spec fn cell_status_text(s: CellStatus) -> Seq<char> {
    match s {
        CellStatus::Active => "active"@,
        CellStatus::Draft => "draft"@,
    }
}

pub open spec fn cell_dto_matches(d: CellDto, c: CellView) -> bool {
    &&& d.id@ == c.id
    &&& d.name@ == c.name
    &&& d.prompt@ == c.prompt
    &&& d.status@ == cell_status_text(c.status)
    &&& d.terminal == c.terminal
    &&& d.memo@ == c.request_memo
}

pub open spec fn edge_dto_matches(d: EdgeDto, e: crate::domain::EdgeView) -> bool {
    &&& d.from@ == e.from
    &&& d.to@ == e.to
    &&& d.label@ == e.label
    &&& d.guard.deep_view() == e.guard
}

pub open spec fn draft_dto_matches(d: DraftCellDto, e: DraftEntryView) -> bool {
    d.cell_id@ == e.cell_id && d.name@ == e.name && d.memo@ == e.memo
}

fn cell_dtos(cells: &Vec<Cell>) -> (r: Vec<CellDto>)
    ensures
        r.len() == cells.len(),
        forall|i: int| 0 <= i < r.len() ==> cell_dto_matches(#[trigger] r@[i], cells@[i]@),
{
    let mut out: Vec<CellDto> = Vec::new();
    let mut i: usize = 0;
    while i < cells.len()
        invariant
            i <= cells.len(),
            out.len() == i,
            forall|k: int| 0 <= k < i ==> cell_dto_matches(#[trigger] out@[k], cells@[k]@),
        decreases cells.len() - i,
    {
        let c = &cells[i];
        let status = match c.status {
            CellStatus::Active => String::from_str("active"),
            CellStatus::Draft => String::from_str("draft"),
        };
        out.push(
            CellDto {
                id: c.id.clone(),
                name: c.name.clone(),
                prompt: c.prompt.clone(),
                status,
                terminal: c.terminal,
                memo: c.request_memo.clone(),
            },
        );
        i = i + 1;
    }
    out
}

fn edge_dtos(edges: &Vec<crate::domain::Edge>) -> (r: Vec<EdgeDto>)
    ensures
        r.len() == edges.len(),
        forall|i: int| 0 <= i < r.len() ==> edge_dto_matches(#[trigger] r@[i], edges@[i]@),
{
    let mut out: Vec<EdgeDto> = Vec::new();
    let mut i: usize = 0;
    while i < edges.len()
        invariant
            i <= edges.len(),
            out.len() == i,
            forall|k: int| 0 <= k < i ==> edge_dto_matches(#[trigger] out@[k], edges@[k]@),
        decreases edges.len() - i,
    {
        let e = &edges[i];
        let guard = match &e.guard {
            Some(g) => Some(g.expr.clone()),
            None => None,
        };
        out.push(EdgeDto { from: e.from.clone(), to: e.to.clone(), label: e.label.clone(), guard });
        i = i + 1;
    }
    out
}

fn draft_dtos(entries: &Vec<DraftDiffEntry>) -> (r: Vec<DraftCellDto>)
    ensures
        r.len() == entries.len(),
        forall|i: int| 0 <= i < r.len() ==> draft_dto_matches(#[trigger] r@[i], entries@[i]@),
{
    let mut out: Vec<DraftCellDto> = Vec::new();
    let mut i: usize = 0;
    while i < entries.len()
        invariant
            i <= entries.len(),
            out.len() == i,
            forall|k: int| 0 <= k < i ==> draft_dto_matches(#[trigger] out@[k], entries@[k]@),
        decreases entries.len() - i,
    {
        let e = &entries[i];
        out.push(DraftCellDto { cell_id: e.cell_id.clone(), name: e.name.clone(), memo: e.memo.clone() });
        i = i + 1;
    }
    out
}

/// The detail the canvas draws for a harness: its status, the lock of the
/// head (0 when the head could not be read), the start cell, every cell with
/// its prompt and memo, the edges and the draft diff.
pub fn harness_detail(st: &HarnessStatus, head_lock: Option<i64>) -> (r: HarnessDetailDto)
    ensures
        r.harness_id@ == st.harness_id@,
        r.name@ == st.name@,
        r.current_version == st.current_version,
        r.lock_version == match head_lock {
            Some(l) => l,
            None => 0,
        },
        r.has_draft == st.has_draft,
        r.start_cell_id@ == st.definition.start@,
        r.cells.len() == st.definition.cells.len(),
        forall|i: int| 0 <= i < r.cells.len() ==> cell_dto_matches(#[trigger] r.cells@[i], st.definition.cells@[i]@),
        r.edges.len() == st.definition.edges.len(),
        forall|i: int| 0 <= i < r.edges.len() ==> edge_dto_matches(#[trigger] r.edges@[i], st.definition.edges@[i]@),
        r.draft_diff.len() == st.draft_diff.len(),
        forall|i: int| 0 <= i < r.draft_diff.len() ==> draft_dto_matches(#[trigger] r.draft_diff@[i], st.draft_diff@[i]@),
{
    let lock = match head_lock {
        Some(l) => l,
        None => 0,
    };
    HarnessDetailDto {
        harness_id: st.harness_id.clone(),
        name: st.name.clone(),
        current_version: st.current_version,
        lock_version: lock,
        has_draft: st.has_draft,
        start_cell_id: st.definition.start.clone(),
        cells: cell_dtos(&st.definition.cells),
        edges: edge_dtos(&st.definition.edges),
        draft_diff: draft_dtos(&st.draft_diff),
    }
}

/// The name of the first folder with id `id`, if any.
pub open spec fn folder_name_of(folders: Seq<(Folder, i64)>, id: Seq<char>) -> Option<Seq<char>> {
    if exists|i: int| 0 <= i < folders.len() && (#[trigger] folders[i]).0.id@ == id {
        let i = choose|i: int|
            0 <= i < folders.len() && folders[i].0.id@ == id && forall|j: int| 0 <= j < i ==> (#[trigger] folders[j]).0.id@ != id;
        Some(folders[i].0.name@)
    } else {
        None
    }
}

fn find_folder_name(folders: &Vec<(Folder, i64)>, id: &String) -> (r: Option<String>)
    ensures
        r.deep_view() == folder_name_of(folders@, id@),
{
    let mut i: usize = 0;
    while i < folders.len()
        invariant
            i <= folders.len(),
            forall|j: int| 0 <= j < i ==> (#[trigger] folders@[j]).0.id@ != id@,
        decreases folders.len() - i,
    {
        if folders[i].0.id == *id {
            proof {
                let k = choose|k: int|
                    0 <= k < folders@.len() && folders@[k].0.id@ == id@ && forall|j: int|
                        0 <= j < k ==> (#[trigger] folders@[j]).0.id@ != id@;
                assert(folders@[i as int].0.id@ == id@);
                if k < i {
                    assert(folders@[k].0.id@ != id@);
                }
                if i < k {
                    assert(folders@[i as int].0.id@ != id@);
                }
            }
            return Some(folders[i].0.name.clone());
        }
        i = i + 1;
    }
    None
}

/// A harness as the canvas lists it, with the name of the folder it is
/// filed under when that folder is known.
pub fn harness_summary_dto(h: &Harness, folders: &Vec<(Folder, i64)>) -> (r: HarnessSummaryDto)
    ensures
        r.harness_id@ == h.id@,
        r.name@ == h.name@,
        r.current_version == h.current_version,
        r.has_draft == h.has_draft,
        r.folder_id.deep_view() == h.folder_id.deep_view(),
        r.folder_name.deep_view() == match h.folder_id {
            Some(f) => folder_name_of(folders@, f@),
            None => None,
        },
{
    let (folder_id, folder_name) = match &h.folder_id {
        Some(f) => (Some(f.clone()), find_folder_name(folders, f)),
        None => (None, None),
    };
    HarnessSummaryDto {
        harness_id: h.id.clone(),
        name: h.name.clone(),
        current_version: h.current_version,
        has_draft: h.has_draft,
        folder_id,
        folder_name,
    }
}

/// A folder with the number of harnesses filed under it.
pub fn folder_dto(f: &Folder, harness_count: i64) -> (r: FolderDto)
    ensures
        r.folder_id@ == f.id@,
        r.name@ == f.name@,
        r.harness_count == harness_count,
{
    FolderDto { folder_id: f.id.clone(), name: f.name.clone(), harness_count }
}

/// The result of deleting a folder: its name and how many harnesses moved
/// to uncategorized.
pub fn delete_folder_result(name: String, moved: i64) -> (r: DeleteFolderResultDto)
    ensures
        r.name@ == name@,
        r.moved_to_uncategorized == moved,
{
    DeleteFolderResultDto { name, moved_to_uncategorized: moved }
}

} // verus!
