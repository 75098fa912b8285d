//! Runs across a board: where a run starts, how it follows an edge, how it
//! stops, and how its status is stored and changed by session events.
//!
//! Each step decides from values the caller has read (the harness head, the
//! run row, the pinned version) and yields what the caller persists.
use crate::board_edit::locate;
use crate::domain::{
    any_draft, board_has_draft, cells_view, edges_view, has_cell_id, BoardDefinition, BoardVersion, BoardView,
    Cell, CellView, Edge, EdgeView, Harness, Run, RunStatus, RunView,
};
use crate::error::{outcome_is, CoreError, ErrorView};
use crate::text::{i64_to_decimal, signed_decimal, str_eq};
use crate::versioning::{first_index, lemma_first_index_exists};
use vstd::prelude::*;
use vstd::string::*;

verus! {

// ---------------------------------------------------------------------------
// Stored status text
// ---------------------------------------------------------------------------
/// The text a run status is stored as.
pub open spec fn status_text(s: RunStatus) -> Seq<char> {
    match s {
        RunStatus::Running => "running"@,
        RunStatus::Done => "done"@,
        RunStatus::Stalled => "stalled"@,
        RunStatus::Disconnected => "disconnected"@,
        RunStatus::Closed => "closed"@,
    }
}

/// The status a stored text stands for; any unknown text reads as running.
pub open spec fn status_of_text(t: Seq<char>) -> RunStatus {
    if t == "done"@ {
        RunStatus::Done
    } else if t == "stalled"@ {
        RunStatus::Stalled
    } else if t == "disconnected"@ {
        RunStatus::Disconnected
    } else if t == "closed"@ {
        RunStatus::Closed
    } else {
        RunStatus::Running
    }
}

/// The stored text of a run status.
pub fn status_str(s: &RunStatus) -> (r: &'static str)
    ensures
        r@ == status_text(*s),
{
    match s {
        RunStatus::Running => "running",
        RunStatus::Done => "done",
        RunStatus::Stalled => "stalled",
        RunStatus::Disconnected => "disconnected",
        RunStatus::Closed => "closed",
    }
}

/// Reads a stored status text back; unknown text reads as running.
pub fn parse_status(s: &str) -> (r: RunStatus)
    ensures
        r == status_of_text(s@),
{
    if str_eq(s, "done") {
        RunStatus::Done
    } else if str_eq(s, "stalled") {
        RunStatus::Stalled
    } else if str_eq(s, "disconnected") {
        RunStatus::Disconnected
    } else if str_eq(s, "closed") {
        RunStatus::Closed
    } else {
        RunStatus::Running
    }
}

/// Reading back the stored text of a status gives the same status.
pub proof fn lemma_status_text_round_trip(s: RunStatus)
    ensures
        status_of_text(status_text(s)) == s,
{
    reveal_strlit("running");
    reveal_strlit("done");
    reveal_strlit("stalled");
    reveal_strlit("disconnected");
    reveal_strlit("closed");
    let t = status_text(s);
    assert(t.len() != "done"@.len() || t[0] != 'd' || s == RunStatus::Done);
    assert(t.len() != "stalled"@.len() || t[1] != 't' || s == RunStatus::Stalled);
    assert(t.len() != "disconnected"@.len() || s == RunStatus::Disconnected);
    assert(t.len() != "closed"@.len() || t[0] != 'c' || s == RunStatus::Closed);
}

// ---------------------------------------------------------------------------
// Session events
// ---------------------------------------------------------------------------
/// The status a session-event reason moves a run to, if any.
pub open spec fn reason_status(reason: Seq<char>) -> Option<RunStatus> {
    if reason == "user_closed"@ {
        Some(RunStatus::Closed)
    } else if reason == "session_exited"@ {
        Some(RunStatus::Disconnected)
    } else {
        None
    }
}

/// Maps a session-event reason to the new run status: a closed session
/// closes the run, an exited one disconnects it, anything else is ignored.
pub fn status_for_reason(reason: &str) -> (r: Option<RunStatus>)
    ensures
        r == reason_status(reason@),
{
    if str_eq(reason, "user_closed") {
        Some(RunStatus::Closed)
    } else if str_eq(reason, "session_exited") {
        Some(RunStatus::Disconnected)
    } else {
        None
    }
}

/// The run after a session event with `reason` at `now`, or `None` when the
/// reason is ignored.
pub open spec fn session_event_result(run: RunView, reason: Seq<char>, now: Seq<char>) -> Option<RunView> {
    match reason_status(reason) {
        Some(s) => Some(RunView { status: s, updated_at: now, ..run }),
        None => None,
    }
}

/// Applies a session event to a run.
pub fn apply_session_event(run: Run, reason: &str, now: String) -> (r: Option<Run>)
    ensures
        match session_event_result(run@, reason@, now@) {
            Some(v) => r matches Some(x) && x@ == v,
            None => r is None,
        },
{
    match status_for_reason(reason) {
        Some(s) => Some(Run { status: s, updated_at: now, ..run }),
        None => None,
    }
}

// ---------------------------------------------------------------------------
// Outgoing edges
// ---------------------------------------------------------------------------
/// One outgoing edge as shown to the agent when a run lands on a cell.
#[derive(Debug)]
pub struct EdgeInfo {
    pub label: String,
    pub to_cell_id: String,
    pub to_cell_name: String,
    pub guard: Option<String>,
}

pub struct EdgeInfoView {
    pub label: Seq<char>,
    pub to_cell_id: Seq<char>,
    pub to_cell_name: Seq<char>,
    pub guard: Option<Seq<char>>,
}

impl View for EdgeInfo {
    type V = EdgeInfoView;

    open spec fn view(&self) -> EdgeInfoView {
        EdgeInfoView {
            label: self.label@,
            to_cell_id: self.to_cell_id@,
            to_cell_name: self.to_cell_name@,
            guard: self.guard.deep_view(),
        }
    }
}

pub open spec fn edge_infos_view(v: Seq<EdgeInfo>) -> Seq<EdgeInfoView> {
    v.map_values(|e: EdgeInfo| e@)
}

/// The name of the first cell with id `id`, or the empty text when no cell
/// has it.
pub open spec fn cell_name_of(cells: Seq<CellView>, id: Seq<char>) -> Seq<char> {
    if has_cell_id(cells, id) {
        cells[first_index(cells, id)].name
    } else {
        Seq::empty()
    }
}

pub open spec fn edge_info_of(cells: Seq<CellView>, e: EdgeView) -> EdgeInfoView {
    EdgeInfoView { label: e.label, to_cell_id: e.to, to_cell_name: cell_name_of(cells, e.to), guard: e.guard }
}

/// The edges leaving `from`, in board order, with their target's name.
#[verifier::opaque]
pub open spec fn outgoing(cells: Seq<CellView>, edges: Seq<EdgeView>, from: Seq<char>) -> Seq<EdgeInfoView>
    decreases edges.len(),
{
    if edges.len() == 0 {
        seq![]
    } else {
        outgoing(cells, edges.drop_last(), from) + if edges.last().from == from {
            seq![edge_info_of(cells, edges.last())]
        } else {
            seq![]
        }
    }
}

fn cell_name_for(cells: &Vec<Cell>, id: &String) -> (r: String)
    ensures
        r@ == cell_name_of(cells_view(cells@), id@),
{
    match locate(cells, id) {
        Some(i) => cells[i].name.clone(),
        None => String::new(),
    }
}

proof fn lemma_outgoing_step(cells: Seq<CellView>, ev: Seq<EdgeView>, i: int, from: Seq<char>)
    requires
        0 <= i < ev.len(),
    ensures
        outgoing(cells, ev.take(i + 1), from) == outgoing(cells, ev.take(i), from) + if ev[i].from == from {
            seq![edge_info_of(cells, ev[i])]
        } else {
            seq![]
        },
{
    reveal(outgoing);
    let t = ev.take(i + 1);
    assert(t.drop_last() =~= ev.take(i));
    assert(t.last() == ev[i]);
}

fn edge_info(def: &BoardDefinition, e: &Edge) -> (r: EdgeInfo)
    ensures
        r@ == edge_info_of(def@.cells, e@),
{
    let name = cell_name_for(&def.cells, &e.to);
    let guard = match &e.guard {
        Some(g) => Some(g.expr.clone()),
        None => None,
    };
    EdgeInfo { label: e.label.clone(), to_cell_id: e.to.clone(), to_cell_name: name, guard }
}

/// The edges leaving cell `from` of `def`, as shown to the agent.
pub fn outgoing_edges(def: &BoardDefinition, from: &String) -> (r: Vec<EdgeInfo>)
    ensures
        edge_infos_view(r@) == outgoing(def@.cells, def@.edges, from@),
{
    let ghost ev = edges_view(def.edges@);
    let ghost cells = def@.cells;
    let mut out: Vec<EdgeInfo> = Vec::new();
    let mut i: usize = 0;
    proof {
        reveal(outgoing);
        assert(edge_infos_view(out@) =~= Seq::<EdgeInfoView>::empty());
    }
    while i < def.edges.len()
        invariant
            ev == edges_view(def.edges@),
            ev == def@.edges,
            cells == def@.cells,
            i <= def.edges.len(),
            edge_infos_view(out@) == outgoing(cells, ev.take(i as int), from@),
        decreases def.edges.len() - i,
    {
        proof {
            lemma_outgoing_step(cells, ev, i as int, from@);
        }
        let ghost before = edge_infos_view(out@);
        assert(ev[i as int] == def.edges@[i as int]@);
        if def.edges[i].from == *from {
            let info = edge_info(def, &def.edges[i]);
            out.push(info);
            assert(edge_infos_view(out@) =~= before.push(edge_info_of(cells, ev[i as int])));
        } else {
            assert(edge_infos_view(out@) =~= before);
        }
        i = i + 1;
    }
    assert(ev.take(def.edges.len() as int) =~= ev);
    out
}

// ---------------------------------------------------------------------------
// Starting a run
// ---------------------------------------------------------------------------
#[derive(Debug)]
pub struct StartRunInput {
    pub harness_id: String,
    /// Absolute project path of the agent session, when known.
    pub project_path: Option<String>,
}

#[derive(Debug)]
pub struct StartRunOutput {
    pub run_id: String,
    pub cell_name: String,
    pub prompt: String,
    pub edges: Vec<EdgeInfo>,
}

/// Where a new run begins: the harness, the pinned version, the start cell
/// and the edges leaving it.
#[derive(Debug)]
pub struct StartPlan {
    pub harness_id: String,
    pub board_version_no: i64,
    pub start_cell_id: String,
    pub cell_name: String,
    pub prompt: String,
    pub edges: Vec<EdgeInfo>,
}

pub struct StartPlanView {
    pub harness_id: Seq<char>,
    pub board_version_no: i64,
    pub start_cell_id: Seq<char>,
    pub cell_name: Seq<char>,
    pub prompt: Seq<char>,
    pub edges: Seq<EdgeInfoView>,
}

impl View for StartPlan {
    type V = StartPlanView;

    open spec fn view(&self) -> StartPlanView {
        StartPlanView {
            harness_id: self.harness_id@,
            board_version_no: self.board_version_no,
            start_cell_id: self.start_cell_id@,
            cell_name: self.cell_name@,
            prompt: self.prompt@,
            edges: edge_infos_view(self.edges@),
        }
    }
}

/// Where a run of the fetched head starts, or why it cannot: an unknown
/// harness, a board with a draft cell, or a start cell missing from the board.
pub open spec fn start_result(fetched: Option<(Harness, BoardVersion)>, harness_id: Seq<char>) -> Result<StartPlanView, ErrorView> {
    match fetched {
        None => Err(ErrorView::NotFound(harness_id)),
        Some(f) => {
            let b = f.1.definition@;
            if any_draft(b.cells) {
                Err(ErrorView::DraftCellsExist)
            } else if !has_cell_id(b.cells, b.start) {
                Err(ErrorView::Storage("start cell not found in board"@))
            } else {
                let c = b.cells[first_index(b.cells, b.start)];
                Ok(
                    StartPlanView {
                        harness_id: f.0.id@,
                        board_version_no: f.1.version_no,
                        start_cell_id: c.id,
                        cell_name: c.name,
                        prompt: c.prompt,
                        edges: outgoing(b.cells, b.edges, c.id),
                    },
                )
            }
        },
    }
}

/// Decides where a run of the fetched head starts.
pub fn prepare_start_run(fetched: Option<(Harness, BoardVersion)>, harness_id: &str) -> (r: Result<StartPlan, CoreError>)
    ensures
        outcome_is(r, start_result(fetched, harness_id@)),
{
    let (harness, version) = match fetched {
        Some(p) => p,
        None => return Err(CoreError::NotFound(String::from_str(harness_id))),
    };
    let def = &version.definition;
    if board_has_draft(&def.cells) {
        return Err(CoreError::DraftCellsExist);
    }
    let i = match locate(&def.cells, &def.start) {
        Some(i) => i,
        None => return Err(CoreError::Storage(String::from_str("start cell not found in board"))),
    };
    let c = &def.cells[i];
    let edges = outgoing_edges(def, &c.id);
    Ok(
        StartPlan {
            harness_id: harness.id,
            board_version_no: version.version_no,
            start_cell_id: c.id.clone(),
            cell_name: c.name.clone(),
            prompt: c.prompt.clone(),
            edges,
        },
    )
}

/// The run a plan creates: running at the start cell, stamped `now`, with no
/// heartbeat, no pending inject and no step token.
pub open spec fn new_run_view(p: StartPlanView, run_id: Seq<char>, now: Seq<char>, project_path: Option<Seq<char>>) -> RunView {
    RunView {
        id: run_id,
        harness_id: p.harness_id,
        board_version_no: p.board_version_no,
        current_cell_id: p.start_cell_id,
        status: RunStatus::Running,
        project_path,
        created_at: now,
        last_heartbeat_at: None,
        updated_at: now,
        inject_pending_since: None,
        current_step_token: None,
    }
}

/// Builds the run a plan creates.
pub fn new_run(plan: &StartPlan, run_id: String, now: String, project_path: Option<String>) -> (r: Run)
    ensures
        r@ == new_run_view(plan@, run_id@, now@, project_path.deep_view()),
{
    Run {
        id: run_id,
        harness_id: plan.harness_id.clone(),
        board_version_no: plan.board_version_no,
        current_cell_id: plan.start_cell_id.clone(),
        status: RunStatus::Running,
        project_path,
        created_at: now.clone(),
        last_heartbeat_at: None,
        updated_at: now,
        inject_pending_since: None,
        current_step_token: None,
    }
}

/// What starting a run answers: the run id, the start cell's name and prompt
/// and its outgoing edges.
pub fn start_output(plan: StartPlan, run_id: String) -> (r: StartRunOutput)
    ensures
        r.run_id@ == run_id@,
        r.cell_name@ == plan.cell_name@,
        r.prompt@ == plan.prompt@,
        edge_infos_view(r.edges@) == edge_infos_view(plan.edges@),
{
    StartRunOutput { run_id, cell_name: plan.cell_name, prompt: plan.prompt, edges: plan.edges }
}

// ---------------------------------------------------------------------------
// Advancing a run
// ---------------------------------------------------------------------------
#[derive(Debug)]
pub struct AdvanceRunInput {
    pub run_id: String,
    /// Edge label to follow from the current cell.
    pub edge_label: String,
}

#[derive(Debug)]
pub struct AdvanceRunOutput {
    pub cell_name: String,
    pub prompt: String,
    pub terminal: bool,
    pub edges: Vec<EdgeInfo>,
}

pub struct AdvanceView {
    pub cell_name: Seq<char>,
    pub prompt: Seq<char>,
    pub terminal: bool,
    pub edges: Seq<EdgeInfoView>,
}

impl View for AdvanceRunOutput {
    type V = AdvanceView;

    open spec fn view(&self) -> AdvanceView {
        AdvanceView { cell_name: self.cell_name@, prompt: self.prompt@, terminal: self.terminal, edges: edge_infos_view(self.edges@) }
    }
}

/// The error for an unknown run.
pub open spec fn run_not_found(run_id: Seq<char>) -> ErrorView {
    ErrorView::NotFound("run not found: "@ + run_id)
}

fn run_not_found_error(run_id: &str) -> (r: CoreError)
    ensures
        r@ == run_not_found(run_id@),
{
    let mut m = String::from_str("run not found: ");
    m.append(run_id);
    CoreError::NotFound(m)
}

/// The fetched run, if it exists and is running.
pub open spec fn running_run_result(fetched: Option<Run>, run_id: Seq<char>) -> Result<RunView, ErrorView> {
    match fetched {
        None => Err(run_not_found(run_id)),
        Some(run) => if run.status != RunStatus::Running {
            Err(ErrorView::RunNotRunning)
        } else {
            Ok(run@)
        },
    }
}

/// Checks that the fetched run exists and is running.
pub fn check_running(fetched: Option<Run>, run_id: &str) -> (r: Result<Run, CoreError>)
    ensures
        outcome_is(r, running_run_result(fetched, run_id@)),
{
    match fetched {
        None => Err(run_not_found_error(run_id)),
        Some(run) => if run.status != RunStatus::Running {
            Err(CoreError::RunNotRunning)
        } else {
            Ok(run)
        },
    }
}

/// Whether some edge leaves `from` under `label`.
pub open spec fn has_edge_from(edges: Seq<EdgeView>, from: Seq<char>, label: Seq<char>) -> bool {
    exists|i: int| 0 <= i < edges.len() && #[trigger] edges[i].from == from && edges[i].label == label
}

/// The position of the first edge leaving `from` under `label`.
pub open spec fn first_edge_from(edges: Seq<EdgeView>, from: Seq<char>, label: Seq<char>) -> int {
    choose|i: int|
        0 <= i < edges.len() && edges[i].from == from && edges[i].label == label && forall|j: int|
            0 <= j < i ==> !(#[trigger] edges[j].from == from && edges[j].label == label)
}

pub open spec fn edge_not_found(label: Seq<char>, cell: Seq<char>) -> ErrorView {
    ErrorView::NotFound("edge '"@ + label + "' not found from cell '"@ + cell + "'"@)
}

pub open spec fn pinned_missing(version_no: i64) -> ErrorView {
    ErrorView::Storage("pinned version "@ + signed_decimal(version_no as int) + " missing"@)
}

pub open spec fn target_missing(to: Seq<char>) -> ErrorView {
    ErrorView::Storage("target cell '"@ + to + "' not found"@)
}

/// Following `label` from the run's cell on its pinned board: the run moves
/// to the first target cell with the edge's id, becomes done when that cell
/// is terminal, and is stamped `now`.
pub open spec fn advance_result(run: RunView, pinned: Option<BoardVersion>, label: Seq<char>, now: Seq<char>) -> Result<(RunView, AdvanceView), ErrorView> {
    match pinned {
        None => Err(pinned_missing(run.board_version_no)),
        Some(v) => advance_on(run, v.definition@, label, now),
    }
}

/// Following `label` from the run's cell on board `b`.
#[verifier::opaque]
pub open spec fn advance_on(run: RunView, b: BoardView, label: Seq<char>, now: Seq<char>) -> Result<(RunView, AdvanceView), ErrorView> {
    if !has_edge_from(b.edges, run.current_cell_id, label) {
        Err(edge_not_found(label, run.current_cell_id))
    } else {
        let e = b.edges[first_edge_from(b.edges, run.current_cell_id, label)];
        if !has_cell_id(b.cells, e.to) {
            Err(target_missing(e.to))
        } else {
            let c = b.cells[first_index(b.cells, e.to)];
            Ok(
                (
                    RunView {
                        current_cell_id: c.id,
                        status: if c.terminal {
                            RunStatus::Done
                        } else {
                            run.status
                        },
                        updated_at: now,
                        ..run
                    },
                    AdvanceView { cell_name: c.name, prompt: c.prompt, terminal: c.terminal, edges: outgoing(b.cells, b.edges, c.id) },
                ),
            )
        }
    }
}

fn find_edge_from(edges: &Vec<Edge>, from: &String, label: &String) -> (r: Option<usize>)
    ensures
        match r {
            Some(i) => {
                &&& has_edge_from(edges_view(edges@), from@, label@)
                &&& i == first_edge_from(edges_view(edges@), from@, label@)
                &&& i < edges.len()
            },
            None => !has_edge_from(edges_view(edges@), from@, label@),
        },
{
    let ghost ev = edges_view(edges@);
    let mut i: usize = 0;
    while i < edges.len()
        invariant
            ev == edges_view(edges@),
            i <= edges.len(),
            forall|j: int| 0 <= j < i ==> !(#[trigger] ev[j].from == from@ && ev[j].label == label@),
        decreases edges.len() - i,
    {
        if edges[i].from == *from && edges[i].label == *label {
            proof {
                assert(ev[i as int].from == from@ && ev[i as int].label == label@);
                let k = first_edge_from(ev, from@, label@);
                assert(0 <= k < ev.len() && ev[k].from == from@ && ev[k].label == label@ && forall|j: int|
                    0 <= j < k ==> !(#[trigger] ev[j].from == from@ && ev[j].label == label@));
                if k < i {
                    assert(!(ev[k].from == from@ && ev[k].label == label@));
                }
                if i < k {
                    assert(!(ev[i as int].from == from@ && ev[i as int].label == label@));
                }
            }
            return Some(i);
        }
        i = i + 1;
    }
    proof {
        if has_edge_from(ev, from@, label@) {
            let k = choose|k: int| 0 <= k < ev.len() && #[trigger] ev[k].from == from@ && ev[k].label == label@;
            assert(!(ev[k].from == from@ && ev[k].label == label@));
        }
    }
    None
}

fn edge_not_found_error(label: &String, cell: &String) -> (r: CoreError)
    ensures
        r@ == edge_not_found(label@, cell@),
{
    let mut m = String::from_str("edge '");
    m.append(label.as_str());
    m.append("' not found from cell '");
    m.append(cell.as_str());
    m.append("'");
    CoreError::NotFound(m)
}

fn pinned_missing_error(version_no: i64) -> (r: CoreError)
    ensures
        r@ == pinned_missing(version_no),
{
    let mut m = String::from_str("pinned version ");
    let n = i64_to_decimal(version_no);
    m.append(n.as_str());
    m.append(" missing");
    CoreError::Storage(m)
}

fn target_missing_error(to: &String) -> (r: CoreError)
    ensures
        r@ == target_missing(to@),
{
    let mut m = String::from_str("target cell '");
    m.append(to.as_str());
    m.append("' not found");
    CoreError::Storage(m)
}

pub open spec fn advance_matches(r: Result<(Run, AdvanceRunOutput), CoreError>, s: Result<(RunView, AdvanceView), ErrorView>) -> bool {
    match s {
        Ok(v) => r matches Ok(x) && x.0@ == v.0 && x.1@ == v.1,
        Err(e) => r matches Err(x) && x@ == e,
    }
}

/// Moves a run along `edge_label` on its pinned board version, yielding the
/// updated run to persist and the next cell's prompt and outgoing edges.
pub fn plan_advance(run: Run, pinned: Option<BoardVersion>, edge_label: &String, now: String) -> (r: Result<(Run, AdvanceRunOutput), CoreError>)
    ensures
        advance_matches(r, advance_result(run@, pinned, edge_label@, now@)),
{
    match pinned {
        Some(v) => advance_in(run, &v.definition, edge_label, now),
        None => Err(pinned_missing_error(run.board_version_no)),
    }
}

fn advance_in(run: Run, def: &BoardDefinition, edge_label: &String, now: String) -> (r: Result<(Run, AdvanceRunOutput), CoreError>)
    ensures
        advance_matches(r, advance_on(run@, def@, edge_label@, now@)),
{
    reveal(advance_on);
    let k = match find_edge_from(&def.edges, &run.current_cell_id, edge_label) {
        Some(k) => k,
        None => return Err(edge_not_found_error(edge_label, &run.current_cell_id)),
    };
    let to = &def.edges[k].to;
    let i = match locate(&def.cells, to) {
        Some(i) => i,
        None => return Err(target_missing_error(to)),
    };
    let c = &def.cells[i];
    let edges = outgoing_edges(def, &c.id);
    let status = if c.terminal {
        RunStatus::Done
    } else {
        run.status
    };
    let out = AdvanceRunOutput { cell_name: c.name.clone(), prompt: c.prompt.clone(), terminal: c.terminal, edges };
    let moved = Run { current_cell_id: c.id.clone(), status, updated_at: now, ..run };
    Ok((moved, out))
}

// ---------------------------------------------------------------------------
// Stopping a run
// ---------------------------------------------------------------------------
#[derive(Debug)]
pub struct StopRunInput {
    pub run_id: String,
}

#[derive(Debug)]
pub struct StopRunOutput {
    /// The cell the run was standing on when it was stopped.
    pub stopped_at_cell_id: String,
    /// The harness the run belonged to.
    pub harness_id: String,
    /// False when the run had already finished, so nothing changed.
    pub was_in_flight: bool,
}

/// Whether a run with this status is still in flight.
pub open spec fn in_flight(s: RunStatus) -> bool {
    s == RunStatus::Running || s == RunStatus::Stalled || s == RunStatus::Disconnected
}

/// The run after a stop at `now`: a run in flight is closed, with its
/// pending inject and step token cleared; a finished run is left as it is.
pub open spec fn stopped_view(run: RunView, now: Seq<char>) -> RunView {
    if in_flight(run.status) {
        RunView { status: RunStatus::Closed, updated_at: now, inject_pending_since: None, current_step_token: None, ..run }
    } else {
        run
    }
}

/// What stopping the fetched run reports.
pub fn plan_stop_run(fetched: &Option<Run>, run_id: &str) -> (r: Result<StopRunOutput, CoreError>)
    ensures
        match fetched {
            None => r matches Err(e) && e@ == run_not_found(run_id@),
            Some(run) => r matches Ok(o) && o.stopped_at_cell_id@ == run.current_cell_id@ && o.harness_id@
                == run.harness_id@ && o.was_in_flight == in_flight(run.status),
        },
{
    match fetched {
        None => Err(run_not_found_error(run_id)),
        Some(run) => {
            let was = match run.status {
                RunStatus::Running | RunStatus::Stalled | RunStatus::Disconnected => true,
                _ => false,
            };
            Ok(StopRunOutput { stopped_at_cell_id: run.current_cell_id.clone(), harness_id: run.harness_id.clone(), was_in_flight: was })
        },
    }
}

/// The run as a stop at `now` leaves it.
pub fn stopped_run(run: Run, now: String) -> (r: Run)
    ensures
        r@ == stopped_view(run@, now@),
{
    match run.status {
        RunStatus::Running | RunStatus::Stalled | RunStatus::Disconnected => Run {
            status: RunStatus::Closed,
            updated_at: now,
            inject_pending_since: None,
            current_step_token: None,
            ..run
        },
        _ => run,
    }
}

/// Stopping is idempotent: a second stop leaves a stopped run unchanged, and
/// a stopped run is never in flight.
pub proof fn lemma_stop_idempotent(run: RunView, now1: Seq<char>, now2: Seq<char>)
    ensures
        stopped_view(stopped_view(run, now1), now2) == stopped_view(run, now1),
        !in_flight(stopped_view(run, now1).status),
{
}

// ---------------------------------------------------------------------------
// Laws of advancing and starting
// ---------------------------------------------------------------------------
/// When an edge leaves `from` under `label`, `first_edge_from` is the first
/// such edge.
proof fn lemma_first_edge_from_exists(edges: Seq<EdgeView>, from: Seq<char>, label: Seq<char>)
    requires
        has_edge_from(edges, from, label),
    ensures
        0 <= first_edge_from(edges, from, label) < edges.len(),
        edges[first_edge_from(edges, from, label)].from == from,
        edges[first_edge_from(edges, from, label)].label == label,
        forall|j: int|
            0 <= j < first_edge_from(edges, from, label) ==> !(#[trigger] edges[j].from == from && edges[j].label == label),
    decreases edges.len(),
{
    let init = edges.drop_last();
    let i = if has_edge_from(init, from, label) {
        lemma_first_edge_from_exists(init, from, label);
        let i = first_edge_from(init, from, label);
        assert forall|j: int| 0 <= j < i implies !(#[trigger] edges[j].from == from && edges[j].label == label) by {
            assert(edges[j] == init[j]);
        }
        assert(edges[i] == init[i]);
        i
    } else {
        let i = edges.len() - 1;
        let k = choose|k: int| 0 <= k < edges.len() && #[trigger] edges[k].from == from && edges[k].label == label;
        if k < i {
            assert(init[k] == edges[k]);
        }
        assert forall|j: int| 0 <= j < i implies !(#[trigger] edges[j].from == from && edges[j].label == label) by {
            assert(edges[j] == init[j]);
            if edges[j].from == from && edges[j].label == label {
                assert(init[j].from == from && init[j].label == label);
            }
        }
        i
    };
    let k = first_edge_from(edges, from, label);
    assert(0 <= k < edges.len() && edges[k].from == from && edges[k].label == label && forall|j: int|
        0 <= j < k ==> !(#[trigger] edges[j].from == from && edges[j].label == label));
    if k < i {
        assert(!(edges[k].from == from && edges[k].label == label));
    }
    if i < k {
        assert(!(edges[i].from == from && edges[i].label == label));
    }
}

/// Advancing follows the first edge that leaves the run's current cell
/// under the requested label, and no other: on success the run stands on
/// that edge's target, is done exactly when the target is terminal (and
/// otherwise keeps its status), and shows the target's name and prompt;
/// the advance fails with edge-not-found exactly when no edge leaves the
/// current cell under that label.
pub proof fn lemma_advance_follows_an_edge_from_the_current_cell(run: RunView, b: BoardView, label: Seq<char>, now: Seq<char>)
    ensures
        (forall|i: int| 0 <= i < b.edges.len() ==> !(#[trigger] b.edges[i].from == run.current_cell_id && b.edges[i].label == label))
            <==> advance_on(run, b, label, now) == Err::<(RunView, AdvanceView), ErrorView>(edge_not_found(label, run.current_cell_id)),
        advance_on(run, b, label, now) matches Ok(p) ==> exists|i: int|
            0 <= i < b.edges.len() && b.edges[i].from == run.current_cell_id && b.edges[i].label == label && b.edges[i].to
                == p.0.current_cell_id && (forall|j: int|
                0 <= j < i ==> !(#[trigger] b.edges[j].from == run.current_cell_id && b.edges[j].label == label)),
        advance_on(run, b, label, now) matches Ok(p) ==> exists|c: int|
            0 <= c < b.cells.len() && #[trigger] b.cells[c].id == p.0.current_cell_id && p.1.cell_name == b.cells[c].name
                && p.1.prompt == b.cells[c].prompt && p.1.terminal == b.cells[c].terminal && p.0.status == (if b.cells[c].terminal {
                RunStatus::Done
            } else {
                run.status
            }),
        advance_on(run, b, label, now) matches Ok(p) ==> p.0.id == run.id && p.0.harness_id == run.harness_id
            && p.0.board_version_no == run.board_version_no && p.0.updated_at == now,
{
    reveal(advance_on);
    if has_edge_from(b.edges, run.current_cell_id, label) {
        lemma_first_edge_from_exists(b.edges, run.current_cell_id, label);
        let k = first_edge_from(b.edges, run.current_cell_id, label);
        assert(b.edges[k].from == run.current_cell_id && b.edges[k].label == label);
        let e = b.edges[k];
        if has_cell_id(b.cells, e.to) {
            lemma_first_index_exists(b.cells, e.to);
        }
    }
}

/// A run starts on the board's start cell, with that cell's name and prompt
/// and the edges leaving it, on the head's current version; starting is
/// refused exactly when the harness is missing, some cell is a draft, or
/// no cell has the start id.
pub proof fn lemma_start_at_the_start_cell(fetched: Option<(Harness, BoardVersion)>, harness_id: Seq<char>)
    ensures
        start_result(fetched, harness_id) is Ok <==> (fetched matches Some(f) && !any_draft(f.1.definition@.cells)
            && exists|i: int| 0 <= i < f.1.definition@.cells.len() && #[trigger] f.1.definition@.cells[i].id == f.1.definition@.start),
        start_result(fetched, harness_id) matches Ok(p) ==> (fetched matches Some(f) && p.start_cell_id == f.1.definition@.start
            && p.board_version_no == f.1.version_no && p.harness_id == f.0.id@ && p.edges == outgoing(
            f.1.definition@.cells,
            f.1.definition@.edges,
            f.1.definition@.start,
        ) && exists|i: int|
            0 <= i < f.1.definition@.cells.len() && f.1.definition@.cells[i].id == f.1.definition@.start && p.cell_name
                == f.1.definition@.cells[i].name && p.prompt == f.1.definition@.cells[i].prompt && forall|j: int|
                0 <= j < i ==> #[trigger] f.1.definition@.cells[j].id != f.1.definition@.start),
{
    if let Some(f) = fetched {
        let b = f.1.definition@;
        if has_cell_id(b.cells, b.start) {
            lemma_first_index_exists(b.cells, b.start);
        }
    }
}

} // verus!
