//! Harness domain entities (cells, edges, boards, harness heads, board
//! versions, folders, runs) together with their mathematical views.
//!
//! Every entity is plain data. Its view replaces each `String` by the
//! `Seq<char>` it holds, so contracts can speak of contents rather than of
//! allocations.
use vstd::prelude::*;

verus! {

/// Lifecycle state of a [`Cell`]: `Active` cells are part of the live board,
/// `Draft` cells are proposed and not yet promoted.
#[derive(Clone, Copy, Debug, PartialEq, Eq, Structural)]
pub enum CellStatus {
    Active,
    Draft,
}

/// A square on the harness board: one prompt-bearing step.
#[derive(Debug)]
pub struct Cell {
    /// Board-unique identifier referenced by edges and the board `start`.
    pub id: String,
    /// Human-readable label for the cell.
    pub name: String,
    /// Prompt text driving the agent at this cell.
    pub prompt: String,
    /// Whether the cell is active or a draft.
    pub status: CellStatus,
    /// Whether the cell terminates the board.
    pub terminal: bool,
    /// The human's revision request for this cell ("" when there is none).
    pub request_memo: String,
}

/// Mathematical view of a [`Cell`].
pub struct CellView {
    pub id: Seq<char>,
    pub name: Seq<char>,
    pub prompt: Seq<char>,
    pub status: CellStatus,
    pub terminal: bool,
    pub request_memo: Seq<char>,
}

impl View for Cell {
    type V = CellView;

    open spec fn view(&self) -> CellView {
        CellView {
            id: self.id@,
            name: self.name@,
            prompt: self.prompt@,
            status: self.status,
            terminal: self.terminal,
            request_memo: self.request_memo@,
        }
    }
}

/// A branch condition on an [`Edge`], carried verbatim and never evaluated.
#[derive(Debug)]
pub struct Guard {
    pub expr: String,
}

/// A directed transition between two cells.
#[derive(Debug)]
pub struct Edge {
    /// Source cell id.
    pub from: String,
    /// Destination cell id.
    pub to: String,
    /// Label the agent names to follow this transition.
    pub label: String,
    /// Optional branch condition.
    pub guard: Option<Guard>,
}

/// Mathematical view of an [`Edge`]; the guard is its expression text.
pub struct EdgeView {
    pub from: Seq<char>,
    pub to: Seq<char>,
    pub label: Seq<char>,
    pub guard: Option<Seq<char>>,
}

pub open spec fn guard_view(g: Option<Guard>) -> Option<Seq<char>> {
    match g {
        Some(g) => Some(g.expr@),
        None => None,
    }
}

impl View for Edge {
    type V = EdgeView;

    open spec fn view(&self) -> EdgeView {
        EdgeView { from: self.from@, to: self.to@, label: self.label@, guard: guard_view(self.guard) }
    }
}

/// The full graph of a harness board: cells, edges and start cell.
#[derive(Debug)]
pub struct BoardDefinition {
    /// Schema version of the definition format.
    pub schema_version: u32,
    /// Id of the cell where the board begins.
    pub start: String,
    /// All cells on the board.
    pub cells: Vec<Cell>,
    /// All directed transitions between cells.
    pub edges: Vec<Edge>,
}

/// Mathematical view of a [`BoardDefinition`].
pub struct BoardView {
    pub schema_version: u32,
    pub start: Seq<char>,
    pub cells: Seq<CellView>,
    pub edges: Seq<EdgeView>,
}

pub open spec fn cells_view(cells: Seq<Cell>) -> Seq<CellView> {
    cells.map_values(|c: Cell| c@)
}

pub open spec fn edges_view(edges: Seq<Edge>) -> Seq<EdgeView> {
    edges.map_values(|e: Edge| e@)
}

impl View for BoardDefinition {
    type V = BoardView;

    open spec fn view(&self) -> BoardView {
        BoardView {
            schema_version: self.schema_version,
            start: self.start@,
            cells: cells_view(self.cells@),
            edges: edges_view(self.edges@),
        }
    }
}

/// Whether some cell of `cells` is a draft.
pub open spec fn any_draft(cells: Seq<CellView>) -> bool {
    exists|i: int| 0 <= i < cells.len() && #[trigger] cells[i].status == CellStatus::Draft
}

/// Whether some cell of `cells` has the id `id`.
pub open spec fn has_cell_id(cells: Seq<CellView>, id: Seq<char>) -> bool {
    exists|i: int| 0 <= i < cells.len() && #[trigger] cells[i].id == id
}

/// The mutable head of a harness: it points at the current board version and
/// carries the optimistic lock.
#[derive(Debug)]
pub struct Harness {
    pub id: String,
    pub name: String,
    /// Free-text description shown in listings.
    pub description: Option<String>,
    /// Folder the harness is filed under; `None` means uncategorized.
    pub folder_id: Option<String>,
    /// `version_no` of the board version currently serving as head.
    pub current_version: i64,
    /// Whether the current board contains any draft cell.
    pub has_draft: bool,
    /// Optimistic-lock counter.
    pub lock_version: i64,
    pub created_at: String,
    pub updated_at: String,
}

/// Mathematical view of a [`Harness`].
pub struct HarnessView {
    pub id: Seq<char>,
    pub name: Seq<char>,
    pub description: Option<Seq<char>>,
    pub folder_id: Option<Seq<char>>,
    pub current_version: i64,
    pub has_draft: bool,
    pub lock_version: i64,
    pub created_at: Seq<char>,
    pub updated_at: Seq<char>,
}

impl View for Harness {
    type V = HarnessView;

    open spec fn view(&self) -> HarnessView {
        HarnessView {
            id: self.id@,
            name: self.name@,
            description: self.description.deep_view(),
            folder_id: self.folder_id.deep_view(),
            current_version: self.current_version,
            has_draft: self.has_draft,
            lock_version: self.lock_version,
            created_at: self.created_at@,
            updated_at: self.updated_at@,
        }
    }
}

/// An immutable snapshot of a harness board at one version.
#[derive(Debug)]
pub struct BoardVersion {
    pub id: String,
    /// Id of the owning harness.
    pub harness_id: String,
    /// Per-harness monotonically increasing version number.
    pub version_no: i64,
    /// The board captured by this version.
    pub definition: BoardDefinition,
    /// Content hash derived from `definition`.
    pub content_hash: String,
    pub created_at: String,
}

/// Mathematical view of a [`BoardVersion`].
pub struct BoardVersionView {
    pub id: Seq<char>,
    pub harness_id: Seq<char>,
    pub version_no: i64,
    pub definition: BoardView,
    pub content_hash: Seq<char>,
    pub created_at: Seq<char>,
}

impl View for BoardVersion {
    type V = BoardVersionView;

    open spec fn view(&self) -> BoardVersionView {
        BoardVersionView {
            id: self.id@,
            harness_id: self.harness_id@,
            version_no: self.version_no,
            definition: self.definition@,
            content_hash: self.content_hash@,
            created_at: self.created_at@,
        }
    }
}

/// A user-named folder that files harnesses. Folders are flat: `parent_id`
/// is reserved and always `None`.
#[derive(Debug)]
pub struct Folder {
    pub id: String,
    /// Display name (trimmed, 1 to 64 characters).
    pub name: String,
    pub parent_id: Option<String>,
    /// Sidebar position, numbered in creation order.
    pub sort_order: i64,
    pub created_at: String,
    pub updated_at: String,
}

/// Mathematical view of a [`Folder`].
pub struct FolderView {
    pub id: Seq<char>,
    pub name: Seq<char>,
    pub parent_id: Option<Seq<char>>,
    pub sort_order: i64,
    pub created_at: Seq<char>,
    pub updated_at: Seq<char>,
}

impl View for Folder {
    type V = FolderView;

    open spec fn view(&self) -> FolderView {
        FolderView {
            id: self.id@,
            name: self.name@,
            parent_id: self.parent_id.deep_view(),
            sort_order: self.sort_order,
            created_at: self.created_at@,
            updated_at: self.updated_at@,
        }
    }
}

/// Execution status of a run.
#[derive(Clone, Copy, Debug, PartialEq, Eq, Structural)]
pub enum RunStatus {
    Running,
    Done,
    Stalled,
    Disconnected,
    Closed,
}

/// An executing instance of a harness, pinned to one board version.
#[derive(Debug)]
pub struct Run {
    pub id: String,
    pub harness_id: String,
    /// `version_no` of the board version the run is pinned to.
    pub board_version_no: i64,
    /// The cell the run is currently positioned at.
    pub current_cell_id: String,
    pub status: RunStatus,
    /// Absolute project directory of the agent session, when known.
    pub project_path: Option<String>,
    pub created_at: String,
    /// Last heartbeat received for the run (RFC 3339), if any.
    pub last_heartbeat_at: Option<String>,
    pub updated_at: String,
    /// Set when an inject was sent and not yet acknowledged.
    pub inject_pending_since: Option<String>,
    /// One-time token authorizing the next advance.
    pub current_step_token: Option<String>,
}

/// Mathematical view of a [`Run`].
pub struct RunView {
    pub id: Seq<char>,
    pub harness_id: Seq<char>,
    pub board_version_no: i64,
    pub current_cell_id: Seq<char>,
    pub status: RunStatus,
    pub project_path: Option<Seq<char>>,
    pub created_at: Seq<char>,
    pub last_heartbeat_at: Option<Seq<char>>,
    pub updated_at: Seq<char>,
    pub inject_pending_since: Option<Seq<char>>,
    pub current_step_token: Option<Seq<char>>,
}

impl View for Run {
    type V = RunView;

    open spec fn view(&self) -> RunView {
        RunView {
            id: self.id@,
            harness_id: self.harness_id@,
            board_version_no: self.board_version_no,
            current_cell_id: self.current_cell_id@,
            status: self.status,
            project_path: self.project_path.deep_view(),
            created_at: self.created_at@,
            last_heartbeat_at: self.last_heartbeat_at.deep_view(),
            updated_at: self.updated_at@,
            inject_pending_since: self.inject_pending_since.deep_view(),
            current_step_token: self.current_step_token.deep_view(),
        }
    }
}

/// Copies an optional string, keeping its contents.
pub fn copy_opt_string(s: &Option<String>) -> (r: Option<String>)
    ensures
        r.deep_view() == s.deep_view(),
{
    match s {
        Some(s) => Some(s.clone()),
        None => None,
    }
}

impl Cell {
    /// A copy of this cell with the same contents.
    pub fn copy(&self) -> (r: Cell)
        ensures
            r@ == self@,
    {
        Cell {
            id: self.id.clone(),
            name: self.name.clone(),
            prompt: self.prompt.clone(),
            status: self.status,
            terminal: self.terminal,
            request_memo: self.request_memo.clone(),
        }
    }
}

impl Edge {
    /// A copy of this edge with the same contents.
    pub fn copy(&self) -> (r: Edge)
        ensures
            r@ == self@,
    {
        let guard = match &self.guard {
            Some(g) => Some(Guard { expr: g.expr.clone() }),
            None => None,
        };
        Edge { from: self.from.clone(), to: self.to.clone(), label: self.label.clone(), guard }
    }
}

/// Copies a list of cells, keeping their contents and order.
pub fn copy_cells(cells: &Vec<Cell>) -> (r: Vec<Cell>)
    ensures
        cells_view(r@) == cells_view(cells@),
{
    let mut r: Vec<Cell> = Vec::new();
    let mut i: usize = 0;
    while i < cells.len()
        invariant
            i <= cells.len(),
            r.len() == i,
            forall|j: int| 0 <= j < i ==> (#[trigger] r@[j])@ == cells@[j]@,
        decreases cells.len() - i,
    {
        r.push(cells[i].copy());
        i = i + 1;
    }
    proof {
        assert(cells_view(r@) =~= cells_view(cells@));
    }
    r
}

/// Copies a list of edges, keeping their contents and order.
pub fn copy_edges(edges: &Vec<Edge>) -> (r: Vec<Edge>)
    ensures
        edges_view(r@) == edges_view(edges@),
{
    let mut r: Vec<Edge> = Vec::new();
    let mut i: usize = 0;
    while i < edges.len()
        invariant
            i <= edges.len(),
            r.len() == i,
            forall|j: int| 0 <= j < i ==> (#[trigger] r@[j])@ == edges@[j]@,
        decreases edges.len() - i,
    {
        r.push(edges[i].copy());
        i = i + 1;
    }
    proof {
        assert(edges_view(r@) =~= edges_view(edges@));
    }
    r
}

impl BoardDefinition {
    /// A copy of this board with the same contents.
    pub fn copy(&self) -> (r: BoardDefinition)
        ensures
            r@ == self@,
    {
        BoardDefinition {
            schema_version: self.schema_version,
            start: self.start.clone(),
            cells: copy_cells(&self.cells),
            edges: copy_edges(&self.edges),
        }
    }
}

impl Harness {
    /// A copy of this head with the same contents.
    pub fn copy(&self) -> (r: Harness)
        ensures
            r@ == self@,
    {
        Harness {
            id: self.id.clone(),
            name: self.name.clone(),
            description: copy_opt_string(&self.description),
            folder_id: copy_opt_string(&self.folder_id),
            current_version: self.current_version,
            has_draft: self.has_draft,
            lock_version: self.lock_version,
            created_at: self.created_at.clone(),
            updated_at: self.updated_at.clone(),
        }
    }
}

impl BoardVersion {
    /// A copy of this version with the same contents.
    pub fn copy(&self) -> (r: BoardVersion)
        ensures
            r@ == self@,
    {
        BoardVersion {
            id: self.id.clone(),
            harness_id: self.harness_id.clone(),
            version_no: self.version_no,
            definition: self.definition.copy(),
            content_hash: self.content_hash.clone(),
            created_at: self.created_at.clone(),
        }
    }
}

impl Folder {
    /// A copy of this folder with the same contents.
    pub fn copy(&self) -> (r: Folder)
        ensures
            r@ == self@,
    {
        Folder {
            id: self.id.clone(),
            name: self.name.clone(),
            parent_id: copy_opt_string(&self.parent_id),
            sort_order: self.sort_order,
            created_at: self.created_at.clone(),
            updated_at: self.updated_at.clone(),
        }
    }
}

impl Run {
    /// A copy of this run with the same contents.
    pub fn copy(&self) -> (r: Run)
        ensures
            r@ == self@,
    {
        Run {
            id: self.id.clone(),
            harness_id: self.harness_id.clone(),
            board_version_no: self.board_version_no,
            current_cell_id: self.current_cell_id.clone(),
            status: self.status,
            project_path: copy_opt_string(&self.project_path),
            created_at: self.created_at.clone(),
            last_heartbeat_at: copy_opt_string(&self.last_heartbeat_at),
            updated_at: self.updated_at.clone(),
            inject_pending_since: copy_opt_string(&self.inject_pending_since),
            current_step_token: copy_opt_string(&self.current_step_token),
        }
    }
}

/// Whether some cell of the board is a draft.
pub fn board_has_draft(cells: &Vec<Cell>) -> (r: bool)
    ensures
        r == any_draft(cells_view(cells@)),
{
    let mut i: usize = 0;
    while i < cells.len()
        invariant
            i <= cells.len(),
            forall|j: int| 0 <= j < i ==> cells_view(cells@)[j].status != CellStatus::Draft,
        decreases cells.len() - i,
    {
        if cells[i].status == CellStatus::Draft {
            assert(cells_view(cells@)[i as int].status == CellStatus::Draft);
            return true;
        }
        i = i + 1;
    }
    false
}

/// Index of the first cell whose id is `id`, if any.
pub fn find_cell_index(cells: &Vec<Cell>, id: &String) -> (r: Option<usize>)
    ensures
        match r {
            Some(i) => i < cells.len() && cells@[i as int].id@ == id@ && forall|j: int|
                0 <= j < i ==> #[trigger] cells@[j].id@ != id@,
            None => forall|j: int| 0 <= j < cells.len() ==> #[trigger] cells@[j].id@ != id@,
        },
{
    let mut i: usize = 0;
    while i < cells.len()
        invariant
            i <= cells.len(),
            forall|j: int| 0 <= j < i ==> #[trigger] cells@[j].id@ != id@,
        decreases cells.len() - i,
    {
        if cells[i].id == *id {
            return Some(i);
        }
        i = i + 1;
    }
    None
}

} // verus!
