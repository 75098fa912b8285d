//! Board versions: creating a harness with its first version, and turning an
//! edited board into the next immutable version under the optimistic lock.
//!
//! These functions decide what is written; reading the head beforehand and
//! persisting the result are left to the caller's repository.
use crate::content::{content_hash, content_hash_of};
use crate::domain::has_cell_id;
use crate::domain::{
    any_draft, board_has_draft, find_cell_index, BoardDefinition,
    BoardVersion, BoardVersionView, BoardView, Cell, CellStatus, CellView, Harness, HarnessView,
};
use crate::error::{CoreError, ErrorView};
use crate::names::{harness_name_result, normalize_name};
use vstd::prelude::*;
use vstd::string::*;

verus! {

/// The head after moving to `version_no` with lock `lock`.
pub open spec fn bumped(h: HarnessView, version_no: i64, lock: i64, has_draft: bool, now: Seq<char>) -> HarnessView {
    HarnessView {
        id: h.id,
        name: h.name,
        description: h.description,
        folder_id: h.folder_id,
        current_version: version_no,
        has_draft,
        lock_version: lock,
        created_at: h.created_at,
        updated_at: now,
    }
}

/// Whether a new version may be appended for `harness_id` against the head
/// `current` (as stored) when the writer read lock `expected_lock`: an
/// unknown harness is not found, a different stored lock is a conflict.
pub open spec fn append_check(current: Option<HarnessView>, harness_id: Seq<char>, expected_lock: i64) -> Result<(), ErrorView> {
    match current {
        None => Err(ErrorView::NotFound(harness_id)),
        Some(h) => if h.lock_version != expected_lock {
            Err(ErrorView::LockConflict { expected: expected_lock, actual: h.lock_version })
        } else {
            Ok(())
        },
    }
}

/// Checks the optimistic lock before an append.
pub fn check_append(current: &Option<Harness>, harness_id: &String, expected_lock: i64) -> (r: Result<(), CoreError>)
    ensures
        match append_check(
            match current {
                Some(h) => Some(h@),
                None => None,
            },
            harness_id@,
            expected_lock,
        ) {
            Ok(_) => r is Ok,
            Err(e) => r matches Err(x) && x@ == e,
        },
{
    match current {
        None => Err(CoreError::NotFound(harness_id.clone())),
        Some(h) => if h.lock_version != expected_lock {
            Err(CoreError::LockConflict { expected: expected_lock, actual: h.lock_version })
        } else {
            Ok(())
        },
    }
}

/// The version that captures board `b` as `version_no` of harness `h`.
pub open spec fn version_of(
    h: HarnessView,
    version_no: i64,
    b: BoardView,
    version_id: Seq<char>,
    now: Seq<char>,
) -> BoardVersionView {
    BoardVersionView {
        id: version_id,
        harness_id: h.id,
        version_no,
        definition: b,
        content_hash: content_hash_of(b),
        created_at: now,
    }
}

/// An edited board waiting to become the next version of its harness.
#[derive(Debug)]
pub struct PendingVersion {
    /// The head as it was read.
    pub harness: Harness,
    /// The edited board.
    pub definition: BoardDefinition,
    /// The number the new version takes.
    pub version_no: i64,
    /// The lock the head takes.
    pub lock_version: i64,
}

/// Builds the next head and version for an edited board: the head moves to
/// the pending version number, takes the pending lock, records whether the
/// board has drafts and is stamped `now`; the version captures the board with
/// its content hash.
pub fn commit_version(p: PendingVersion, version_id: String, now: String) -> (r: (Harness, BoardVersion))
    ensures
        r.0@ == bumped(p.harness@, p.version_no, p.lock_version, any_draft(p.definition@.cells), now@),
        r.1@ == version_of(p.harness@, p.version_no, p.definition@, version_id@, now@),
{
    let h = p.harness;
    let def = p.definition;
    let has_draft = board_has_draft(&def.cells);
    let hash = content_hash(&def);
    let version = BoardVersion {
        id: version_id,
        harness_id: h.id.clone(),
        version_no: p.version_no,
        definition: def,
        content_hash: hash,
        created_at: now.clone(),
    };
    let harness = Harness {
        current_version: p.version_no,
        has_draft,
        lock_version: p.lock_version,
        updated_at: now,
        ..h
    };
    (harness, version)
}

/// The board used when a harness is created without one: a single active,
/// terminal `start` cell with an empty prompt.
pub open spec fn default_board_view() -> BoardView {
    BoardView {
        schema_version: 1,
        start: "start"@,
        cells: seq![
            CellView {
                id: "start"@,
                name: "start"@,
                prompt: Seq::empty(),
                status: CellStatus::Active,
                terminal: true,
                request_memo: Seq::empty(),
            },
        ],
        edges: Seq::empty(),
    }
}

/// Builds the minimal default board: one active terminal `start` cell.
pub fn default_board() -> (r: BoardDefinition)
    ensures
        r@ == default_board_view(),
{
    let mut cells: Vec<Cell> = Vec::new();
    cells.push(
        Cell {
            id: String::from_str("start"),
            name: String::from_str("start"),
            prompt: String::new(),
            status: CellStatus::Active,
            terminal: true,
            request_memo: String::new(),
        },
    );
    let r = BoardDefinition {
        schema_version: 1,
        start: String::from_str("start"),
        cells,
        edges: Vec::new(),
    };
    assert(r@.cells =~= default_board_view().cells);
    assert(r@.edges =~= default_board_view().edges);
    r
}

/// Input for creating a harness.
#[derive(Debug)]
pub struct CreateHarnessInput {
    /// Name to give the harness (trimmed, 1 to 64 characters).
    pub name: String,
    /// Optional free-text description.
    pub description: Option<String>,
    /// Optional initial board; the default board is used when absent.
    pub definition: Option<BoardDefinition>,
}

/// Output of creating a harness.
#[derive(Debug)]
pub struct CreateHarnessOutput {
    pub harness_id: String,
    /// `version_no` of the initial version (always 1).
    pub version_no: i64,
    /// Initial lock (always 0).
    pub lock_version: i64,
}

/// The board a new harness starts from.
pub open spec fn initial_board(d: Option<BoardDefinition>) -> BoardView {
    match d {
        Some(b) => b@,
        None => default_board_view(),
    }
}

/// Checks a creation request: the name is normalized (trimmed, 1 to 64
/// characters) and the board is the one given or the default board.
pub fn prepare_create_harness(input: CreateHarnessInput) -> (r: Result<(String, Option<String>, BoardDefinition), CoreError>)
    ensures
        match harness_name_result(input.name@) {
            Err(e) => r matches Err(x) && x@ == e,
            Ok(name) => r matches Ok(p) && p.0@ == name && p.1.deep_view() == input.description.deep_view()
                && p.2@ == initial_board(input.definition),
        },
{
    let name = match normalize_name(input.name.as_str()) {
        Ok(n) => n,
        Err(e) => return Err(e),
    };
    let def = match input.definition {
        Some(d) => d,
        None => default_board(),
    };
    Ok((name, input.description, def))
}

/// Builds the head and first version of a new harness: version 1, lock 0,
/// no folder, `has_draft` derived from the board.
pub fn build_created_harness(
    name: String,
    description: Option<String>,
    def: BoardDefinition,
    harness_id: String,
    version_id: String,
    now: String,
) -> (r: (Harness, BoardVersion))
    ensures
        r.0@ == (HarnessView {
            id: harness_id@,
            name: name@,
            description: description.deep_view(),
            folder_id: None,
            current_version: 1,
            has_draft: any_draft(def@.cells),
            lock_version: 0,
            created_at: now@,
            updated_at: now@,
        }),
        r.1@ == version_of(r.0@, 1, def@, version_id@, now@),
{
    let has_draft = board_has_draft(&def.cells);
    let hash = content_hash(&def);
    let harness = Harness {
        id: harness_id,
        name,
        description,
        folder_id: None,
        current_version: 1,
        has_draft,
        lock_version: 0,
        created_at: now.clone(),
        updated_at: now.clone(),
    };
    let version = BoardVersion {
        id: version_id,
        harness_id: harness.id.clone(),
        version_no: 1,
        definition: def,
        content_hash: hash,
        created_at: now,
    };
    (harness, version)
}

/// What the creation reports back.
pub fn create_output(h: &Harness) -> (r: CreateHarnessOutput)
    ensures
        r.harness_id@ == h.id@,
        r.version_no == 1,
        r.lock_version == 0,
{
    CreateHarnessOutput { harness_id: h.id.clone(), version_no: 1, lock_version: 0 }
}

/// Input for editing one cell's prompt.
#[derive(Debug)]
pub struct EditCellInput {
    pub harness_id: String,
    /// The cell whose prompt is replaced.
    pub cell_id: String,
    /// The new prompt.
    pub prompt: String,
    /// The lock the caller read; a different stored lock is a conflict.
    pub expected_lock_version: i64,
}

/// Output of an edit that appended a version.
#[derive(Debug)]
pub struct EditCellOutput {
    pub harness_id: String,
    /// `version_no` of the appended version.
    pub new_version: i64,
    /// The lock after the edit.
    pub lock_version: i64,
}

/// Index of the first cell with id `id` (meaningful when there is one).
pub open spec fn first_index(cells: Seq<CellView>, id: Seq<char>) -> int {
    choose|i: int| 0 <= i < cells.len() && cells[i].id == id && forall|j: int| 0 <= j < i ==> #[trigger] cells[j].id != id
}

pub proof fn lemma_first_index(cells: Seq<CellView>, id: Seq<char>, i: int)
    requires
        0 <= i < cells.len(),
        cells[i].id == id,
        forall|j: int| 0 <= j < i ==> #[trigger] cells[j].id != id,
    ensures
        first_index(cells, id) == i,
{
    let k = first_index(cells, id);
    assert(0 <= k < cells.len() && cells[k].id == id && forall|j: int| 0 <= j < k ==> #[trigger] cells[j].id != id);
    if k < i {
        assert(cells[k].id != id);
    }
    if i < k {
        assert(cells[i].id != id);
    }
}

/// When some cell has the id, `first_index` is the position of the first
/// such cell.
pub proof fn lemma_first_index_exists(cells: Seq<CellView>, id: Seq<char>)
    requires
        has_cell_id(cells, id),
    ensures
        0 <= first_index(cells, id) < cells.len(),
        cells[first_index(cells, id)].id == id,
        forall|j: int| 0 <= j < first_index(cells, id) ==> #[trigger] cells[j].id != id,
    decreases cells.len(),
{
    let init = cells.drop_last();
    if has_cell_id(init, id) {
        lemma_first_index_exists(init, id);
        let i = first_index(init, id);
        assert forall|j: int| 0 <= j < i implies #[trigger] cells[j].id != id by {
            assert(cells[j] == init[j]);
        }
        assert(cells[i] == init[i]);
        lemma_first_index(cells, id, i);
    } else {
        let i = cells.len() - 1;
        let k = choose|k: int| 0 <= k < cells.len() && #[trigger] cells[k].id == id;
        if k < i {
            assert(init[k] == cells[k]);
        }
        assert forall|j: int| 0 <= j < i implies #[trigger] cells[j].id != id by {
            assert(cells[j] == init[j]);
            if cells[j].id == id {
                assert(init[j].id == id);
            }
        }
        lemma_first_index(cells, id, i);
    }
}

/// The board with the prompt of the first cell named `cell_id` replaced.
pub open spec fn with_prompt(b: BoardView, cell_id: Seq<char>, prompt: Seq<char>) -> BoardView {
    let i = first_index(b.cells, cell_id);
    let c = b.cells[i];
    BoardView {
        cells: b.cells.update(i, CellView { prompt, ..c }),
        ..b
    }
}

pub open spec fn cell_not_found(cell_id: Seq<char>) -> ErrorView {
    ErrorView::NotFound("cell "@ + cell_id)
}

/// Prepares a prompt edit: fails when the harness is absent, when the
/// caller's lock is stale, or when the cell is unknown; otherwise the board
/// with the first matching cell's prompt replaced becomes the pending next
/// version, whose number and lock are each one above the head's.
pub fn prepare_edit_cell(fetched: Option<(Harness, BoardVersion)>, input: EditCellInput) -> (r: Result<PendingVersion, CoreError>)
    requires
        match fetched {
            Some(p) => p.0.lock_version == input.expected_lock_version && crate::domain::has_cell_id(
                p.1.definition@.cells,
                input.cell_id@,
            ) ==> p.1.version_no < i64::MAX && p.0.lock_version < i64::MAX,
            None => true,
        },
    ensures
        match fetched {
            None => r matches Err(e) && e@ == ErrorView::NotFound(input.harness_id@),
            Some(p) => if p.0.lock_version != input.expected_lock_version {
                r matches Err(e) && e@ == ErrorView::LockConflict {
                    expected: input.expected_lock_version,
                    actual: p.0.lock_version,
                }
            } else if !crate::domain::has_cell_id(p.1.definition@.cells, input.cell_id@) {
                r matches Err(e) && e@ == cell_not_found(input.cell_id@)
            } else {
                let b = with_prompt(p.1.definition@, input.cell_id@, input.prompt@);
                let no = p.1.version_no + 1;
                r matches Ok(q) && q.harness@ == p.0@ && q.definition@ == b && q.version_no == no
                    && q.lock_version == p.0.lock_version + 1
            },
        },
{
    let (harness, head) = match fetched {
        Some(p) => p,
        None => return Err(CoreError::NotFound(input.harness_id)),
    };
    if harness.lock_version != input.expected_lock_version {
        return Err(CoreError::LockConflict { expected: input.expected_lock_version, actual: harness.lock_version });
    }
    let mut def = head.definition;
    let ghost old_b = def@;
    let i = match find_cell_index(&def.cells, &input.cell_id) {
        Some(i) => i,
        None => {
            proof {
                if crate::domain::has_cell_id(old_b.cells, input.cell_id@) {
                    let k = choose|k: int| 0 <= k < old_b.cells.len() && #[trigger] old_b.cells[k].id == input.cell_id@;
                    assert(def.cells@[k].id@ == input.cell_id@);
                }
            }
            let mut m = String::from_str("cell ");
            m.append(input.cell_id.as_str());
            return Err(CoreError::NotFound(m));
        },
    };
    proof {
        assert(old_b.cells[i as int].id == input.cell_id@);
        assert forall|j: int| 0 <= j < i implies #[trigger] old_b.cells[j].id != input.cell_id@ by {
            assert(def.cells@[j].id@ != input.cell_id@);
        }
        lemma_first_index(old_b.cells, input.cell_id@, i as int);
    }
    let old_cell = def.cells[i].copy();
    let new_cell = Cell { prompt: input.prompt, ..old_cell };
    def.cells.set(i, new_cell);
    assert(def@ == with_prompt(old_b, input.cell_id@, input.prompt@)) by {
        assert(def@.cells =~= old_b.cells.update(i as int, CellView { prompt: input.prompt@, ..old_b.cells[i as int] }));
    }
    let no = head.version_no + 1;
    let lock = harness.lock_version + 1;
    Ok(PendingVersion { harness, definition: def, version_no: no, lock_version: lock })
}

/// What an edit that appended a version reports back.
pub fn edit_output(h: &Harness) -> (r: EditCellOutput)
    ensures
        r.harness_id@ == h.id@,
        r.new_version == h.current_version,
        r.lock_version == h.lock_version,
{
    EditCellOutput { harness_id: h.id.clone(), new_version: h.current_version, lock_version: h.lock_version }
}

} // verus!
