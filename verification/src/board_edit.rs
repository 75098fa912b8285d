//! Single edits made on the board canvas: adding a draft cell, renaming a
//! cell, deleting a draft cell, adding and deleting an edge.
//!
//! Each edit reads the head, checks its own preconditions and yields the
//! board that becomes the next version. The next version number is one above
//! the head's current version and the lock one above the lock the caller
//! holds; the repository refuses the write when that lock is stale. Failures
//! are reported as the short texts the canvas branches on.
use crate::domain::{
    cells_view, edges_view, find_cell_index, has_cell_id, BoardDefinition, BoardVersion, BoardView,
    Cell, CellStatus, CellView, Edge, EdgeView, Guard, Harness,
};
use crate::text::{trim, trim_str};
use crate::validate::contains_cell_id;
use crate::versioning::{first_index, lemma_first_index, PendingVersion};
use vstd::prelude::*;
use vstd::string::*;

verus! {

/// The text of a not-found failure for `id`.
pub open spec fn not_found_text(id: Seq<char>) -> Seq<char> {
    "not found: "@ + id
}

fn not_found_string(id: &str) -> (r: String)
    ensures
        r@ == not_found_text(id@),
{
    let mut m = String::from_str("not found: ");
    m.append(id);
    m
}

/// The pending version built from head `h` with board `b` and the caller's
/// lock `lock`.
pub open spec fn pending_is(p: PendingVersion, h: Harness, b: BoardView, lock: i64) -> bool {
    &&& p.harness@ == h@
    &&& p.definition@ == b
    &&& p.version_no == h.current_version + 1
    &&& p.lock_version == lock + 1
}

pub open spec fn edit_matches(r: Result<PendingVersion, String>, fetched: Option<(Harness, BoardVersion)>, s: Result<BoardView, Seq<char>>, lock: i64) -> bool {
    match s {
        Err(m) => r matches Err(x) && x@ == m,
        Ok(b) => r matches Ok(p) && fetched matches Some(f) && pending_is(p, f.0, b, lock),
    }
}

pub open spec fn heads_fit(fetched: Option<(Harness, BoardVersion)>, lock: i64) -> bool {
    &&& lock < i64::MAX
    &&& fetched matches Some(f) ==> f.0.current_version < i64::MAX
}

fn pending(h: Harness, def: BoardDefinition, lock: i64) -> (r: PendingVersion)
    requires
        h.current_version < i64::MAX,
        lock < i64::MAX,
    ensures
        pending_is(r, h, def@, lock),
{
    let no = h.current_version + 1;
    PendingVersion { harness: h, definition: def, version_no: no, lock_version: lock + 1 }
}

// ---------------------------------------------------------------------------
// Adding a draft cell
// ---------------------------------------------------------------------------
pub open spec fn new_draft_cell(id: Seq<char>, name: Seq<char>) -> CellView {
    CellView { id, name, prompt: Seq::empty(), status: CellStatus::Draft, terminal: false, request_memo: Seq::empty() }
}

pub open spec fn add_cell_result(fetched: Option<(Harness, BoardVersion)>, harness_id: Seq<char>, cell_id: Seq<char>, name: Seq<char>) -> Result<BoardView, Seq<char>> {
    match fetched {
        None => Err(not_found_text(harness_id)),
        Some(f) => {
            let b = f.1.definition@;
            Ok(BoardView { cells: b.cells.push(new_draft_cell(cell_id, name)), ..b })
        },
    }
}

/// Adds a draft cell named `cell_name` with id `new_cell_id` (empty prompt,
/// not terminal, no memo) at the end of the cells.
pub fn prepare_add_cell(
    fetched: Option<(Harness, BoardVersion)>,
    harness_id: &str,
    new_cell_id: String,
    cell_name: String,
    lock_version: i64,
) -> (r: Result<PendingVersion, String>)
    requires
        add_cell_result(fetched, harness_id@, new_cell_id@, cell_name@) is Ok ==> heads_fit(fetched, lock_version),
    ensures
        edit_matches(r, fetched, add_cell_result(fetched, harness_id@, new_cell_id@, cell_name@), lock_version),
{
    let (harness, head) = match fetched {
        Some(p) => p,
        None => return Err(not_found_string(harness_id)),
    };
    let mut def = head.definition;
    let ghost b = def@;
    def.cells.push(Cell { id: new_cell_id, name: cell_name, prompt: String::new(), status: CellStatus::Draft, terminal: false, request_memo: String::new() });
    assert(def@.cells =~= b.cells.push(new_draft_cell(new_cell_id@, cell_name@)));
    Ok(pending(harness, def, lock_version))
}

// ---------------------------------------------------------------------------
// Renaming a cell
// ---------------------------------------------------------------------------
pub open spec fn with_name(b: BoardView, cell_id: Seq<char>, name: Seq<char>) -> BoardView {
    let i = first_index(b.cells, cell_id);
    BoardView { cells: b.cells.update(i, CellView { name, ..b.cells[i] }), ..b }
}

pub open spec fn rename_cell_result(fetched: Option<(Harness, BoardVersion)>, harness_id: Seq<char>, cell_id: Seq<char>, new_name: Seq<char>) -> Result<BoardView, Seq<char>> {
    if trim(new_name).len() == 0 {
        Err("empty_name"@)
    } else {
        match fetched {
            None => Err(not_found_text(harness_id)),
            Some(f) => rename_on(f.1.definition@, cell_id, trim(new_name)),
        }
    }
}

/// Renaming the cell `cell_id` of board `b` to `name`.
#[verifier::opaque]
pub open spec fn rename_on(b: BoardView, cell_id: Seq<char>, name: Seq<char>) -> Result<BoardView, Seq<char>> {
    if !has_cell_id(b.cells, cell_id) {
        Err(not_found_text(cell_id))
    } else {
        Ok(with_name(b, cell_id, name))
    }
}

/// The position of the first cell with id `id`, if any.
pub fn locate(cells: &Vec<Cell>, id: &String) -> (r: Option<usize>)
    ensures
        match r {
            Some(i) => {
                &&& has_cell_id(cells_view(cells@), id@)
                &&& i == first_index(cells_view(cells@), id@)
                &&& i < cells.len()
                &&& cells@[i as int].id@ == id@
            },
            None => !has_cell_id(cells_view(cells@), id@),
        },
{
    let ghost cv = cells_view(cells@);
    match find_cell_index(cells, id) {
        None => {
            proof {
                if has_cell_id(cv, id@) {
                    let k = choose|k: int| 0 <= k < cv.len() && #[trigger] cv[k].id == id@;
                    assert(cells@[k].id@ == id@);
                }
            }
            None
        },
        Some(i) => {
            proof {
                assert(cv[i as int].id == id@);
                assert forall|j: int| 0 <= j < i implies #[trigger] cv[j].id != id@ by {
                    assert(cells@[j].id@ != id@);
                }
                lemma_first_index(cv, id@, i as int);
            }
            Some(i)
        },
    }
}

fn rename_at(def: BoardDefinition, i: usize, name: String) -> (r: BoardDefinition)
    requires
        i < def.cells.len(),
    ensures
        r@ == (BoardView { cells: def@.cells.update(i as int, CellView { name: name@, ..def@.cells[i as int] }), ..def@ }),
{
    let mut def = def;
    let ghost b = def@;
    let old_cell = def.cells[i].copy();
    def.cells.set(i, Cell { name, ..old_cell });
    assert(def@.cells =~= b.cells.update(i as int, CellView { name: name@, ..b.cells[i as int] }));
    def
}

fn rename_in(def: BoardDefinition, cell_id: &String, name: String) -> (r: Result<BoardDefinition, String>)
    ensures
        match rename_on(def@, cell_id@, name@) {
            Ok(b) => r matches Ok(d) && d@ == b,
            Err(m) => r matches Err(x) && x@ == m,
        },
{
    reveal(rename_on);
    let i = match locate(&def.cells, cell_id) {
        Some(i) => i,
        None => return Err(not_found_string(cell_id.as_str())),
    };
    let nd = rename_at(def, i, name);
    Ok(nd)
}

/// Renames a cell to the trimmed `new_name`; an empty name is refused before
/// anything else, then an unknown harness or cell.
pub fn prepare_rename_cell(
    fetched: Option<(Harness, BoardVersion)>,
    harness_id: &str,
    cell_id: String,
    new_name: &str,
    lock_version: i64,
) -> (r: Result<PendingVersion, String>)
    requires
        rename_cell_result(fetched, harness_id@, cell_id@, new_name@) is Ok ==> heads_fit(fetched, lock_version),
    ensures
        edit_matches(r, fetched, rename_cell_result(fetched, harness_id@, cell_id@, new_name@), lock_version),
{
    let trimmed = trim_str(new_name);
    if crate::text::char_count(trimmed.as_str()) == 0 {
        proof {
            reveal_strlit("empty_name");
        }
        return Err(String::from_str("empty_name"));
    }
    let (harness, head) = match fetched {
        Some(p) => p,
        None => return Err(not_found_string(harness_id)),
    };
    match rename_in(head.definition, &cell_id, trimmed) {
        Ok(nd) => Ok(pending(harness, nd, lock_version)),
        Err(m) => Err(m),
    }
}

// ---------------------------------------------------------------------------
// Deleting a draft cell
// ---------------------------------------------------------------------------
/// The cells whose id differs from `id`.
pub open spec fn cells_without(cells: Seq<CellView>, id: Seq<char>) -> Seq<CellView>
    decreases cells.len(),
{
    if cells.len() == 0 {
        seq![]
    } else {
        cells_without(cells.drop_last(), id) + if cells.last().id == id {
            seq![]
        } else {
            seq![cells.last()]
        }
    }
}

/// The edges that touch neither end at `id`.
pub open spec fn edges_without(edges: Seq<EdgeView>, id: Seq<char>) -> Seq<EdgeView>
    decreases edges.len(),
{
    if edges.len() == 0 {
        seq![]
    } else {
        edges_without(edges.drop_last(), id) + if edges.last().from == id || edges.last().to == id {
            seq![]
        } else {
            seq![edges.last()]
        }
    }
}

/// Deleting the cell `cell_id` from board `b`.
#[verifier::opaque]
pub open spec fn delete_on(b: BoardView, cell_id: Seq<char>) -> Result<BoardView, Seq<char>> {
    if !has_cell_id(b.cells, cell_id) {
        Err(not_found_text(cell_id))
    } else if b.cells[first_index(b.cells, cell_id)].status != CellStatus::Draft {
        Err("not_draft"@)
    } else {
        Ok(BoardView { cells: cells_without(b.cells, cell_id), edges: edges_without(b.edges, cell_id), ..b })
    }
}

pub open spec fn delete_cell_result(fetched: Option<(Harness, BoardVersion)>, harness_id: Seq<char>, cell_id: Seq<char>) -> Result<BoardView, Seq<char>> {
    match fetched {
        None => Err(not_found_text(harness_id)),
        Some(f) => delete_on(f.1.definition@, cell_id),
    }
}

fn remove_cells_with_id(cells: &Vec<Cell>, id: &String) -> (r: Vec<Cell>)
    ensures
        cells_view(r@) == cells_without(cells_view(cells@), id@),
{
    let ghost cv = cells_view(cells@);
    let mut out: Vec<Cell> = Vec::new();
    let mut i: usize = 0;
    while i < cells.len()
        invariant
            cv == cells_view(cells@),
            i <= cells.len(),
            cells_view(out@) == cells_without(cv.take(i as int), id@),
        decreases cells.len() - i,
    {
        if !(cells[i].id == *id) {
            out.push(cells[i].copy());
        }
        proof {
            let t = cv.take(i + 1);
            assert(t.drop_last() =~= cv.take(i as int));
            assert(t.last() == cells@[i as int]@);
            assert(cells_view(out@) =~= cells_without(t, id@));
        }
        i = i + 1;
    }
    assert(cv.take(cells.len() as int) =~= cv);
    out
}

fn remove_edges_touching(edges: &Vec<Edge>, id: &String) -> (r: Vec<Edge>)
    ensures
        edges_view(r@) == edges_without(edges_view(edges@), id@),
{
    let ghost ev = edges_view(edges@);
    let mut out: Vec<Edge> = Vec::new();
    let mut i: usize = 0;
    while i < edges.len()
        invariant
            ev == edges_view(edges@),
            i <= edges.len(),
            edges_view(out@) == edges_without(ev.take(i as int), id@),
        decreases edges.len() - i,
    {
        if !(edges[i].from == *id) && !(edges[i].to == *id) {
            out.push(edges[i].copy());
        }
        proof {
            let t = ev.take(i + 1);
            assert(t.drop_last() =~= ev.take(i as int));
            assert(t.last() == edges@[i as int]@);
            assert(edges_view(out@) =~= edges_without(t, id@));
        }
        i = i + 1;
    }
    assert(ev.take(edges.len() as int) =~= ev);
    out
}

fn without_cell(def: BoardDefinition, id: &String) -> (r: BoardDefinition)
    ensures
        r@ == (BoardView { cells: cells_without(def@.cells, id@), edges: edges_without(def@.edges, id@), ..def@ }),
{
    let cells = remove_cells_with_id(&def.cells, id);
    let edges = remove_edges_touching(&def.edges, id);
    BoardDefinition { schema_version: def.schema_version, start: def.start, cells, edges }
}

fn delete_draft(def: BoardDefinition, cell_id: &String) -> (r: Result<BoardDefinition, String>)
    ensures
        match delete_on(def@, cell_id@) {
            Ok(b) => r matches Ok(d) && d@ == b,
            Err(m) => r matches Err(x) && x@ == m,
        },
{
    reveal(delete_on);
    let i = match locate(&def.cells, cell_id) {
        Some(i) => i,
        None => return Err(not_found_string(cell_id.as_str())),
    };
    assert(cells_view(def.cells@)[i as int] == def.cells@[i as int]@);
    if def.cells[i].status != CellStatus::Draft {
        proof {
            reveal_strlit("not_draft");
        }
        return Err(String::from_str("not_draft"));
    }
    Ok(without_cell(def, cell_id))
}

/// Deletes a draft cell together with every edge from or to it; a cell that
/// is not a draft is refused with `not_draft`.
pub fn prepare_delete_cell(
    fetched: Option<(Harness, BoardVersion)>,
    harness_id: &str,
    cell_id: String,
    lock_version: i64,
) -> (r: Result<PendingVersion, String>)
    requires
        delete_cell_result(fetched, harness_id@, cell_id@) is Ok ==> heads_fit(fetched, lock_version),
    ensures
        edit_matches(r, fetched, delete_cell_result(fetched, harness_id@, cell_id@), lock_version),
{
    let (harness, head) = match fetched {
        Some(p) => p,
        None => return Err(not_found_string(harness_id)),
    };
    match delete_draft(head.definition, &cell_id) {
        Ok(nd) => Ok(pending(harness, nd, lock_version)),
        Err(m) => Err(m),
    }
}

// ---------------------------------------------------------------------------
// Adding an edge
// ---------------------------------------------------------------------------
/// A guard text trimmed, with an empty result meaning no guard.
pub open spec fn normalized_guard(g: Option<Seq<char>>) -> Option<Seq<char>> {
    match g {
        Some(t) => if trim(t).len() == 0 {
            None
        } else {
            Some(trim(t))
        },
        None => None,
    }
}

pub open spec fn has_edge(edges: Seq<EdgeView>, from: Seq<char>, to: Seq<char>, label: Seq<char>) -> bool {
    exists|i: int| 0 <= i < edges.len() && #[trigger] edges[i].from == from && edges[i].to == to && edges[i].label == label
}

pub open spec fn add_edge_result(
    fetched: Option<(Harness, BoardVersion)>,
    harness_id: Seq<char>,
    from: Seq<char>,
    to: Seq<char>,
    label: Seq<char>,
    guard: Option<Seq<char>>,
) -> Result<BoardView, Seq<char>> {
    let l = trim(label);
    if l.len() == 0 {
        Err("empty_label"@)
    } else {
        match fetched {
            None => Err(not_found_text(harness_id)),
            Some(f) => {
                let b = f.1.definition@;
                if !has_cell_id(b.cells, from) {
                    Err(not_found_text(from))
                } else if !has_cell_id(b.cells, to) {
                    Err(not_found_text(to))
                } else if has_edge(b.edges, from, to, l) {
                    Err("duplicate_edge"@)
                } else {
                    Ok(BoardView { edges: b.edges.push(EdgeView { from, to, label: l, guard: normalized_guard(guard) }), ..b })
                }
            },
        }
    }
}

fn normalize_guard(g: Option<String>) -> (r: Option<Guard>)
    ensures
        crate::domain::guard_view(r) == normalized_guard(g.deep_view()),
{
    match g {
        Some(t) => {
            let tr = trim_str(t.as_str());
            if crate::text::char_count(tr.as_str()) == 0 {
                None
            } else {
                Some(Guard { expr: tr })
            }
        },
        None => None,
    }
}

fn edge_exists(edges: &Vec<Edge>, from: &String, to: &String, label: &String) -> (r: bool)
    ensures
        r == has_edge(edges_view(edges@), from@, to@, label@),
{
    let mut i: usize = 0;
    while i < edges.len()
        invariant
            i <= edges.len(),
            forall|j: int| 0 <= j < i ==> !((#[trigger] edges@[j]).from@ == from@ && edges@[j].to@ == to@ && edges@[j].label@ == label@),
        decreases edges.len() - i,
    {
        if edges[i].from == *from && edges[i].to == *to && edges[i].label == *label {
            assert(edges_view(edges@)[i as int].from == from@);
            return true;
        }
        i = i + 1;
    }
    proof {
        let ev = edges_view(edges@);
        if has_edge(ev, from@, to@, label@) {
            let k = choose|k: int| 0 <= k < ev.len() && #[trigger] ev[k].from == from@ && ev[k].to == to@ && ev[k].label == label@;
            assert(edges@[k].from@ == from@);
        }
    }
    false
}

/// Adds an edge with the trimmed label and the trimmed guard (an empty guard
/// means none). Refused: an empty label (`empty_label`, checked first), an
/// unknown harness or endpoint, or an edge with the same endpoints and
/// label (`duplicate_edge`).
pub fn prepare_add_edge(
    fetched: Option<(Harness, BoardVersion)>,
    harness_id: &str,
    from: String,
    to: String,
    label: &str,
    guard: Option<String>,
    lock_version: i64,
) -> (r: Result<PendingVersion, String>)
    requires
        add_edge_result(fetched, harness_id@, from@, to@, label@, guard.deep_view()) is Ok ==> heads_fit(fetched, lock_version),
    ensures
        edit_matches(r, fetched, add_edge_result(fetched, harness_id@, from@, to@, label@, guard.deep_view()), lock_version),
{
    let l = trim_str(label);
    if crate::text::char_count(l.as_str()) == 0 {
        proof {
            reveal_strlit("empty_label");
        }
        return Err(String::from_str("empty_label"));
    }
    let (harness, head) = match fetched {
        Some(p) => p,
        None => return Err(not_found_string(harness_id)),
    };
    let mut def = head.definition;
    let ghost b = def@;
    if !contains_cell_id(&def.cells, &from) {
        return Err(not_found_string(from.as_str()));
    }
    if !contains_cell_id(&def.cells, &to) {
        return Err(not_found_string(to.as_str()));
    }
    let g = normalize_guard(guard);
    if edge_exists(&def.edges, &from, &to, &l) {
        proof {
            reveal_strlit("duplicate_edge");
        }
        return Err(String::from_str("duplicate_edge"));
    }
    def.edges.push(Edge { from, to, label: l, guard: g });
    assert(def@.edges =~= b.edges.push(EdgeView { from: from@, to: to@, label: trim(label@), guard: normalized_guard(guard.deep_view()) }));
    Ok(pending(harness, def, lock_version))
}

// ---------------------------------------------------------------------------
// Deleting an edge
// ---------------------------------------------------------------------------
/// Index of the first edge with these endpoints and label.
pub open spec fn first_edge_index(edges: Seq<EdgeView>, from: Seq<char>, to: Seq<char>, label: Seq<char>) -> int {
    choose|i: int|
        0 <= i < edges.len() && edges[i].from == from && edges[i].to == to && edges[i].label == label && forall|j: int|
            0 <= j < i ==> !(#[trigger] edges[j].from == from && edges[j].to == to && edges[j].label == label)
}

pub open spec fn delete_edge_result(
    fetched: Option<(Harness, BoardVersion)>,
    harness_id: Seq<char>,
    from: Seq<char>,
    to: Seq<char>,
    label: Seq<char>,
) -> Result<BoardView, Seq<char>> {
    match fetched {
        None => Err(not_found_text(harness_id)),
        Some(f) => {
            let b = f.1.definition@;
            if !has_edge(b.edges, from, to, label) {
                Err("edge_not_found"@)
            } else {
                Ok(BoardView { edges: b.edges.remove(first_edge_index(b.edges, from, to, label)), ..b })
            }
        },
    }
}

fn find_edge(edges: &Vec<Edge>, from: &String, to: &String, label: &String) -> (r: Option<usize>)
    ensures
        match r {
            Some(i) => {
                &&& has_edge(edges_view(edges@), from@, to@, label@)
                &&& i == first_edge_index(edges_view(edges@), from@, to@, label@)
                &&& i < edges.len()
            },
            None => !has_edge(edges_view(edges@), from@, to@, label@),
        },
{
    let ghost ev = edges_view(edges@);
    let mut i: usize = 0;
    while i < edges.len()
        invariant
            ev == edges_view(edges@),
            i <= edges.len(),
            forall|j: int| 0 <= j < i ==> !(#[trigger] ev[j].from == from@ && ev[j].to == to@ && ev[j].label == label@),
        decreases edges.len() - i,
    {
        if edges[i].from == *from && edges[i].to == *to && edges[i].label == *label {
            proof {
                assert(ev[i as int].from == from@ && ev[i as int].to == to@ && ev[i as int].label == label@);
                let k = first_edge_index(ev, from@, to@, label@);
                assert(0 <= k < ev.len() && ev[k].from == from@ && ev[k].to == to@ && ev[k].label == label@ && forall|j: int|
                    0 <= j < k ==> !(#[trigger] ev[j].from == from@ && ev[j].to == to@ && ev[j].label == label@));
                if k < i {
                    assert(!(ev[k].from == from@ && ev[k].to == to@ && ev[k].label == label@));
                }
                if i < k {
                    assert(!(ev[i as int].from == from@ && ev[i as int].to == to@ && ev[i as int].label == label@));
                }
                assert(k == i);
            }
            return Some(i);
        }
        i = i + 1;
    }
    proof {
        if has_edge(ev, from@, to@, label@) {
            let k = choose|k: int| 0 <= k < ev.len() && #[trigger] ev[k].from == from@ && ev[k].to == to@ && ev[k].label == label@;
            assert(!(ev[k].from == from@ && ev[k].to == to@ && ev[k].label == label@));
        }
    }
    None
}

/// Deletes the first edge with these endpoints and label (labels are
/// compared as given); `edge_not_found` when there is none.
pub fn prepare_delete_edge(
    fetched: Option<(Harness, BoardVersion)>,
    harness_id: &str,
    from: String,
    to: String,
    label: String,
    lock_version: i64,
) -> (r: Result<PendingVersion, String>)
    requires
        delete_edge_result(fetched, harness_id@, from@, to@, label@) is Ok ==> heads_fit(fetched, lock_version),
    ensures
        edit_matches(r, fetched, delete_edge_result(fetched, harness_id@, from@, to@, label@), lock_version),
{
    let (harness, head) = match fetched {
        Some(p) => p,
        None => return Err(not_found_string(harness_id)),
    };
    let mut def = head.definition;
    let ghost b = def@;
    let ghost ev = b.edges;
    let i = match find_edge(&def.edges, &from, &to, &label) {
        Some(i) => i,
        None => {
            proof {
                reveal_strlit("edge_not_found");
            }
            return Err(String::from_str("edge_not_found"));
        },
    };
    def.edges.remove(i);
    assert(def@.edges =~= ev.remove(i as int));
    Ok(pending(harness, def, lock_version))
}

// ---------------------------------------------------------------------------
// Laws
// ---------------------------------------------------------------------------
/// Whether the edge starts or ends at `id`.
pub open spec fn touches(e: EdgeView, id: Seq<char>) -> bool {
    e.from == id || e.to == id
}

proof fn lemma_cells_without(cells: Seq<CellView>, id: Seq<char>)
    ensures
        forall|i: int| 0 <= i < cells_without(cells, id).len() ==> #[trigger] cells_without(cells, id)[i].id != id,
        forall|i: int| 0 <= i < cells.len() && cells[i].id != id ==> cells_without(cells, id).contains(#[trigger] cells[i]),
    decreases cells.len(),
{
    if cells.len() > 0 {
        let init = cells.drop_last();
        lemma_cells_without(init, id);
        let w = cells_without(cells, id);
        let wi = cells_without(init, id);
        let l = cells.last();
        assert forall|i: int| 0 <= i < w.len() implies #[trigger] w[i].id != id by {
            if i < wi.len() {
                assert(w[i] == wi[i]);
            } else {
                assert(l.id != id);
                assert(w == wi + seq![l]);
            }
        }
        assert forall|i: int| 0 <= i < cells.len() && cells[i].id != id implies w.contains(#[trigger] cells[i]) by {
            if i < cells.len() - 1 {
                assert(cells[i] == init[i]);
                assert(wi.contains(init[i]));
                let j = choose|j: int| 0 <= j < wi.len() && wi[j] == init[i];
                assert(w[j] == wi[j]);
            } else {
                assert(w == wi + seq![l]);
                assert(w[wi.len() as int] == l);
            }
        }
    }
}

proof fn lemma_edges_without(edges: Seq<EdgeView>, id: Seq<char>)
    ensures
        forall|i: int| 0 <= i < edges_without(edges, id).len() ==> !touches(#[trigger] edges_without(edges, id)[i], id),
    decreases edges.len(),
{
    if edges.len() > 0 {
        let init = edges.drop_last();
        lemma_edges_without(init, id);
        let w = edges_without(edges, id);
        let wi = edges_without(init, id);
        let l = edges.last();
        assert forall|i: int| 0 <= i < w.len() implies !touches(#[trigger] w[i], id) by {
            if i < wi.len() {
                assert(w[i] == wi[i]);
            } else {
                assert(!touches(l, id));
                assert(w == wi + seq![l]);
            }
        }
    }
}

/// Deleting a cell leaves no cell with its id and no edge from or to it;
/// every other cell stays.
pub proof fn lemma_delete_leaves_nothing_of_the_cell(cells: Seq<CellView>, edges: Seq<EdgeView>, id: Seq<char>)
    ensures
        forall|i: int| 0 <= i < cells_without(cells, id).len() ==> #[trigger] cells_without(cells, id)[i].id != id,
        forall|i: int| 0 <= i < edges_without(edges, id).len() ==> !touches(#[trigger] edges_without(edges, id)[i], id),
        forall|i: int| 0 <= i < cells.len() && cells[i].id != id ==> cells_without(cells, id).contains(#[trigger] cells[i]),
{
    lemma_cells_without(cells, id);
    lemma_edges_without(edges, id);
}
/// Deleting an edge removes exactly one edge, the first with the requested
/// source, target and label, and keeps every other edge in order along with
/// the cells; it fails with `edge_not_found` exactly when no edge has that
/// source, target and label.
pub proof fn lemma_delete_edge_removes_that_edge(
    fetched: Option<(Harness, BoardVersion)>,
    harness_id: Seq<char>,
    from: Seq<char>,
    to: Seq<char>,
    label: Seq<char>,
)
    ensures
        fetched matches Some(f) ==> ((forall|i: int|
            0 <= i < f.1.definition@.edges.len() ==> !(#[trigger] f.1.definition@.edges[i].from == from && f.1.definition@.edges[i].to
                == to && f.1.definition@.edges[i].label == label)) <==> delete_edge_result(fetched, harness_id, from, to, label)
            == Err::<BoardView, Seq<char>>("edge_not_found"@)),
        delete_edge_result(fetched, harness_id, from, to, label) matches Ok(nb) ==> (fetched matches Some(f) && nb.cells
            == f.1.definition@.cells && nb.start == f.1.definition@.start && exists|k: int|
            0 <= k < f.1.definition@.edges.len() && f.1.definition@.edges[k].from == from && f.1.definition@.edges[k].to == to
                && f.1.definition@.edges[k].label == label && nb.edges == f.1.definition@.edges.remove(k) && forall|j: int|
                0 <= j < k ==> !(#[trigger] f.1.definition@.edges[j].from == from && f.1.definition@.edges[j].to == to
                    && f.1.definition@.edges[j].label == label)),
{
    if let Some(f) = fetched {
        let edges = f.1.definition@.edges;
        if has_edge(edges, from, to, label) {
            lemma_first_edge_index_exists(edges, from, to, label);
        }
    }
}

proof fn lemma_first_edge_index_exists(edges: Seq<EdgeView>, from: Seq<char>, to: Seq<char>, label: Seq<char>)
    requires
        has_edge(edges, from, to, label),
    ensures
        0 <= first_edge_index(edges, from, to, label) < edges.len(),
        edges[first_edge_index(edges, from, to, label)].from == from,
        edges[first_edge_index(edges, from, to, label)].to == to,
        edges[first_edge_index(edges, from, to, label)].label == label,
        forall|j: int|
            0 <= j < first_edge_index(edges, from, to, label) ==> !(#[trigger] edges[j].from == from && edges[j].to == to
                && edges[j].label == label),
    decreases edges.len(),
{
    let init = edges.drop_last();
    let i = if has_edge(init, from, to, label) {
        lemma_first_edge_index_exists(init, from, to, label);
        let i = first_edge_index(init, from, to, label);
        assert forall|j: int| 0 <= j < i implies !(#[trigger] edges[j].from == from && edges[j].to == to && edges[j].label == label) by {
            assert(edges[j] == init[j]);
        }
        assert(edges[i] == init[i]);
        i
    } else {
        let i = edges.len() - 1;
        let k = choose|k: int| 0 <= k < edges.len() && #[trigger] edges[k].from == from && edges[k].to == to && edges[k].label == label;
        if k < i {
            assert(init[k] == edges[k]);
        }
        assert forall|j: int| 0 <= j < i implies !(#[trigger] edges[j].from == from && edges[j].to == to && edges[j].label == label) by {
            assert(edges[j] == init[j]);
            if edges[j].from == from && edges[j].to == to && edges[j].label == label {
                assert(init[j].from == from && init[j].to == to && init[j].label == label);
            }
        }
        i
    };
    let k = first_edge_index(edges, from, to, label);
    assert(0 <= k < edges.len() && edges[k].from == from && edges[k].to == to && edges[k].label == label && forall|j: int|
        0 <= j < k ==> !(#[trigger] edges[j].from == from && edges[j].to == to && edges[j].label == label));
    if k < i {
        assert(!(edges[k].from == from && edges[k].to == to && edges[k].label == label));
    }
    if i < k {
        assert(!(edges[i].from == from && edges[i].to == to && edges[i].label == label));
    }
}

} // verus!
