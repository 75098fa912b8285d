//! The arguments the agent-facing tools take, and how a batch-update request
//! becomes the input of a batch update.
use crate::agent::{cell_status_of, parse_cell_status, refusal_is, unknown_status_message, ToolRefusal};
use crate::domain::{edges_view, BoardDefinition, Edge, EdgeView, Guard};
use crate::update::{adds_view, changes_view, keys_view, AddView, CellAdd, CellChange, ChangeView, EdgeKey, KeyView, UpdateHarnessInput};
use crate::validate::strings_view;
use vstd::prelude::*;

verus! {

/// Arguments for creating a harness.
#[derive(Debug)]
pub struct CreateArgs {
    pub name: String,
    pub description: Option<String>,
    /// The initial board; a minimal template when absent.
    pub definition: Option<BoardDefinition>,
}

/// Arguments for setting or clearing a harness's description.
#[derive(Debug)]
pub struct SetDescriptionArgs {
    pub harness_id: String,
    /// The new description; `None` clears it.
    pub description: Option<String>,
}

/// Arguments for moving a harness to the trash.
#[derive(Debug)]
pub struct DeleteHarnessArgs {
    pub harness_id: String,
}

/// Arguments for reading status: one harness, or a summary of all.
#[derive(Debug)]
pub struct StatusArgs {
    pub harness_id: Option<String>,
}

/// Arguments for replacing a cell's prompt.
#[derive(Debug)]
pub struct EditArgs {
    pub harness_id: String,
    pub cell_id: String,
    pub prompt: String,
    pub expected_lock_version: i64,
}

/// Arguments for reading one cell in full.
#[derive(Debug)]
pub struct GetCellArgs {
    pub harness_id: String,
    pub cell_id: String,
}

/// Arguments for validation: a stored harness or a given board, exactly one.
#[derive(Debug)]
pub struct ValidateArgs {
    pub harness_id: Option<String>,
    pub definition: Option<BoardDefinition>,
}

/// Arguments for starting a run.
#[derive(Debug)]
pub struct StartArgs {
    pub harness_id: String,
    /// Absolute path of the project directory the run is attached to.
    pub project_path: String,
}

/// Arguments for advancing a run.
#[derive(Debug)]
pub struct AdvanceArgs {
    pub run_id: String,
    pub edge_label: String,
}

/// A per-cell change in a batch update; the status is given as text.
#[derive(Debug)]
pub struct CellChangeArgs {
    pub cell_id: String,
    pub prompt: Option<String>,
    pub status: Option<String>,
    pub memo: Option<String>,
}

/// An edge to remove, by endpoints and label.
#[derive(Debug)]
pub struct EdgeKeyArgs {
    pub from: String,
    pub to: String,
    pub label: String,
}

/// An edge to add.
#[derive(Debug)]
pub struct EdgeAddArgs {
    pub from: String,
    pub to: String,
    pub label: String,
    pub guard: Option<String>,
}

/// A cell to add; the status is given as text.
#[derive(Debug)]
pub struct CellAddArgs {
    pub id: String,
    pub name: String,
    pub prompt: String,
    pub status: String,
    pub terminal: bool,
}

/// Arguments for a batch update.
#[derive(Debug)]
pub struct UpdateArgs {
    pub harness_id: String,
    pub expected_lock_version: i64,
    pub cell_changes: Vec<CellChangeArgs>,
    pub cell_add: Vec<CellAddArgs>,
    pub edge_add: Vec<EdgeAddArgs>,
    pub edge_remove: Vec<EdgeKeyArgs>,
    pub cell_remove: Vec<String>,
}

// ---------------------------------------------------------------------------
// From arguments to a batch update
// ---------------------------------------------------------------------------
/// A change whose status text names no cell status.
pub open spec fn bad_change(c: CellChangeArgs) -> bool {
    c.status matches Some(s) && cell_status_of(s@) is None
}

pub open spec fn has_bad_change(cs: Seq<CellChangeArgs>) -> bool {
    exists|i: int| 0 <= i < cs.len() && bad_change(#[trigger] cs[i])
}

/// The position of the first change with an unknown status.
pub open spec fn first_bad_change(cs: Seq<CellChangeArgs>) -> int {
    choose|i: int| 0 <= i < cs.len() && bad_change(cs[i]) && forall|j: int| 0 <= j < i ==> !bad_change(#[trigger] cs[j])
}

pub open spec fn has_bad_add(adds: Seq<CellAddArgs>) -> bool {
    exists|i: int| 0 <= i < adds.len() && cell_status_of(#[trigger] adds[i].status@) is None
}

/// The position of the first added cell with an unknown status.
pub open spec fn first_bad_add(adds: Seq<CellAddArgs>) -> int {
    choose|i: int|
        0 <= i < adds.len() && cell_status_of(adds[i].status@) is None && forall|j: int|
            0 <= j < i ==> cell_status_of(#[trigger] adds[j].status@) is Some
}

pub open spec fn change_of(c: CellChangeArgs) -> ChangeView {
    ChangeView {
        cell_id: c.cell_id@,
        prompt: c.prompt.deep_view(),
        status: match c.status {
            Some(s) => cell_status_of(s@),
            None => None,
        },
        memo: c.memo.deep_view(),
    }
}

pub open spec fn add_of(a: CellAddArgs) -> AddView {
    AddView { id: a.id@, name: a.name@, prompt: a.prompt@, status: cell_status_of(a.status@)->Some_0, terminal: a.terminal }
}

pub open spec fn edge_of(e: EdgeAddArgs) -> EdgeView {
    EdgeView { from: e.from@, to: e.to@, label: e.label@, guard: e.guard.deep_view() }
}

pub open spec fn key_of(k: EdgeKeyArgs) -> KeyView {
    KeyView { from: k.from@, to: k.to@, label: k.label@ }
}

/// The unknown status text a batch request is refused for, if any: the
/// first one among the cell changes, else the first among the added cells.
pub open spec fn refused_status(args: UpdateArgs) -> Option<Seq<char>> {
    if has_bad_change(args.cell_changes@) {
        Some(args.cell_changes@[first_bad_change(args.cell_changes@)].status->Some_0@)
    } else if has_bad_add(args.cell_add@) {
        Some(args.cell_add@[first_bad_add(args.cell_add@)].status@)
    } else {
        None
    }
}

/// Whether `u` is the batch update `args` describes.
pub open spec fn update_input_of(u: UpdateHarnessInput, args: UpdateArgs) -> bool {
    &&& u.harness_id@ == args.harness_id@
    &&& u.expected_lock_version == args.expected_lock_version
    &&& changes_view(u.cell_changes@) == args.cell_changes@.map_values(|c: CellChangeArgs| change_of(c))
    &&& adds_view(u.cell_add@) == args.cell_add@.map_values(|a: CellAddArgs| add_of(a))
    &&& edges_view(u.edge_add@) == args.edge_add@.map_values(|e: EdgeAddArgs| edge_of(e))
    &&& keys_view(u.edge_remove@) == args.edge_remove@.map_values(|k: EdgeKeyArgs| key_of(k))
    &&& strings_view(u.cell_remove@) == strings_view(args.cell_remove@)
}

fn convert_changes(cs: Vec<CellChangeArgs>) -> (r: Result<Vec<CellChange>, ToolRefusal>)
    ensures
        has_bad_change(cs@) ==> (r matches Err(e) && refusal_is(
            e,
            "invalid_arguments"@,
            unknown_status_message(cs@[first_bad_change(cs@)].status->Some_0@),
        )),
        !has_bad_change(cs@) ==> (r matches Ok(v) && changes_view(v@) == cs@.map_values(|c: CellChangeArgs| change_of(c))),
{
    let ghost all = cs@;
    let mut out: Vec<CellChange> = Vec::new();
    let mut i: usize = 0;
    while i < cs.len()
        invariant
            all == cs@,
            i <= cs.len(),
            forall|j: int| 0 <= j < i ==> !bad_change(#[trigger] all[j]),
            out.len() == i,
            forall|k: int| 0 <= k < i ==> (#[trigger] out@[k])@ == change_of(all[k]),
        decreases cs.len() - i,
    {
        let c = &cs[i];
        let status = match &c.status {
            None => None,
            Some(s) => match parse_cell_status(s.as_str()) {
                Ok(st) => Some(st),
                Err(e) => {
                    proof {
                        assert(bad_change(all[i as int]));
                        let k = first_bad_change(all);
                        assert(0 <= k < all.len() && bad_change(all[k]) && forall|j: int| 0 <= j < k ==> !bad_change(#[trigger] all[j]));
                        if k < i {
                            assert(!bad_change(all[k]));
                        }
                        if i < k {
                            assert(!bad_change(all[i as int]));
                        }
                    }
                    return Err(e);
                },
            },
        };
        let prompt = match &c.prompt {
            Some(p) => Some(p.clone()),
            None => None,
        };
        let memo = match &c.memo {
            Some(m) => Some(m.clone()),
            None => None,
        };
        let ch = CellChange { cell_id: c.cell_id.clone(), prompt, status, memo };
        assert(ch@ == change_of(all[i as int]));
        out.push(ch);
        i = i + 1;
    }
    assert(changes_view(out@) =~= all.map_values(|c: CellChangeArgs| change_of(c)));
    Ok(out)
}

fn convert_adds(adds: Vec<CellAddArgs>) -> (r: Result<Vec<CellAdd>, ToolRefusal>)
    ensures
        has_bad_add(adds@) ==> (r matches Err(e) && refusal_is(
            e,
            "invalid_arguments"@,
            unknown_status_message(adds@[first_bad_add(adds@)].status@),
        )),
        !has_bad_add(adds@) ==> (r matches Ok(v) && adds_view(v@) == adds@.map_values(|a: CellAddArgs| add_of(a))),
{
    let ghost all = adds@;
    let mut out: Vec<CellAdd> = Vec::new();
    let mut i: usize = 0;
    while i < adds.len()
        invariant
            all == adds@,
            i <= adds.len(),
            forall|j: int| 0 <= j < i ==> cell_status_of(#[trigger] all[j].status@) is Some,
            out.len() == i,
            forall|k: int| 0 <= k < i ==> (#[trigger] out@[k])@ == add_of(all[k]),
        decreases adds.len() - i,
    {
        let a = &adds[i];
        let status = match parse_cell_status(a.status.as_str()) {
            Ok(st) => st,
            Err(e) => {
                proof {
                    let k = first_bad_add(all);
                    assert(cell_status_of(all[i as int].status@) is None);
                    assert(0 <= k < all.len() && cell_status_of(all[k].status@) is None && forall|j: int|
                        0 <= j < k ==> cell_status_of(#[trigger] all[j].status@) is Some);
                    if k < i {
                        assert(cell_status_of(all[k].status@) is Some);
                    }
                    if i < k {
                        assert(cell_status_of(all[i as int].status@) is Some);
                    }
                }
                return Err(e);
            },
        };
        let ad = CellAdd { id: a.id.clone(), name: a.name.clone(), prompt: a.prompt.clone(), status, terminal: a.terminal };
        assert(ad@ == add_of(all[i as int]));
        out.push(ad);
        i = i + 1;
    }
    assert(adds_view(out@) =~= all.map_values(|a: CellAddArgs| add_of(a)));
    Ok(out)
}

fn convert_edges(edges: Vec<EdgeAddArgs>) -> (r: Vec<Edge>)
    ensures
        edges_view(r@) == edges@.map_values(|e: EdgeAddArgs| edge_of(e)),
{
    let mut out: Vec<Edge> = Vec::new();
    let mut i: usize = 0;
    while i < edges.len()
        invariant
            i <= edges.len(),
            out.len() == i,
            forall|k: int| 0 <= k < i ==> (#[trigger] out@[k])@ == edge_of(edges@[k]),
        decreases edges.len() - i,
    {
        let e = &edges[i];
        let guard = match &e.guard {
            Some(g) => Some(Guard { expr: g.clone() }),
            None => None,
        };
        let ed = Edge { from: e.from.clone(), to: e.to.clone(), label: e.label.clone(), guard };
        assert(ed@ == edge_of(edges@[i as int]));
        out.push(ed);
        i = i + 1;
    }
    assert(edges_view(out@) =~= edges@.map_values(|e: EdgeAddArgs| edge_of(e)));
    out
}

fn convert_keys(keys: Vec<EdgeKeyArgs>) -> (r: Vec<EdgeKey>)
    ensures
        keys_view(r@) == keys@.map_values(|k: EdgeKeyArgs| key_of(k)),
{
    let mut out: Vec<EdgeKey> = Vec::new();
    let mut i: usize = 0;
    while i < keys.len()
        invariant
            i <= keys.len(),
            out.len() == i,
            forall|k: int| 0 <= k < i ==> (#[trigger] out@[k])@ == key_of(keys@[k]),
        decreases keys.len() - i,
    {
        let k = &keys[i];
        out.push(EdgeKey { from: k.from.clone(), to: k.to.clone(), label: k.label.clone() });
        i = i + 1;
    }
    assert(keys_view(out@) =~= keys@.map_values(|k: EdgeKeyArgs| key_of(k)));
    out
}

/// Turns a batch-update request into the input of a batch update, reading
/// each status text; the first unknown status (cell changes before added
/// cells) refuses the whole request with `invalid_arguments`.
pub fn update_input(args: UpdateArgs) -> (r: Result<UpdateHarnessInput, ToolRefusal>)
    ensures
        match refused_status(args) {
            Some(s) => r matches Err(e) && refusal_is(e, "invalid_arguments"@, unknown_status_message(s)),
            None => r matches Ok(u) && update_input_of(u, args),
        },
{
    let ghost a = args;
    let cell_changes = match convert_changes(args.cell_changes) {
        Ok(v) => v,
        Err(e) => return Err(e),
    };
    let cell_add = match convert_adds(args.cell_add) {
        Ok(v) => v,
        Err(e) => return Err(e),
    };
    let edge_add = convert_edges(args.edge_add);
    let edge_remove = convert_keys(args.edge_remove);
    Ok(
        UpdateHarnessInput {
            harness_id: args.harness_id,
            expected_lock_version: args.expected_lock_version,
            cell_changes,
            cell_add,
            edge_add,
            edge_remove,
            cell_remove: args.cell_remove,
        },
    )
}

} // verus!
