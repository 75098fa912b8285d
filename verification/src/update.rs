//! Batch update of a harness board, recorded as one new board version.
//!
//! A batch applies, in order: cell changes (prompt, status, memo), cell
//! additions, cell removals (which also drop every edge touching a removed
//! cell), edge removals, and edge additions.
use crate::domain::{
    cells_view, edges_view, find_cell_index, has_cell_id, BoardDefinition, BoardVersion, BoardView,
    Cell, CellStatus, CellView, Edge, EdgeView, Harness,
};
use crate::error::{CoreError, ErrorView};
use crate::text::{trim, trim_str};
use crate::validate::{contains_string, error_issue, strings_view, IssueCode, Severity, ValidationIssue};
use crate::versioning::{cell_not_found, first_index, lemma_first_index, PendingVersion};
use vstd::prelude::*;
use vstd::string::*;

verus! {

/// A change to one existing cell; absent fields are kept.
#[derive(Debug)]
pub struct CellChange {
    pub cell_id: String,
    pub prompt: Option<String>,
    pub status: Option<CellStatus>,
    /// New request memo, stored trimmed ("" clears it).
    pub memo: Option<String>,
}

/// A cell to add.
#[derive(Debug)]
pub struct CellAdd {
    pub id: String,
    pub name: String,
    pub prompt: String,
    pub status: CellStatus,
    pub terminal: bool,
}

/// Identifies edges to remove by their endpoints and label.
#[derive(Debug)]
pub struct EdgeKey {
    pub from: String,
    pub to: String,
    pub label: String,
}

/// Input for a batch update.
#[derive(Debug)]
pub struct UpdateHarnessInput {
    pub harness_id: String,
    pub expected_lock_version: i64,
    pub cell_changes: Vec<CellChange>,
    pub cell_add: Vec<CellAdd>,
    pub edge_add: Vec<Edge>,
    pub edge_remove: Vec<EdgeKey>,
    pub cell_remove: Vec<String>,
}

/// Output of a batch update.
#[derive(Debug)]
pub struct UpdateHarnessOutput {
    pub harness_id: String,
    pub new_version: i64,
    pub lock_version: i64,
}

pub struct ChangeView {
    pub cell_id: Seq<char>,
    pub prompt: Option<Seq<char>>,
    pub status: Option<CellStatus>,
    pub memo: Option<Seq<char>>,
}

impl View for CellChange {
    type V = ChangeView;

    open spec fn view(&self) -> ChangeView {
        ChangeView {
            cell_id: self.cell_id@,
            prompt: self.prompt.deep_view(),
            status: self.status,
            memo: self.memo.deep_view(),
        }
    }
}

pub struct AddView {
    pub id: Seq<char>,
    pub name: Seq<char>,
    pub prompt: Seq<char>,
    pub status: CellStatus,
    pub terminal: bool,
}

impl View for CellAdd {
    type V = AddView;

    open spec fn view(&self) -> AddView {
        AddView { id: self.id@, name: self.name@, prompt: self.prompt@, status: self.status, terminal: self.terminal }
    }
}

pub struct KeyView {
    pub from: Seq<char>,
    pub to: Seq<char>,
    pub label: Seq<char>,
}

impl View for EdgeKey {
    type V = KeyView;

    open spec fn view(&self) -> KeyView {
        KeyView { from: self.from@, to: self.to@, label: self.label@ }
    }
}

pub open spec fn changes_view(v: Seq<CellChange>) -> Seq<ChangeView> {
    v.map_values(|c: CellChange| c@)
}

pub open spec fn adds_view(v: Seq<CellAdd>) -> Seq<AddView> {
    v.map_values(|a: CellAdd| a@)
}

pub open spec fn keys_view(keys: Seq<EdgeKey>) -> Seq<KeyView> {
    keys.map_values(|k: EdgeKey| k@)
}

pub struct UpdateView {
    pub changes: Seq<ChangeView>,
    pub adds: Seq<AddView>,
    pub edge_add: Seq<EdgeView>,
    pub edge_remove: Seq<KeyView>,
    pub removes: Seq<Seq<char>>,
}

impl View for UpdateHarnessInput {
    type V = UpdateView;

    open spec fn view(&self) -> UpdateView {
        UpdateView {
            changes: changes_view(self.cell_changes@),
            adds: adds_view(self.cell_add@),
            edge_add: edges_view(self.edge_add@),
            edge_remove: keys_view(self.edge_remove@),
            removes: strings_view(self.cell_remove@),
        }
    }
}

// ---------------------------------------------------------------------------
// What a batch does
// ---------------------------------------------------------------------------
pub open spec fn changed_cell(c: CellView, ch: ChangeView) -> CellView {
    CellView {
        prompt: match ch.prompt {
            Some(p) => p,
            None => c.prompt,
        },
        status: match ch.status {
            Some(s) => s,
            None => c.status,
        },
        request_memo: match ch.memo {
            Some(m) => trim(m),
            None => c.request_memo,
        },
        ..c
    }
}

/// The cells after the changes, or the id of the first change whose cell is
/// missing.
pub open spec fn apply_changes(cells: Seq<CellView>, chs: Seq<ChangeView>) -> Result<Seq<CellView>, Seq<char>>
    decreases chs.len(),
{
    if chs.len() == 0 {
        Ok(cells)
    } else {
        match apply_changes(cells, chs.drop_last()) {
            Err(e) => Err(e),
            Ok(cs) => {
                let ch = chs.last();
                if has_cell_id(cs, ch.cell_id) {
                    let i = first_index(cs, ch.cell_id);
                    Ok(cs.update(i, changed_cell(cs[i], ch)))
                } else {
                    Err(ch.cell_id)
                }
            },
        }
    }
}

pub open spec fn added_cell(a: AddView) -> CellView {
    CellView { id: a.id, name: a.name, prompt: a.prompt, status: a.status, terminal: a.terminal, request_memo: Seq::empty() }
}

/// The cells after the additions, or the id of the first addition whose id
/// is already taken.
pub open spec fn apply_adds(cells: Seq<CellView>, adds: Seq<AddView>) -> Result<Seq<CellView>, Seq<char>>
    decreases adds.len(),
{
    if adds.len() == 0 {
        Ok(cells)
    } else {
        match apply_adds(cells, adds.drop_last()) {
            Err(e) => Err(e),
            Ok(cs) => {
                let a = adds.last();
                if has_cell_id(cs, a.id) {
                    Err(a.id)
                } else {
                    Ok(cs.push(added_cell(a)))
                }
            },
        }
    }
}

/// The cells whose ids are not removed, in order.
pub open spec fn kept_cells(cells: Seq<CellView>, removes: Seq<Seq<char>>) -> Seq<CellView>
    decreases cells.len(),
{
    if cells.len() == 0 {
        seq![]
    } else {
        kept_cells(cells.drop_last(), removes) + if removes.contains(cells.last().id) {
            seq![]
        } else {
            seq![cells.last()]
        }
    }
}

pub open spec fn key_matches(k: KeyView, e: EdgeView) -> bool {
    e.from == k.from && e.to == k.to && e.label == k.label
}

/// An edge survives when neither endpoint is removed and no removal key
/// matches it.
pub open spec fn edge_kept(e: EdgeView, removes: Seq<Seq<char>>, keys: Seq<KeyView>) -> bool {
    &&& !removes.contains(e.from)
    &&& !removes.contains(e.to)
    &&& forall|k: int| 0 <= k < keys.len() ==> !key_matches(#[trigger] keys[k], e)
}

pub open spec fn kept_edges(edges: Seq<EdgeView>, removes: Seq<Seq<char>>, keys: Seq<KeyView>) -> Seq<EdgeView>
    decreases edges.len(),
{
    if edges.len() == 0 {
        seq![]
    } else {
        kept_edges(edges.drop_last(), removes, keys) + if edge_kept(edges.last(), removes, keys) {
            seq![edges.last()]
        } else {
            seq![]
        }
    }
}

/// The added edges that survive the batch: those touching no removed cell.
/// Removing a cell removes every edge connected to it, added ones too.
pub open spec fn added_edges(adds: Seq<EdgeView>, removes: Seq<Seq<char>>) -> Seq<EdgeView> {
    kept_edges(adds, removes, Seq::<KeyView>::empty())
}

pub open spec fn single_issue(code: IssueCode, message: Seq<char>, cell_id: Seq<char>) -> ErrorView {
    ErrorView::Validation(seq![error_issue(code, message, Some(cell_id))])
}

pub open spec fn duplicate_add(id: Seq<char>) -> ErrorView {
    single_issue(IssueCode::DuplicateCellId, "cell id '"@ + id + "' already exists"@, id)
}

pub open spec fn start_removal(start: Seq<char>) -> ErrorView {
    single_issue(IssueCode::CannotRemoveStartCell, "cannot remove start cell '"@ + start + "'"@, start)
}

/// The board a batch produces, or the error it fails with.
pub open spec fn update_board(b: BoardView, u: UpdateView) -> Result<BoardView, ErrorView> {
    match apply_changes(b.cells, u.changes) {
        Err(id) => Err(cell_not_found(id)),
        Ok(c1) => match apply_adds(c1, u.adds) {
            Err(id) => Err(duplicate_add(id)),
            Ok(c2) => if u.removes.contains(b.start) {
                Err(start_removal(b.start))
            } else {
                Ok(
                    BoardView {
                        cells: kept_cells(c2, u.removes),
                        edges: kept_edges(b.edges, u.removes, u.edge_remove) + added_edges(u.edge_add, u.removes),
                        ..b
                    },
                )
            },
        },
    }
}

// ---------------------------------------------------------------------------
// Applying a batch
// ---------------------------------------------------------------------------
fn one_issue(code: IssueCode, message: String, cell_id: String) -> (r: CoreError)
    ensures
        r@ == single_issue(code, message@, cell_id@),
{
    let mut v: Vec<ValidationIssue> = Vec::new();
    v.push(ValidationIssue { severity: Severity::Error, code, message, cell_id: Some(cell_id) });
    let r = CoreError::Validation(v);
    assert(crate::validate::issues_view(v@) =~= seq![error_issue(code, message@, Some(cell_id@))]);
    r
}

fn quoted(prefix: &str, id: &String, suffix: &str) -> (r: String)
    ensures
        r@ == prefix@ + id@ + suffix@,
{
    let mut m = String::from_str(prefix);
    m.append(id.as_str());
    m.append(suffix);
    m
}

fn apply_change(cells: &mut Vec<Cell>, ch: &CellChange) -> (r: bool)
    ensures
        r == has_cell_id(cells_view(old(cells)@), ch@.cell_id),
        r ==> cells_view(final(cells)@) == cells_view(old(cells)@).update(
            first_index(cells_view(old(cells)@), ch@.cell_id),
            changed_cell(cells_view(old(cells)@)[first_index(cells_view(old(cells)@), ch@.cell_id)], ch@),
        ),
        !r ==> final(cells)@ == old(cells)@,
{
    let ghost before = cells_view(cells@);
    match find_cell_index(cells, &ch.cell_id) {
        None => {
            proof {
                if has_cell_id(before, ch@.cell_id) {
                    let k = choose|k: int| 0 <= k < before.len() && #[trigger] before[k].id == ch@.cell_id;
                    assert(cells@[k].id@ == ch.cell_id@);
                }
            }
            false
        },
        Some(i) => {
            proof {
                assert(before[i as int].id == ch@.cell_id);
                assert forall|j: int| 0 <= j < i implies #[trigger] before[j].id != ch@.cell_id by {
                    assert(cells@[j].id@ != ch.cell_id@);
                }
                lemma_first_index(before, ch@.cell_id, i as int);
            }
            let old_cell = cells[i].copy();
            let prompt = match &ch.prompt {
                Some(p) => p.clone(),
                None => old_cell.prompt.clone(),
            };
            let status = match ch.status {
                Some(s) => s,
                None => old_cell.status,
            };
            let memo = match &ch.memo {
                Some(m) => trim_str(m.as_str()),
                None => old_cell.request_memo.clone(),
            };
            let new_cell = Cell { prompt, status, request_memo: memo, ..old_cell };
            cells.set(i, new_cell);
            proof {
                assert(cells_view(cells@) =~= before.update(i as int, changed_cell(before[i as int], ch@)));
            }
            true
        },
    }
}

fn run_changes(cells: &mut Vec<Cell>, chs: &Vec<CellChange>) -> (r: Result<(), String>)
    ensures
        match apply_changes(cells_view(old(cells)@), changes_view(chs@)) {
            Ok(c) => r is Ok && cells_view(final(cells)@) == c,
            Err(id) => r matches Err(m) && m@ == id,
        },
{
    let ghost c0 = cells_view(cells@);
    let ghost u = changes_view(chs@);
    let mut k: usize = 0;
    while k < chs.len()
        invariant
            u == changes_view(chs@),
            c0 == cells_view(old(cells)@),
            k <= chs.len(),
            apply_changes(c0, u.take(k as int)) == Ok::<Seq<CellView>, Seq<char>>(cells_view(cells@)),
        decreases chs.len() - k,
    {
        let ch = &chs[k];
        let ghost before = cells_view(cells@);
        let found = apply_change(cells, ch);
        proof {
            assert(u[k as int] == ch@);
            lemma_changes_step(c0, u, k as int, before);
        }
        if !found {
            proof {
                lemma_changes_err_prefix(c0, u, k + 1);
            }
            return Err(ch.cell_id.clone());
        }
        k = k + 1;
    }
    assert(u.take(chs.len() as int) =~= u);
    Ok(())
}

fn run_adds(cells: &mut Vec<Cell>, adds: &Vec<CellAdd>) -> (r: Result<(), String>)
    ensures
        match apply_adds(cells_view(old(cells)@), adds_view(adds@)) {
            Ok(c) => r is Ok && cells_view(final(cells)@) == c,
            Err(id) => r matches Err(m) && m@ == id,
        },
{
    let ghost c0 = cells_view(cells@);
    let ghost u = adds_view(adds@);
    let mut a: usize = 0;
    while a < adds.len()
        invariant
            u == adds_view(adds@),
            c0 == cells_view(old(cells)@),
            a <= adds.len(),
            apply_adds(c0, u.take(a as int)) == Ok::<Seq<CellView>, Seq<char>>(cells_view(cells@)),
        decreases adds.len() - a,
    {
        let add = &adds[a];
        proof {
            assert(u[a as int] == add@);
            lemma_adds_step(c0, u, a as int, cells_view(cells@));
        }
        if crate::validate::contains_cell_id(cells, &add.id) {
            proof {
                lemma_adds_err_prefix(c0, u, a + 1);
            }
            return Err(add.id.clone());
        }
        let ghost before = cells_view(cells@);
        cells.push(Cell { id: add.id.clone(), name: add.name.clone(), prompt: add.prompt.clone(), status: add.status, terminal: add.terminal, request_memo: String::new() });
        proof {
            assert(cells_view(cells@) =~= before.push(added_cell(add@)));
        }
        a = a + 1;
    }
    assert(u.take(adds.len() as int) =~= u);
    Ok(())
}

fn keep_cells(cells: &Vec<Cell>, removes: &Vec<String>) -> (r: Vec<Cell>)
    ensures
        cells_view(r@) == kept_cells(cells_view(cells@), strings_view(removes@)),
{
    let ghost c2 = cells_view(cells@);
    let mut kept: Vec<Cell> = Vec::new();
    let mut i: usize = 0;
    while i < cells.len()
        invariant
            i <= cells.len(),
            c2 == cells_view(cells@),
            cells_view(kept@) == kept_cells(c2.take(i as int), strings_view(removes@)),
        decreases cells.len() - i,
    {
        let ghost before = cells_view(kept@);
        if !contains_string(removes, &cells[i].id) {
            kept.push(cells[i].copy());
        }
        proof {
            let t = c2.take(i + 1);
            assert(t.drop_last() =~= c2.take(i as int));
            assert(t.last() == cells@[i as int]@);
            assert(cells_view(kept@) =~= kept_cells(t, strings_view(removes@)));
        }
        i = i + 1;
    }
    assert(c2.take(cells.len() as int) =~= c2);
    kept
}

fn keep_edges(edges: &Vec<Edge>, removes: &Vec<String>, keys: &Vec<EdgeKey>) -> (r: Vec<Edge>)
    ensures
        edges_view(r@) == kept_edges(edges_view(edges@), strings_view(removes@), keys_view(keys@)),
{
    let ghost ev = edges_view(edges@);
    let mut out: Vec<Edge> = Vec::new();
    let mut e: usize = 0;
    while e < edges.len()
        invariant
            ev == edges_view(edges@),
            e <= edges.len(),
            edges_view(out@) == kept_edges(ev.take(e as int), strings_view(removes@), keys_view(keys@)),
        decreases edges.len() - e,
    {
        let ed = &edges[e];
        assert(ev[e as int] == ed@);
        let keep = !contains_string(removes, &ed.from) && !contains_string(removes, &ed.to) && !matches_any_key(keys, ed);
        if keep {
            out.push(ed.copy());
        }
        proof {
            let t = ev.take(e + 1);
            assert(t.drop_last() =~= ev.take(e as int));
            assert(t.last() == ed@);
            assert(keep == edge_kept(ed@, strings_view(removes@), keys_view(keys@)));
            assert(edges_view(out@) =~= kept_edges(t, strings_view(removes@), keys_view(keys@)));
        }
        e = e + 1;
    }
    assert(ev.take(edges.len() as int) =~= ev);
    out
}

fn append_edges(edges: &mut Vec<Edge>, more: &Vec<Edge>)
    ensures
        edges_view(final(edges)@) == edges_view(old(edges)@) + edges_view(more@),
{
    let ghost base = edges_view(edges@);
    let ghost n0 = edges@.len();
    let mut x: usize = 0;
    while x < more.len()
        invariant
            x <= more.len(),
            edges@.len() == n0 + x,
            forall|i: int| 0 <= i < n0 ==> (#[trigger] edges@[i])@ == base[i],
            forall|i: int| 0 <= i < x ==> (#[trigger] edges@[n0 + i])@ == more@[i]@,
            base.len() == n0,
        decreases more.len() - x,
    {
        edges.push(more[x].copy());
        proof {
            assert(edges@[n0 + x]@ == more@[x as int]@);
        }
        x = x + 1;
    }
    proof {
        assert forall|i: int| 0 <= i < edges@.len() implies (#[trigger] edges_view(edges@)[i]) == (base + edges_view(more@))[i] by {
            if i < n0 {
                assert(edges@[i]@ == base[i]);
            } else {
                assert(edges@[n0 + (i - n0)]@ == more@[i - n0]@);
            }
        }
        assert(edges_view(edges@) =~= base + edges_view(more@));
    }
}

fn removes_start(start: &String, removes: &Vec<String>) -> (r: bool)
    ensures
        r == strings_view(removes@).contains(start@),
{
    contains_string(removes, start)
}

/// Applies a batch to a board: the changes, additions and removals in that
/// order, then the edge removals and additions. Fails on the first change
/// naming an unknown cell, the first addition reusing an id, or a removal of
/// the start cell.
pub fn apply_update(def: &BoardDefinition, input: &UpdateHarnessInput) -> (r: Result<BoardDefinition, CoreError>)
    ensures
        match update_board(def@, input@) {
            Ok(b) => r matches Ok(d) && d@ == b,
            Err(e) => r matches Err(x) && x@ == e,
        },
{
    let ghost b = def@;
    let ghost u = input@;
    let mut cells = crate::domain::copy_cells(&def.cells);
    match run_changes(&mut cells, &input.cell_changes) {
        Ok(()) => {},
        Err(id) => {
            let mut m = String::from_str("cell ");
            m.append(id.as_str());
            return Err(CoreError::NotFound(m));
        },
    }
    match run_adds(&mut cells, &input.cell_add) {
        Ok(()) => {},
        Err(id) => {
            let m = quoted("cell id '", &id, "' already exists");
            return Err(one_issue(IssueCode::DuplicateCellId, m, id));
        },
    }
    if removes_start(&def.start, &input.cell_remove) {
        let m = quoted("cannot remove start cell '", &def.start, "'");
        return Err(one_issue(IssueCode::CannotRemoveStartCell, m, def.start.clone()));
    }
    let kept = keep_cells(&cells, &input.cell_remove);
    let mut edges = keep_edges(&def.edges, &input.cell_remove, &input.edge_remove);
    let no_keys: Vec<EdgeKey> = Vec::new();
    assert(keys_view(no_keys@) =~= Seq::<KeyView>::empty());
    let added = keep_edges(&input.edge_add, &input.cell_remove, &no_keys);
    append_edges(&mut edges, &added);
    let r = BoardDefinition { schema_version: def.schema_version, start: def.start.clone(), cells: kept, edges };
    Ok(r)
}

proof fn lemma_changes_step(c0: Seq<CellView>, u: Seq<ChangeView>, k: int, cs: Seq<CellView>)
    requires
        0 <= k < u.len(),
        apply_changes(c0, u.take(k)) == Ok::<Seq<CellView>, Seq<char>>(cs),
    ensures
        apply_changes(c0, u.take(k + 1)) == (if has_cell_id(cs, u[k].cell_id) {
            Ok::<Seq<CellView>, Seq<char>>(cs.update(first_index(cs, u[k].cell_id), changed_cell(cs[first_index(cs, u[k].cell_id)], u[k])))
        } else {
            Err::<Seq<CellView>, Seq<char>>(u[k].cell_id)
        }),
{
    let t = u.take(k + 1);
    assert(t.drop_last() =~= u.take(k));
    assert(t.last() == u[k]);
}

proof fn lemma_adds_step(c0: Seq<CellView>, u: Seq<AddView>, k: int, cs: Seq<CellView>)
    requires
        0 <= k < u.len(),
        apply_adds(c0, u.take(k)) == Ok::<Seq<CellView>, Seq<char>>(cs),
    ensures
        apply_adds(c0, u.take(k + 1)) == (if has_cell_id(cs, u[k].id) {
            Err::<Seq<CellView>, Seq<char>>(u[k].id)
        } else {
            Ok::<Seq<CellView>, Seq<char>>(cs.push(added_cell(u[k])))
        }),
{
    let t = u.take(k + 1);
    assert(t.drop_last() =~= u.take(k));
    assert(t.last() == u[k]);
}

proof fn lemma_changes_err_prefix(cells: Seq<CellView>, chs: Seq<ChangeView>, n: int)
    requires
        0 <= n <= chs.len(),
        apply_changes(cells, chs.take(n)) is Err,
    ensures
        apply_changes(cells, chs) == apply_changes(cells, chs.take(n)),
    decreases chs.len() - n,
{
    if n < chs.len() {
        let t = chs.take(n + 1);
        assert(t.drop_last() =~= chs.take(n));
        lemma_changes_err_prefix(cells, chs, n + 1);
    } else {
        assert(chs.take(n) =~= chs);
    }
}

proof fn lemma_adds_err_prefix(cells: Seq<CellView>, adds: Seq<AddView>, n: int)
    requires
        0 <= n <= adds.len(),
        apply_adds(cells, adds.take(n)) is Err,
    ensures
        apply_adds(cells, adds) == apply_adds(cells, adds.take(n)),
    decreases adds.len() - n,
{
    if n < adds.len() {
        let t = adds.take(n + 1);
        assert(t.drop_last() =~= adds.take(n));
        lemma_adds_err_prefix(cells, adds, n + 1);
    } else {
        assert(adds.take(n) =~= adds);
    }
}

fn matches_any_key(keys: &Vec<EdgeKey>, e: &Edge) -> (r: bool)
    ensures
        r == !(forall|k: int| 0 <= k < keys@.len() ==> !key_matches(#[trigger] keys_view(keys@)[k], e@)),
{
    let ghost kv = keys_view(keys@);
    let mut i: usize = 0;
    while i < keys.len()
        invariant
            kv == keys_view(keys@),
            i <= keys.len(),
            forall|k: int| 0 <= k < i ==> !key_matches(#[trigger] kv[k], e@),
        decreases keys.len() - i,
    {
        let k = &keys[i];
        assert(kv[i as int] == k@);
        if e.from == k.from && e.to == k.to && e.label == k.label {
            return true;
        }
        i = i + 1;
    }
    false
}

/// Prepares a batch update: fails when the harness is absent, when the
/// caller's lock is stale, or when the batch itself fails; otherwise the
/// updated board becomes the pending next version, whose number and lock are
/// each one above the head's.
pub fn prepare_update_harness(fetched: Option<(Harness, BoardVersion)>, input: &UpdateHarnessInput) -> (r: Result<PendingVersion, CoreError>)
    requires
        match fetched {
            Some(p) => p.0.lock_version == input.expected_lock_version && update_board(p.1.definition@, input@) is Ok
                ==> p.1.version_no < i64::MAX && p.0.lock_version < i64::MAX,
            None => true,
        },
    ensures
        match fetched {
            None => r matches Err(e) && e@ == ErrorView::NotFound(input.harness_id@),
            Some(p) => if p.0.lock_version != input.expected_lock_version {
                r matches Err(e) && e@ == ErrorView::LockConflict {
                    expected: input.expected_lock_version,
                    actual: p.0.lock_version,
                }
            } else {
                match update_board(p.1.definition@, input@) {
                    Err(e) => r matches Err(x) && x@ == e,
                    Ok(b) => r matches Ok(q) && q.harness@ == p.0@ && q.definition@ == b && q.version_no
                        == p.1.version_no + 1 && q.lock_version == p.0.lock_version + 1,
                }
            },
        },
{
    let (harness, head) = match fetched {
        Some(p) => p,
        None => return Err(CoreError::NotFound(input.harness_id.clone())),
    };
    if harness.lock_version != input.expected_lock_version {
        return Err(CoreError::LockConflict { expected: input.expected_lock_version, actual: harness.lock_version });
    }
    let def = match apply_update(&head.definition, input) {
        Ok(d) => d,
        Err(e) => return Err(e),
    };
    let no = head.version_no + 1;
    let lock = harness.lock_version + 1;
    Ok(PendingVersion { harness, definition: def, version_no: no, lock_version: lock })
}

/// What a batch update that appended a version reports back.
pub fn update_output(h: &Harness) -> (r: UpdateHarnessOutput)
    ensures
        r.harness_id@ == h.id@,
        r.new_version == h.current_version,
        r.lock_version == h.lock_version,
{
    UpdateHarnessOutput { harness_id: h.id.clone(), new_version: h.current_version, lock_version: h.lock_version }
}

// ---------------------------------------------------------------------------
// Laws
// ---------------------------------------------------------------------------
/// No kept cell has a removed id, and every kept cell was on the board.
pub proof fn lemma_kept_cells(cells: Seq<CellView>, removes: Seq<Seq<char>>)
    ensures
        forall|i: int| 0 <= i < kept_cells(cells, removes).len() ==> !removes.contains(#[trigger] kept_cells(cells, removes)[i].id),
        forall|i: int| 0 <= i < kept_cells(cells, removes).len() ==> cells.contains(#[trigger] kept_cells(cells, removes)[i]),
    decreases cells.len(),
{
    if cells.len() > 0 {
        let init = cells.drop_last();
        lemma_kept_cells(init, removes);
        let k = kept_cells(cells, removes);
        let ki = kept_cells(init, removes);
        assert forall|i: int| 0 <= i < k.len() implies !removes.contains(#[trigger] k[i].id) && cells.contains(k[i]) by {
            if i < ki.len() {
                assert(k[i] == ki[i]);
                assert(init.contains(ki[i]));
                let j = choose|j: int| 0 <= j < init.len() && init[j] == ki[i];
                assert(cells[j] == init[j]);
            } else {
                assert(k[i] == cells.last());
                assert(cells[cells.len() - 1] == cells.last());
            }
        }
    }
}

/// Every kept edge touches no removed cell, matches no removal key, and was
/// on the board.
pub proof fn lemma_kept_edges(edges: Seq<EdgeView>, removes: Seq<Seq<char>>, keys: Seq<KeyView>)
    ensures
        forall|i: int| 0 <= i < kept_edges(edges, removes, keys).len() ==> edge_kept(#[trigger] kept_edges(edges, removes, keys)[i], removes, keys),
        forall|i: int| 0 <= i < kept_edges(edges, removes, keys).len() ==> edges.contains(#[trigger] kept_edges(edges, removes, keys)[i]),
    decreases edges.len(),
{
    if edges.len() > 0 {
        let init = edges.drop_last();
        lemma_kept_edges(init, removes, keys);
        let k = kept_edges(edges, removes, keys);
        let ki = kept_edges(init, removes, keys);
        assert forall|i: int| 0 <= i < k.len() implies edge_kept(#[trigger] k[i], removes, keys) && edges.contains(k[i]) by {
            if i < ki.len() {
                assert(k[i] == ki[i]);
                assert(init.contains(ki[i]));
                let j = choose|j: int| 0 <= j < init.len() && init[j] == ki[i];
                assert(edges[j] == init[j]);
            } else {
                assert(k[i] == edges.last());
                assert(edges[edges.len() - 1] == edges.last());
            }
        }
    }
}

/// A batch that succeeds keeps the start cell, leaves no cell with a
/// removed id, removes every edge that touched a removed cell or matched a
/// removal key, and adds, last and in order, the added edges that touch no
/// removed cell: no edge of the new board touches a removed cell.
pub proof fn lemma_update_removals(b: BoardView, u: UpdateView)
    requires
        update_board(b, u) is Ok,
    ensures
        update_board(b, u)->Ok_0.start == b.start,
        !u.removes.contains(b.start),
        forall|i: int| 0 <= i < update_board(b, u)->Ok_0.cells.len() ==> !u.removes.contains(#[trigger] update_board(b, u)->Ok_0.cells[i].id),
        update_board(b, u)->Ok_0.edges == kept_edges(b.edges, u.removes, u.edge_remove) + added_edges(u.edge_add, u.removes),
        forall|i: int| 0 <= i < kept_edges(b.edges, u.removes, u.edge_remove).len() ==> edge_kept(
            #[trigger] kept_edges(b.edges, u.removes, u.edge_remove)[i],
            u.removes,
            u.edge_remove,
        ),
        forall|i: int|
            0 <= i < update_board(b, u)->Ok_0.edges.len() ==> !u.removes.contains(#[trigger] update_board(b, u)->Ok_0.edges[i].from)
                && !u.removes.contains(update_board(b, u)->Ok_0.edges[i].to),
{
    let c1 = apply_changes(b.cells, u.changes)->Ok_0;
    let c2 = apply_adds(c1, u.adds)->Ok_0;
    lemma_kept_cells(c2, u.removes);
    lemma_kept_edges(b.edges, u.removes, u.edge_remove);
    lemma_kept_edges(u.edge_add, u.removes, Seq::<KeyView>::empty());
    let k = kept_edges(b.edges, u.removes, u.edge_remove);
    let a = added_edges(u.edge_add, u.removes);
    let es = update_board(b, u)->Ok_0.edges;
    assert forall|i: int| 0 <= i < es.len() implies !u.removes.contains(#[trigger] es[i].from) && !u.removes.contains(es[i].to) by {
        if i < k.len() {
            assert(es[i] == k[i]);
            assert(edge_kept(k[i], u.removes, u.edge_remove));
        } else {
            assert(es[i] == a[i - k.len()]);
            assert(edge_kept(a[i - k.len()], u.removes, Seq::<KeyView>::empty()));
        }
    }
}

/// Cell changes touch only what they set: ids, names and terminal flags never
/// change and no cell is added or dropped; a prompt, status or memo that no
/// change of the batch gives keeps its old value; and a cell that no change
/// names is kept whole.
pub proof fn lemma_changes_keep_what_they_do_not_set(cells: Seq<CellView>, chs: Seq<ChangeView>)
    ensures
        apply_changes(cells, chs) matches Ok(cs) ==> cs.len() == cells.len() && forall|i: int|
            0 <= i < cells.len() ==> {
                &&& (#[trigger] cs[i]).id == cells[i].id
                &&& cs[i].name == cells[i].name
                &&& cs[i].terminal == cells[i].terminal
                &&& (forall|k: int| 0 <= k < chs.len() ==> (#[trigger] chs[k]).prompt is None) ==> cs[i].prompt == cells[i].prompt
                &&& (forall|k: int| 0 <= k < chs.len() ==> (#[trigger] chs[k]).status is None) ==> cs[i].status == cells[i].status
                &&& (forall|k: int| 0 <= k < chs.len() ==> (#[trigger] chs[k]).memo is None) ==> cs[i].request_memo
                    == cells[i].request_memo
                &&& (forall|k: int| 0 <= k < chs.len() ==> (#[trigger] chs[k]).cell_id != cells[i].id) ==> cs[i] == cells[i]
            },
    decreases chs.len(),
{
    if chs.len() > 0 {
        let init = chs.drop_last();
        lemma_changes_keep_what_they_do_not_set(cells, init);
        if let Ok(cs0) = apply_changes(cells, init) {
            let ch = chs.last();
            if has_cell_id(cs0, ch.cell_id) {
                crate::versioning::lemma_first_index_exists(cs0, ch.cell_id);
                let i0 = first_index(cs0, ch.cell_id);
                let cs = cs0.update(i0, changed_cell(cs0[i0], ch));
                assert(apply_changes(cells, chs) == Ok::<Seq<CellView>, Seq<char>>(cs));
                assert(chs[chs.len() - 1] == ch);
                assert forall|i: int| 0 <= i < cells.len() implies {
                    &&& (#[trigger] cs[i]).id == cells[i].id
                    &&& cs[i].name == cells[i].name
                    &&& cs[i].terminal == cells[i].terminal
                    &&& (forall|k: int| 0 <= k < chs.len() ==> (#[trigger] chs[k]).prompt is None) ==> cs[i].prompt == cells[i].prompt
                    &&& (forall|k: int| 0 <= k < chs.len() ==> (#[trigger] chs[k]).status is None) ==> cs[i].status == cells[i].status
                    &&& (forall|k: int| 0 <= k < chs.len() ==> (#[trigger] chs[k]).memo is None) ==> cs[i].request_memo
                        == cells[i].request_memo
                    &&& (forall|k: int| 0 <= k < chs.len() ==> (#[trigger] chs[k]).cell_id != cells[i].id) ==> cs[i] == cells[i]
                } by {
                    if forall|k: int| 0 <= k < chs.len() ==> (#[trigger] chs[k]).prompt is None {
                        assert forall|k: int| 0 <= k < init.len() implies (#[trigger] init[k]).prompt is None by {
                            assert(init[k] == chs[k]);
                        }
                    }
                    if forall|k: int| 0 <= k < chs.len() ==> (#[trigger] chs[k]).status is None {
                        assert forall|k: int| 0 <= k < init.len() implies (#[trigger] init[k]).status is None by {
                            assert(init[k] == chs[k]);
                        }
                    }
                    if forall|k: int| 0 <= k < chs.len() ==> (#[trigger] chs[k]).memo is None {
                        assert forall|k: int| 0 <= k < init.len() implies (#[trigger] init[k]).memo is None by {
                            assert(init[k] == chs[k]);
                        }
                    }
                    if forall|k: int| 0 <= k < chs.len() ==> (#[trigger] chs[k]).cell_id != cells[i].id {
                        assert forall|k: int| 0 <= k < init.len() implies (#[trigger] init[k]).cell_id != cells[i].id by {
                            assert(init[k] == chs[k]);
                        }
                        assert(ch.cell_id != cells[i].id);
                        assert(cs0[i].id == cells[i].id);
                        assert(i != i0);
                    }
                }
            }
        }
    }
}

/// A batch of cell changes alone (no additions, no removals) keeps every
/// cell in place with its id, name and terminal flag, and keeps every
/// prompt, status or memo that no change gives; a cell that no change names
/// is kept whole.
pub proof fn lemma_update_changes_keep_what_they_do_not_set(b: BoardView, u: UpdateView)
    requires
        u.adds.len() == 0,
        u.removes.len() == 0,
    ensures
        update_board(b, u) matches Ok(nb) ==> nb.cells.len() == b.cells.len() && forall|i: int|
            0 <= i < b.cells.len() ==> {
                &&& (#[trigger] nb.cells[i]).id == b.cells[i].id
                &&& nb.cells[i].name == b.cells[i].name
                &&& nb.cells[i].terminal == b.cells[i].terminal
                &&& (forall|k: int| 0 <= k < u.changes.len() ==> (#[trigger] u.changes[k]).prompt is None) ==> nb.cells[i].prompt
                    == b.cells[i].prompt
                &&& (forall|k: int| 0 <= k < u.changes.len() ==> (#[trigger] u.changes[k]).status is None) ==> nb.cells[i].status
                    == b.cells[i].status
                &&& (forall|k: int| 0 <= k < u.changes.len() ==> (#[trigger] u.changes[k]).memo is None) ==> nb.cells[i].request_memo
                    == b.cells[i].request_memo
                &&& (forall|k: int| 0 <= k < u.changes.len() ==> (#[trigger] u.changes[k]).cell_id != b.cells[i].id) ==> nb.cells[i]
                    == b.cells[i]
            },
{
    lemma_changes_keep_what_they_do_not_set(b.cells, u.changes);
    if let Ok(c1) = apply_changes(b.cells, u.changes) {
        assert(apply_adds(c1, u.adds) == Ok::<Seq<CellView>, Seq<char>>(c1));
        lemma_kept_cells_none_removed(c1, u.removes);
    }
}

proof fn lemma_kept_cells_none_removed(cells: Seq<CellView>, removes: Seq<Seq<char>>)
    requires
        removes.len() == 0,
    ensures
        kept_cells(cells, removes) == cells,
    decreases cells.len(),
{
    if cells.len() > 0 {
        lemma_kept_cells_none_removed(cells.drop_last(), removes);
        assert(!removes.contains(cells.last().id));
        assert(cells.drop_last().push(cells.last()) =~= cells);
    }
}

} // verus!
