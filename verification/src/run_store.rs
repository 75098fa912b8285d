//! An in-memory store of runs that keeps the run persistence contract every
//! run repository owes: run ids are unique, the position and status writers
//! touch only their own fields and report an unknown run, the narrow setters
//! ignore one, and a harness's runs are listed newest first.
use crate::domain::{Run, RunStatus, RunView};
use crate::error::{CoreError, ErrorView};
use crate::store::opt_text;
use crate::text::{lemma_text_lt_total, lemma_text_lt_transitive, text_less, text_lt};
use vstd::prelude::*;
use vstd::string::*;

verus! {

/// Runs held in memory.
#[derive(Debug)]
pub struct MemoryRunRepository {
    runs: Vec<Run>,
}

impl View for MemoryRunRepository {
    type V = Seq<RunView>;

    closed spec fn view(&self) -> Seq<RunView> {
        self.runs@.map_values(|r: Run| r@)
    }
}

/// The views of a list of runs, in order.
pub open spec fn runs_view(rs: Seq<Run>) -> Seq<RunView> {
    rs.map_values(|x: Run| x@)
}

// ---------------------------------------------------------------------------
// Lookups
// ---------------------------------------------------------------------------
pub open spec fn has_run(rs: Seq<RunView>, id: Seq<char>) -> bool {
    exists|i: int| 0 <= i < rs.len() && #[trigger] rs[i].id == id
}

pub open spec fn run_index(rs: Seq<RunView>, id: Seq<char>) -> int {
    choose|i: int| 0 <= i < rs.len() && #[trigger] rs[i].id == id
}

/// The run with id `id`, if stored.
pub open spec fn run_at(rs: Seq<RunView>, id: Seq<char>) -> Option<RunView> {
    if has_run(rs, id) {
        Some(rs[run_index(rs, id)])
    } else {
        None
    }
}

/// No two runs share an id.
pub open spec fn unique_run_ids(rs: Seq<RunView>) -> bool {
    forall|i: int, j: int| 0 <= i < j < rs.len() ==> #[trigger] rs[i].id != #[trigger] rs[j].id
}

impl MemoryRunRepository {
    /// The store keeps run ids unique.
    pub open spec fn wf(&self) -> bool {
        unique_run_ids(self@)
    }
}

proof fn lemma_run_index(rs: Seq<RunView>, id: Seq<char>, i: int)
    requires
        unique_run_ids(rs),
        0 <= i < rs.len(),
        rs[i].id == id,
    ensures
        has_run(rs, id),
        run_index(rs, id) == i,
        run_at(rs, id) == Some(rs[i]),
{
    let k = run_index(rs, id);
    assert(rs[k].id == id);
    if k < i {
        assert(rs[k].id != rs[i].id);
    }
    if i < k {
        assert(rs[i].id != rs[k].id);
    }
}

/// Rewriting one stored run in place, keeping its id, keeps the ids unique,
/// reads back the new run and leaves every other id as it was.
proof fn lemma_rewrite_run(rs: Seq<RunView>, k: int, v: RunView)
    requires
        unique_run_ids(rs),
        0 <= k < rs.len(),
        v.id == rs[k].id,
    ensures
        unique_run_ids(rs.update(k, v)),
        run_at(rs.update(k, v), v.id) == Some(v),
        forall|other: Seq<char>| other != v.id ==> #[trigger] run_at(rs.update(k, v), other) == run_at(rs, other),
{
    let ns = rs.update(k, v);
    assert forall|a: int, b: int| 0 <= a < b < ns.len() implies #[trigger] ns[a].id != #[trigger] ns[b].id by {
        assert(rs[a].id != rs[b].id);
    }
    lemma_run_index(ns, v.id, k);
    assert forall|other: Seq<char>| other != v.id implies #[trigger] run_at(ns, other) == run_at(rs, other) by {
        if has_run(rs, other) {
            let i = run_index(rs, other);
            assert(ns[i] == rs[i]);
            lemma_run_index(ns, other, i);
        } else if has_run(ns, other) {
            let i = choose|i: int| 0 <= i < ns.len() && #[trigger] ns[i].id == other;
            assert(rs[i].id == other);
        }
    }
}

// ---------------------------------------------------------------------------
// What each operation does
// ---------------------------------------------------------------------------
/// Storing a new run: refused when its id is taken.
pub open spec fn create_run_result(rs: Seq<RunView>, run: RunView) -> Result<Seq<RunView>, ErrorView> {
    if has_run(rs, run.id) {
        Err(ErrorView::Storage("duplicate run id: "@ + run.id))
    } else {
        Ok(rs.push(run))
    }
}

/// A run moved to `cell` with `status`, stamped `at`; nothing else changes.
pub open spec fn moved_run(r: RunView, cell: Seq<char>, status: RunStatus, at: Seq<char>) -> RunView {
    RunView { current_cell_id: cell, status, updated_at: at, ..r }
}

/// A run given `status`, stamped `at`; its position and the rest are kept.
pub open spec fn restatused_run(r: RunView, status: RunStatus, at: Seq<char>) -> RunView {
    RunView { status, updated_at: at, ..r }
}

/// Moving a run; an unknown run is not found.
pub open spec fn set_position_result(
    rs: Seq<RunView>,
    id: Seq<char>,
    cell: Seq<char>,
    status: RunStatus,
    at: Seq<char>,
) -> Result<Seq<RunView>, ErrorView> {
    if !has_run(rs, id) {
        Err(ErrorView::NotFound(id))
    } else {
        let k = run_index(rs, id);
        Ok(rs.update(k, moved_run(rs[k], cell, status, at)))
    }
}

/// Setting a run's status; an unknown run is not found.
pub open spec fn set_status_result(rs: Seq<RunView>, id: Seq<char>, status: RunStatus, at: Seq<char>) -> Result<
    Seq<RunView>,
    ErrorView,
> {
    if !has_run(rs, id) {
        Err(ErrorView::NotFound(id))
    } else {
        let k = run_index(rs, id);
        Ok(rs.update(k, restatused_run(rs[k], status, at)))
    }
}

/// Recording a heartbeat; an unknown run is left alone.
pub open spec fn heartbeat_result(rs: Seq<RunView>, id: Seq<char>, ts: Seq<char>) -> Seq<RunView> {
    if !has_run(rs, id) {
        rs
    } else {
        let k = run_index(rs, id);
        rs.update(k, RunView { last_heartbeat_at: Some(ts), ..rs[k] })
    }
}

/// Setting or clearing the pending-inject time; an unknown run is left alone.
pub open spec fn inject_pending_result(rs: Seq<RunView>, id: Seq<char>, ts: Option<Seq<char>>) -> Seq<RunView> {
    if !has_run(rs, id) {
        rs
    } else {
        let k = run_index(rs, id);
        rs.update(k, RunView { inject_pending_since: ts, ..rs[k] })
    }
}

/// Setting or clearing the step token; an unknown run is left alone.
pub open spec fn step_token_result(rs: Seq<RunView>, id: Seq<char>, token: Option<Seq<char>>) -> Seq<RunView> {
    if !has_run(rs, id) {
        rs
    } else {
        let k = run_index(rs, id);
        rs.update(k, RunView { current_step_token: token, ..rs[k] })
    }
}

/// The call returned what `s` says, and the store holds what it says; a
/// refused call leaves the store as it was.
pub open spec fn run_store_outcome(
    r: Result<(), CoreError>,
    before: Seq<RunView>,
    after: Seq<RunView>,
    s: Result<Seq<RunView>, ErrorView>,
) -> bool {
    match s {
        Ok(ns) => r is Ok && after == ns,
        Err(e) => r matches Err(x) && x@ == e && after == before,
    }
}

/// Newest first: no run is listed before one created later.
pub open spec fn newest_first(rs: Seq<RunView>) -> bool {
    forall|i: int, j: int| 0 <= i < j < rs.len() ==> !text_lt(#[trigger] rs[i].created_at, #[trigger] rs[j].created_at)
}

/// `listed` holds exactly the stored runs of harness `hid`, each once.
pub open spec fn lists_harness_runs(listed: Seq<RunView>, rs: Seq<RunView>, hid: Seq<char>) -> bool {
    &&& unique_run_ids(listed)
    &&& forall|i: int| 0 <= i < listed.len() ==> (#[trigger] listed[i]).harness_id == hid && rs.contains(listed[i])
    &&& forall|j: int| 0 <= j < rs.len() && (#[trigger] rs[j]).harness_id == hid ==> listed.contains(rs[j])
}

// ---------------------------------------------------------------------------
// The store
// ---------------------------------------------------------------------------
fn find_run(runs: &Vec<Run>, id: &String) -> (r: Option<usize>)
    requires
        unique_run_ids(runs@.map_values(|x: Run| x@)),
    ensures
        match r {
            Some(i) => i < runs.len() && runs@[i as int].id@ == id@ && run_index(runs@.map_values(|x: Run| x@), id@) == i
                && has_run(runs@.map_values(|x: Run| x@), id@),
            None => !has_run(runs@.map_values(|x: Run| x@), id@),
        },
{
    let ghost rv = runs@.map_values(|x: Run| x@);
    let mut i: usize = 0;
    while i < runs.len()
        invariant
            rv == runs@.map_values(|x: Run| x@),
            unique_run_ids(rv),
            i <= runs.len(),
            forall|j: int| 0 <= j < i ==> #[trigger] rv[j].id != id@,
        decreases runs.len() - i,
    {
        if runs[i].id == *id {
            proof {
                lemma_run_index(rv, id@, i as int);
            }
            return Some(i);
        }
        i = i + 1;
    }
    proof {
        if has_run(rv, id@) {
            let k = choose|k: int| 0 <= k < rv.len() && #[trigger] rv[k].id == id@;
            assert(rv[k].id != id@);
        }
    }
    None
}

/// Inserting `x` after every run created no earlier than it, and before the
/// first run created earlier, keeps a listing newest first.
proof fn lemma_insert_newest_first(out: Seq<RunView>, p: int, x: RunView)
    requires
        newest_first(out),
        0 <= p <= out.len(),
        forall|q: int| 0 <= q < p ==> !text_lt(#[trigger] out[q].created_at, x.created_at),
        p < out.len() ==> text_lt(out[p].created_at, x.created_at),
    ensures
        newest_first(out.insert(p, x)),
{
    let ns = out.insert(p, x);
    assert forall|i: int, j: int| 0 <= i < j < ns.len() implies !text_lt(#[trigger] ns[i].created_at, #[trigger] ns[j].created_at) by {
        if j < p {
            assert(ns[i] == out[i] && ns[j] == out[j]);
        } else if j == p {
            assert(ns[i] == out[i]);
        } else if i == p {
            let r = j - 1;
            assert(ns[j] == out[r]);
            lemma_text_lt_total(out[p].created_at, x.created_at);
            if text_lt(x.created_at, out[r].created_at) {
                if r == p {
                    assert(text_lt(out[p].created_at, x.created_at));
                } else {
                    lemma_text_lt_transitive(out[p].created_at, x.created_at, out[r].created_at);
                    assert(!text_lt(out[p].created_at, out[r].created_at));
                }
            }
        } else if i < p {
            assert(ns[i] == out[i] && ns[j] == out[j - 1]);
        } else {
            assert(ns[i] == out[i - 1] && ns[j] == out[j - 1]);
        }
    }
}

/// A store of runs. Each writer names exactly the fields it touches, so a
/// writer never clobbers a field that another process wrote meanwhile.
pub trait RunRepository {
    /// The runs held.
    spec fn stored_runs(&self) -> Seq<RunView>;

    /// The store's own consistency, which every operation keeps.
    spec fn consistent(&self) -> bool;

    /// Persists a newly created run; a taken id is refused and nothing is
    /// written.
    fn create(&mut self, run: &Run) -> (r: Result<(), CoreError>)
        requires
            old(self).consistent(),
        ensures
            final(self).consistent(),
            r is Ok ==> final(self).stored_runs() == old(self).stored_runs().push(run@),
            has_run(old(self).stored_runs(), run.id@) ==> r is Err && final(self).stored_runs() == old(self).stored_runs(),
    ;

    /// Fetches a run by id; `Ok(None)` when there is none.
    fn get(&self, run_id: &str) -> (r: Result<Option<Run>, CoreError>)
        requires
            self.consistent(),
        ensures
            r matches Ok(o) ==> match run_at(self.stored_runs(), run_id@) {
                None => o is None,
                Some(v) => o matches Some(x) && x@ == v,
            },
    ;

    /// Moves a run to `cell_id` with `status`, stamping `updated_at`, and
    /// writes nothing else; an unknown run is not found.
    fn set_position(&mut self, run_id: &str, cell_id: &str, status: RunStatus, updated_at: &str) -> (r: Result<(), CoreError>)
        requires
            old(self).consistent(),
        ensures
            final(self).consistent(),
            r is Ok ==> set_position_result(old(self).stored_runs(), run_id@, cell_id@, status, updated_at@) == Ok::<
                Seq<RunView>,
                ErrorView,
            >(final(self).stored_runs()),
            !has_run(old(self).stored_runs(), run_id@) ==> (r matches Err(e) && e@ == ErrorView::NotFound(run_id@)),
    ;

    /// Sets a run's status, stamping `updated_at`, and writes nothing else:
    /// its position is kept. An unknown run is not found.
    fn set_status(&mut self, run_id: &str, status: RunStatus, updated_at: &str) -> (r: Result<(), CoreError>)
        requires
            old(self).consistent(),
        ensures
            final(self).consistent(),
            r is Ok ==> set_status_result(old(self).stored_runs(), run_id@, status, updated_at@) == Ok::<Seq<RunView>, ErrorView>(
                final(self).stored_runs(),
            ),
            !has_run(old(self).stored_runs(), run_id@) ==> (r matches Err(e) && e@ == ErrorView::NotFound(run_id@)),
    ;

    /// Lists the runs of one harness, newest first.
    fn list_by_harness(&self, harness_id: &str) -> (r: Result<Vec<Run>, CoreError>)
        requires
            self.consistent(),
        ensures
            r matches Ok(v) ==> lists_harness_runs(runs_view(v@), self.stored_runs(), harness_id@) && newest_first(runs_view(v@)),
    ;

    /// Records a heartbeat; an unknown run is ignored.
    fn update_heartbeat(&mut self, run_id: &str, ts: &str) -> (r: Result<(), CoreError>)
        requires
            old(self).consistent(),
        ensures
            final(self).consistent(),
            r is Ok ==> final(self).stored_runs() == heartbeat_result(old(self).stored_runs(), run_id@, ts@),
    ;

    /// Sets (`Some`) or clears (`None`) the pending-inject time; an unknown
    /// run is ignored.
    fn set_inject_pending(&mut self, run_id: &str, ts: Option<&str>) -> (r: Result<(), CoreError>)
        requires
            old(self).consistent(),
        ensures
            final(self).consistent(),
            r is Ok ==> final(self).stored_runs() == inject_pending_result(old(self).stored_runs(), run_id@, opt_text(ts)),
    ;

    /// Sets (`Some`) or clears (`None`) the one-time step token; an unknown
    /// run is ignored.
    fn set_step_token(&mut self, run_id: &str, token: Option<&str>) -> (r: Result<(), CoreError>)
        requires
            old(self).consistent(),
        ensures
            final(self).consistent(),
            r is Ok ==> final(self).stored_runs() == step_token_result(old(self).stored_runs(), run_id@, opt_text(token)),
    ;
}

impl MemoryRunRepository {
    /// An empty store.
    pub fn new() -> (r: MemoryRunRepository)
        ensures
            r.wf(),
            r@.len() == 0,
    {
        let r = MemoryRunRepository { runs: Vec::new() };
        assert(r@ =~= Seq::<RunView>::empty());
        r
    }

    /// Replaces the stored run at `i` by `v`, which keeps its id.
    fn rewrite(&mut self, i: usize, v: Run)
        requires
            old(self).wf(),
            i < old(self)@.len(),
            v@.id == old(self)@[i as int].id,
        ensures
            final(self).wf(),
            final(self)@ == old(self)@.update(i as int, v@),
    {
        let ghost before = self@;
        let ghost vv = v@;
        self.runs.set(i, v);
        proof {
            assert(self@ =~= before.update(i as int, vv));
            lemma_rewrite_run(before, i as int, vv);
        }
    }

}

impl RunRepository for MemoryRunRepository {
    open spec fn stored_runs(&self) -> Seq<RunView> {
        self@
    }

    open spec fn consistent(&self) -> bool {
        self.wf()
    }

    /// Stores a new run.
    fn create(&mut self, run: &Run) -> (r: Result<(), CoreError>)
        ensures
            run_store_outcome(r, old(self)@, final(self)@, create_run_result(old(self)@, run@)),
    {
        if find_run(&self.runs, &run.id).is_some() {
            let mut m = String::from_str("duplicate run id: ");
            m.append(run.id.as_str());
            return Err(CoreError::Storage(m));
        }
        let ghost before = self@;
        self.runs.push(run.copy());
        proof {
            assert(self@ =~= before.push(run@));
            assert forall|i: int, j: int| 0 <= i < j < self@.len() implies #[trigger] self@[i].id != #[trigger] self@[j].id by {
                if j == before.len() {
                    assert(before[i].id != run@.id);
                }
            }
        }
        Ok(())
    }

    /// Reads a run by id.
    fn get(&self, run_id: &str) -> (r: Result<Option<Run>, CoreError>)
        ensures
            r is Ok,
    {
        let key = String::from_str(run_id);
        match find_run(&self.runs, &key) {
            Some(i) => {
                assert(self@[i as int] == self.runs@[i as int]@);
                Ok(Some(self.runs[i].copy()))
            },
            None => Ok(None),
        }
    }

    /// Moves a run to `cell_id` with `status`, stamping `updated_at`.
    fn set_position(&mut self, run_id: &str, cell_id: &str, status: RunStatus, updated_at: &str) -> (r: Result<
        (),
        CoreError,
    >)
        ensures
            run_store_outcome(r, old(self)@, final(self)@, set_position_result(old(self)@, run_id@, cell_id@, status, updated_at@)),
    {
        let key = String::from_str(run_id);
        let i = match find_run(&self.runs, &key) {
            Some(i) => i,
            None => return Err(CoreError::NotFound(key)),
        };
        assert(self@[i as int] == self.runs@[i as int]@);
        let cur = self.runs[i].copy();
        let moved = Run {
            current_cell_id: String::from_str(cell_id),
            status,
            updated_at: String::from_str(updated_at),
            ..cur
        };
        self.rewrite(i, moved);
        Ok(())
    }

    /// Sets a run's status, stamping `updated_at`; its position is kept.
    fn set_status(&mut self, run_id: &str, status: RunStatus, updated_at: &str) -> (r: Result<(), CoreError>)
        ensures
            run_store_outcome(r, old(self)@, final(self)@, set_status_result(old(self)@, run_id@, status, updated_at@)),
    {
        let key = String::from_str(run_id);
        let i = match find_run(&self.runs, &key) {
            Some(i) => i,
            None => return Err(CoreError::NotFound(key)),
        };
        assert(self@[i as int] == self.runs@[i as int]@);
        let cur = self.runs[i].copy();
        let next = Run { status, updated_at: String::from_str(updated_at), ..cur };
        self.rewrite(i, next);
        Ok(())
    }

    /// Records a heartbeat; an unknown run is ignored.
    fn update_heartbeat(&mut self, run_id: &str, ts: &str) -> (r: Result<(), CoreError>)
        ensures
            r is Ok,
    {
        let key = String::from_str(run_id);
        if let Some(i) = find_run(&self.runs, &key) {
            assert(self@[i as int] == self.runs@[i as int]@);
            let cur = self.runs[i].copy();
            let next = Run { last_heartbeat_at: Some(String::from_str(ts)), ..cur };
            self.rewrite(i, next);
        }
        Ok(())
    }

    /// Sets (`Some`) or clears (`None`) the pending-inject time; an unknown
    /// run is ignored.
    fn set_inject_pending(&mut self, run_id: &str, ts: Option<&str>) -> (r: Result<(), CoreError>)
        ensures
            r is Ok,
    {
        let key = String::from_str(run_id);
        if let Some(i) = find_run(&self.runs, &key) {
            assert(self@[i as int] == self.runs@[i as int]@);
            let cur = self.runs[i].copy();
            let pending = match ts {
                Some(t) => Some(String::from_str(t)),
                None => None,
            };
            let next = Run { inject_pending_since: pending, ..cur };
            self.rewrite(i, next);
        }
        Ok(())
    }

    /// Sets (`Some`) or clears (`None`) the one-time step token; an unknown
    /// run is ignored.
    fn set_step_token(&mut self, run_id: &str, token: Option<&str>) -> (r: Result<(), CoreError>)
        ensures
            r is Ok,
    {
        let key = String::from_str(run_id);
        if let Some(i) = find_run(&self.runs, &key) {
            assert(self@[i as int] == self.runs@[i as int]@);
            let cur = self.runs[i].copy();
            let tok = match token {
                Some(t) => Some(String::from_str(t)),
                None => None,
            };
            let next = Run { current_step_token: tok, ..cur };
            self.rewrite(i, next);
        }
        Ok(())
    }

    /// The runs of one harness, newest first.
    fn list_by_harness(&self, harness_id: &str) -> (r: Result<Vec<Run>, CoreError>)
        ensures
            r is Ok,
    {
        let ghost rs = self@;
        let hid = String::from_str(harness_id);
        let mut out: Vec<Run> = Vec::new();
        let mut j: usize = 0;
        while j < self.runs.len()
            invariant
                rs == self@,
                rs == self.runs@.map_values(|x: Run| x@),
                unique_run_ids(rs),
                hid@ == harness_id@,
                j <= self.runs.len(),
                newest_first(runs_view(out@)),
                unique_run_ids(runs_view(out@)),
                forall|i: int|
                    0 <= i < out.len() ==> (#[trigger] runs_view(out@)[i]).harness_id == hid@ && exists|k: int|
                        0 <= k < j && rs[k] == runs_view(out@)[i],
                forall|k: int| 0 <= k < j && (#[trigger] rs[k]).harness_id == hid@ ==> runs_view(out@).contains(rs[k]),
            decreases self.runs.len() - j,
        {
            assert(rs[j as int] == self.runs@[j as int]@);
            if self.runs[j].harness_id == hid {
                let x = self.runs[j].copy();
                let ghost ov = out@.map_values(|y: Run| y@);
                let mut p: usize = 0;
                while p < out.len() && !text_less(out[p].created_at.as_str(), x.created_at.as_str())
                    invariant
                        ov == out@.map_values(|y: Run| y@),
                        p <= out.len(),
                        forall|q: int| 0 <= q < p ==> !text_lt(#[trigger] ov[q].created_at, x@.created_at),
                    decreases out.len() - p,
                {
                    assert(ov[p as int] == out@[p as int]@);
                    p = p + 1;
                }
                proof {
                    if p < out.len() {
                        assert(ov[p as int] == out@[p as int]@);
                    }
                    lemma_insert_newest_first(ov, p as int, x@);
                }
                let ghost xv = x@;
                out.insert(p, x);
                proof {
                    let nv = out@.map_values(|y: Run| y@);
                    assert(nv =~= ov.insert(p as int, xv));
                    assert forall|a: int, b: int| 0 <= a < b < nv.len() implies #[trigger] nv[a].id != #[trigger] nv[b].id by {
                        if a == p {
                            let k = choose|k: int| 0 <= k < j && rs[k] == ov[b - 1];
                            assert(rs[k].id != rs[j as int].id);
                        } else if b == p {
                            let k = choose|k: int| 0 <= k < j && rs[k] == ov[a];
                            assert(rs[k].id != rs[j as int].id);
                        } else {
                            let a2 = if a < p { a } else { a - 1 };
                            let b2 = if b < p { b } else { b - 1 };
                            assert(nv[a] == ov[a2] && nv[b] == ov[b2]);
                        }
                    }
                    assert forall|i: int| 0 <= i < nv.len() implies (#[trigger] nv[i]).harness_id == hid@ && exists|k: int|
                        0 <= k < j + 1 && rs[k] == nv[i] by {
                        if i == p {
                            assert(rs[j as int] == nv[i]);
                        } else {
                            let i2 = if i < p { i } else { i - 1 };
                            assert(nv[i] == ov[i2]);
                            let k = choose|k: int| 0 <= k < j && rs[k] == ov[i2];
                            assert(rs[k] == nv[i]);
                        }
                    }
                    assert forall|k: int| 0 <= k < j + 1 && (#[trigger] rs[k]).harness_id == hid@ implies nv.contains(rs[k]) by {
                        if k == j {
                            assert(nv[p as int] == rs[k]);
                        } else {
                            let i = choose|i: int| 0 <= i < ov.len() && ov[i] == rs[k];
                            let i2 = if i < p { i } else { i + 1 };
                            assert(nv[i2] == rs[k]);
                        }
                    }
                }
            } else {
                proof {
                    let ov = out@.map_values(|y: Run| y@);
                    assert forall|i: int| 0 <= i < ov.len() implies (#[trigger] ov[i]).harness_id == hid@ && exists|k: int|
                        0 <= k < j + 1 && rs[k] == ov[i] by {
                        let k = choose|k: int| 0 <= k < j && rs[k] == ov[i];
                        assert(0 <= k < j + 1 && rs[k] == ov[i]);
                    }
                }
            }
            j = j + 1;
        }
        proof {
            let ov = out@.map_values(|y: Run| y@);
            assert forall|i: int| 0 <= i < ov.len() implies (#[trigger] ov[i]).harness_id == harness_id@ && rs.contains(ov[i]) by {
                let k = choose|k: int| 0 <= k < j && rs[k] == ov[i];
                assert(rs[k] == ov[i]);
            }
        }
        Ok(out)
    }
}

// ---------------------------------------------------------------------------
// Laws
// ---------------------------------------------------------------------------
/// A run stored under a fresh id reads back exactly as it was stored, and
/// every other id reads as before; a taken id is refused as a duplicate.
pub proof fn lemma_run_create_then_get(rs: Seq<RunView>, run: RunView)
    requires
        unique_run_ids(rs),
    ensures
        has_run(rs, run.id) ==> create_run_result(rs, run) == Err::<Seq<RunView>, ErrorView>(
            ErrorView::Storage("duplicate run id: "@ + run.id),
        ),
        !has_run(rs, run.id) ==> (create_run_result(rs, run) matches Ok(ns) && unique_run_ids(ns) && run_at(ns, run.id) == Some(run)
            && forall|other: Seq<char>| other != run.id ==> #[trigger] run_at(ns, other) == run_at(rs, other)),
{
    if !has_run(rs, run.id) {
        let ns = rs.push(run);
        assert forall|i: int, j: int| 0 <= i < j < ns.len() implies #[trigger] ns[i].id != #[trigger] ns[j].id by {
            if j == rs.len() {
                assert(rs[i].id != run.id);
            } else {
                assert(rs[i].id != rs[j].id);
            }
        }
        lemma_run_index(ns, run.id, rs.len() as int);
        assert forall|other: Seq<char>| other != run.id implies #[trigger] run_at(ns, other) == run_at(rs, other) by {
            if has_run(rs, other) {
                let i = run_index(rs, other);
                assert(ns[i] == rs[i]);
                lemma_run_index(ns, other, i);
            } else if has_run(ns, other) {
                let i = choose|i: int| 0 <= i < ns.len() && #[trigger] ns[i].id == other;
                assert(i < rs.len());
                assert(rs[i].id == other);
            }
        }
    }
}

/// Moving a run writes its cell, status and stamp and nothing else, of it
/// or of any other run; an unknown run is reported as not found.
pub proof fn lemma_set_position_writes_only_position(
    rs: Seq<RunView>,
    id: Seq<char>,
    cell: Seq<char>,
    status: RunStatus,
    at: Seq<char>,
)
    requires
        unique_run_ids(rs),
    ensures
        !has_run(rs, id) ==> set_position_result(rs, id, cell, status, at) == Err::<Seq<RunView>, ErrorView>(
            ErrorView::NotFound(id),
        ),
        has_run(rs, id) ==> (set_position_result(rs, id, cell, status, at) matches Ok(ns) && unique_run_ids(ns) && run_at(ns, id)
            == Some(moved_run(run_at(rs, id).unwrap(), cell, status, at)) && forall|other: Seq<char>|
            other != id ==> #[trigger] run_at(ns, other) == run_at(rs, other)),
{
    if has_run(rs, id) {
        let k = run_index(rs, id);
        lemma_run_index(rs, id, k);
        lemma_rewrite_run(rs, k, moved_run(rs[k], cell, status, at));
    }
}

/// Setting a run's status writes its status and stamp and nothing else: the
/// cell it stands on is kept. An unknown run is reported as not found.
pub proof fn lemma_set_status_keeps_position(rs: Seq<RunView>, id: Seq<char>, status: RunStatus, at: Seq<char>)
    requires
        unique_run_ids(rs),
    ensures
        !has_run(rs, id) ==> set_status_result(rs, id, status, at) == Err::<Seq<RunView>, ErrorView>(ErrorView::NotFound(id)),
        has_run(rs, id) ==> (set_status_result(rs, id, status, at) matches Ok(ns) && unique_run_ids(ns) && run_at(ns, id) == Some(
            restatused_run(run_at(rs, id).unwrap(), status, at),
        ) && run_at(ns, id).unwrap().current_cell_id == run_at(rs, id).unwrap().current_cell_id && forall|other: Seq<char>|
            other != id ==> #[trigger] run_at(ns, other) == run_at(rs, other)),
{
    if has_run(rs, id) {
        let k = run_index(rs, id);
        lemma_run_index(rs, id, k);
        lemma_rewrite_run(rs, k, restatused_run(rs[k], status, at));
    }
}

/// The narrow setters each write their own field of one run and nothing
/// else; on an unknown run they change nothing.
pub proof fn lemma_narrow_setters_write_one_field(
    rs: Seq<RunView>,
    id: Seq<char>,
    ts: Seq<char>,
    pending: Option<Seq<char>>,
    token: Option<Seq<char>>,
)
    requires
        unique_run_ids(rs),
    ensures
        !has_run(rs, id) ==> heartbeat_result(rs, id, ts) == rs && inject_pending_result(rs, id, pending) == rs
            && step_token_result(rs, id, token) == rs,
        has_run(rs, id) ==> run_at(heartbeat_result(rs, id, ts), id) == Some(
            RunView { last_heartbeat_at: Some(ts), ..run_at(rs, id).unwrap() },
        ),
        has_run(rs, id) ==> run_at(inject_pending_result(rs, id, pending), id) == Some(
            RunView { inject_pending_since: pending, ..run_at(rs, id).unwrap() },
        ),
        has_run(rs, id) ==> run_at(step_token_result(rs, id, token), id) == Some(
            RunView { current_step_token: token, ..run_at(rs, id).unwrap() },
        ),
        forall|other: Seq<char>|
            other != id ==> #[trigger] run_at(heartbeat_result(rs, id, ts), other) == run_at(rs, other) && run_at(
                inject_pending_result(rs, id, pending),
                other,
            ) == run_at(rs, other) && run_at(step_token_result(rs, id, token), other) == run_at(rs, other),
{
    if has_run(rs, id) {
        let k = run_index(rs, id);
        lemma_run_index(rs, id, k);
        lemma_rewrite_run(rs, k, RunView { last_heartbeat_at: Some(ts), ..rs[k] });
        lemma_rewrite_run(rs, k, RunView { inject_pending_since: pending, ..rs[k] });
        lemma_rewrite_run(rs, k, RunView { current_step_token: token, ..rs[k] });
    }
}

} // verus!
