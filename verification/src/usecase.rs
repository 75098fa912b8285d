//! Use cases that run against any harness repository: read the head, decide,
//! commit the pending version and append it under the optimistic lock.
use crate::clock::IdClock;
use crate::domain::{any_draft, BoardVersion, BoardVersionView, Harness};
use crate::error::{CoreError, ErrorView};
use crate::store::{
    append_result, get_result, has_version, lemma_append_then_get, lemma_version_index, store_wf, unique_keys, version_at,
    version_index, HarnessRepository, StoreView,
};
use crate::update::{prepare_update_harness, update_board, update_output, UpdateHarnessInput, UpdateHarnessOutput};
use crate::versioning::{bumped, commit_version, version_of, PendingVersion};
use vstd::prelude::*;

verus! {

/// Commits a pending version with a fresh version id and the current time
/// and appends it under `expected_lock`. On success the store holds exactly
/// the append of the committed head and version; on failure it is as it was.
pub fn commit_pending<R: HarnessRepository, C: IdClock>(repo: &mut R, clock: &C, p: PendingVersion, expected_lock: i64) -> (r: Result<
    (Harness, BoardVersion),
    CoreError,
>)
    requires
        store_wf(old(repo).stored()),
    ensures
        store_wf(final(repo).stored()),
        r is Err ==> final(repo).stored() == old(repo).stored(),
        r matches Ok(hv) ==> hv.0@ == bumped(p.harness@, p.version_no, p.lock_version, any_draft(p.definition@.cells), hv.0.updated_at@)
            && hv.1@ == version_of(p.harness@, p.version_no, p.definition@, hv.1.id@, hv.0.updated_at@) && append_result(
            old(repo).stored(),
            hv.0@,
            hv.1@,
            expected_lock,
        ) == Ok::<StoreView, ErrorView>(final(repo).stored()),
{
    let version_id = clock.new_id();
    let now = clock.now_iso();
    let (h, v) = commit_version(p, version_id, now);
    match repo.append_version(&h, &v, expected_lock) {
        Ok(()) => Ok((h, v)),
        Err(e) => Err(e),
    }
}

/// Appending a version keeps what every other harness and number reads.
proof fn lemma_version_at_push(vs: Seq<BoardVersionView>, v: BoardVersionView, hid: Seq<char>, no: i64)
    requires
        unique_keys(vs.push(v)),
        !(v.harness_id == hid && v.version_no == no),
    ensures
        version_at(vs.push(v), hid, no) == version_at(vs, hid, no),
{
    let ns = vs.push(v);
    assert(unique_keys(vs)) by {
        assert forall|a: int, b: int| 0 <= a < b < vs.len() implies !(#[trigger] vs[a].harness_id == #[trigger] vs[b].harness_id
            && vs[a].version_no == vs[b].version_no) by {
            assert(ns[a] == vs[a] && ns[b] == vs[b]);
        }
    }
    if has_version(vs, hid, no) {
        let i = version_index(vs, hid, no);
        lemma_version_index(vs, hid, no, i);
        assert(ns[i] == vs[i]);
        lemma_version_index(ns, hid, no, i);
    } else if has_version(ns, hid, no) {
        let j = choose|j: int| 0 <= j < ns.len() && #[trigger] ns[j].harness_id == hid && ns[j].version_no == no;
        if j < vs.len() {
            assert(ns[j] == vs[j]);
        } else {
            assert(ns[j] == v);
        }
    }
}

/// Applies a batch update to a harness and stores it as the next version.
///
/// On success the head read afterwards is the committed one: its version
/// and lock are one above the ones read, its current version holds the
/// updated board, its name is kept, and every version stored before is
/// unchanged. On failure nothing is written.
pub fn update_harness<R: HarnessRepository, C: IdClock>(repo: &mut R, clock: &C, input: &UpdateHarnessInput) -> (r: Result<
    UpdateHarnessOutput,
    CoreError,
>)
    requires
        store_wf(old(repo).stored()),
        match get_result(old(repo).stored(), input.harness_id@) {
            Ok(Some(p)) => p.0.lock_version == input.expected_lock_version && update_board(p.1.definition, input@) is Ok
                ==> p.1.version_no < i64::MAX && p.0.lock_version < i64::MAX,
            _ => true,
        },
    ensures
        store_wf(final(repo).stored()),
        r is Err ==> final(repo).stored() == old(repo).stored(),
        r matches Ok(out) ==> match get_result(old(repo).stored(), input.harness_id@) {
            Ok(Some(p)) => {
                &&& p.0.lock_version == input.expected_lock_version
                &&& update_board(p.1.definition, input@) is Ok
                &&& out.harness_id@ == input.harness_id@
                &&& out.new_version == p.1.version_no + 1
                &&& out.lock_version == p.0.lock_version + 1
                &&& get_result(final(repo).stored(), input.harness_id@) matches Ok(Some(q)) && q.0.current_version
                    == out.new_version && q.1.version_no == out.new_version && q.0.lock_version == out.lock_version
                    && q.1.definition == update_board(p.1.definition, input@)->Ok_0 && q.0.name == p.0.name
                    && q.0.has_draft == any_draft(q.1.definition.cells)
                &&& get_result(final(repo).stored(), input.harness_id@) matches Ok(Some(q)) && append_result(
                    old(repo).stored(),
                    q.0,
                    q.1,
                    input.expected_lock_version,
                ) == Ok::<StoreView, ErrorView>(final(repo).stored())
                &&& forall|k: i64|
                    k <= p.1.version_no ==> #[trigger] version_at(final(repo).stored().versions, input.harness_id@, k)
                        == version_at(old(repo).stored().versions, input.harness_id@, k)
            },
            _ => false,
        },
{
    let ghost s = repo.stored();
    let ghost id = input.harness_id@;
    let fetched = match repo.get(input.harness_id.as_str()) {
        Ok(f) => f,
        Err(e) => return Err(e),
    };
    let p = match prepare_update_harness(fetched, input) {
        Ok(p) => p,
        Err(e) => return Err(e),
    };
    let (h, v) = match commit_pending(repo, clock, p, input.expected_lock_version) {
        Ok(hv) => hv,
        Err(e) => return Err(e),
    };
    proof {
        let ns = repo.stored();
        lemma_append_then_get(s, h@, v@, input.expected_lock_version);
        assert(ns.versions == s.versions.push(v@));
        assert forall|k: i64| k <= get_result(s, id)->Ok_0->Some_0.1.version_no implies #[trigger] version_at(ns.versions, id, k)
            == version_at(s.versions, id, k) by {
            lemma_version_at_push(s.versions, v@, id, k);
        }
    }
    Ok(update_output(&h))
}

} // verus!
