//! An in-memory repository of harness heads and their board versions that
//! keeps the persistence contract every repository owes: harness ids and
//! `(harness, version number)` pairs are unique, versions are append-only
//! and never rewritten, and moving a head goes through the optimistic lock.
//! It also holds the folders that group heads.
use crate::domain::{BoardVersion, BoardVersionView, Folder, FolderView, Harness, HarnessView};
use crate::error::{CoreError, ErrorView};
use crate::text::{i64_to_decimal, lemma_text_lt_total, lemma_text_lt_transitive, signed_decimal, text_less, text_lt};
use vstd::prelude::*;
use vstd::string::*;

verus! {

/// Harness heads, their versions and the trash, held in memory.
#[derive(Debug)]
pub struct MemoryRepository {
    harnesses: Vec<Harness>,
    versions: Vec<BoardVersion>,
    /// Trashed harness ids with the time each was trashed.
    trashed: Vec<(String, String)>,
    folders: Vec<Folder>,
}

/// What a repository holds.
pub struct StoreView {
    pub harnesses: Seq<HarnessView>,
    pub versions: Seq<BoardVersionView>,
    pub trashed: Seq<(Seq<char>, Seq<char>)>,
    pub folders: Seq<FolderView>,
}

impl View for MemoryRepository {
    type V = StoreView;

    closed spec fn view(&self) -> StoreView {
        StoreView {
            harnesses: self.harnesses@.map_values(|h: Harness| h@),
            versions: self.versions@.map_values(|v: BoardVersion| v@),
            trashed: self.trashed@.map_values(|t: (String, String)| (t.0@, t.1@)),
            folders: self.folders@.map_values(|f: Folder| f@),
        }
    }
}

// ---------------------------------------------------------------------------
// Lookups
// ---------------------------------------------------------------------------
pub open spec fn has_harness(hs: Seq<HarnessView>, id: Seq<char>) -> bool {
    exists|i: int| 0 <= i < hs.len() && #[trigger] hs[i].id == id
}

pub open spec fn harness_index(hs: Seq<HarnessView>, id: Seq<char>) -> int {
    choose|i: int| 0 <= i < hs.len() && #[trigger] hs[i].id == id
}

/// The head with id `id`, if stored.
pub open spec fn harness_at(hs: Seq<HarnessView>, id: Seq<char>) -> Option<HarnessView> {
    if has_harness(hs, id) {
        Some(hs[harness_index(hs, id)])
    } else {
        None
    }
}

pub open spec fn has_version(vs: Seq<BoardVersionView>, hid: Seq<char>, no: i64) -> bool {
    exists|i: int| 0 <= i < vs.len() && #[trigger] vs[i].harness_id == hid && vs[i].version_no == no
}

pub open spec fn version_index(vs: Seq<BoardVersionView>, hid: Seq<char>, no: i64) -> int {
    choose|i: int| 0 <= i < vs.len() && #[trigger] vs[i].harness_id == hid && vs[i].version_no == no
}

/// The version numbered `no` of harness `hid`, if stored.
pub open spec fn version_at(vs: Seq<BoardVersionView>, hid: Seq<char>, no: i64) -> Option<BoardVersionView> {
    if has_version(vs, hid, no) {
        Some(vs[version_index(vs, hid, no)])
    } else {
        None
    }
}

pub open spec fn is_trashed(ts: Seq<(Seq<char>, Seq<char>)>, id: Seq<char>) -> bool {
    exists|i: int| 0 <= i < ts.len() && #[trigger] ts[i].0 == id
}

pub open spec fn unique_ids(hs: Seq<HarnessView>) -> bool {
    forall|i: int, j: int| 0 <= i < j < hs.len() ==> #[trigger] hs[i].id != #[trigger] hs[j].id
}

pub open spec fn unique_keys(vs: Seq<BoardVersionView>) -> bool {
    forall|i: int, j: int|
        0 <= i < j < vs.len() ==> !(#[trigger] vs[i].harness_id == #[trigger] vs[j].harness_id && vs[i].version_no == vs[j].version_no)
}

pub open spec fn unique_trash(ts: Seq<(Seq<char>, Seq<char>)>) -> bool {
    forall|i: int, j: int| 0 <= i < j < ts.len() ==> #[trigger] ts[i].0 != #[trigger] ts[j].0
}

pub open spec fn unique_folder_ids(fs: Seq<FolderView>) -> bool {
    forall|i: int, j: int| 0 <= i < j < fs.len() ==> #[trigger] fs[i].id != #[trigger] fs[j].id
}

/// No two heads share an id, no two versions share a harness and number,
/// a harness is trashed at most once, and no two folders share an id.
pub open spec fn store_wf(s: StoreView) -> bool {
    &&& unique_ids(s.harnesses)
    &&& unique_keys(s.versions)
    &&& unique_trash(s.trashed)
    &&& unique_folder_ids(s.folders)
}

impl MemoryRepository {
    /// The repository keeps its uniqueness invariants.
    pub open spec fn wf(&self) -> bool {
        store_wf(self@)
    }
}

proof fn lemma_harness_index(hs: Seq<HarnessView>, id: Seq<char>, i: int)
    requires
        unique_ids(hs),
        0 <= i < hs.len(),
        hs[i].id == id,
    ensures
        has_harness(hs, id),
        harness_index(hs, id) == i,
        harness_at(hs, id) == Some(hs[i]),
{
    let k = harness_index(hs, id);
    assert(hs[k].id == id);
    if k < i {
        assert(hs[k].id != hs[i].id);
    }
    if i < k {
        assert(hs[i].id != hs[k].id);
    }
}

/// In versions with unique keys, the one at `i` is the version read for its
/// harness and number.
pub proof fn lemma_version_index(vs: Seq<BoardVersionView>, hid: Seq<char>, no: i64, i: int)
    requires
        unique_keys(vs),
        0 <= i < vs.len(),
        vs[i].harness_id == hid,
        vs[i].version_no == no,
    ensures
        has_version(vs, hid, no),
        version_index(vs, hid, no) == i,
        version_at(vs, hid, no) == Some(vs[i]),
{
    let k = version_index(vs, hid, no);
    assert(vs[k].harness_id == hid && vs[k].version_no == no);
    if k < i {
        assert(!(vs[k].harness_id == vs[i].harness_id && vs[k].version_no == vs[i].version_no));
    }
    if i < k {
        assert(!(vs[i].harness_id == vs[k].harness_id && vs[i].version_no == vs[k].version_no));
    }
}

// ---------------------------------------------------------------------------
// What each operation does
// ---------------------------------------------------------------------------
pub open spec fn duplicate_version(hid: Seq<char>, no: i64) -> ErrorView {
    ErrorView::Storage("duplicate version_no "@ + signed_decimal(no as int) + " for harness "@ + hid)
}

/// Reading a head: an unknown id reads as nothing; a head whose current
/// version is missing is a storage error.
pub open spec fn get_result(s: StoreView, id: Seq<char>) -> Result<Option<(HarnessView, BoardVersionView)>, ErrorView> {
    match harness_at(s.harnesses, id) {
        None => Ok(None),
        Some(h) => match version_at(s.versions, id, h.current_version) {
            None => Err(ErrorView::Storage("missing head version"@)),
            Some(v) => Ok(Some((h, v))),
        },
    }
}

/// Storing a new head with its first version: refused when the id or the
/// version's harness and number are taken.
pub open spec fn create_result(s: StoreView, h: HarnessView, v: BoardVersionView) -> Result<StoreView, ErrorView> {
    if has_harness(s.harnesses, h.id) {
        Err(ErrorView::Storage("duplicate harness id: "@ + h.id))
    } else if has_version(s.versions, v.harness_id, v.version_no) {
        Err(duplicate_version(v.harness_id, v.version_no))
    } else {
        Ok(StoreView { harnesses: s.harnesses.push(h), versions: s.versions.push(v), ..s })
    }
}

/// Appending a version and moving the head: refused for an unknown head,
/// for a lock other than the stored one (nothing is written), and for a
/// version number already taken.
pub open spec fn append_result(s: StoreView, h: HarnessView, v: BoardVersionView, expected_lock: i64) -> Result<StoreView, ErrorView> {
    match harness_at(s.harnesses, h.id) {
        None => Err(ErrorView::NotFound(h.id)),
        Some(cur) => if cur.lock_version != expected_lock {
            Err(ErrorView::LockConflict { expected: expected_lock, actual: cur.lock_version })
        } else if has_version(s.versions, v.harness_id, v.version_no) {
            Err(duplicate_version(v.harness_id, v.version_no))
        } else {
            Ok(
                StoreView {
                    harnesses: s.harnesses.update(harness_index(s.harnesses, h.id), h),
                    versions: s.versions.push(v),
                    ..s
                },
            )
        },
    }
}

pub open spec fn store_outcome(r: Result<(), CoreError>, before: StoreView, after: StoreView, s: Result<StoreView, ErrorView>) -> bool {
    match s {
        Ok(ns) => r is Ok && after == ns,
        Err(e) => r matches Err(x) && x@ == e && after == before,
    }
}

fn find_harness(hs: &Vec<Harness>, id: &String) -> (r: Option<usize>)
    requires
        unique_ids(hs@.map_values(|h: Harness| h@)),
    ensures
        match r {
            Some(i) => i < hs.len() && hs@[i as int].id@ == id@ && harness_index(hs@.map_values(|h: Harness| h@), id@) == i
                && has_harness(hs@.map_values(|h: Harness| h@), id@),
            None => !has_harness(hs@.map_values(|h: Harness| h@), id@),
        },
{
    let ghost hv = hs@.map_values(|h: Harness| h@);
    let mut i: usize = 0;
    while i < hs.len()
        invariant
            hv == hs@.map_values(|h: Harness| h@),
            unique_ids(hv),
            i <= hs.len(),
            forall|j: int| 0 <= j < i ==> #[trigger] hv[j].id != id@,
        decreases hs.len() - i,
    {
        if hs[i].id == *id {
            proof {
                lemma_harness_index(hv, id@, i as int);
            }
            return Some(i);
        }
        i = i + 1;
    }
    proof {
        if has_harness(hv, id@) {
            let k = choose|k: int| 0 <= k < hv.len() && #[trigger] hv[k].id == id@;
            assert(hv[k].id != id@);
        }
    }
    None
}

fn find_version(vs: &Vec<BoardVersion>, hid: &String, no: i64) -> (r: Option<usize>)
    requires
        unique_keys(vs@.map_values(|v: BoardVersion| v@)),
    ensures
        match r {
            Some(i) => i < vs.len() && version_at(vs@.map_values(|v: BoardVersion| v@), hid@, no) == Some(vs@[i as int]@),
            None => !has_version(vs@.map_values(|v: BoardVersion| v@), hid@, no),
        },
{
    let ghost vv = vs@.map_values(|v: BoardVersion| v@);
    let mut i: usize = 0;
    while i < vs.len()
        invariant
            vv == vs@.map_values(|v: BoardVersion| v@),
            unique_keys(vv),
            i <= vs.len(),
            forall|j: int| 0 <= j < i ==> !(#[trigger] vv[j].harness_id == hid@ && vv[j].version_no == no),
        decreases vs.len() - i,
    {
        if vs[i].harness_id == *hid && vs[i].version_no == no {
            proof {
                lemma_version_index(vv, hid@, no, i as int);
            }
            return Some(i);
        }
        i = i + 1;
    }
    proof {
        if has_version(vv, hid@, no) {
            let k = choose|k: int| 0 <= k < vv.len() && #[trigger] vv[k].harness_id == hid@ && vv[k].version_no == no;
            assert(!(vv[k].harness_id == hid@ && vv[k].version_no == no));
        }
    }
    None
}

fn duplicate_version_error(hid: &String, no: i64) -> (r: CoreError)
    ensures
        r@ == duplicate_version(hid@, no),
{
    let mut m = String::from_str("duplicate version_no ");
    let n = i64_to_decimal(no);
    m.append(n.as_str());
    m.append(" for harness ");
    m.append(hid.as_str());
    CoreError::Storage(m)
}

impl MemoryRepository {
    /// An empty repository.
    pub fn new() -> (r: MemoryRepository)
        ensures
            r.wf(),
            r@.harnesses.len() == 0,
            r@.versions.len() == 0,
            r@.trashed.len() == 0,
            r@.folders.len() == 0,
    {
        let r = MemoryRepository { harnesses: Vec::new(), versions: Vec::new(), trashed: Vec::new(), folders: Vec::new() };
        assert(r@.folders =~= Seq::<FolderView>::empty());
        assert(r@.harnesses =~= Seq::<HarnessView>::empty());
        assert(r@.versions =~= Seq::<BoardVersionView>::empty());
        assert(r@.trashed =~= Seq::<(Seq<char>, Seq<char>)>::empty());
        r
    }
}

// ---------------------------------------------------------------------------
// Trash, purge, description and listings
// ---------------------------------------------------------------------------
pub open spec fn trash_index(ts: Seq<(Seq<char>, Seq<char>)>, id: Seq<char>) -> int {
    choose|i: int| 0 <= i < ts.len() && #[trigger] ts[i].0 == id
}

/// Moving a head to the trash at `at` (an earlier time is replaced); an
/// unknown head is not found.
pub open spec fn trash_result(s: StoreView, id: Seq<char>, at: Seq<char>) -> Result<StoreView, ErrorView> {
    if !has_harness(s.harnesses, id) {
        Err(ErrorView::NotFound(id))
    } else if is_trashed(s.trashed, id) {
        Ok(StoreView { trashed: s.trashed.update(trash_index(s.trashed, id), (id, at)), ..s })
    } else {
        Ok(StoreView { trashed: s.trashed.push((id, at)), ..s })
    }
}

/// Taking a head out of the trash; one not in the trash is not found.
pub open spec fn restore_result(s: StoreView, id: Seq<char>) -> Result<StoreView, ErrorView> {
    if !is_trashed(s.trashed, id) {
        Err(ErrorView::NotFound(id))
    } else {
        Ok(StoreView { trashed: s.trashed.remove(trash_index(s.trashed, id)), ..s })
    }
}

/// The versions that belong to other harnesses than `hid`, in order.
pub open spec fn versions_without(vs: Seq<BoardVersionView>, hid: Seq<char>) -> Seq<BoardVersionView>
    decreases vs.len(),
{
    if vs.len() == 0 {
        seq![]
    } else {
        versions_without(vs.drop_last(), hid) + if vs.last().harness_id == hid {
            seq![]
        } else {
            seq![vs.last()]
        }
    }
}

/// Deleting a head for good, with all its versions and its trash entry; an
/// unknown head is not found.
pub open spec fn purge_result(s: StoreView, id: Seq<char>) -> Result<StoreView, ErrorView> {
    if !has_harness(s.harnesses, id) {
        Err(ErrorView::NotFound(id))
    } else {
        Ok(
            StoreView {
                harnesses: s.harnesses.remove(harness_index(s.harnesses, id)),
                versions: versions_without(s.versions, id),
                trashed: if is_trashed(s.trashed, id) {
                    s.trashed.remove(trash_index(s.trashed, id))
                } else {
                    s.trashed
                },
                folders: s.folders,
            },
        )
    }
}

/// Setting a head's description (`None` clears it); an unknown head is not
/// found.
pub open spec fn describe_result(s: StoreView, id: Seq<char>, description: Option<Seq<char>>) -> Result<StoreView, ErrorView> {
    if !has_harness(s.harnesses, id) {
        Err(ErrorView::NotFound(id))
    } else {
        let i = harness_index(s.harnesses, id);
        Ok(StoreView { harnesses: s.harnesses.update(i, HarnessView { description, ..s.harnesses[i] }), ..s })
    }
}

/// The heads not in the trash, in order.
pub open spec fn live_heads(hs: Seq<HarnessView>, ts: Seq<(Seq<char>, Seq<char>)>) -> Seq<HarnessView>
    decreases hs.len(),
{
    if hs.len() == 0 {
        seq![]
    } else {
        live_heads(hs.drop_last(), ts) + if is_trashed(ts, hs.last().id) {
            seq![]
        } else {
            seq![hs.last()]
        }
    }
}

/// The trash listing: each trashed head still stored, with its name and the
/// time it was trashed, in trash order.
pub open spec fn trash_listing(ts: Seq<(Seq<char>, Seq<char>)>, hs: Seq<HarnessView>) -> Seq<(Seq<char>, Seq<char>, Seq<char>)>
    decreases ts.len(),
{
    if ts.len() == 0 {
        seq![]
    } else {
        let t = ts.last();
        trash_listing(ts.drop_last(), hs) + match harness_at(hs, t.0) {
            Some(h) => seq![(t.0, h.name, t.1)],
            None => seq![],
        }
    }
}

fn find_trashed(ts: &Vec<(String, String)>, id: &String) -> (r: Option<usize>)
    requires
        unique_trash(ts@.map_values(|t: (String, String)| (t.0@, t.1@))),
    ensures
        match r {
            Some(i) => i < ts.len() && ts@[i as int].0@ == id@ && trash_index(ts@.map_values(|t: (String, String)| (t.0@, t.1@)), id@)
                == i && is_trashed(ts@.map_values(|t: (String, String)| (t.0@, t.1@)), id@),
            None => !is_trashed(ts@.map_values(|t: (String, String)| (t.0@, t.1@)), id@),
        },
{
    let ghost tv = ts@.map_values(|t: (String, String)| (t.0@, t.1@));
    let mut i: usize = 0;
    while i < ts.len()
        invariant
            tv == ts@.map_values(|t: (String, String)| (t.0@, t.1@)),
            unique_trash(tv),
            i <= ts.len(),
            forall|j: int| 0 <= j < i ==> #[trigger] tv[j].0 != id@,
        decreases ts.len() - i,
    {
        if ts[i].0 == *id {
            proof {
                let k = trash_index(tv, id@);
                assert(tv[i as int].0 == id@);
                assert(tv[k].0 == id@);
                if k < i {
                    assert(tv[k].0 != tv[i as int].0);
                }
                if i < k {
                    assert(tv[i as int].0 != tv[k].0);
                }
            }
            return Some(i);
        }
        i = i + 1;
    }
    proof {
        if is_trashed(tv, id@) {
            let k = choose|k: int| 0 <= k < tv.len() && #[trigger] tv[k].0 == id@;
            assert(tv[k].0 != id@);
        }
    }
    None
}

proof fn lemma_unique_trash_remove(ts: Seq<(Seq<char>, Seq<char>)>, k: int)
    requires
        unique_trash(ts),
        0 <= k < ts.len(),
    ensures
        unique_trash(ts.remove(k)),
{
    let r = ts.remove(k);
    assert forall|a: int, b: int| 0 <= a < b < r.len() implies #[trigger] r[a].0 != #[trigger] r[b].0 by {
        let a2 = if a < k { a } else { a + 1 };
        let b2 = if b < k { b } else { b + 1 };
        assert(r[a] == ts[a2]);
        assert(r[b] == ts[b2]);
        assert(ts[a2].0 != ts[b2].0);
    }
}

proof fn lemma_versions_without(vs: Seq<BoardVersionView>, hid: Seq<char>)
    requires
        unique_keys(vs),
    ensures
        unique_keys(versions_without(vs, hid)),
        forall|i: int| 0 <= i < versions_without(vs, hid).len() ==> #[trigger] versions_without(vs, hid)[i].harness_id != hid,
        forall|i: int| 0 <= i < versions_without(vs, hid).len() ==> exists|j: int|
            0 <= j < vs.len() && vs[j] == #[trigger] versions_without(vs, hid)[i],
    decreases vs.len(),
{
    if vs.len() > 0 {
        let init = vs.drop_last();
        assert(unique_keys(init)) by {
            assert forall|a: int, b: int| 0 <= a < b < init.len() implies !(#[trigger] init[a].harness_id == #[trigger] init[b].harness_id
                && init[a].version_no == init[b].version_no) by {
                assert(init[a] == vs[a] && init[b] == vs[b]);
            }
        }
        lemma_versions_without(init, hid);
        let w = versions_without(vs, hid);
        let wi = versions_without(init, hid);
        let l = vs.last();
        assert forall|i: int| 0 <= i < w.len() implies exists|j: int| 0 <= j < vs.len() && vs[j] == #[trigger] w[i] by {
            if i < wi.len() {
                assert(w[i] == wi[i]);
                let j = choose|j: int| 0 <= j < init.len() && init[j] == #[trigger] wi[i];
                assert(vs[j] == init[j]);
            } else {
                assert(w[i] == l);
                assert(vs[vs.len() - 1] == l);
            }
        }
        if l.harness_id != hid {
            assert forall|a: int, b: int| 0 <= a < b < w.len() implies !(#[trigger] w[a].harness_id == #[trigger] w[b].harness_id
                && w[a].version_no == w[b].version_no) by {
                if b == wi.len() {
                    assert(w[a] == wi[a]);
                    let j = choose|j: int| 0 <= j < init.len() && init[j] == #[trigger] wi[a];
                    assert(vs[j] == init[j]);
                    assert(!(vs[j].harness_id == vs[vs.len() - 1].harness_id && vs[j].version_no == vs[vs.len() - 1].version_no));
                } else {
                    assert(w[a] == wi[a] && w[b] == wi[b]);
                }
            }
        } else {
            assert(w =~= wi);
        }
    }
}



fn versions_except(vs: &Vec<BoardVersion>, hid: &String) -> (r: Vec<BoardVersion>)
    ensures
        r@.map_values(|v: BoardVersion| v@) == versions_without(vs@.map_values(|v: BoardVersion| v@), hid@),
{
    let ghost vv = vs@.map_values(|v: BoardVersion| v@);
    let mut out: Vec<BoardVersion> = Vec::new();
    let mut i: usize = 0;
    while i < vs.len()
        invariant
            vv == vs@.map_values(|v: BoardVersion| v@),
            i <= vs.len(),
            out@.map_values(|v: BoardVersion| v@) == versions_without(vv.take(i as int), hid@),
        decreases vs.len() - i,
    {
        let ghost before = out@;
        if !(vs[i].harness_id == *hid) {
            out.push(vs[i].copy());
        }
        proof {
            let t = vv.take(i + 1);
            assert(t.drop_last() =~= vv.take(i as int));
            assert(t.last() == vv[i as int]);
            if vv[i as int].harness_id == hid@ {
                assert(out@ == before);
            } else {
                assert(out@ =~= before.push(out@[before.len() as int]));
            }
            assert(out@.map_values(|v: BoardVersion| v@) =~= versions_without(t, hid@));
        }
        i = i + 1;
    }
    assert(vv.take(vs.len() as int) =~= vv);
    out
}



// ---------------------------------------------------------------------------
// Folders
// ---------------------------------------------------------------------------
pub open spec fn has_folder(fs: Seq<FolderView>, id: Seq<char>) -> bool {
    exists|i: int| 0 <= i < fs.len() && #[trigger] fs[i].id == id
}

pub open spec fn folder_index(fs: Seq<FolderView>, id: Seq<char>) -> int {
    choose|i: int| 0 <= i < fs.len() && #[trigger] fs[i].id == id
}

/// Adding a folder: refused when its id is taken. Whether its name is taken
/// is for the caller to decide.
pub open spec fn folder_create_result(s: StoreView, f: FolderView) -> Result<StoreView, ErrorView> {
    if has_folder(s.folders, f.id) {
        Err(ErrorView::Storage("duplicate folder id: "@ + f.id))
    } else {
        Ok(StoreView { folders: s.folders.push(f), ..s })
    }
}

/// Renaming a folder, stamping `at`; an unknown folder is not found.
pub open spec fn folder_rename_result(s: StoreView, id: Seq<char>, name: Seq<char>, at: Seq<char>) -> Result<StoreView, ErrorView> {
    if !has_folder(s.folders, id) {
        Err(ErrorView::NotFound(id))
    } else {
        let i = folder_index(s.folders, id);
        Ok(StoreView { folders: s.folders.update(i, FolderView { name, updated_at: at, ..s.folders[i] }), ..s })
    }
}

/// A head taken out of folder `fid`, if it was in it.
pub open spec fn unfiled(h: HarnessView, fid: Seq<char>) -> HarnessView {
    if h.folder_id == Some(fid) {
        HarnessView { folder_id: None, ..h }
    } else {
        h
    }
}

/// Deleting a folder: every head in it, trashed ones too, becomes
/// unfiled, and no head is deleted; an unknown folder is not found.
pub open spec fn folder_delete_result(s: StoreView, id: Seq<char>) -> Result<StoreView, ErrorView> {
    if !has_folder(s.folders, id) {
        Err(ErrorView::NotFound(id))
    } else {
        Ok(
            StoreView {
                harnesses: s.harnesses.map_values(|h: HarnessView| unfiled(h, id)),
                folders: s.folders.remove(folder_index(s.folders, id)),
                ..s
            },
        )
    }
}

/// Moving a head into folder `fid`, or out of any folder for `None`: an
/// unknown folder, then an unknown head, is not found.
pub open spec fn move_result(s: StoreView, hid: Seq<char>, fid: Option<Seq<char>>) -> Result<StoreView, ErrorView> {
    if fid is Some && !has_folder(s.folders, fid->Some_0) {
        Err(ErrorView::NotFound(fid->Some_0))
    } else if !has_harness(s.harnesses, hid) {
        Err(ErrorView::NotFound(hid))
    } else {
        let i = harness_index(s.harnesses, hid);
        Ok(StoreView { harnesses: s.harnesses.update(i, HarnessView { folder_id: fid, ..s.harnesses[i] }), ..s })
    }
}

fn find_folder(fs: &Vec<Folder>, id: &String) -> (r: Option<usize>)
    requires
        unique_folder_ids(fs@.map_values(|f: Folder| f@)),
    ensures
        match r {
            Some(i) => i < fs.len() && fs@[i as int].id@ == id@ && folder_index(fs@.map_values(|f: Folder| f@), id@) == i
                && has_folder(fs@.map_values(|f: Folder| f@), id@),
            None => !has_folder(fs@.map_values(|f: Folder| f@), id@),
        },
{
    let ghost fv = fs@.map_values(|f: Folder| f@);
    let mut i: usize = 0;
    while i < fs.len()
        invariant
            fv == fs@.map_values(|f: Folder| f@),
            unique_folder_ids(fv),
            i <= fs.len(),
            forall|j: int| 0 <= j < i ==> #[trigger] fv[j].id != id@,
        decreases fs.len() - i,
    {
        if fs[i].id == *id {
            proof {
                let k = folder_index(fv, id@);
                assert(fv[i as int].id == id@);
                assert(fv[k].id == id@);
                if k < i {
                    assert(fv[k].id != fv[i as int].id);
                }
                if i < k {
                    assert(fv[i as int].id != fv[k].id);
                }
            }
            return Some(i);
        }
        i = i + 1;
    }
    proof {
        if has_folder(fv, id@) {
            let k = choose|k: int| 0 <= k < fv.len() && #[trigger] fv[k].id == id@;
            assert(fv[k].id != id@);
        }
    }
    None
}



// ---------------------------------------------------------------------------
// Purging what has been in the trash too long
// ---------------------------------------------------------------------------
/// The items of `s` that `keep` accepts, in order.
pub open spec fn kept<A>(s: Seq<A>, keep: spec_fn(A) -> bool) -> Seq<A>
    decreases s.len(),
{
    if s.len() == 0 {
        seq![]
    } else {
        kept(s.drop_last(), keep) + if keep(s.last()) {
            seq![s.last()]
        } else {
            seq![]
        }
    }
}

/// Keeping some items of a list whose keys are unique keeps the keys
/// unique, and keeps only accepted items of the list.
proof fn lemma_kept<A, K>(s: Seq<A>, keep: spec_fn(A) -> bool, key: spec_fn(A) -> K)
    requires
        forall|i: int, j: int| 0 <= i < j < s.len() ==> key(#[trigger] s[i]) != key(#[trigger] s[j]),
    ensures
        forall|i: int, j: int| 0 <= i < j < kept(s, keep).len() ==> key(#[trigger] kept(s, keep)[i]) != key(#[trigger] kept(s, keep)[j]),
        forall|i: int| 0 <= i < kept(s, keep).len() ==> keep(#[trigger] kept(s, keep)[i]) && s.contains(kept(s, keep)[i]),
    decreases s.len(),
{
    if s.len() > 0 {
        let init = s.drop_last();
        let l = s.last();
        assert forall|i: int, j: int| 0 <= i < j < init.len() implies key(#[trigger] init[i]) != key(#[trigger] init[j]) by {
            assert(init[i] == s[i] && init[j] == s[j]);
        }
        lemma_kept(init, keep, key);
        let ki = kept(init, keep);
        assert(s[s.len() - 1] == l);
        if keep(l) {
            let n = ki.push(l);
            assert(kept(s, keep) =~= n);
            assert forall|i: int, j: int| 0 <= i < j < n.len() implies key(#[trigger] n[i]) != key(#[trigger] n[j]) by {
                if j == ki.len() {
                    assert(n[i] == ki[i]);
                    let k = choose|k: int| 0 <= k < init.len() && init[k] == ki[i];
                    assert(s[k] == init[k]);
                    assert(key(s[k]) != key(s[s.len() - 1]));
                } else {
                    assert(n[i] == ki[i] && n[j] == ki[j]);
                }
            }
            assert forall|i: int| 0 <= i < n.len() implies keep(#[trigger] n[i]) && s.contains(n[i]) by {
                if i < ki.len() {
                    assert(n[i] == ki[i]);
                    let k = choose|k: int| 0 <= k < init.len() && init[k] == ki[i];
                    assert(s[k] == init[k]);
                }
            }
        } else {
            assert(kept(s, keep) =~= ki);
            assert forall|i: int| 0 <= i < ki.len() implies keep(#[trigger] ki[i]) && s.contains(ki[i]) by {
                let k = choose|k: int| 0 <= k < init.len() && init[k] == ki[i];
                assert(s[k] == init[k]);
            }
        }
    }
}

/// Whether head `id` went to the trash before `before`.
pub open spec fn trashed_before(ts: Seq<(Seq<char>, Seq<char>)>, id: Seq<char>, before: Seq<char>) -> bool {
    is_trashed(ts, id) && text_lt(ts[trash_index(ts, id)].1, before)
}

/// A head stays unless it went to the trash before `before`.
pub open spec fn head_stays(ts: Seq<(Seq<char>, Seq<char>)>, before: Seq<char>) -> spec_fn(HarnessView) -> bool {
    |h: HarnessView| !trashed_before(ts, h.id, before)
}

/// A version stays unless its head went to the trash before `before`.
pub open spec fn version_stays(ts: Seq<(Seq<char>, Seq<char>)>, before: Seq<char>) -> spec_fn(BoardVersionView) -> bool {
    |v: BoardVersionView| !trashed_before(ts, v.harness_id, before)
}

/// A trash entry stays unless it was made before `before`.
pub open spec fn entry_stays(before: Seq<char>) -> spec_fn((Seq<char>, Seq<char>)) -> bool {
    |t: (Seq<char>, Seq<char>)| !text_lt(t.1, before)
}

/// Deleting for good every head that went to the trash before `before`,
/// with its versions and its trash entry; times compare as text.
pub open spec fn purge_before_result(s: StoreView, before: Seq<char>) -> StoreView {
    StoreView {
        harnesses: kept(s.harnesses, head_stays(s.trashed, before)),
        versions: kept(s.versions, version_stays(s.trashed, before)),
        trashed: kept(s.trashed, entry_stays(before)),
        folders: s.folders,
    }
}

/// Whether the head `id` went to the trash before `before`.
fn trashed_earlier(ts: &Vec<(String, String)>, id: &String, before: &str) -> (r: bool)
    requires
        unique_trash(ts@.map_values(|t: (String, String)| (t.0@, t.1@))),
    ensures
        r == trashed_before(ts@.map_values(|t: (String, String)| (t.0@, t.1@)), id@, before@),
{
    match find_trashed(ts, id) {
        Some(k) => {
            assert(ts@.map_values(|t: (String, String)| (t.0@, t.1@))[k as int].1 == ts@[k as int].1@);
            text_less(ts[k].1.as_str(), before)
        },
        None => false,
    }
}



// ---------------------------------------------------------------------------
// Listing folders
// ---------------------------------------------------------------------------
/// Folder `a` is listed before folder `b`: by sort order, then by creation
/// time.
pub open spec fn folder_before(a: FolderView, b: FolderView) -> bool {
    a.sort_order < b.sort_order || (a.sort_order == b.sort_order && text_lt(a.created_at, b.created_at))
}

/// The number of heads in folder `fid` that are not in the trash.
pub open spec fn live_count(hs: Seq<HarnessView>, ts: Seq<(Seq<char>, Seq<char>)>, fid: Seq<char>) -> int
    decreases hs.len(),
{
    if hs.len() == 0 {
        0
    } else {
        live_count(hs.drop_last(), ts, fid) + if hs.last().folder_id == Some(fid) && !is_trashed(ts, hs.last().id) {
            1int
        } else {
            0int
        }
    }
}

/// The folders of listed rows, in order.
pub open spec fn row_folders(rows: Seq<(FolderView, i64)>) -> Seq<FolderView> {
    rows.map_values(|r: (FolderView, i64)| r.0)
}

/// `listed` holds every stored folder once, each with its count of heads
/// not in the trash.
pub open spec fn lists_folders(listed: Seq<(FolderView, i64)>, s: StoreView) -> bool {
    &&& forall|i: int, j: int| 0 <= i < j < listed.len() ==> (#[trigger] listed[i]).0.id != (#[trigger] listed[j]).0.id
    &&& forall|i: int|
        0 <= i < listed.len() ==> s.folders.contains((#[trigger] listed[i]).0) && listed[i].1 == live_count(
            s.harnesses,
            s.trashed,
            listed[i].0.id,
        )
    &&& forall|j: int| 0 <= j < s.folders.len() ==> row_folders(listed).contains(#[trigger] s.folders[j])
}

/// Listed in sort order, then creation time; folders equal in both keep no
/// particular order.
pub open spec fn folders_in_order(listed: Seq<(FolderView, i64)>) -> bool {
    forall|i: int, j: int| 0 <= i < j < listed.len() ==> !folder_before((#[trigger] listed[j]).0, (#[trigger] listed[i]).0)
}

proof fn lemma_folder_before_order(a: FolderView, b: FolderView, c: FolderView)
    ensures
        !(folder_before(a, b) && folder_before(b, a)),
        folder_before(a, b) && folder_before(b, c) ==> folder_before(a, c),
{
    lemma_text_lt_total(a.created_at, b.created_at);
    if folder_before(a, b) && folder_before(b, c) && a.sort_order == b.sort_order && b.sort_order == c.sort_order {
        lemma_text_lt_transitive(a.created_at, b.created_at, c.created_at);
    }
}

fn folder_sorts_before(a: &Folder, b: &Folder) -> (r: bool)
    ensures
        r == folder_before(a@, b@),
{
    a.sort_order < b.sort_order || (a.sort_order == b.sort_order && text_less(a.created_at.as_str(), b.created_at.as_str()))
}

proof fn lemma_insert_in_order(out: Seq<(FolderView, i64)>, p: int, x: (FolderView, i64))
    requires
        folders_in_order(out),
        0 <= p <= out.len(),
        forall|q: int| 0 <= q < p ==> !folder_before(x.0, (#[trigger] out[q]).0),
        p < out.len() ==> folder_before(x.0, out[p].0),
    ensures
        folders_in_order(out.insert(p, x)),
{
    let ns = out.insert(p, x);
    assert forall|i: int, j: int| 0 <= i < j < ns.len() implies !folder_before((#[trigger] ns[j]).0, (#[trigger] ns[i]).0) by {
        if j < p {
            assert(ns[i] == out[i] && ns[j] == out[j]);
        } else if j == p {
            assert(ns[i] == out[i]);
        } else if i == p {
            let r = j - 1;
            assert(ns[j] == out[r]);
            lemma_folder_before_order(out[r].0, x.0, out[p].0);
            lemma_folder_before_order(x.0, out[p].0, x.0);
        } else if i < p {
            assert(ns[i] == out[i] && ns[j] == out[j - 1]);
        } else {
            assert(ns[i] == out[i - 1] && ns[j] == out[j - 1]);
        }
    }
}

impl MemoryRepository {
    /// The number of heads in folder `fid` that are not in the trash.
    fn count_live(&self, fid: &String) -> (r: i64)
        requires
            self.wf(),
            self@.harnesses.len() <= i64::MAX,
        ensures
            r == live_count(self@.harnesses, self@.trashed, fid@),
    {
        let ghost hs = self@.harnesses;
        let mut n: i64 = 0;
        let mut i: usize = 0;
        while i < self.harnesses.len()
            invariant
                self.wf(),
                hs == self@.harnesses,
                hs == self.harnesses@.map_values(|h: Harness| h@),
                hs.len() <= i64::MAX,
                i <= hs.len(),
                0 <= n <= i,
                n == live_count(hs.take(i as int), self@.trashed, fid@),
            decreases hs.len() - i,
        {
            assert(hs.take(i + 1).drop_last() =~= hs.take(i as int));
            assert(hs.take(i + 1).last() == hs[i as int]);
            assert(hs[i as int] == self.harnesses@[i as int]@);
            let inside = match &self.harnesses[i].folder_id {
                Some(f) => *f == *fid,
                None => false,
            };
            assert(inside == (hs[i as int].folder_id == Some(fid@)));
            if inside && find_trashed(&self.trashed, &self.harnesses[i].id).is_none() {
                n = n + 1;
            }
            i = i + 1;
        }
        assert(hs.take(i as int) =~= hs);
        n
    }
}

/// The rows list, each once, the folders before position `j` of the store,
/// each with its count of heads not in the trash.
#[verifier::opaque]
pub open spec fn rows_cover(rows: Seq<(FolderView, i64)>, s: StoreView, j: int) -> bool {
    &&& forall|a: int, b: int| 0 <= a < b < rows.len() ==> (#[trigger] rows[a]).0.id != (#[trigger] rows[b]).0.id
    &&& forall|i: int|
        0 <= i < rows.len() ==> s.folders.take(j).contains((#[trigger] rows[i]).0) && rows[i].1 == live_count(
            s.harnesses,
            s.trashed,
            rows[i].0.id,
        )
    &&& forall|k: int| 0 <= k < j ==> row_folders(rows).contains(#[trigger] s.folders[k])
}

proof fn lemma_rows_cover_insert(ov: Seq<(FolderView, i64)>, p: int, x: (FolderView, i64), s: StoreView, j: int)
    requires
        rows_cover(ov, s, j),
        unique_folder_ids(s.folders),
        0 <= p <= ov.len(),
        0 <= j < s.folders.len(),
        x.0 == s.folders[j],
        x.1 == live_count(s.harnesses, s.trashed, x.0.id),
    ensures
        rows_cover(ov.insert(p, x), s, j + 1),
{
    reveal(rows_cover);
    let fs = s.folders;
    let nv = ov.insert(p, x);
    let t0 = fs.take(j);
    let t1 = fs.take(j + 1);
    assert forall|a: int, b: int| 0 <= a < b < nv.len() implies (#[trigger] nv[a]).0.id != (#[trigger] nv[b]).0.id by {
        if a == p || b == p {
            let o = if a == p { b - 1 } else { a };
            assert(t0.contains(ov[o].0));
            let k = choose|k: int| 0 <= k < t0.len() && t0[k] == ov[o].0;
            assert(t0[k] == fs[k]);
            assert(fs[k].id != fs[j].id);
            if a == p {
                assert(nv[b] == ov[o]);
            } else {
                assert(nv[a] == ov[o]);
            }
        } else {
            let a2 = if a < p { a } else { a - 1 };
            let b2 = if b < p { b } else { b - 1 };
            assert(nv[a] == ov[a2] && nv[b] == ov[b2]);
        }
    }
    assert forall|i: int| 0 <= i < nv.len() implies t1.contains((#[trigger] nv[i]).0) && nv[i].1 == live_count(
        s.harnesses,
        s.trashed,
        nv[i].0.id,
    ) by {
        if i == p {
            assert(t1[j] == nv[i].0);
        } else {
            let i2 = if i < p { i } else { i - 1 };
            assert(nv[i] == ov[i2]);
            assert(t0.contains(ov[i2].0));
            let k = choose|k: int| 0 <= k < t0.len() && t0[k] == ov[i2].0;
            assert(t1[k] == t0[k]);
        }
    }
    let r0 = row_folders(ov);
    let r1 = row_folders(nv);
    assert forall|k: int| 0 <= k < j + 1 implies r1.contains(#[trigger] fs[k]) by {
        if k == j {
            assert(r1[p] == fs[k]);
        } else {
            assert(r0.contains(fs[k]));
            let i = choose|i: int| 0 <= i < r0.len() && r0[i] == fs[k];
            let i2 = if i < p { i } else { i + 1 };
            assert(nv[i2] == ov[i]);
            assert(r1[i2] == r0[i]);
        }
    }
}

proof fn lemma_rows_cover_all(rows: Seq<(FolderView, i64)>, s: StoreView)
    requires
        rows_cover(rows, s, s.folders.len() as int),
    ensures
        lists_folders(rows, s),
{
    reveal(rows_cover);
    assert(s.folders.take(s.folders.len() as int) =~= s.folders);
}

/// Folder rows seen as plain values.
pub open spec fn folder_rows(rows: Seq<(Folder, i64)>) -> Seq<(FolderView, i64)> {
    rows.map_values(|e: (Folder, i64)| (e.0@, e.1))
}

// ---------------------------------------------------------------------------
// The repository contract
// ---------------------------------------------------------------------------
/// An optional text seen as plain values.
pub open spec fn opt_text(t: Option<&str>) -> Option<Seq<char>> {
    match t {
        Some(s) => Some(s@),
        None => None,
    }
}

/// A read head and version seen as plain values.
pub open spec fn read_matches(
    r: Result<Option<(Harness, BoardVersion)>, CoreError>,
    g: Result<Option<(HarnessView, BoardVersionView)>, ErrorView>,
) -> bool {
    match r {
        Ok(None) => g == Ok::<Option<(HarnessView, BoardVersionView)>, ErrorView>(None),
        Ok(Some(q)) => g == Ok::<Option<(HarnessView, BoardVersionView)>, ErrorView>(Some((q.0@, q.1@))),
        Err(_) => true,
    }
}

/// Heads seen as plain values, in order.
pub open spec fn harness_rows(v: Seq<Harness>) -> Seq<HarnessView> {
    v.map_values(|h: Harness| h@)
}

/// Trash rows seen as plain values, in order.
pub open spec fn trash_rows(v: Seq<(String, String, String)>) -> Seq<(Seq<char>, Seq<char>, Seq<char>)> {
    v.map_values(|e: (String, String, String)| (e.0@, e.1@, e.2@))
}

/// A store of harness heads and their immutable board versions, with the
/// trash and the folders that group heads. Board versions are append-only
/// (a stored version is never overwritten) and moving a head goes through
/// the optimistic lock.
pub trait HarnessRepository {
    /// What the store holds.
    spec fn stored(&self) -> StoreView;

    /// Inserts a new head with its first version; a taken harness id, or a
    /// taken harness and version number, is a storage error.
    fn create(&mut self, harness: &Harness, version: &BoardVersion) -> (r: Result<(), CoreError>)
        requires
            store_wf(old(self).stored()),
        ensures
            store_wf(final(self).stored()),
            r is Ok ==> create_result(old(self).stored(), harness@, version@) == Ok::<StoreView, ErrorView>(final(self).stored()),
            has_harness(old(self).stored().harnesses, harness.id@) || has_version(
                old(self).stored().versions,
                version.harness_id@,
                version.version_no,
            ) ==> r matches Err(CoreError::Storage(_)),
    ;

    /// Fetches a head with its current version; `Ok(None)` when there is
    /// no such head.
    fn get(&self, id: &str) -> (r: Result<Option<(Harness, BoardVersion)>, CoreError>)
        requires
            store_wf(self.stored()),
        ensures
            read_matches(r, get_result(self.stored(), id@)),
    ;

    /// Lists the heads not in the trash, in no particular order.
    fn list(&self) -> (r: Result<Vec<Harness>, CoreError>)
        requires
            store_wf(self.stored()),
        ensures
            r matches Ok(v) ==> forall|x: HarnessView|
                #![trigger harness_rows(v@).contains(x)]
                #![trigger live_heads(self.stored().harnesses, self.stored().trashed).contains(x)]
                harness_rows(v@).contains(x) == live_heads(self.stored().harnesses, self.stored().trashed).contains(x),
    ;

    /// Fetches one version of a head; `Ok(None)` when there is none.
    fn get_version(&self, harness_id: &str, version_no: i64) -> (r: Result<Option<BoardVersion>, CoreError>)
        requires
            store_wf(self.stored()),
        ensures
            r matches Ok(o) ==> match version_at(self.stored().versions, harness_id@, version_no) {
                None => o is None,
                Some(v) => o matches Some(x) && x@ == v,
            },
    ;

    /// Appends a new version and moves the head to it under the optimistic
    /// lock: an unknown head is not found, a lock other than the stored one
    /// is a conflict and nothing is written, and a taken version number is
    /// a storage error.
    fn append_version(&mut self, harness: &Harness, version: &BoardVersion, expected_lock: i64) -> (r: Result<(), CoreError>)
        requires
            store_wf(old(self).stored()),
        ensures
            store_wf(final(self).stored()),
            r is Ok ==> append_result(old(self).stored(), harness@, version@, expected_lock) == Ok::<StoreView, ErrorView>(
                final(self).stored(),
            ),
            r is Err ==> final(self).stored() == old(self).stored(),
            match harness_at(old(self).stored().harnesses, harness.id@) {
                None => r matches Err(e) && e@ == ErrorView::NotFound(harness.id@),
                Some(cur) => (cur.lock_version != expected_lock ==> (r matches Err(e) && e@ == (ErrorView::LockConflict {
                    expected: expected_lock,
                    actual: cur.lock_version,
                }) && final(self).stored() == old(self).stored())) && (cur.lock_version == expected_lock && has_version(
                    old(self).stored().versions,
                    version.harness_id@,
                    version.version_no,
                ) ==> r matches Err(CoreError::Storage(_))),
            },
    ;

    /// Moves a head to the trash at `deleted_at`; an unknown head is not
    /// found.
    fn trash_harness(&mut self, id: &str, deleted_at: &str) -> (r: Result<(), CoreError>)
        requires
            store_wf(old(self).stored()),
        ensures
            store_wf(final(self).stored()),
            r is Ok ==> trash_result(old(self).stored(), id@, deleted_at@) == Ok::<StoreView, ErrorView>(final(self).stored()),
            !has_harness(old(self).stored().harnesses, id@) ==> (r matches Err(e) && e@ == ErrorView::NotFound(id@)),
    ;

    /// Takes a head out of the trash; one not in the trash is not found.
    fn restore_harness(&mut self, id: &str) -> (r: Result<(), CoreError>)
        requires
            store_wf(old(self).stored()),
        ensures
            store_wf(final(self).stored()),
            r is Ok ==> restore_result(old(self).stored(), id@) == Ok::<StoreView, ErrorView>(final(self).stored()),
            !is_trashed(old(self).stored().trashed, id@) ==> (r matches Err(e) && e@ == ErrorView::NotFound(id@)),
    ;

    /// Deletes a head and all its versions for good; an unknown head is not
    /// found.
    fn purge_harness(&mut self, id: &str) -> (r: Result<(), CoreError>)
        requires
            store_wf(old(self).stored()),
        ensures
            store_wf(final(self).stored()),
            r is Ok ==> purge_result(old(self).stored(), id@) == Ok::<StoreView, ErrorView>(final(self).stored()),
            !has_harness(old(self).stored().harnesses, id@) ==> (r matches Err(e) && e@ == ErrorView::NotFound(id@)),
    ;

    /// Lists the trash: each trashed head's id, name and trash time, in no
    /// particular order.
    fn list_trash(&self) -> (r: Result<Vec<(String, String, String)>, CoreError>)
        requires
            store_wf(self.stored()),
        ensures
            r matches Ok(v) ==> forall|x: (Seq<char>, Seq<char>, Seq<char>)|
                #![trigger trash_rows(v@).contains(x)]
                #![trigger trash_listing(self.stored().trashed, self.stored().harnesses).contains(x)]
                trash_rows(v@).contains(x) == trash_listing(self.stored().trashed, self.stored().harnesses).contains(x),
    ;

    /// Deletes for good every head that went to the trash before
    /// `before_iso`.
    fn purge_trash_before(&mut self, before_iso: &str) -> (r: Result<(), CoreError>)
        requires
            store_wf(old(self).stored()),
        ensures
            store_wf(final(self).stored()),
            r is Ok ==> final(self).stored() == purge_before_result(old(self).stored(), before_iso@),
    ;

    /// Sets (`Some`) or clears (`None`) a head's description, and nothing
    /// else; an unknown head is not found.
    fn set_description(&mut self, id: &str, description: Option<&str>) -> (r: Result<(), CoreError>)
        requires
            store_wf(old(self).stored()),
        ensures
            store_wf(final(self).stored()),
            r is Ok ==> describe_result(old(self).stored(), id@, opt_text(description)) == Ok::<StoreView, ErrorView>(
                final(self).stored(),
            ),
            !has_harness(old(self).stored().harnesses, id@) ==> (r matches Err(e) && e@ == ErrorView::NotFound(id@)),
    ;

    /// Lists every folder with its count of heads not in the trash, by sort
    /// order.
    fn list_folders(&self) -> (r: Result<Vec<(Folder, i64)>, CoreError>)
        requires
            store_wf(self.stored()),
            self.stored().harnesses.len() <= i64::MAX,
        ensures
            r matches Ok(v) ==> lists_folders(folder_rows(v@), self.stored()) && folders_in_order(folder_rows(v@)),
    ;

    /// Adds a folder; a taken id is a storage error. Whether the name is
    /// taken is for the caller to decide.
    fn create_folder(&mut self, folder: &Folder) -> (r: Result<(), CoreError>)
        requires
            store_wf(old(self).stored()),
        ensures
            store_wf(final(self).stored()),
            r is Ok ==> folder_create_result(old(self).stored(), folder@) == Ok::<StoreView, ErrorView>(final(self).stored()),
            has_folder(old(self).stored().folders, folder.id@) ==> r matches Err(CoreError::Storage(_)),
    ;

    /// Renames a folder, stamping `updated_at`; an unknown folder is not
    /// found.
    fn rename_folder(&mut self, id: &str, name: &str, updated_at: &str) -> (r: Result<(), CoreError>)
        requires
            store_wf(old(self).stored()),
        ensures
            store_wf(final(self).stored()),
            r is Ok ==> folder_rename_result(old(self).stored(), id@, name@, updated_at@) == Ok::<StoreView, ErrorView>(
                final(self).stored(),
            ),
            !has_folder(old(self).stored().folders, id@) ==> (r matches Err(e) && e@ == ErrorView::NotFound(id@)),
    ;

    /// Deletes a folder; the heads in it become unfiled and none is
    /// deleted. An unknown folder is not found.
    fn delete_folder(&mut self, id: &str) -> (r: Result<(), CoreError>)
        requires
            store_wf(old(self).stored()),
        ensures
            store_wf(final(self).stored()),
            r is Ok ==> folder_delete_result(old(self).stored(), id@) == Ok::<StoreView, ErrorView>(final(self).stored()),
            !has_folder(old(self).stored().folders, id@) ==> (r matches Err(e) && e@ == ErrorView::NotFound(id@)),
    ;

    /// Files a head in a folder, or unfiles it for `None`; an unknown head
    /// or folder is not found.
    fn move_harness_to_folder(&mut self, harness_id: &str, folder_id: Option<&str>) -> (r: Result<(), CoreError>)
        requires
            store_wf(old(self).stored()),
        ensures
            store_wf(final(self).stored()),
            r is Ok ==> move_result(old(self).stored(), harness_id@, opt_text(folder_id)) == Ok::<StoreView, ErrorView>(
                final(self).stored(),
            ),
            !has_harness(old(self).stored().harnesses, harness_id@) ==> r matches Err(CoreError::NotFound(_)),
            match folder_id {
                Some(f) => !has_folder(old(self).stored().folders, f@) ==> (r matches Err(e) && e@ == ErrorView::NotFound(f@)),
                None => true,
            },
    ;
}

impl HarnessRepository for MemoryRepository {
    open spec fn stored(&self) -> StoreView {
        self@
    }

    /// Reads a head with its current version.
    fn get(&self, id: &str) -> (r: Result<Option<(Harness, BoardVersion)>, CoreError>)
        ensures
            match get_result(self@, id@) {
                Ok(None) => r matches Ok(None),
                Ok(Some(p)) => r matches Ok(Some(q)) && q.0@ == p.0 && q.1@ == p.1,
                Err(e) => r matches Err(x) && x@ == e,
            },
    {
        let key = String::from_str(id);
        let i = match find_harness(&self.harnesses, &key) {
            Some(i) => i,
            None => return Ok(None),
        };
        let h = self.harnesses[i].copy();
        assert(self@.harnesses[i as int] == self.harnesses@[i as int]@);
        let k = match find_version(&self.versions, &key, h.current_version) {
            Some(k) => k,
            None => return Err(CoreError::Storage(String::from_str("missing head version"))),
        };
        let v = self.versions[k].copy();
        Ok(Some((h, v)))
    }

    /// Reads one version of a harness.
    fn get_version(&self, harness_id: &str, version_no: i64) -> (r: Result<Option<BoardVersion>, CoreError>)
        ensures
            r is Ok,
    {
        let key = String::from_str(harness_id);
        match find_version(&self.versions, &key, version_no) {
            Some(k) => Ok(Some(self.versions[k].copy())),
            None => Ok(None),
        }
    }

    /// Stores a new head with its first version.
    fn create(&mut self, harness: &Harness, version: &BoardVersion) -> (r: Result<(), CoreError>)
        ensures
            store_outcome(r, old(self)@, final(self)@, create_result(old(self)@, harness@, version@)),
    {
        if find_harness(&self.harnesses, &harness.id).is_some() {
            let mut m = String::from_str("duplicate harness id: ");
            m.append(harness.id.as_str());
            return Err(CoreError::Storage(m));
        }
        if find_version(&self.versions, &version.harness_id, version.version_no).is_some() {
            return Err(duplicate_version_error(&version.harness_id, version.version_no));
        }
        let ghost before = self@;
        let ghost hv = harness@;
        let ghost vv = version@;
        self.harnesses.push(harness.copy());
        self.versions.push(version.copy());
        proof {
            assert(self@.harnesses =~= before.harnesses.push(hv));
            assert(self@.versions =~= before.versions.push(vv));
            assert(self@.trashed =~= before.trashed);
            assert forall|i: int, j: int| 0 <= i < j < self@.harnesses.len() implies #[trigger] self@.harnesses[i].id != #[trigger] self@.harnesses[j].id by {
                if j == before.harnesses.len() {
                    assert(before.harnesses[i].id != hv.id);
                }
            }
            assert forall|i: int, j: int| 0 <= i < j < self@.versions.len() implies !(#[trigger] self@.versions[i].harness_id
                == #[trigger] self@.versions[j].harness_id && self@.versions[i].version_no == self@.versions[j].version_no) by {
                if j == before.versions.len() {
                    assert(!(before.versions[i].harness_id == vv.harness_id && before.versions[i].version_no == vv.version_no));
                }
            }
        }
        Ok(())
    }

    /// Appends a version and moves the head under the optimistic lock.
    fn append_version(&mut self, harness: &Harness, version: &BoardVersion, expected_lock: i64) -> (r: Result<(), CoreError>)
        ensures
            store_outcome(r, old(self)@, final(self)@, append_result(old(self)@, harness@, version@, expected_lock)),
    {
        let i = match find_harness(&self.harnesses, &harness.id) {
            Some(i) => i,
            None => return Err(CoreError::NotFound(harness.id.clone())),
        };
        assert(self@.harnesses[i as int] == self.harnesses@[i as int]@);
        let actual = self.harnesses[i].lock_version;
        if actual != expected_lock {
            return Err(CoreError::LockConflict { expected: expected_lock, actual });
        }
        if find_version(&self.versions, &version.harness_id, version.version_no).is_some() {
            return Err(duplicate_version_error(&version.harness_id, version.version_no));
        }
        let ghost before = self@;
        let ghost hv = harness@;
        let ghost vv = version@;
        self.harnesses.set(i, harness.copy());
        self.versions.push(version.copy());
        proof {
            assert(self@.harnesses =~= before.harnesses.update(i as int, hv));
            assert(self@.versions =~= before.versions.push(vv));
            assert(self@.trashed =~= before.trashed);
            assert forall|a: int, b: int| 0 <= a < b < self@.harnesses.len() implies #[trigger] self@.harnesses[a].id != #[trigger] self@.harnesses[b].id by {
                assert(before.harnesses[a].id != before.harnesses[b].id);
            }
            assert forall|a: int, b: int| 0 <= a < b < self@.versions.len() implies !(#[trigger] self@.versions[a].harness_id
                == #[trigger] self@.versions[b].harness_id && self@.versions[a].version_no == self@.versions[b].version_no) by {
                if b == before.versions.len() {
                    assert(!(before.versions[a].harness_id == vv.harness_id && before.versions[a].version_no == vv.version_no));
                }
            }
        }
        Ok(())
    }

    /// Moves a head to the trash at `deleted_at`.
    fn trash_harness(&mut self, id: &str, deleted_at: &str) -> (r: Result<(), CoreError>)
        ensures
            store_outcome(r, old(self)@, final(self)@, trash_result(old(self)@, id@, deleted_at@)),
    {
        let key = String::from_str(id);
        if find_harness(&self.harnesses, &key).is_none() {
            return Err(CoreError::NotFound(key));
        }
        let ghost before = self@;
        let entry = (key.clone(), String::from_str(deleted_at));
        match find_trashed(&self.trashed, &key) {
            Some(k) => {
                self.trashed.set(k, entry);
                proof {
                    assert(self@.trashed =~= before.trashed.update(k as int, (id@, deleted_at@)));
                    assert(self@.harnesses =~= before.harnesses);
                    assert(self@.versions =~= before.versions);
                    assert forall|a: int, b: int| 0 <= a < b < self@.trashed.len() implies #[trigger] self@.trashed[a].0 != #[trigger] self@.trashed[b].0 by {
                        assert(before.trashed[a].0 != before.trashed[b].0);
                    }
                }
            },
            None => {
                self.trashed.push(entry);
                proof {
                    assert(self@.trashed =~= before.trashed.push((id@, deleted_at@)));
                    assert(self@.harnesses =~= before.harnesses);
                    assert(self@.versions =~= before.versions);
                    assert forall|a: int, b: int| 0 <= a < b < self@.trashed.len() implies #[trigger] self@.trashed[a].0 != #[trigger] self@.trashed[b].0 by {
                        if b == before.trashed.len() {
                            assert(before.trashed[a].0 != id@);
                        }
                    }
                }
            },
        }
        Ok(())
    }

    /// Takes a head out of the trash.
    fn restore_harness(&mut self, id: &str) -> (r: Result<(), CoreError>)
        ensures
            store_outcome(r, old(self)@, final(self)@, restore_result(old(self)@, id@)),
    {
        let key = String::from_str(id);
        let k = match find_trashed(&self.trashed, &key) {
            Some(k) => k,
            None => return Err(CoreError::NotFound(key)),
        };
        let ghost before = self@;
        let _ = self.trashed.remove(k);
        proof {
            assert(self@.trashed =~= before.trashed.remove(k as int));
            assert(self@.harnesses =~= before.harnesses);
            assert(self@.versions =~= before.versions);
            lemma_unique_trash_remove(before.trashed, k as int);
        }
        Ok(())
    }

    /// Sets or clears a head's description.
    fn set_description(&mut self, id: &str, description: Option<&str>) -> (r: Result<(), CoreError>)
        ensures
            store_outcome(r, old(self)@, final(self)@, describe_result(old(self)@, id@, opt_text(description))),
    {
        let key = String::from_str(id);
        let i = match find_harness(&self.harnesses, &key) {
            Some(i) => i,
            None => return Err(CoreError::NotFound(key)),
        };
        let ghost before = self@;
        let h = self.harnesses[i].copy();
        assert(before.harnesses[i as int] == self.harnesses@[i as int]@);
        let text = match description {
            Some(d) => Some(String::from_str(d)),
            None => None,
        };
        self.harnesses.set(i, Harness { description: text, ..h });
        proof {
            assert(self@.harnesses =~= before.harnesses.update(
                i as int,
                HarnessView { description: opt_text(description), ..before.harnesses[i as int] },
            ));
            assert(self@.versions =~= before.versions);
            assert(self@.trashed =~= before.trashed);
            assert forall|a: int, b: int| 0 <= a < b < self@.harnesses.len() implies #[trigger] self@.harnesses[a].id != #[trigger] self@.harnesses[b].id by {
                assert(before.harnesses[a].id != before.harnesses[b].id);
            }
        }
        Ok(())
    }

    /// Deletes a head for good, with its versions and its trash entry.
    fn purge_harness(&mut self, id: &str) -> (r: Result<(), CoreError>)
        ensures
            store_outcome(r, old(self)@, final(self)@, purge_result(old(self)@, id@)),
    {
        let key = String::from_str(id);
        let i = match find_harness(&self.harnesses, &key) {
            Some(i) => i,
            None => return Err(CoreError::NotFound(key)),
        };
        let ghost before = self@;
        let _ = self.harnesses.remove(i);
        let kept = versions_except(&self.versions, &key);
        self.versions = kept;
        let t = find_trashed(&self.trashed, &key);
        match t {
            Some(k) => {
                let _ = self.trashed.remove(k);
            },
            None => {},
        }
        proof {
            assert(self@.harnesses =~= before.harnesses.remove(i as int));
            assert(self@.versions =~= versions_without(before.versions, id@));
            match t {
                Some(k) => {
                    assert(self@.trashed =~= before.trashed.remove(k as int));
                    lemma_unique_trash_remove(before.trashed, k as int);
                },
                None => {
                    assert(self@.trashed =~= before.trashed);
                },
            }
            let hs = before.harnesses;
            let rem = hs.remove(i as int);
            assert forall|a: int, b: int| 0 <= a < b < rem.len() implies #[trigger] rem[a].id != #[trigger] rem[b].id by {
                let a2 = if a < i { a } else { a + 1 };
                let b2 = if b < i { b } else { b + 1 };
                assert(rem[a] == hs[a2] && rem[b] == hs[b2]);
                assert(hs[a2].id != hs[b2].id);
            }
            lemma_versions_without(before.versions, id@);
        }
        Ok(())
    }

    /// The heads not in the trash, in storage order.
    fn list(&self) -> (r: Result<Vec<Harness>, CoreError>)
        ensures
            r matches Ok(v) && harness_rows(v@) == live_heads(self@.harnesses, self@.trashed),
    {
        let ghost hv = self@.harnesses;
        let mut out: Vec<Harness> = Vec::new();
        let mut i: usize = 0;
        while i < self.harnesses.len()
            invariant
                self.wf(),
                hv == self@.harnesses,
                hv == self.harnesses@.map_values(|h: Harness| h@),
                i <= self.harnesses.len(),
                out@.map_values(|h: Harness| h@) == live_heads(hv.take(i as int), self@.trashed),
            decreases self.harnesses.len() - i,
        {
            let ghost before = out@;
            let trashed = find_trashed(&self.trashed, &self.harnesses[i].id).is_some();
            if !trashed {
                out.push(self.harnesses[i].copy());
            }
            proof {
                let t = hv.take(i + 1);
                assert(t.drop_last() =~= hv.take(i as int));
                assert(t.last() == hv[i as int]);
                if trashed {
                    assert(out@ == before);
                } else {
                    assert(out@ =~= before.push(out@[before.len() as int]));
                }
                assert(out@.map_values(|h: Harness| h@) =~= live_heads(t, self@.trashed));
            }
            i = i + 1;
        }
        assert(hv.take(self.harnesses.len() as int) =~= hv);
        Ok(out)
    }

    /// The trash listing: id, name and trash time of each trashed head.
    fn list_trash(&self) -> (r: Result<Vec<(String, String, String)>, CoreError>)
        ensures
            r matches Ok(v) && trash_rows(v@) == trash_listing(self@.trashed, self@.harnesses),
    {
        let ghost tv = self@.trashed;
        let mut out: Vec<(String, String, String)> = Vec::new();
        let mut i: usize = 0;
        while i < self.trashed.len()
            invariant
                self.wf(),
                tv == self@.trashed,
                tv == self.trashed@.map_values(|t: (String, String)| (t.0@, t.1@)),
                self@.harnesses == self.harnesses@.map_values(|h: Harness| h@),
                i <= self.trashed.len(),
                out@.map_values(|e: (String, String, String)| (e.0@, e.1@, e.2@)) == trash_listing(tv.take(i as int), self@.harnesses),
            decreases self.trashed.len() - i,
        {
            let ghost before = out@;
            let entry = &self.trashed[i];
            let found = find_harness(&self.harnesses, &entry.0);
            match found {
                Some(k) => {
                    out.push((entry.0.clone(), self.harnesses[k].name.clone(), entry.1.clone()));
                },
                None => {},
            }
            proof {
                let t = tv.take(i + 1);
                assert(t.drop_last() =~= tv.take(i as int));
                assert(t.last() == tv[i as int]);
                match found {
                    Some(k) => {
                        assert(self@.harnesses[k as int] == self.harnesses@[k as int]@);
                        assert(out@ =~= before.push(out@[before.len() as int]));
                    },
                    None => {
                        assert(out@ == before);
                    },
                }
                assert(out@.map_values(|e: (String, String, String)| (e.0@, e.1@, e.2@)) =~= trash_listing(t, self@.harnesses));
            }
            i = i + 1;
        }
        assert(tv.take(self.trashed.len() as int) =~= tv);
        Ok(out)
    }

    /// Adds a folder.
    fn create_folder(&mut self, folder: &Folder) -> (r: Result<(), CoreError>)
        ensures
            store_outcome(r, old(self)@, final(self)@, folder_create_result(old(self)@, folder@)),
    {
        if find_folder(&self.folders, &folder.id).is_some() {
            let mut m = String::from_str("duplicate folder id: ");
            m.append(folder.id.as_str());
            return Err(CoreError::Storage(m));
        }
        let ghost before = self@;
        self.folders.push(folder.copy());
        proof {
            assert(self@.folders =~= before.folders.push(folder@));
            assert(self@.harnesses =~= before.harnesses);
            assert(self@.versions =~= before.versions);
            assert(self@.trashed =~= before.trashed);
            assert forall|a: int, b: int| 0 <= a < b < self@.folders.len() implies #[trigger] self@.folders[a].id != #[trigger] self@.folders[b].id by {
                if b == before.folders.len() {
                    assert(before.folders[a].id != folder@.id);
                }
            }
        }
        Ok(())
    }

    /// Renames a folder, stamping `updated_at`.
    fn rename_folder(&mut self, id: &str, name: &str, updated_at: &str) -> (r: Result<(), CoreError>)
        ensures
            store_outcome(r, old(self)@, final(self)@, folder_rename_result(old(self)@, id@, name@, updated_at@)),
    {
        let key = String::from_str(id);
        let i = match find_folder(&self.folders, &key) {
            Some(i) => i,
            None => return Err(CoreError::NotFound(key)),
        };
        let ghost before = self@;
        assert(before.folders[i as int] == self.folders@[i as int]@);
        let f = self.folders[i].copy();
        self.folders.set(i, Folder { name: String::from_str(name), updated_at: String::from_str(updated_at), ..f });
        proof {
            assert(self@.folders =~= before.folders.update(
                i as int,
                FolderView { name: name@, updated_at: updated_at@, ..before.folders[i as int] },
            ));
            assert(self@.harnesses =~= before.harnesses);
            assert(self@.versions =~= before.versions);
            assert(self@.trashed =~= before.trashed);
            assert forall|a: int, b: int| 0 <= a < b < self@.folders.len() implies #[trigger] self@.folders[a].id != #[trigger] self@.folders[b].id by {
                assert(before.folders[a].id != before.folders[b].id);
            }
        }
        Ok(())
    }

    /// Deletes a folder; the heads in it become unfiled and are kept.
    fn delete_folder(&mut self, id: &str) -> (r: Result<(), CoreError>)
        ensures
            store_outcome(r, old(self)@, final(self)@, folder_delete_result(old(self)@, id@)),
    {
        let key = String::from_str(id);
        let k = match find_folder(&self.folders, &key) {
            Some(k) => k,
            None => return Err(CoreError::NotFound(key)),
        };
        let ghost before = self@;
        let ghost hv = before.harnesses;
        let mut i: usize = 0;
        while i < self.harnesses.len()
            invariant
                key@ == id@,
                self.folders == old(self).folders,
                self.versions == old(self).versions,
                self.trashed == old(self).trashed,
                before == old(self)@,
                hv == before.harnesses,
                self.harnesses.len() == hv.len(),
                i <= hv.len(),
                forall|j: int| 0 <= j < i ==> #[trigger] self.harnesses@[j]@ == unfiled(hv[j], id@),
                forall|j: int| i <= j < hv.len() ==> #[trigger] self.harnesses@[j]@ == hv[j],
            decreases hv.len() - i,
        {
            assert(self.harnesses@[i as int]@ == hv[i as int]);
            let filed = match &self.harnesses[i].folder_id {
                Some(f) => *f == key,
                None => false,
            };
            assert(filed == (hv[i as int].folder_id == Some(id@)));
            if filed {
                let h = self.harnesses[i].copy();
                self.harnesses.set(i, Harness { folder_id: None, ..h });
            }
            i = i + 1;
        }
        let _ = self.folders.remove(k);
        proof {
            assert(self@.harnesses =~= hv.map_values(|h: HarnessView| unfiled(h, id@)));
            assert(self@.folders =~= before.folders.remove(k as int));
            assert(self@.versions =~= before.versions);
            assert(self@.trashed =~= before.trashed);
            assert forall|a: int, b: int| 0 <= a < b < self@.harnesses.len() implies #[trigger] self@.harnesses[a].id != #[trigger] self@.harnesses[b].id by {
                assert(hv[a].id != hv[b].id);
            }
            let fs = before.folders;
            let rem = fs.remove(k as int);
            assert forall|a: int, b: int| 0 <= a < b < rem.len() implies #[trigger] rem[a].id != #[trigger] rem[b].id by {
                let a2 = if a < k { a } else { a + 1 };
                let b2 = if b < k { b } else { b + 1 };
                assert(rem[a] == fs[a2] && rem[b] == fs[b2]);
                assert(fs[a2].id != fs[b2].id);
            }
        }
        Ok(())
    }

    /// Moves a head into a folder, or out of any folder for `None`.
    fn move_harness_to_folder(&mut self, harness_id: &str, folder_id: Option<&str>) -> (r: Result<(), CoreError>)
        ensures
            store_outcome(
                r,
                old(self)@,
                final(self)@,
                move_result(old(self)@, harness_id@, opt_text(folder_id)),
            ),
    {
        let target: Option<String> = match folder_id {
            Some(f) => {
                let fkey = String::from_str(f);
                if find_folder(&self.folders, &fkey).is_none() {
                    return Err(CoreError::NotFound(fkey));
                }
                Some(fkey)
            },
            None => None,
        };
        let key = String::from_str(harness_id);
        let i = match find_harness(&self.harnesses, &key) {
            Some(i) => i,
            None => return Err(CoreError::NotFound(key)),
        };
        let ghost before = self@;
        let ghost fid = target.deep_view();
        assert(before.harnesses[i as int] == self.harnesses@[i as int]@);
        let h = self.harnesses[i].copy();
        self.harnesses.set(i, Harness { folder_id: target, ..h });
        proof {
            assert(self@.harnesses =~= before.harnesses.update(i as int, HarnessView { folder_id: fid, ..before.harnesses[i as int] }));
            assert(self@.versions =~= before.versions);
            assert(self@.trashed =~= before.trashed);
            assert(self@.folders =~= before.folders);
            assert forall|a: int, b: int| 0 <= a < b < self@.harnesses.len() implies #[trigger] self@.harnesses[a].id != #[trigger] self@.harnesses[b].id by {
                assert(before.harnesses[a].id != before.harnesses[b].id);
            }
        }
        Ok(())
    }

    /// Deletes for good every head that went to the trash before
    /// `before_iso`, with its versions and its trash entry.
    fn purge_trash_before(&mut self, before_iso: &str) -> (r: Result<(), CoreError>)
        ensures
            r is Ok,
    {
        let ghost s = self@;
        let ghost hs = s.harnesses;
        let ghost vs = s.versions;
        let ghost ts = s.trashed;
        let mut heads: Vec<Harness> = Vec::new();
        let mut i: usize = 0;
        while i < self.harnesses.len()
            invariant
                s == self@,
                store_wf(s),
                hs == self.harnesses@.map_values(|h: Harness| h@),
                ts == self.trashed@.map_values(|t: (String, String)| (t.0@, t.1@)),
                i <= self.harnesses.len(),
                heads@.map_values(|h: Harness| h@) == kept(hs.take(i as int), head_stays(ts, before_iso@)),
            decreases self.harnesses.len() - i,
        {
            let ghost prev = heads@.map_values(|h: Harness| h@);
            assert(hs.take(i + 1).drop_last() =~= hs.take(i as int));
            assert(hs.take(i + 1).last() == hs[i as int]);
            assert(hs[i as int] == self.harnesses@[i as int]@);
            if !trashed_earlier(&self.trashed, &self.harnesses[i].id, before_iso) {
                heads.push(self.harnesses[i].copy());
                assert(heads@.map_values(|h: Harness| h@) =~= prev.push(hs[i as int]));
            } else {
                assert(heads@.map_values(|h: Harness| h@) =~= prev);
            }
            i = i + 1;
        }
        assert(hs.take(i as int) =~= hs);
        let mut versions: Vec<BoardVersion> = Vec::new();
        let mut j: usize = 0;
        while j < self.versions.len()
            invariant
                s == self@,
                store_wf(s),
                vs == self.versions@.map_values(|v: BoardVersion| v@),
                ts == self.trashed@.map_values(|t: (String, String)| (t.0@, t.1@)),
                j <= self.versions.len(),
                versions@.map_values(|v: BoardVersion| v@) == kept(vs.take(j as int), version_stays(ts, before_iso@)),
            decreases self.versions.len() - j,
        {
            let ghost prev = versions@.map_values(|v: BoardVersion| v@);
            assert(vs.take(j + 1).drop_last() =~= vs.take(j as int));
            assert(vs.take(j + 1).last() == vs[j as int]);
            assert(vs[j as int] == self.versions@[j as int]@);
            if !trashed_earlier(&self.trashed, &self.versions[j].harness_id, before_iso) {
                versions.push(self.versions[j].copy());
                assert(versions@.map_values(|v: BoardVersion| v@) =~= prev.push(vs[j as int]));
            } else {
                assert(versions@.map_values(|v: BoardVersion| v@) =~= prev);
            }
            j = j + 1;
        }
        assert(vs.take(j as int) =~= vs);
        let mut trash: Vec<(String, String)> = Vec::new();
        let mut k: usize = 0;
        while k < self.trashed.len()
            invariant
                s == self@,
                ts == self.trashed@.map_values(|t: (String, String)| (t.0@, t.1@)),
                k <= self.trashed.len(),
                trash@.map_values(|t: (String, String)| (t.0@, t.1@)) == kept(ts.take(k as int), entry_stays(before_iso@)),
            decreases self.trashed.len() - k,
        {
            let ghost prev = trash@.map_values(|t: (String, String)| (t.0@, t.1@));
            assert(ts.take(k + 1).drop_last() =~= ts.take(k as int));
            assert(ts.take(k + 1).last() == ts[k as int]);
            assert(ts[k as int] == (self.trashed@[k as int].0@, self.trashed@[k as int].1@));
            if !text_less(self.trashed[k].1.as_str(), before_iso) {
                trash.push((self.trashed[k].0.clone(), self.trashed[k].1.clone()));
                assert(trash@.map_values(|t: (String, String)| (t.0@, t.1@)) =~= prev.push(ts[k as int]));
            } else {
                assert(trash@.map_values(|t: (String, String)| (t.0@, t.1@)) =~= prev);
            }
            k = k + 1;
        }
        assert(ts.take(k as int) =~= ts);
        self.harnesses = heads;
        self.versions = versions;
        self.trashed = trash;
        proof {
            lemma_kept(hs, head_stays(ts, before_iso@), |h: HarnessView| h.id);
            lemma_kept(vs, version_stays(ts, before_iso@), |v: BoardVersionView| (v.harness_id, v.version_no));
            lemma_kept(ts, entry_stays(before_iso@), |t: (Seq<char>, Seq<char>)| t.0);
            assert(self@.folders =~= s.folders);
            let nv = self@.versions;
            assert forall|a: int, b: int| 0 <= a < b < nv.len() implies !(#[trigger] nv[a].harness_id == #[trigger] nv[b].harness_id
                && nv[a].version_no == nv[b].version_no) by {
                assert((nv[a].harness_id, nv[a].version_no) != (nv[b].harness_id, nv[b].version_no));
            }
        }
        Ok(())
    }

    /// Every folder with its count of heads not in the trash, by sort order
    /// and then creation time.
    fn list_folders(&self) -> (r: Result<Vec<(Folder, i64)>, CoreError>)
        ensures
            r is Ok,
    {
        let ghost s = self@;
        let ghost fs = s.folders;
        let mut out: Vec<(Folder, i64)> = Vec::new();
        let mut j: usize = 0;
        proof {
            reveal(rows_cover);
        }
        while j < self.folders.len()
            invariant
                self.wf(),
                s == self@,
                fs == s.folders,
                fs == self.folders@.map_values(|f: Folder| f@),
                s.harnesses.len() <= i64::MAX,
                j <= fs.len(),
                folders_in_order(folder_rows(out@)),
                rows_cover(folder_rows(out@), s, j as int),
            decreases fs.len() - j,
        {
            assert(fs[j as int] == self.folders@[j as int]@);
            let f = self.folders[j].copy();
            let n = self.count_live(&f.id);
            let ghost ov = folder_rows(out@);
            let mut p: usize = 0;
            while p < out.len() && !folder_sorts_before(&f, &out[p].0)
                invariant
                    ov == folder_rows(out@),
                    p <= out.len(),
                    forall|q: int| 0 <= q < p ==> !folder_before(f@, (#[trigger] ov[q]).0),
                decreases out.len() - p,
            {
                assert(ov[p as int] == (out@[p as int].0@, out@[p as int].1));
                p = p + 1;
            }
            let ghost x = (f@, n);
            proof {
                if p < out.len() {
                    assert(ov[p as int] == (out@[p as int].0@, out@[p as int].1));
                }
                lemma_insert_in_order(ov, p as int, x);
            }
            out.insert(p, (f, n));
            proof {
                assert(folder_rows(out@) =~= ov.insert(p as int, x));
                lemma_rows_cover_insert(ov, p as int, x, s, j as int);
            }
            j = j + 1;
        }
        proof {
            lemma_rows_cover_all(folder_rows(out@), s);
        }
        Ok(out)
    }
}

// ---------------------------------------------------------------------------
// Laws
// ---------------------------------------------------------------------------
/// Reading after a successful append gives back what was written: the new
/// head and, as its current version, the appended version.
pub proof fn lemma_append_then_get(s: StoreView, h: HarnessView, v: BoardVersionView, expected_lock: i64)
    requires
        store_wf(s),
        append_result(s, h, v, expected_lock) is Ok,
        v.harness_id == h.id,
        v.version_no == h.current_version,
    ensures
        get_result(append_result(s, h, v, expected_lock)->Ok_0, h.id) == Ok::<Option<(HarnessView, BoardVersionView)>, ErrorView>(Some((h, v))),
{
    let ns = append_result(s, h, v, expected_lock)->Ok_0;
    let i = harness_index(s.harnesses, h.id);
    assert(unique_ids(ns.harnesses)) by {
        assert forall|a: int, b: int| 0 <= a < b < ns.harnesses.len() implies #[trigger] ns.harnesses[a].id != #[trigger] ns.harnesses[b].id by {
            assert(s.harnesses[a].id != s.harnesses[b].id);
        }
    }
    lemma_harness_index(ns.harnesses, h.id, i);
    let last = s.versions.len() as int;
    assert(unique_keys(ns.versions)) by {
        assert forall|a: int, b: int| 0 <= a < b < ns.versions.len() implies !(#[trigger] ns.versions[a].harness_id
            == #[trigger] ns.versions[b].harness_id && ns.versions[a].version_no == ns.versions[b].version_no) by {
            if b == last {
                assert(!(s.versions[a].harness_id == v.harness_id && s.versions[a].version_no == v.version_no));
            }
        }
    }
    lemma_version_index(ns.versions, h.id, h.current_version, last);
}

/// Reading after a successful create gives back the stored head and its
/// first version.
pub proof fn lemma_create_then_get(s: StoreView, h: HarnessView, v: BoardVersionView)
    requires
        store_wf(s),
        create_result(s, h, v) is Ok,
        v.harness_id == h.id,
        v.version_no == h.current_version,
    ensures
        get_result(create_result(s, h, v)->Ok_0, h.id) == Ok::<Option<(HarnessView, BoardVersionView)>, ErrorView>(Some((h, v))),
{
    let ns = create_result(s, h, v)->Ok_0;
    let hl = s.harnesses.len() as int;
    assert(unique_ids(ns.harnesses)) by {
        assert forall|a: int, b: int| 0 <= a < b < ns.harnesses.len() implies #[trigger] ns.harnesses[a].id != #[trigger] ns.harnesses[b].id by {
            if b == hl {
                assert(s.harnesses[a].id != h.id);
            }
        }
    }
    lemma_harness_index(ns.harnesses, h.id, hl);
    let last = s.versions.len() as int;
    assert(unique_keys(ns.versions)) by {
        assert forall|a: int, b: int| 0 <= a < b < ns.versions.len() implies !(#[trigger] ns.versions[a].harness_id
            == #[trigger] ns.versions[b].harness_id && ns.versions[a].version_no == ns.versions[b].version_no) by {
            if b == last {
                assert(!(s.versions[a].harness_id == v.harness_id && s.versions[a].version_no == v.version_no));
            }
        }
    }
    lemma_version_index(ns.versions, h.id, h.current_version, last);
}

/// Versions are append-only: a successful append keeps every stored version
/// readable with the same contents, and other heads as they were.
pub proof fn lemma_append_keeps_the_rest(
    s: StoreView,
    h: HarnessView,
    v: BoardVersionView,
    expected_lock: i64,
    hid: Seq<char>,
    no: i64,
    other: Seq<char>,
)
    requires
        store_wf(s),
        append_result(s, h, v, expected_lock) is Ok,
        version_at(s.versions, hid, no) is Some,
        other != h.id,
    ensures
        version_at(append_result(s, h, v, expected_lock)->Ok_0.versions, hid, no) == version_at(s.versions, hid, no),
        harness_at(append_result(s, h, v, expected_lock)->Ok_0.harnesses, other) == harness_at(s.harnesses, other),
{
    let ns = append_result(s, h, v, expected_lock)->Ok_0;
    let k = version_index(s.versions, hid, no);
    let last = s.versions.len() as int;
    assert(unique_keys(ns.versions)) by {
        assert forall|a: int, b: int| 0 <= a < b < ns.versions.len() implies !(#[trigger] ns.versions[a].harness_id
            == #[trigger] ns.versions[b].harness_id && ns.versions[a].version_no == ns.versions[b].version_no) by {
            if b == last {
                assert(!(s.versions[a].harness_id == v.harness_id && s.versions[a].version_no == v.version_no));
            }
        }
    }
    assert(ns.versions[k] == s.versions[k]);
    lemma_version_index(ns.versions, hid, no, k);
    let i = harness_index(s.harnesses, h.id);
    if has_harness(s.harnesses, other) {
        let j = harness_index(s.harnesses, other);
        assert(j != i);
        assert(unique_ids(ns.harnesses)) by {
            assert forall|a: int, b: int| 0 <= a < b < ns.harnesses.len() implies #[trigger] ns.harnesses[a].id != #[trigger] ns.harnesses[b].id by {
                assert(s.harnesses[a].id != s.harnesses[b].id);
            }
        }
        assert(ns.harnesses[j] == s.harnesses[j]);
        lemma_harness_index(ns.harnesses, other, j);
    } else {
        if has_harness(ns.harnesses, other) {
            let j = choose|j: int| 0 <= j < ns.harnesses.len() && #[trigger] ns.harnesses[j].id == other;
            assert(j != i);
            assert(s.harnesses[j].id == other);
        }
    }
}

/// Trashing a head that was not in the trash and then restoring it gives
/// back the repository as it was.
pub proof fn lemma_trash_then_restore(s: StoreView, id: Seq<char>, at: Seq<char>)
    requires
        store_wf(s),
        has_harness(s.harnesses, id),
        !is_trashed(s.trashed, id),
    ensures
        trash_result(s, id, at) is Ok,
        restore_result(trash_result(s, id, at)->Ok_0, id) == Ok::<StoreView, ErrorView>(s),
{
    let ns = trash_result(s, id, at)->Ok_0;
    let last = s.trashed.len() as int;
    assert(ns.trashed[last].0 == id);
    assert(is_trashed(ns.trashed, id));
    let k = trash_index(ns.trashed, id);
    if k < last {
        assert(ns.trashed[k] == s.trashed[k]);
        assert(s.trashed[k].0 == id);
    }
    assert(ns.trashed.remove(last) =~= s.trashed);
}

/// After a purge nothing of the head can be read: not the head, and no
/// version of it.
pub proof fn lemma_purge_forgets(s: StoreView, id: Seq<char>, no: i64)
    requires
        store_wf(s),
        purge_result(s, id) is Ok,
    ensures
        get_result(purge_result(s, id)->Ok_0, id) == Ok::<Option<(HarnessView, BoardVersionView)>, ErrorView>(None),
        version_at(purge_result(s, id)->Ok_0.versions, id, no) is None,
{
    let ns = purge_result(s, id)->Ok_0;
    let i = harness_index(s.harnesses, id);
    if has_harness(ns.harnesses, id) {
        let j = choose|j: int| 0 <= j < ns.harnesses.len() && #[trigger] ns.harnesses[j].id == id;
        let j2 = if j < i { j } else { j + 1 };
        assert(ns.harnesses[j] == s.harnesses[j2]);
        assert(s.harnesses[j2].id != s.harnesses[i].id);
    }
    lemma_versions_without(s.versions, id);
    if has_version(ns.versions, id, no) {
        let j = choose|j: int| 0 <= j < ns.versions.len() && #[trigger] ns.versions[j].harness_id == id && ns.versions[j].version_no == no;
        assert(ns.versions[j].harness_id != id);
    }
}

proof fn lemma_kept_contains<A>(s: Seq<A>, keep: spec_fn(A) -> bool, x: A)
    ensures
        kept(s, keep).contains(x) == (s.contains(x) && keep(x)),
    decreases s.len(),
{
    if s.len() == 0 {
        assert(kept(s, keep) =~= Seq::<A>::empty());
    } else {
        let init = s.drop_last();
        let l = s.last();
        lemma_kept_contains(init, keep, x);
        let ki = kept(init, keep);
        assert(s =~= init.push(l));
        if keep(l) {
            assert(kept(s, keep) =~= ki.push(l));
            if ki.push(l).contains(x) {
                let i = choose|i: int| 0 <= i < ki.push(l).len() && ki.push(l)[i] == x;
                if i < ki.len() {
                    assert(ki[i] == x);
                }
            }
            if ki.contains(x) {
                let i = choose|i: int| 0 <= i < ki.len() && ki[i] == x;
                assert(ki.push(l)[i] == x);
            }
            assert(ki.push(l)[ki.len() as int] == l);
        } else {
            assert(kept(s, keep) =~= ki);
        }
        if s.contains(x) {
            let i = choose|i: int| 0 <= i < s.len() && s[i] == x;
            if i < init.len() {
                assert(init[i] == x);
            }
        }
        if init.contains(x) {
            let i = choose|i: int| 0 <= i < init.len() && init[i] == x;
            assert(s[i] == x);
        }
        assert(s[s.len() - 1] == l);
    }
}

// ---------------------------------------------------------------------------
// Laws on folders and on purging
// ---------------------------------------------------------------------------
/// Deleting a folder deletes no head: every head, in the trash or not, is
/// still stored, and one that was in the folder is now unfiled. The folder
/// itself is gone.
pub proof fn lemma_delete_folder_keeps_heads(s: StoreView, fid: Seq<char>, hid: Seq<char>)
    requires
        store_wf(s),
        has_folder(s.folders, fid),
    ensures
        folder_delete_result(s, fid) matches Ok(ns) && !has_folder(ns.folders, fid) && ns.trashed == s.trashed && ns.versions
            == s.versions && harness_at(ns.harnesses, hid) == match harness_at(s.harnesses, hid) {
            Some(h) => Some(unfiled(h, fid)),
            None => None,
        },
{
    let ns = folder_delete_result(s, fid)->Ok_0;
    let k = folder_index(s.folders, fid);
    if has_folder(ns.folders, fid) {
        let j = choose|j: int| 0 <= j < ns.folders.len() && #[trigger] ns.folders[j].id == fid;
        let j2 = if j < k { j } else { j + 1 };
        assert(ns.folders[j] == s.folders[j2]);
        assert(s.folders[j2].id != s.folders[k].id);
    }
    let hs = s.harnesses;
    let mh = ns.harnesses;
    assert forall|a: int, b: int| 0 <= a < b < mh.len() implies #[trigger] mh[a].id != #[trigger] mh[b].id by {
        assert(hs[a].id != hs[b].id);
    }
    if has_harness(hs, hid) {
        let i = harness_index(hs, hid);
        lemma_harness_index(mh, hid, i);
    } else if has_harness(mh, hid) {
        let j = choose|j: int| 0 <= j < mh.len() && #[trigger] mh[j].id == hid;
        assert(hs[j].id == hid);
    }
}

/// Moving a head files it under the given folder, or unfiles it for
/// `None`, and changes nothing else of it.
pub proof fn lemma_move_files_the_head(s: StoreView, hid: Seq<char>, fid: Option<Seq<char>>)
    requires
        store_wf(s),
        has_harness(s.harnesses, hid),
        fid is Some ==> has_folder(s.folders, fid->Some_0),
    ensures
        move_result(s, hid, fid) matches Ok(ns) && harness_at(ns.harnesses, hid) == Some(
            HarnessView { folder_id: fid, ..harness_at(s.harnesses, hid)->Some_0 },
        ),
{
    let ns = move_result(s, hid, fid)->Ok_0;
    let i = harness_index(s.harnesses, hid);
    lemma_harness_index(s.harnesses, hid, i);
    assert forall|a: int, b: int| 0 <= a < b < ns.harnesses.len() implies #[trigger] ns.harnesses[a].id != #[trigger] ns.harnesses[b].id by {
        assert(s.harnesses[a].id != s.harnesses[b].id);
    }
    lemma_harness_index(ns.harnesses, hid, i);
}

/// Purging the trash before a cutoff deletes exactly the heads that went to
/// the trash before it, with their versions and trash entries; every other
/// head, version and trash entry is kept as it was.
pub proof fn lemma_purge_before(s: StoreView, before: Seq<char>, id: Seq<char>, no: i64)
    requires
        store_wf(s),
    ensures
        trashed_before(s.trashed, id, before) ==> harness_at(purge_before_result(s, before).harnesses, id) is None && version_at(
            purge_before_result(s, before).versions,
            id,
            no,
        ) is None && !is_trashed(purge_before_result(s, before).trashed, id),
        !trashed_before(s.trashed, id, before) ==> harness_at(purge_before_result(s, before).harnesses, id) == harness_at(
            s.harnesses,
            id,
        ) && version_at(purge_before_result(s, before).versions, id, no) == version_at(s.versions, id, no) && is_trashed(
            purge_before_result(s, before).trashed,
            id,
        ) == is_trashed(s.trashed, id),
{
    let ns = purge_before_result(s, before);
    let ts = s.trashed;
    let hk = head_stays(ts, before);
    let vk = version_stays(ts, before);
    let tk = entry_stays(before);
    lemma_kept(s.harnesses, hk, |h: HarnessView| h.id);
    lemma_kept(s.versions, vk, |v: BoardVersionView| (v.harness_id, v.version_no));
    lemma_kept(ts, tk, |t: (Seq<char>, Seq<char>)| t.0);
    assert(unique_keys(ns.versions)) by {
        let nv = ns.versions;
        assert forall|a: int, b: int| 0 <= a < b < nv.len() implies !(#[trigger] nv[a].harness_id == #[trigger] nv[b].harness_id
            && nv[a].version_no == nv[b].version_no) by {
            assert((nv[a].harness_id, nv[a].version_no) != (nv[b].harness_id, nv[b].version_no));
        }
    }
    // heads
    if has_harness(s.harnesses, id) {
        let i = harness_index(s.harnesses, id);
        let h = s.harnesses[i];
        lemma_kept_contains(s.harnesses, hk, h);
        assert(s.harnesses.contains(h));
        if !trashed_before(ts, id, before) {
            let j = choose|j: int| 0 <= j < ns.harnesses.len() && ns.harnesses[j] == h;
            lemma_harness_index(ns.harnesses, id, j);
        }
    }
    if has_harness(ns.harnesses, id) {
        let j = choose|j: int| 0 <= j < ns.harnesses.len() && #[trigger] ns.harnesses[j].id == id;
        let h = ns.harnesses[j];
        assert(hk(h));
        let i = choose|i: int| 0 <= i < s.harnesses.len() && s.harnesses[i] == h;
        lemma_harness_index(s.harnesses, id, i);
    }
    // versions
    if has_version(s.versions, id, no) {
        let i = version_index(s.versions, id, no);
        let v = s.versions[i];
        lemma_kept_contains(s.versions, vk, v);
        assert(s.versions.contains(v));
        if !trashed_before(ts, id, before) {
            let j = choose|j: int| 0 <= j < ns.versions.len() && ns.versions[j] == v;
            lemma_version_index(ns.versions, id, no, j);
        }
    }
    if has_version(ns.versions, id, no) {
        let j = choose|j: int| 0 <= j < ns.versions.len() && #[trigger] ns.versions[j].harness_id == id && ns.versions[j].version_no == no;
        let v = ns.versions[j];
        assert(vk(v));
        let i = choose|i: int| 0 <= i < s.versions.len() && s.versions[i] == v;
        lemma_version_index(s.versions, id, no, i);
    }
    // trash entries
    if is_trashed(ts, id) {
        let k = trash_index(ts, id);
        let t = ts[k];
        lemma_kept_contains(ts, tk, t);
        assert(ts.contains(t));
        if !trashed_before(ts, id, before) {
            let j = choose|j: int| 0 <= j < ns.trashed.len() && ns.trashed[j] == t;
            assert(ns.trashed[j].0 == id);
        }
    }
    if is_trashed(ns.trashed, id) {
        let j = choose|j: int| 0 <= j < ns.trashed.len() && #[trigger] ns.trashed[j].0 == id;
        let t = ns.trashed[j];
        assert(tk(t));
        let i = choose|i: int| 0 <= i < ts.len() && ts[i] == t;
        let k = trash_index(ts, id);
        assert(ts[k].0 == id);
        if i != k {
            if i < k {
                assert(ts[i].0 != ts[k].0);
            } else {
                assert(ts[k].0 != ts[i].0);
            }
        }
    }
}

} // verus!
