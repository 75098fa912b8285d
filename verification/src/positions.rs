//! Display positions of cells, kept per harness apart from the immutable
//! board: replacing a harness's positions drops those of cells it no longer
//! names, updating named cells keeps the others, clearing forgets one
//! harness, and no operation on one harness touches another's. The
//! coordinates themselves are carried, never read, so their type is a
//! parameter.
use crate::error::{CoreError, ErrorView};
use crate::text::str_eq;
use vstd::prelude::*;
use vstd::string::*;

verus! {

/// The display position of one cell.
#[derive(Debug)]
pub struct CellPosition<P> {
    pub cell_id: String,
    /// Where the cell's centre is drawn.
    pub at: P,
}

/// Stored positions: `(harness id, cell id, position)`.
#[derive(Debug)]
pub struct MemoryPositionRepository<P> {
    entries: Vec<(String, String, P)>,
}

/// A position entry seen as plain values.
pub type PositionEntry<P> = (Seq<char>, Seq<char>, P);

impl<P> View for MemoryPositionRepository<P> {
    type V = Seq<PositionEntry<P>>;

    closed spec fn view(&self) -> Seq<PositionEntry<P>> {
        self.entries@.map_values(|e: (String, String, P)| (e.0@, e.1@, e.2))
    }
}

/// The cells and positions handed to a call, in order.
pub open spec fn positions_view<P>(ps: Seq<CellPosition<P>>) -> Seq<(Seq<char>, P)> {
    ps.map_values(|p: CellPosition<P>| (p.cell_id@, p.at))
}

// ---------------------------------------------------------------------------
// What is stored, and what each operation does
// ---------------------------------------------------------------------------
/// The position stored for cell `c` of harness `h`: the latest entry for it.
pub open spec fn position_at<P>(es: Seq<PositionEntry<P>>, h: Seq<char>, c: Seq<char>) -> Option<P>
    decreases es.len(),
{
    if es.len() == 0 {
        None
    } else if es.last().0 == h && es.last().1 == c {
        Some(es.last().2)
    } else {
        position_at(es.drop_last(), h, c)
    }
}

/// The position a list gives cell `c`: its last mention.
pub open spec fn cell_lookup<P>(ps: Seq<(Seq<char>, P)>, c: Seq<char>) -> Option<P>
    decreases ps.len(),
{
    if ps.len() == 0 {
        None
    } else if ps.last().0 == c {
        Some(ps.last().1)
    } else {
        cell_lookup(ps.drop_last(), c)
    }
}

/// No harness holds two positions for one cell.
pub open spec fn unique_positions<P>(es: Seq<PositionEntry<P>>) -> bool {
    forall|i: int, j: int| 0 <= i < j < es.len() ==> !(#[trigger] es[i].0 == #[trigger] es[j].0 && es[i].1 == es[j].1)
}

/// A list names each cell at most once.
pub open spec fn distinct_cells<P>(ps: Seq<(Seq<char>, P)>) -> bool {
    forall|i: int, j: int| 0 <= i < j < ps.len() ==> #[trigger] ps[i].0 != #[trigger] ps[j].0
}

/// The entries of other harnesses than `h`, in order.
pub open spec fn without_harness<P>(es: Seq<PositionEntry<P>>, h: Seq<char>) -> Seq<PositionEntry<P>>
    decreases es.len(),
{
    if es.len() == 0 {
        seq![]
    } else {
        without_harness(es.drop_last(), h) + if es.last().0 == h {
            seq![]
        } else {
            seq![es.last()]
        }
    }
}

/// The entries other than the one of cell `c` of harness `h`, in order.
pub open spec fn without_cell<P>(es: Seq<PositionEntry<P>>, h: Seq<char>, c: Seq<char>) -> Seq<PositionEntry<P>>
    decreases es.len(),
{
    if es.len() == 0 {
        seq![]
    } else {
        without_cell(es.drop_last(), h, c) + if es.last().0 == h && es.last().1 == c {
            seq![]
        } else {
            seq![es.last()]
        }
    }
}

/// The entries that place the listed cells of harness `h`.
pub open spec fn placed<P>(h: Seq<char>, ps: Seq<(Seq<char>, P)>) -> Seq<PositionEntry<P>> {
    ps.map_values(|p: (Seq<char>, P)| (h, p.0, p.1))
}

/// Replacing all positions of `h`: refused, with nothing written, when the
/// list names a cell twice.
pub open spec fn replace_positions_result<P>(es: Seq<PositionEntry<P>>, h: Seq<char>, ps: Seq<(Seq<char>, P)>) -> Result<
    Seq<PositionEntry<P>>,
    ErrorView,
> {
    if distinct_cells(ps) {
        Ok(without_harness(es, h) + placed(h, ps))
    } else {
        Err(ErrorView::Storage("duplicate cell in positions"@))
    }
}

/// Overwriting the listed cells of `h` one after the other, later mentions
/// winning.
pub open spec fn upsert_positions_result<P>(es: Seq<PositionEntry<P>>, h: Seq<char>, ps: Seq<(Seq<char>, P)>) -> Seq<
    PositionEntry<P>,
>
    decreases ps.len(),
{
    if ps.len() == 0 {
        es
    } else {
        let before = upsert_positions_result(es, h, ps.drop_last());
        without_cell(before, h, ps.last().0).push((h, ps.last().0, ps.last().1))
    }
}

/// The positions of harness `h`, in storage order.
pub open spec fn positions_of<P>(es: Seq<PositionEntry<P>>, h: Seq<char>) -> Seq<(Seq<char>, P)>
    decreases es.len(),
{
    if es.len() == 0 {
        seq![]
    } else {
        positions_of(es.drop_last(), h) + if es.last().0 == h {
            seq![(es.last().1, es.last().2)]
        } else {
            seq![]
        }
    }
}

// ---------------------------------------------------------------------------
// Lemmas on lookups
// ---------------------------------------------------------------------------
proof fn lemma_position_push<P>(es: Seq<PositionEntry<P>>, x: PositionEntry<P>, h: Seq<char>, c: Seq<char>)
    ensures
        position_at(es.push(x), h, c) == if x.0 == h && x.1 == c {
            Some(x.2)
        } else {
            position_at(es, h, c)
        },
{
    assert(es.push(x).drop_last() =~= es);
}

proof fn lemma_position_append<P>(es: Seq<PositionEntry<P>>, xs: Seq<PositionEntry<P>>, h: Seq<char>, c: Seq<char>)
    ensures
        position_at(es + xs, h, c) == match position_at(xs, h, c) {
            Some(p) => Some(p),
            None => position_at(es, h, c),
        },
    decreases xs.len(),
{
    if xs.len() > 0 {
        assert((es + xs).drop_last() =~= es + xs.drop_last());
        lemma_position_append(es, xs.drop_last(), h, c);
    } else {
        assert(es + xs =~= es);
    }
}

proof fn lemma_position_without_harness<P>(es: Seq<PositionEntry<P>>, h: Seq<char>, h2: Seq<char>, c: Seq<char>)
    ensures
        position_at(without_harness(es, h), h2, c) == if h2 == h {
            None
        } else {
            position_at(es, h2, c)
        },
    decreases es.len(),
{
    if es.len() > 0 {
        let init = es.drop_last();
        lemma_position_without_harness(init, h, h2, c);
        let w = without_harness(init, h);
        if es.last().0 == h {
            assert(without_harness(es, h) =~= w);
        } else {
            assert(without_harness(es, h) =~= w.push(es.last()));
            lemma_position_push(w, es.last(), h2, c);
        }
    }
}

proof fn lemma_position_without_cell<P>(es: Seq<PositionEntry<P>>, h: Seq<char>, c: Seq<char>, h2: Seq<char>, c2: Seq<char>)
    ensures
        position_at(without_cell(es, h, c), h2, c2) == if h2 == h && c2 == c {
            None
        } else {
            position_at(es, h2, c2)
        },
    decreases es.len(),
{
    if es.len() > 0 {
        let init = es.drop_last();
        lemma_position_without_cell(init, h, c, h2, c2);
        let w = without_cell(init, h, c);
        if es.last().0 == h && es.last().1 == c {
            assert(without_cell(es, h, c) =~= w);
        } else {
            assert(without_cell(es, h, c) =~= w.push(es.last()));
            lemma_position_push(w, es.last(), h2, c2);
        }
    }
}

proof fn lemma_position_placed<P>(h: Seq<char>, ps: Seq<(Seq<char>, P)>, h2: Seq<char>, c: Seq<char>)
    ensures
        position_at(placed(h, ps), h2, c) == if h2 == h {
            cell_lookup(ps, c)
        } else {
            None
        },
    decreases ps.len(),
{
    if ps.len() > 0 {
        let init = ps.drop_last();
        lemma_position_placed(h, init, h2, c);
        assert(placed(h, ps) =~= placed(h, init).push((h, ps.last().0, ps.last().1)));
        lemma_position_push(placed(h, init), (h, ps.last().0, ps.last().1), h2, c);
    } else {
        assert(placed(h, ps) =~= Seq::<PositionEntry<P>>::empty());
    }
}

/// Every entry a filter keeps came from the input, and the filter keeps
/// entries unique.
proof fn lemma_filters_keep_unique<P>(es: Seq<PositionEntry<P>>, h: Seq<char>, c: Seq<char>)
    requires
        unique_positions(es),
    ensures
        unique_positions(without_harness(es, h)),
        unique_positions(without_cell(es, h, c)),
        forall|i: int| 0 <= i < without_harness(es, h).len() ==> (#[trigger] without_harness(es, h)[i]).0 != h && es.contains(
            without_harness(es, h)[i],
        ),
        forall|i: int| 0 <= i < without_cell(es, h, c).len() ==> !((#[trigger] without_cell(es, h, c)[i]).0 == h && without_cell(
            es,
            h,
            c,
        )[i].1 == c) && es.contains(without_cell(es, h, c)[i]),
    decreases es.len(),
{
    if es.len() > 0 {
        let init = es.drop_last();
        let l = es.last();
        assert(unique_positions(init)) by {
            assert forall|a: int, b: int| 0 <= a < b < init.len() implies !(#[trigger] init[a].0 == #[trigger] init[b].0 && init[a].1
                == init[b].1) by {
                assert(init[a] == es[a] && init[b] == es[b]);
            }
        }
        lemma_filters_keep_unique(init, h, c);
        assert forall|k: int| 0 <= k < init.len() implies !((#[trigger] init[k]).0 == l.0 && init[k].1 == l.1) by {
            assert(init[k] == es[k]);
            assert(es[es.len() - 1] == l);
        }
        let wh = without_harness(init, h);
        let wc = without_cell(init, h, c);
        assert(es.contains(l)) by {
            assert(es[es.len() - 1] == l);
        }
        assert forall|x: PositionEntry<P>| init.contains(x) implies es.contains(x) by {
            let k = choose|k: int| 0 <= k < init.len() && init[k] == x;
            assert(es[k] == x);
        }
        if l.0 == h {
            assert(without_harness(es, h) =~= wh);
        } else {
            assert(without_harness(es, h) =~= wh.push(l));
            let n = wh.push(l);
            assert forall|a: int, b: int| 0 <= a < b < n.len() implies !(#[trigger] n[a].0 == #[trigger] n[b].0 && n[a].1 == n[b].1) by {
                if b == wh.len() {
                    assert(n[a] == wh[a]);
                    let k = choose|k: int| 0 <= k < init.len() && init[k] == wh[a];
                    assert(!(init[k].0 == l.0 && init[k].1 == l.1));
                } else {
                    assert(n[a] == wh[a] && n[b] == wh[b]);
                }
            }
            assert forall|i: int| 0 <= i < n.len() implies (#[trigger] n[i]).0 != h && es.contains(n[i]) by {
                if i < wh.len() {
                    assert(n[i] == wh[i]);
                }
            }
        }
        if l.0 == h && l.1 == c {
            assert(without_cell(es, h, c) =~= wc);
        } else {
            assert(without_cell(es, h, c) =~= wc.push(l));
            let n = wc.push(l);
            assert forall|a: int, b: int| 0 <= a < b < n.len() implies !(#[trigger] n[a].0 == #[trigger] n[b].0 && n[a].1 == n[b].1) by {
                if b == wc.len() {
                    assert(n[a] == wc[a]);
                    let k = choose|k: int| 0 <= k < init.len() && init[k] == wc[a];
                    assert(!(init[k].0 == l.0 && init[k].1 == l.1));
                } else {
                    assert(n[a] == wc[a] && n[b] == wc[b]);
                }
            }
            assert forall|i: int| 0 <= i < n.len() implies !((#[trigger] n[i]).0 == h && n[i].1 == c) && es.contains(n[i]) by {
                if i < wc.len() {
                    assert(n[i] == wc[i]);
                }
            }
        }
    }
}

// ---------------------------------------------------------------------------
// The repository
// ---------------------------------------------------------------------------
impl<P: Copy> MemoryPositionRepository<P> {
    /// The repository keeps one position per cell of a harness.
    pub open spec fn wf(&self) -> bool {
        unique_positions(self@)
    }

    /// An empty repository.
    pub fn new() -> (r: MemoryPositionRepository<P>)
        ensures
            r.wf(),
            r@.len() == 0,
    {
        let r = MemoryPositionRepository { entries: Vec::new() };
        assert(r@ =~= Seq::<PositionEntry<P>>::empty());
        r
    }

    /// The positions of one harness; empty when none are stored.
    pub fn list(&self, harness_id: &str) -> (r: Vec<CellPosition<P>>)
        ensures
            positions_view(r@) == positions_of(self@, harness_id@),
    {
        let ghost es = self@;
        let mut out: Vec<CellPosition<P>> = Vec::new();
        let mut i: usize = 0;
        while i < self.entries.len()
            invariant
                es == self@,
                i <= self.entries.len(),
                positions_view(out@) == positions_of(es.take(i as int), harness_id@),
            decreases self.entries.len() - i,
        {
            let ghost before = positions_view(out@);
            assert(es.take(i + 1).drop_last() =~= es.take(i as int));
            assert(es[i as int] == (self.entries@[i as int].0@, self.entries@[i as int].1@, self.entries@[i as int].2));
            if str_eq(self.entries[i].0.as_str(), harness_id) {
                let at = self.entries[i].2;
                out.push(CellPosition { cell_id: self.entries[i].1.clone(), at });
                assert(positions_view(out@) =~= before.push((es[i as int].1, es[i as int].2)));
            } else {
                assert(positions_view(out@) =~= before);
            }
            i = i + 1;
        }
        assert(es.take(i as int) =~= es);
        out
    }

    /// Forgets every position of one harness.
    pub fn clear(&mut self, harness_id: &str)
        requires
            old(self).wf(),
        ensures
            final(self).wf(),
            final(self)@ == without_harness(old(self)@, harness_id@),
    {
        let ghost es = self@;
        let mut kept: Vec<(String, String, P)> = Vec::new();
        let mut i: usize = 0;
        while i < self.entries.len()
            invariant
                es == self@,
                i <= self.entries.len(),
                kept@.map_values(|e: (String, String, P)| (e.0@, e.1@, e.2)) == without_harness(es.take(i as int), harness_id@),
            decreases self.entries.len() - i,
        {
            let ghost before = kept@.map_values(|e: (String, String, P)| (e.0@, e.1@, e.2));
            assert(es.take(i + 1).drop_last() =~= es.take(i as int));
            assert(es[i as int] == (self.entries@[i as int].0@, self.entries@[i as int].1@, self.entries@[i as int].2));
            if !str_eq(self.entries[i].0.as_str(), harness_id) {
                let at = self.entries[i].2;
                kept.push((self.entries[i].0.clone(), self.entries[i].1.clone(), at));
                assert(kept@.map_values(|e: (String, String, P)| (e.0@, e.1@, e.2)) =~= before.push(es[i as int]));
            } else {
                assert(kept@.map_values(|e: (String, String, P)| (e.0@, e.1@, e.2)) =~= before);
            }
            i = i + 1;
        }
        assert(es.take(i as int) =~= es);
        self.entries = kept;
        proof {
            lemma_filters_keep_unique(es, harness_id@, seq![]);
        }
    }

    /// Removes the entry of one cell, if any.
    fn forget_cell(&mut self, harness_id: &str, cell_id: &str)
        requires
            old(self).wf(),
        ensures
            final(self).wf(),
            final(self)@ == without_cell(old(self)@, harness_id@, cell_id@),
            forall|i: int| 0 <= i < final(self)@.len() ==> !((#[trigger] final(self)@[i]).0 == harness_id@ && final(self)@[i].1 == cell_id@),
    {
        let ghost es = self@;
        let mut kept: Vec<(String, String, P)> = Vec::new();
        let mut i: usize = 0;
        while i < self.entries.len()
            invariant
                es == self@,
                i <= self.entries.len(),
                kept@.map_values(|e: (String, String, P)| (e.0@, e.1@, e.2)) == without_cell(es.take(i as int), harness_id@, cell_id@),
            decreases self.entries.len() - i,
        {
            let ghost before = kept@.map_values(|e: (String, String, P)| (e.0@, e.1@, e.2));
            assert(es.take(i + 1).drop_last() =~= es.take(i as int));
            assert(es[i as int] == (self.entries@[i as int].0@, self.entries@[i as int].1@, self.entries@[i as int].2));
            if !(str_eq(self.entries[i].0.as_str(), harness_id) && str_eq(self.entries[i].1.as_str(), cell_id)) {
                let at = self.entries[i].2;
                kept.push((self.entries[i].0.clone(), self.entries[i].1.clone(), at));
                assert(kept@.map_values(|e: (String, String, P)| (e.0@, e.1@, e.2)) =~= before.push(es[i as int]));
            } else {
                assert(kept@.map_values(|e: (String, String, P)| (e.0@, e.1@, e.2)) =~= before);
            }
            i = i + 1;
        }
        assert(es.take(i as int) =~= es);
        self.entries = kept;
        proof {
            lemma_filters_keep_unique(es, harness_id@, cell_id@);
        }
    }

    /// Places one cell of a harness at `at`, replacing its earlier position.
    fn place(&mut self, harness_id: &str, cell_id: &str, at: P)
        requires
            old(self).wf(),
        ensures
            final(self).wf(),
            final(self)@ == without_cell(old(self)@, harness_id@, cell_id@).push((harness_id@, cell_id@, at)),
    {
        self.forget_cell(harness_id, cell_id);
        let ghost before = self@;
        self.entries.push((String::from_str(harness_id), String::from_str(cell_id), at));
        proof {
            let x = (harness_id@, cell_id@, at);
            assert(self@ =~= before.push(x));
            assert forall|a: int, b: int| 0 <= a < b < self@.len() implies !(#[trigger] self@[a].0 == #[trigger] self@[b].0 && self@[a].1
                == self@[b].1) by {
                if b == before.len() {
                    assert(self@[a] == before[a]);
                } else {
                    assert(self@[a] == before[a] && self@[b] == before[b]);
                }
            }
        }
    }

    /// Replaces every position of one harness by `positions`; positions of
    /// cells not listed are dropped. A list naming a cell twice is refused
    /// and nothing is written.
    pub fn replace_all(&mut self, harness_id: &str, positions: &[CellPosition<P>]) -> (r: Result<(), CoreError>)
        requires
            old(self).wf(),
        ensures
            final(self).wf(),
            match replace_positions_result(old(self)@, harness_id@, positions_view(positions@)) {
                Ok(ns) => r is Ok && final(self)@ == ns,
                Err(e) => r matches Err(x) && x@ == e && final(self)@ == old(self)@,
            },
    {
        let ghost ps = positions_view(positions@);
        let mut a: usize = 0;
        while a < positions.len()
            invariant
                ps == positions_view(positions@),
                self@ == old(self)@,
                self.wf(),
                a <= positions.len(),
                forall|i: int, j: int| 0 <= i < j < positions.len() && i < a ==> #[trigger] ps[i].0 != #[trigger] ps[j].0,
            decreases positions.len() - a,
        {
            let mut b: usize = a + 1;
            while b < positions.len()
                invariant
                    ps == positions_view(positions@),
                    self@ == old(self)@,
                    self.wf(),
                    a < positions.len(),
                    a + 1 <= b <= positions.len(),
                    forall|i: int, j: int| 0 <= i < j < positions.len() && i < a ==> #[trigger] ps[i].0 != #[trigger] ps[j].0,
                    forall|j: int| a < j < b ==> ps[a as int].0 != #[trigger] ps[j].0,
                decreases positions.len() - b,
            {
                if str_eq(positions[a].cell_id.as_str(), positions[b].cell_id.as_str()) {
                    proof {
                        assert(ps[a as int].0 == ps[b as int].0);
                        assert(!distinct_cells(ps));
                    }
                    return Err(CoreError::Storage(String::from_str("duplicate cell in positions")));
                }
                b = b + 1;
            }
            a = a + 1;
        }
        assert(distinct_cells(ps));
        let ghost es = self@;
        self.clear(harness_id);
        let ghost cleared = self@;
        proof {
            lemma_filters_keep_unique(es, harness_id@, seq![]);
        }
        let mut k: usize = 0;
        while k < positions.len()
            invariant
                ps == positions_view(positions@),
                distinct_cells(ps),
                cleared == without_harness(es, harness_id@),
                forall|i: int| 0 <= i < cleared.len() ==> (#[trigger] cleared[i]).0 != harness_id@,
                unique_positions(cleared),
                k <= positions.len(),
                self@ == cleared + placed(harness_id@, ps.take(k as int)),
                self.wf(),
            decreases positions.len() - k,
        {
            let ghost before = self@;
            let at = positions[k].at;
            self.entries.push((String::from_str(harness_id), positions[k].cell_id.clone(), at));
            proof {
                let x = (harness_id@, ps[k as int].0, ps[k as int].1);
                assert(self@ =~= before.push(x));
                assert(placed(harness_id@, ps.take(k + 1)) =~= placed(harness_id@, ps.take(k as int)).push(x));
                assert(self@ =~= cleared + placed(harness_id@, ps.take(k + 1)));
                assert forall|a: int, b: int| 0 <= a < b < self@.len() implies !(#[trigger] self@[a].0 == #[trigger] self@[b].0
                    && self@[a].1 == self@[b].1) by {
                    if b == before.len() {
                        assert(self@[a] == before[a]);
                        if a < cleared.len() {
                            assert(before[a] == cleared[a]);
                        } else {
                            let m = a - cleared.len();
                            assert(before[a] == placed(harness_id@, ps.take(k as int))[m]);
                            assert(ps[m].0 != ps[k as int].0);
                        }
                    } else {
                        assert(self@[a] == before[a] && self@[b] == before[b]);
                    }
                }
            }
            k = k + 1;
        }
        assert(ps.take(k as int) =~= ps);
        Ok(())
    }

    /// Overwrites the positions of the listed cells of one harness and keeps
    /// the others; when a cell is listed twice the later position wins.
    pub fn upsert(&mut self, harness_id: &str, positions: &[CellPosition<P>])
        requires
            old(self).wf(),
        ensures
            final(self).wf(),
            final(self)@ == upsert_positions_result(old(self)@, harness_id@, positions_view(positions@)),
    {
        let ghost es = self@;
        let ghost ps = positions_view(positions@);
        let mut k: usize = 0;
        assert(ps.take(0) =~= Seq::<(Seq<char>, P)>::empty());
        while k < positions.len()
            invariant
                ps == positions_view(positions@),
                k <= positions.len(),
                self.wf(),
                self@ == upsert_positions_result(es, harness_id@, ps.take(k as int)),
            decreases positions.len() - k,
        {
            assert(ps.take(k + 1).drop_last() =~= ps.take(k as int));
            assert(ps.take(k + 1).last() == ps[k as int]);
            let at = positions[k].at;
            self.place(harness_id, positions[k].cell_id.as_str(), at);
            k = k + 1;
        }
        assert(ps.take(k as int) =~= ps);
    }
}

// ---------------------------------------------------------------------------
// Laws
// ---------------------------------------------------------------------------
/// After replacing the positions of `h`, a cell of `h` stands where the list
/// puts it and a cell the list does not name has no position; the positions
/// of other harnesses are as they were.
pub proof fn lemma_replace_all_positions<P>(es: Seq<PositionEntry<P>>, h: Seq<char>, ps: Seq<(Seq<char>, P)>)
    requires
        distinct_cells(ps),
    ensures
        replace_positions_result(es, h, ps) matches Ok(ns) && forall|h2: Seq<char>, c: Seq<char>|
            #[trigger] position_at(ns, h2, c) == if h2 == h {
                cell_lookup(ps, c)
            } else {
                position_at(es, h2, c)
            },
{
    let ns = without_harness(es, h) + placed(h, ps);
    assert forall|h2: Seq<char>, c: Seq<char>| #[trigger] position_at(ns, h2, c) == if h2 == h {
        cell_lookup(ps, c)
    } else {
        position_at(es, h2, c)
    } by {
        lemma_position_append(without_harness(es, h), placed(h, ps), h2, c);
        lemma_position_placed(h, ps, h2, c);
        lemma_position_without_harness(es, h, h2, c);
    }
}

/// Upserting positions of `h` moves exactly the listed cells, each to its
/// last listed position, and keeps every other position.
pub proof fn lemma_upsert_positions<P>(es: Seq<PositionEntry<P>>, h: Seq<char>, ps: Seq<(Seq<char>, P)>)
    ensures
        forall|h2: Seq<char>, c: Seq<char>|
            #[trigger] position_at(upsert_positions_result(es, h, ps), h2, c) == if h2 == h && cell_lookup(ps, c) is Some {
                cell_lookup(ps, c)
            } else {
                position_at(es, h2, c)
            },
    decreases ps.len(),
{
    if ps.len() > 0 {
        let init = ps.drop_last();
        lemma_upsert_positions(es, h, init);
        let before = upsert_positions_result(es, h, init);
        let l = ps.last();
        assert forall|h2: Seq<char>, c: Seq<char>| #[trigger] position_at(upsert_positions_result(es, h, ps), h2, c) == if h2 == h
            && cell_lookup(ps, c) is Some {
            cell_lookup(ps, c)
        } else {
            position_at(es, h2, c)
        } by {
            lemma_position_push(without_cell(before, h, l.0), (h, l.0, l.1), h2, c);
            lemma_position_without_cell(before, h, l.0, h2, c);
            assert(position_at(before, h2, c) == if h2 == h && cell_lookup(init, c) is Some {
                cell_lookup(init, c)
            } else {
                position_at(es, h2, c)
            });
        }
    }
}

/// Clearing `h` leaves no position for any of its cells and keeps those of
/// other harnesses.
pub proof fn lemma_clear_positions<P>(es: Seq<PositionEntry<P>>, h: Seq<char>)
    ensures
        forall|h2: Seq<char>, c: Seq<char>|
            #[trigger] position_at(without_harness(es, h), h2, c) == if h2 == h {
                None
            } else {
                position_at(es, h2, c)
            },
{
    assert forall|h2: Seq<char>, c: Seq<char>| #[trigger] position_at(without_harness(es, h), h2, c) == if h2 == h {
        None
    } else {
        position_at(es, h2, c)
    } by {
        lemma_position_without_harness(es, h, h2, c);
    }
}

/// The listing of a harness gives each of its cells the stored position.
pub proof fn lemma_listing_matches_lookup<P>(es: Seq<PositionEntry<P>>, h: Seq<char>, c: Seq<char>)
    ensures
        cell_lookup(positions_of(es, h), c) == position_at(es, h, c),
    decreases es.len(),
{
    if es.len() > 0 {
        let init = es.drop_last();
        lemma_listing_matches_lookup(init, h, c);
        let l = es.last();
        let pi = positions_of(init, h);
        if l.0 == h {
            assert(positions_of(es, h) =~= pi.push((l.1, l.2)));
            assert(pi.push((l.1, l.2)).drop_last() =~= pi);
        } else {
            assert(positions_of(es, h) =~= pi);
        }
    }
}

} // verus!
