//! What an audit of the derived indexes looks for, and what it has shown when
//! it finds nothing.

use vstd::prelude::*;

use super::block::{BlockView, End};
use super::entry::AdjEntry;
use super::index::EdgeSlot;
use crate::ids::{EdgeId, VertexId};

verus! {

/// How many out-entries the blocks hold.
pub open spec fn out_total(b: Seq<BlockView>) -> nat
    decreases b.len(),
{
    if b.len() == 0 {
        0
    } else {
        out_total(b.drop_last()) + b.last().out.len()
    }
}

/// How many in-entries the blocks hold.
pub open spec fn in_total(b: Seq<BlockView>) -> nat
    decreases b.len(),
{
    if b.len() == 0 {
        0
    } else {
        in_total(b.drop_last()) + b.last().inc.len()
    }
}

/// Which of the first `n` indices a slot table has as live.
pub open spec fn live_marks(s: Seq<EdgeSlot>, n: nat) -> Seq<bool> {
    Seq::new(n, |i: int| i < s.len() && s[i].is_live())
}

/// The half that position `j` of a block lies in.
pub open spec fn half_at(b: BlockView, j: int) -> End {
    if j < b.out.len() {
        End::Out
    } else {
        End::In
    }
}

/// What is wrong with the entry at position `j` of `v`'s block, if anything.
pub open spec fn entry_fault(
    b: Seq<BlockView>,
    s: Seq<EdgeSlot>,
    v: int,
    j: int,
) -> Option<&'static str> {
    let e = b[v].all()[j];
    let end = half_at(b[v], j);
    if e.other@ >= b.len() {
        Some("an adjacency entry names a vertex outside the graph")
    } else if super::index::ends_in(s, e.idx) is None {
        Some("an adjacency entry names a released edge")
    } else if super::index::located(s, b, e.idx, end) is None {
        Some("an adjacency entry is unreachable from the slot table")
    } else {
        let (holder, pos) = super::index::located(s, b, e.idx, end)->0;
        let (src, tgt) = super::index::ends_in(s, e.idx)->0;
        if holder@ != v || pos != j {
            Some("the slot table records a different position for an entry")
        } else if end == End::Out && (src@ != v || tgt != e.other) {
            Some("the slot's endpoints disagree with an out-half entry")
        } else if end == End::In && (tgt@ != v || src != e.other) {
            Some("the slot's endpoints disagree with an in-half entry")
        } else {
            None
        }
    }
}

/// What is wrong with the counts, if anything.
pub open spec fn count_fault(
    b: Seq<BlockView>,
    s: Seq<EdgeSlot>,
    live: int,
    bound: nat,
) -> Option<&'static str> {
    if out_total(b) != in_total(b) {
        Some("the out-halves and the in-halves hold different numbers of entries")
    } else if out_total(b) != live {
        Some("num_edges() disagrees with the adjacency")
    } else if super::tally::marked(live_marks(s, bound)) != live {
        Some("the slot table holds entries the adjacency does not")
    } else {
        None
    }
}

/// What is wrong with the pair index at out-entry `j` of `v`, if anything.
pub open spec fn pair_fault(
    b: Seq<BlockView>,
    s: Seq<EdgeSlot>,
    pairs: Map<(VertexId, VertexId), Seq<EdgeId>>,
    v: int,
    j: int,
) -> Option<&'static str> {
    let src = VertexId::at(v as nat);
    let e = b[v].out[j];
    let bucket = pairs[(src, e.other)];
    if !bucket.contains(e.idx) {
        Some("the (s,t) index does not hold an edge the adjacency does")
    } else if bucket.len() != b[v].out.filter(|x: AdjEntry| x.other == e.other).len() {
        Some("the (s,t) index disagrees with the adjacency about multiplicity")
    } else if exists|k: int|
        0 <= k < bucket.len() && super::index::ends_in(s, #[trigger] bucket[k]) != Some(
            (src, e.other),
        ) {
        Some("the (s,t) index holds an edge whose endpoints are not (s,t)")
    } else {
        None
    }
}

/// Whether the entries of blocks before `(v, j)` are all faultless.
pub open spec fn entries_sound(b: Seq<BlockView>, s: Seq<EdgeSlot>, v: int, j: int) -> bool {
    forall|w: int, k: int|
        0 <= w < b.len() && 0 <= k < b[w].len() && (w < v || (w == v && k < j))
            ==> #[trigger] entry_fault(b, s, w, k) is None
}

/// Whether the pair index is faultless at the out-entries before `(v, j)`.
pub open spec fn pairs_sound(
    b: Seq<BlockView>,
    s: Seq<EdgeSlot>,
    pairs: Map<(VertexId, VertexId), Seq<EdgeId>>,
    v: int,
    j: int,
) -> bool {
    forall|w: int, k: int|
        0 <= w < b.len() && 0 <= k < b[w].out.len() && (w < v || (w == v && k < j))
            ==> #[trigger] pair_fault(b, s, pairs, w, k) is None
}

/// The one-step forms of the totals.
pub proof fn lemma_totals_step(b: Seq<BlockView>, v: int)
    requires
        0 <= v < b.len(),
    ensures
        out_total(b.take(v + 1)) == out_total(b.take(v)) + b[v].out.len(),
        in_total(b.take(v + 1)) == in_total(b.take(v)) + b[v].inc.len(),
{
    assert(b.take(v + 1).drop_last() =~= b.take(v));
}

/// Marks within others, as many of them, are the same marks.
pub proof fn lemma_same_marks(a: Seq<bool>, b: Seq<bool>)
    requires
        a.len() == b.len(),
        forall|i: int| 0 <= i < a.len() && a[i] ==> b[i],
    ensures
        super::tally::marked(a) <= super::tally::marked(b),
        super::tally::marked(a) == super::tally::marked(b) ==> a == b,
    decreases a.len(),
{
    if a.len() > 0 {
        lemma_same_marks(a.drop_last(), b.drop_last());
        if super::tally::marked(a) == super::tally::marked(b) {
            assert(a.drop_last() == b.drop_last());
            assert forall|i: int| 0 <= i < a.len() implies a[i] == b[i] by {
                if i < a.len() - 1 {
                    assert(a.drop_last()[i] == b.drop_last()[i]);
                }
            }
            assert(a =~= b);
        }
    } else {
        assert(a =~= b);
    }
}

/// Which slots the faultless out-entries before `(v, j)` reach.
pub open spec fn reached_out(b: Seq<BlockView>, s: Seq<EdgeSlot>, v: int, j: int) -> Seq<bool> {
    Seq::new(
        s.len(),
        |i: int|
            s[i].is_live() && s[i].src@ < b.len() && super::consistency::has_out(b, s[i], i) && (
            s[i].src@ < v || (s[i].src@ == v && s[i].out_pos < j)),
    )
}

/// Which slots the faultless in-entries before `(v, j)` reach.
pub open spec fn reached_in(b: Seq<BlockView>, s: Seq<EdgeSlot>, v: int, j: int) -> Seq<bool> {
    Seq::new(
        s.len(),
        |i: int|
            s[i].is_live() && s[i].tgt@ < b.len() && super::consistency::has_in(b, s[i], i) && (
            s[i].tgt@ < v || (s[i].tgt@ == v && s[i].in_pos < j)),
    )
}

/// A faultless entry reaches one slot more in its half, and none in the other.
pub proof fn lemma_reach_step(b: Seq<BlockView>, s: Seq<EdgeSlot>, v: int, j: int)
    requires
        0 <= v < b.len(),
        0 <= j < b[v].len(),
        entry_fault(b, s, v, j) is None,
    ensures
        super::tally::marked(reached_out(b, s, v, j + 1)) == super::tally::marked(
            reached_out(b, s, v, j),
        ) + (if j < b[v].out.len() {
            1int
        } else {
            0int
        }),
        super::tally::marked(reached_in(b, s, v, j + 1)) == super::tally::marked(
            reached_in(b, s, v, j),
        ) + (if j < b[v].out.len() {
            0int
        } else {
            1int
        }),
{
    let e = b[v].all()[j];
    let i = e.idx@ as int;
    if j < b[v].out.len() {
        assert(b[v].out[j] == e);
        let before = reached_out(b, s, v, j);
        assert(reached_out(b, s, v, j + 1) =~= before.update(i, true));
        super::tally::lemma_marked_update(before, i);
        assert(reached_in(b, s, v, j + 1) =~= reached_in(b, s, v, j));
    } else {
        assert(b[v].inc[j - b[v].out.len()] == e);
        let before = reached_in(b, s, v, j);
        assert(reached_in(b, s, v, j + 1) =~= before.update(i, true));
        super::tally::lemma_marked_update(before, i);
        assert(reached_out(b, s, v, j + 1) =~= reached_out(b, s, v, j));
    }
}

/// The reach at the end of one block is the reach at the start of the next.
pub proof fn lemma_reach_next(b: Seq<BlockView>, s: Seq<EdgeSlot>, v: int)
    requires
        0 <= v < b.len(),
    ensures
        reached_out(b, s, v + 1, 0) == reached_out(b, s, v, b[v].len() as int),
        reached_in(b, s, v + 1, 0) == reached_in(b, s, v, b[v].len() as int),
{
    assert(reached_out(b, s, v + 1, 0) =~= reached_out(b, s, v, b[v].len() as int));
    assert(reached_in(b, s, v + 1, 0) =~= reached_in(b, s, v, b[v].len() as int));
}

pub proof fn lemma_reach_start(b: Seq<BlockView>, s: Seq<EdgeSlot>)
    ensures
        super::tally::marked(reached_out(b, s, 0, 0)) == 0,
        super::tally::marked(reached_in(b, s, 0, 0)) == 0,
{
    super::tally::lemma_marked_none(reached_out(b, s, 0, 0));
    super::tally::lemma_marked_none(reached_in(b, s, 0, 0));
}

/// The faultless entries of the first blocks reach as many slots as they are.
pub proof fn lemma_reach(b: Seq<BlockView>, s: Seq<EdgeSlot>, v: int, j: int)
    requires
        0 <= v <= b.len(),
        v < b.len() ==> 0 <= j <= b[v].len(),
        v == b.len() ==> j == 0,
        entries_sound(b, s, v, j),
    ensures
        super::tally::marked(reached_out(b, s, v, j)) == out_total(b.take(v)) + (if v == b.len() {
            0int
        } else if j < b[v].out.len() {
            j
        } else {
            b[v].out.len() as int
        }),
        super::tally::marked(reached_in(b, s, v, j)) == in_total(b.take(v)) + (if v == b.len() {
            0int
        } else if j < b[v].out.len() {
            0int
        } else {
            j - b[v].out.len()
        }),
    decreases v, j,
{
    if v == 0 && j == 0 {
        lemma_reach_start(b, s);
        assert(b.take(0) =~= Seq::empty());
    } else if j == 0 {
        lemma_reach(b, s, v - 1, b[v - 1].len() as int);
        lemma_reach_next(b, s, v - 1);
        lemma_totals_step(b, v - 1);
    } else {
        lemma_reach(b, s, v, j - 1);
        assert(entry_fault(b, s, v, j - 1) is None);
        lemma_reach_step(b, s, v, j - 1);
    }
}

/// Where the slot table and the blocks agree no entry is at fault, and there
/// are as many entries of either half as live slots.
pub proof fn lemma_agreement_is_sound(b: Seq<BlockView>, s: Seq<EdgeSlot>, bound: nat)
    requires
        super::consistency::agree(b, s),
        s.len() <= bound,
    ensures
        entries_sound(b, s, b.len() as int, 0),
        out_total(b) == super::tally::marked(live_marks(s, bound)),
        in_total(b) == super::tally::marked(live_marks(s, bound)),
{
    broadcast use crate::ids::id_is_its_index;
    reveal(super::consistency::agree);

    assert forall|v: int, j: int| 0 <= v < b.len() && 0 <= j < b[v].len() implies
        #[trigger] entry_fault(b, s, v, j) is None by {
        let e = b[v].all()[j];
        if j < b[v].out.len() {
            assert(super::consistency::out_agrees(b, s, v, j, b[v].out[j]));
            assert(e == b[v].out[j]);
        } else {
            let k = j - b[v].out.len();
            assert(super::consistency::in_agrees(b, s, v, b[v].out.len() + k, b[v].inc[k]));
            assert(e == b[v].inc[k]);
        }
    }
    let n = b.len() as int;
    lemma_reach(b, s, n, 0);
    assert(b.take(n) =~= b);
    let live = live_marks(s, s.len());
    assert(reached_out(b, s, n, 0) =~= live);
    assert(reached_in(b, s, n, 0) =~= live);
    lemma_marks_padded(s, bound);
}

/// Indices beyond the table are not live.
proof fn lemma_marks_padded(s: Seq<EdgeSlot>, bound: nat)
    requires
        s.len() <= bound,
    ensures
        super::tally::marked(live_marks(s, bound)) == super::tally::marked(live_marks(s, s.len())),
    decreases bound,
{
    if bound > s.len() {
        lemma_marks_padded(s, (bound - 1) as nat);
        assert(live_marks(s, bound).drop_last() =~= live_marks(s, (bound - 1) as nat));
    }
}

/// An audit that finds no fault in the entries and the counts has shown that
/// the slot table and the blocks agree on every edge: the entries map one to
/// one onto the live slots, and there are as many.
pub proof fn no_fault_means_agreement(
    b: Seq<BlockView>,
    s: Seq<EdgeSlot>,
    live: int,
    bound: nat,
)
    requires
        s.len() <= bound,
        entries_sound(b, s, b.len() as int, 0),
        count_fault(b, s, live, bound) is None,
    ensures
        super::consistency::agree(b, s),
{
    broadcast use crate::ids::id_is_its_index;
    reveal(super::consistency::agree);

    let n = b.len() as int;
    lemma_reach(b, s, n, 0);
    assert(b.take(n) =~= b);
    lemma_marks_padded(s, bound);
    lemma_same_marks(reached_out(b, s, n, 0), live_marks(s, s.len()));
    lemma_same_marks(reached_in(b, s, n, 0), live_marks(s, s.len()));
    assert forall|v: int, j: int| 0 <= v < b.len() && 0 <= j < b[v].out.len() implies
        super::consistency::out_agrees(b, s, v, j, #[trigger] b[v].out[j]) by {
        assert(entry_fault(b, s, v, j) is None);
        assert(b[v].all()[j] == b[v].out[j]);
    }
    assert forall|v: int, j: int| 0 <= v < b.len() && 0 <= j < b[v].inc.len() implies
        super::consistency::in_agrees(
        b,
        s,
        v,
        b[v].out.len() + j,
        #[trigger] b[v].inc[j],
    ) by {
        assert(entry_fault(b, s, v, b[v].out.len() + j) is None);
        assert(b[v].all()[b[v].out.len() + j] == b[v].inc[j]);
    }
    assert forall|k: int| 0 <= k < s.len() && (#[trigger] s[k]).is_live() implies {
        &&& s[k].src@ < b.len()
        &&& s[k].tgt@ < b.len()
        &&& super::consistency::has_out(b, s[k], k)
        &&& super::consistency::has_in(b, s[k], k)
    } by {
        assert(live_marks(s, s.len())[k]);
        assert(reached_out(b, s, n, 0)[k]);
        assert(reached_in(b, s, n, 0)[k]);
    }
}

/// A pair index that holds every edge once, under its own pair, has no fault.
pub proof fn lemma_pairs_are_sound(t: super::topology::Topology, s: Seq<EdgeSlot>)
    requires
        t.wf(),
        t.indexed,
        forall|id: EdgeId| #[trigger]
            super::index::ends_in(s, id) == (if t.ends.contains_key(id) {
                Some(t.ends[id])
            } else {
                None
            }),
    ensures
        pairs_sound(t.blocks, s, t.pairs, t.blocks.len() as int, 0),
{
    broadcast use crate::ids::id_is_its_index;
    broadcast use crate::ids::id_at;

    let b = t.blocks;
    assert forall|v: int, j: int| 0 <= v < b.len() && 0 <= j < b[v].out.len() implies
        #[trigger] pair_fault(b, s, t.pairs, v, j) is None by {
        let src = VertexId::at(v as nat);
        let e = b[v].out[j];
        let bucket = t.pairs[(src, e.other)];
        let p = |x: AdjEntry| x.other == e.other;
        let kept = b[v].out.filter(p);
        let ids = super::topology::idents(kept);
        assert(bucket.contains(e.idx));
        crate::seqs::lemma_filter_keeps_order(b[v].out, p);
        assert forall|k: int, l: int| 0 <= k < ids.len() && 0 <= l < ids.len() && k != l implies
            #[trigger] ids[k] != #[trigger] ids[l] by {
            let (x, y) = (
                crate::seqs::filter_source(b[v].out, p, k),
                crate::seqs::filter_source(b[v].out, p, l),
            );
            if ids[k] == ids[l] {
                assert(b[v].out[x].idx == b[v].out[y].idx);
            }
        }
        assert(ids.no_duplicates());
        assert forall|id: EdgeId| #[trigger] ids.contains(id) <==> bucket.contains(id) by {
            if ids.contains(id) {
                let k = choose|k: int| 0 <= k < ids.len() && ids[k] == id;
                let x = crate::seqs::filter_source(b[v].out, p, k);
                assert(b[v].out[x].idx == id);
                b[v].out.lemma_filter_pred(p, k);
                assert(t.ends[id] == (src, e.other));
            }
            if bucket.contains(id) {
                assert(t.ends.contains_key(id) && t.ends[id] == (src, e.other));
                let x = choose|x: int|
                    0 <= x < t.block(src).out.len() && (#[trigger] t.block(src).out[x]).idx == id;
                assert(b[v].out[x].idx == id);
                b[v].out.lemma_filter_contains(p, x);
                let k = choose|k: int| 0 <= k < kept.len() && kept[k] == b[v].out[x];
                assert(ids[k] == id);
            }
        }
        assert(bucket.no_duplicates());
        crate::seqs::lemma_same_elements_same_len(ids, bucket);
        assert forall|k: int| 0 <= k < bucket.len() implies super::index::ends_in(
            s,
            #[trigger] bucket[k],
        ) == Some((src, e.other)) by {
            assert(bucket.contains(bucket[k]));
        }
    }
}

} // verus!
