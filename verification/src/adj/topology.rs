//! The graph as a value, and what a link and an unlink do to it.

use vstd::prelude::*;

use super::block::BlockView;
use super::entry::AdjEntry;
use crate::ids::{EdgeId, Raw, VertexId, MAX_INDEX};

verus! {

/// The graph as a value.
#[verifier::ext_equal]
pub struct Topology {
    /// The adjacency of every vertex.
    pub blocks: Seq<BlockView>,
    /// The endpoints of every live edge.
    pub ends: Map<EdgeId, (VertexId, VertexId)>,
    /// Whether edges are also indexed by their endpoint pair.
    pub indexed: bool,
    /// The edges that the pair index has of every pair; none without an index.
    pub pairs: Map<(VertexId, VertexId), Seq<EdgeId>>,
}

/// The place of `id` in a half.
pub open spec fn spot(half: Seq<AdjEntry>, id: EdgeId) -> int {
    choose|i: int| 0 <= i < half.len() && (#[trigger] half[i]).idx == id
}

/// The pair index of a graph in which nothing is indexed.
pub open spec fn no_pairs() -> Map<(VertexId, VertexId), Seq<EdgeId>> {
    Map::new(|p: (VertexId, VertexId)| true, |p: (VertexId, VertexId)| Seq::<EdgeId>::empty())
}

impl Topology {
    /// `n` isolated vertices.
    pub open spec fn isolated(n: nat, indexed: bool) -> Topology {
        Topology {
            blocks: Seq::new(n, |v: int| BlockView::empty()),
            ends: Map::empty(),
            indexed,
            pairs: no_pairs(),
        }
    }

    /// Whether `v` is a vertex.
    pub open spec fn has_vertex(self, v: VertexId) -> bool {
        v@ < self.blocks.len()
    }

    /// The adjacency of `v`; a vertex outside the graph has none.
    pub open spec fn block(self, v: VertexId) -> BlockView {
        if self.has_vertex(v) {
            self.blocks[v@ as int]
        } else {
            BlockView::empty()
        }
    }

    /// One isolated vertex more.
    pub open spec fn add_vertex(self) -> Topology {
        Topology { blocks: self.blocks.push(BlockView::empty()), ..self }
    }

    /// The last vertex dropped.
    pub open spec fn drop_vertex(self) -> Topology {
        Topology { blocks: self.blocks.drop_last(), ..self }
    }

    /// Whether the blocks of `s` and `t` have room for one edge more: their
    /// positions must fit the index width.
    pub open spec fn has_room(self, s: VertexId, t: VertexId) -> bool {
        let sb = self.block(s);
        let tb = self.block(t);
        &&& sb.out.len() < Raw::MAX
        &&& sb.len() <= Raw::MAX
        &&& tb.len() + (if s == t { 1int } else { 0int }) <= Raw::MAX
    }

    /// The out-half of edge `id` from `s` to `t` linked.
    pub open spec fn link_out(self, id: EdgeId, s: VertexId, t: VertexId) -> Seq<BlockView> {
        self.blocks.update(
            s@ as int,
            self.blocks[s@ as int].with_out(AdjEntry { other: t, idx: id }),
        )
    }

    /// Edge `id` from `s` to `t` linked: the out-half, the in-half, and the
    /// indexes.
    pub open spec fn link(self, id: EdgeId, s: VertexId, t: VertexId) -> Topology {
        let half = self.link_out(id, s, t);
        Topology {
            blocks: half.update(
                t@ as int,
                half[t@ as int].with_in(AdjEntry { other: s, idx: id }),
            ),
            ends: self.ends.insert(id, (s, t)),
            indexed: self.indexed,
            pairs: if self.indexed {
                self.pairs.insert((s, t), self.pairs[(s, t)].push(id))
            } else {
                self.pairs
            },
        }
    }

    /// The out-half of edge `id` unlinked.
    pub open spec fn unlink_out(self, id: EdgeId) -> Seq<BlockView> {
        let s = self.ends[id].0@ as int;
        self.blocks.update(s, self.blocks[s].without_out(spot(self.blocks[s].out, id)))
    }

    /// Edge `id` unlinked: the out-half, the in-half as it then is, and the
    /// indexes.
    pub open spec fn unlink(self, id: EdgeId) -> Topology {
        let (s, t) = self.ends[id];
        let half = self.unlink_out(id);
        Topology {
            blocks: half.update(
                t@ as int,
                half[t@ as int].without_in(spot(half[t@ as int].inc, id)),
            ),
            ends: self.ends.remove(id),
            indexed: self.indexed,
            pairs: if self.indexed {
                self.pairs.insert((s, t), super::index::bucket_without(self.pairs[(s, t)], id))
            } else {
                self.pairs
            },
        }
    }

    /// The edges of `ids` unlinked, the first one first.
    pub open spec fn unlink_all(self, ids: Seq<EdgeId>) -> Topology
        decreases ids.len(),
    {
        if ids.len() == 0 {
            self
        } else {
            self.unlink_all(ids.drop_last()).unlink(ids.last())
        }
    }

    /// Edge `id` unlinked and linked again with `onto` in the place of `from`.
    pub open spec fn relabel(self, id: EdgeId, from: VertexId, onto: VertexId) -> Topology {
        let (s, t) = self.ends[id];
        self.unlink(id).link(id, renamed(s, from, onto), renamed(t, from, onto))
    }

    /// The edges of `ids` relabelled, the first one first.
    pub open spec fn relabel_all(
        self,
        ids: Seq<EdgeId>,
        from: VertexId,
        onto: VertexId,
    ) -> Topology
        decreases ids.len(),
    {
        if ids.len() == 0 {
            self
        } else {
            self.relabel_all(ids.drop_last(), from, onto).relabel(ids.last(), from, onto)
        }
    }

    /// `v` removed, with the last vertex in its place: the edges of `v`
    /// unlinked, those of the last vertex relabelled, and its block dropped.
    pub open spec fn swap_removed(self, v: VertexId) -> Topology {
        let back = VertexId::at((self.blocks.len() - 1) as nat);
        let cleared = self.unlink_all(idents(self.incident_once(v)));
        let moved = if v == back {
            cleared
        } else {
            cleared.relabel_all(idents(cleared.incident_once(back)), back, v)
        };
        moved.drop_vertex()
    }

    /// Whether every entry, endpoint and bucket says the same of the edges.
    ///
    /// Every out-entry of `v` names a live edge that leaves `v` for the entry's
    /// other end, every in-entry one that arrives from there, every live edge
    /// has one entry in each of the two blocks, and the pair index holds every
    /// edge once, under its own pair.
    pub open spec fn wf(self) -> bool {
        &&& self.blocks.len() <= MAX_INDEX + 1
        &&& forall|v: int, j: int|
            0 <= v < self.blocks.len() && 0 <= j < self.blocks[v].out.len() ==> {
                let e = #[trigger] self.blocks[v].out[j];
                &&& self.ends.contains_key(e.idx)
                &&& self.ends[e.idx].0@ == v
                &&& self.ends[e.idx].1 == e.other
            }
        &&& forall|v: int, j: int|
            0 <= v < self.blocks.len() && 0 <= j < self.blocks[v].inc.len() ==> {
                let e = #[trigger] self.blocks[v].inc[j];
                &&& self.ends.contains_key(e.idx)
                &&& self.ends[e.idx].1@ == v
                &&& self.ends[e.idx].0 == e.other
            }
        &&& forall|id: EdgeId| #[trigger]
            self.ends.contains_key(id) ==> {
                let (s, t) = self.ends[id];
                &&& self.has_vertex(s)
                &&& self.has_vertex(t)
                &&& id@ <= MAX_INDEX
                &&& exists|j: int| 0 <= j < self.block(s).out.len() && (
                    #[trigger] self.block(s).out[j]).idx == id
                &&& exists|j: int| 0 <= j < self.block(t).inc.len() && (
                    #[trigger] self.block(t).inc[j]).idx == id
            }
        &&& forall|v: int, i: int, j: int|
            0 <= v < self.blocks.len() && 0 <= i < self.blocks[v].out.len() && 0 <= j
                < self.blocks[v].out.len() && (#[trigger] self.blocks[v].out[i]).idx == (
            #[trigger] self.blocks[v].out[j]).idx ==> i == j
        &&& forall|v: int, i: int, j: int|
            0 <= v < self.blocks.len() && 0 <= i < self.blocks[v].inc.len() && 0 <= j
                < self.blocks[v].inc.len() && (#[trigger] self.blocks[v].inc[i]).idx == (
            #[trigger] self.blocks[v].inc[j]).idx ==> i == j
        &&& forall|p: (VertexId, VertexId)|
            self.pairs.contains_key(p) && (#[trigger] self.pairs[p]).no_duplicates()
        &&& forall|p: (VertexId, VertexId), id: EdgeId| #[trigger]
            self.pairs[p].contains(id) <==> self.indexed && self.ends.contains_key(id)
                && self.ends[id] == p
    }

    /// The endpoints of a live edge.
    pub open spec fn ends_of(self, e: EdgeId) -> Option<(VertexId, VertexId)> {
        if self.ends.contains_key(e) {
            Some(self.ends[e])
        } else {
            None
        }
    }

    /// The first edge from `s` to `t`: of the pair's bucket where edges are
    /// indexed, and of the shorter half, the in-half on a tie, where they are
    /// not.
    pub open spec fn first_between(self, s: VertexId, t: VertexId) -> Option<EdgeId> {
        if !self.has_vertex(s) || !self.has_vertex(t) {
            None
        } else if self.indexed {
            if self.pairs[(s, t)].len() > 0 {
                Some(self.pairs[(s, t)][0])
            } else {
                None
            }
        } else if self.block(s).out.len() < self.block(t).inc.len() {
            first_entry(self.block(s).out, t)
        } else {
            first_entry(self.block(t).inc, s)
        }
    }

    /// Whether edge `id` leaves or enters `v`.
    pub open spec fn touches(self, id: EdgeId, v: VertexId) -> bool {
        self.ends[id].0 == v || self.ends[id].1 == v
    }

    /// The incident edges of `v`, out-half first, every edge once: a self-loop
    /// is named by its out-entry.
    pub open spec fn incident_once(self, v: VertexId) -> Seq<AdjEntry> {
        self.block(v).out + self.block(v).inc.filter(|e: AdjEntry| e.other != v)
    }
}

/// `v` with `onto` in the place of `from`.
pub open spec fn renamed(v: VertexId, from: VertexId, onto: VertexId) -> VertexId {
    if v == from {
        onto
    } else {
        v
    }
}

/// The first edge of a run whose other end is `v`.
pub open spec fn first_entry(run: Seq<AdjEntry>, v: VertexId) -> Option<EdgeId>
    decreases run.len(),
{
    if run.len() == 0 {
        None
    } else if run[0].other == v {
        Some(run[0].idx)
    } else {
        first_entry(run.drop_first(), v)
    }
}

/// The identities of a run of entries.
pub open spec fn idents(entries: Seq<AdjEntry>) -> Seq<EdgeId> {
    entries.map_values(|e: AdjEntry| e.idx)
}

/// The identities of the entries that a row of answers picks.
pub open spec fn picked(entries: Seq<AdjEntry>, picks: Seq<bool>) -> Seq<EdgeId>
    decreases entries.len(),
{
    if entries.len() == 0 {
        Seq::empty()
    } else {
        let before = picked(entries.drop_last(), picks);
        if picks[entries.len() - 1] {
            before.push(entries.last().idx)
        } else {
            before
        }
    }
}

/// The first `j` entries of `v`'s block, without the in-entries of self-loops.
pub(crate) open spec fn once_before(b: BlockView, v: VertexId, j: int) -> Seq<AdjEntry> {
    if j <= b.out.len() {
        b.out.take(j)
    } else {
        b.out + b.inc.take(j - b.out.len()).filter(|e: AdjEntry| e.other != v)
    }
}

pub(crate) proof fn lemma_once_step(b: BlockView, v: VertexId, j: int)
    requires
        0 <= j < b.len(),
    ensures
        once_before(b, v, j + 1) == (if j >= b.out.len() && b.all()[j].other == v {
            once_before(b, v, j)
        } else {
            once_before(b, v, j).push(b.all()[j])
        }),
{
    reveal(Seq::filter);
    let p = |e: AdjEntry| e.other != v;
    if j < b.out.len() {
        assert(once_before(b, v, j + 1) =~= once_before(b, v, j).push(b.all()[j]));
    } else {
        let k = j - b.out.len();
        assert(b.inc.take(k + 1).drop_last() =~= b.inc.take(k));
        assert(b.inc.take(k + 1).last() == b.all()[j]);
        if k == 0 {
            assert(b.inc.take(0) =~= Seq::empty());
            assert(once_before(b, v, j) =~= b.out + b.inc.take(k).filter(p));
        }
        if b.all()[j].other != v {
            assert(once_before(b, v, j + 1) =~= once_before(b, v, j).push(b.all()[j]));
        }
    }
}

pub(crate) proof fn lemma_once_ends(b: BlockView, v: VertexId)
    ensures
        once_before(b, v, 0) == Seq::<AdjEntry>::empty(),
        once_before(b, v, b.len() as int) == b.out + b.inc.filter(|e: AdjEntry| e.other != v),
{
    reveal(Seq::filter);
    assert(once_before(b, v, 0) =~= Seq::empty());
    if b.inc.len() == 0 {
        assert(b.inc =~= Seq::empty());
        assert(once_before(b, v, b.len() as int) =~= b.out + b.inc.filter(
            |e: AdjEntry| e.other != v,
        ));
    } else {
        assert(b.inc.take(b.inc.len() as int) =~= b.inc);
    }
}

pub(crate) proof fn lemma_once_prefix(b: BlockView, v: VertexId, j: int)
    requires
        0 <= j <= b.len(),
    ensures
        once_before(b, v, j).is_prefix_of(once_before(b, v, b.len() as int)),
    decreases b.len() - j,
{
    if j < b.len() {
        lemma_once_step(b, v, j);
        lemma_once_prefix(b, v, j + 1);
    }
}

pub(crate) proof fn lemma_picked_push(entries: Seq<AdjEntry>, picks: Seq<bool>, e: AdjEntry, p: bool)
    requires
        picks.len() == entries.len(),
    ensures
        picked(entries.push(e), picks.push(p)) == (if p {
            picked(entries, picks).push(e.idx)
        } else {
            picked(entries, picks)
        }),
{
    assert(entries.push(e).drop_last() =~= entries);
    lemma_picked_prefix(entries, picks, picks.push(p));
}

proof fn lemma_picked_prefix(entries: Seq<AdjEntry>, a: Seq<bool>, b: Seq<bool>)
    requires
        forall|i: int| 0 <= i < entries.len() ==> a[i] == b[i],
    ensures
        picked(entries, a) == picked(entries, b),
    decreases entries.len(),
{
    if entries.len() > 0 {
        lemma_picked_prefix(entries.drop_last(), a, b);
    }
}

/// What is picked is among the entries, in order and without repetition where
/// they are; picking everything gives all their identities.
pub(crate) proof fn lemma_picked(entries: Seq<AdjEntry>, picks: Seq<bool>)
    requires
        idents(entries).no_duplicates(),
        picks.len() == entries.len(),
    ensures
        picked(entries, picks).no_duplicates(),
        forall|id: EdgeId| #[trigger]
            picked(entries, picks).contains(id) <==> exists|i: int|
                0 <= i < entries.len() && picks[i] && (#[trigger] entries[i]).idx == id,
        (forall|i: int| 0 <= i < picks.len() ==> picks[i]) ==> picked(entries, picks) == idents(
            entries,
        ),
    decreases entries.len(),
{
    if entries.len() > 0 {
        let last = entries.len() - 1;
        let rest = entries.drop_last();
        let before = picked(rest, picks);
        let all = picked(entries, picks);
        assert forall|i: int, j: int|
            0 <= i < rest.len() && 0 <= j < rest.len() && i != j implies #[trigger] idents(rest)[i]
            != #[trigger] idents(rest)[j] by {
            assert(idents(entries)[i] != idents(entries)[j]);
        }
        lemma_picked_prefix(rest, picks, picks.drop_last());
        lemma_picked(rest, picks.drop_last());
        if picks[last] {
            assert(!before.contains(entries[last].idx)) by {
                if before.contains(entries[last].idx) {
                    let i = choose|i: int|
                        0 <= i < rest.len() && picks.drop_last()[i] && (#[trigger] rest[i]).idx
                            == entries[last].idx;
                    assert(idents(entries)[i] == idents(entries)[last]);
                }
            }
        }
        assert forall|id: EdgeId| #[trigger] all.contains(id) <==> exists|i: int|
            0 <= i < entries.len() && picks[i] && (#[trigger] entries[i]).idx == id by {
            if all.contains(id) {
                let k = choose|k: int| 0 <= k < all.len() && all[k] == id;
                if k < before.len() {
                    assert(before[k] == id);
                    assert(before.contains(id));
                    let i = choose|i: int|
                        0 <= i < rest.len() && picks.drop_last()[i] && (#[trigger] rest[i]).idx == id;
                    assert(entries[i].idx == id && picks[i]);
                } else {
                    assert(entries[last].idx == id && picks[last]);
                }
            }
            if exists|i: int|
                0 <= i < entries.len() && picks[i] && (#[trigger] entries[i]).idx == id {
                let i = choose|i: int|
                    0 <= i < entries.len() && picks[i] && (#[trigger] entries[i]).idx == id;
                if i < last {
                    assert(rest[i].idx == id && picks.drop_last()[i]);
                    assert(before.contains(id));
                    let k = choose|k: int| 0 <= k < before.len() && before[k] == id;
                    assert(all[k] == id);
                } else {
                    assert(all[all.len() - 1] == id);
                }
            }
        }
        if forall|i: int| 0 <= i < picks.len() ==> picks[i] {
            assert(idents(entries) =~= idents(rest).push(entries[last].idx));
        }
    } else {
        assert(idents(entries) =~= Seq::empty());
    }
}

impl Topology {
    /// The incident edges of a vertex are live, touch it, and are all of those
    /// that do, each named once.
    pub proof fn incident_once_is_complete(self, v: VertexId)
        requires
            self.wf(),
            self.has_vertex(v),
        ensures
            idents(self.incident_once(v)).no_duplicates(),
            forall|id: EdgeId| #[trigger]
                idents(self.incident_once(v)).contains(id) <==> self.ends.contains_key(id)
                    && self.touches(id, v),
    {
        broadcast use crate::ids::id_is_its_index;

        let b = self.block(v);
        let vi = v@ as int;
        let p = |e: AdjEntry| e.other != v;
        let rest = b.inc.filter(p);
        let all = self.incident_once(v);
        let ids = idents(all);
        crate::seqs::lemma_filter_keeps_order(b.inc, p);
        assert forall|i: int| 0 <= i < all.len() implies {
            &&& self.ends.contains_key(#[trigger] ids[i])
            &&& i < b.out.len() ==> self.ends[ids[i]].0 == v
            &&& i >= b.out.len() ==> self.ends[ids[i]].0 != v && self.ends[ids[i]].1 == v
        } by {
            if i < b.out.len() {
                assert(self.blocks[vi].out[i] == all[i]);
            } else {
                let k = i - b.out.len();
                b.inc.lemma_filter_pred(p, k);
                b.inc.lemma_filter_contains_rev(p, rest[k]);
                let j = choose|j: int| 0 <= j < b.inc.len() && b.inc[j] == rest[k];
                assert(self.blocks[vi].inc[j] == all[i]);
            }
        }
        assert forall|i: int, j: int| 0 <= i < ids.len() && 0 <= j < ids.len() && i != j implies
            #[trigger] ids[i] != #[trigger] ids[j] by {
            if ids[i] == ids[j] {
                if i < b.out.len() && j < b.out.len() {
                    assert(self.blocks[vi].out[i].idx == self.blocks[vi].out[j].idx);
                } else if i >= b.out.len() && j >= b.out.len() {
                    let x = i - b.out.len();
                    let y = j - b.out.len();
                    let (xi, yj) = (
                        crate::seqs::filter_source(b.inc, p, x),
                        crate::seqs::filter_source(b.inc, p, y),
                    );
                    assert(self.blocks[vi].inc[xi].idx == self.blocks[vi].inc[yj].idx);
                }
            }
        }
        assert forall|id: EdgeId| #[trigger] ids.contains(id) <==> self.ends.contains_key(id)
            && self.touches(id, v) by {
            if ids.contains(id) {
                let i = choose|i: int| 0 <= i < ids.len() && ids[i] == id;
            }
            if self.ends.contains_key(id) && self.touches(id, v) {
                let (s, t) = self.ends[id];
                if s == v {
                    let j = choose|j: int|
                        0 <= j < self.block(s).out.len() && (#[trigger] self.block(s).out[j]).idx
                            == id;
                    assert(ids[j] == id);
                } else {
                    let j = choose|j: int|
                        0 <= j < self.block(t).inc.len() && (#[trigger] self.block(t).inc[j]).idx
                            == id;
                    assert(self.blocks[vi].inc[j].idx == id);
                    assert(b.inc[j].other == s);
                    b.inc.lemma_filter_contains(p, j);
                    let k = choose|k: int| 0 <= k < rest.len() && rest[k] == b.inc[j];
                    assert(ids[b.out.len() + k] == id);
                }
            }
        }
    }

    /// Unlinking edges forgets those and no other.
    pub proof fn unlink_all_forgets(self, ids: Seq<EdgeId>)
        ensures
            forall|id: EdgeId| #[trigger]
                self.unlink_all(ids).ends.contains_key(id) <==> self.ends.contains_key(id)
                    && !ids.contains(id),
            forall|id: EdgeId|
                self.ends.contains_key(id) && !ids.contains(id) ==> #[trigger] self.unlink_all(
                    ids,
                ).ends[id] == self.ends[id],
            self.unlink_all(ids).indexed == self.indexed,
        decreases ids.len(),
    {
        if ids.len() > 0 {
            let rest = ids.drop_last();
            self.unlink_all_forgets(rest);
            let half = self.unlink_all(rest);
            assert forall|id: EdgeId| #[trigger] ids.contains(id) == (rest.contains(id) || id
                == ids.last()) by {
                if ids.contains(id) {
                    let k = choose|k: int| 0 <= k < ids.len() && ids[k] == id;
                    if k < rest.len() {
                        assert(rest[k] == id);
                    }
                }
                if rest.contains(id) {
                    let k = choose|k: int| 0 <= k < rest.len() && rest[k] == id;
                    assert(ids[k] == id);
                }
                assert(ids[ids.len() - 1] == ids.last());
            }
            assert(self.unlink_all(ids) == half.unlink(ids.last()));
        }
    }

    /// Relabelling edges renames the endpoints of those and of no other.
    pub proof fn relabel_all_renames(self, ids: Seq<EdgeId>, from: VertexId, onto: VertexId)
        requires
            ids.no_duplicates(),
            forall|k: int| 0 <= k < ids.len() ==> self.ends.contains_key(#[trigger] ids[k]),
        ensures
            forall|id: EdgeId| #[trigger]
                self.relabel_all(ids, from, onto).ends.contains_key(id)
                    <==> self.ends.contains_key(id),
            forall|id: EdgeId|
                self.ends.contains_key(id) ==> #[trigger] self.relabel_all(ids, from, onto).ends[id]
                    == (if ids.contains(id) {
                    (renamed(self.ends[id].0, from, onto), renamed(self.ends[id].1, from, onto))
                } else {
                    self.ends[id]
                }),
        decreases ids.len(),
    {
        if ids.len() > 0 {
            let rest = ids.drop_last();
            let last = ids.last();
            assert(rest.no_duplicates());
            assert forall|k: int| 0 <= k < rest.len() implies self.ends.contains_key(
                #[trigger] rest[k],
            ) by {
                assert(rest[k] == ids[k]);
            }
            self.relabel_all_renames(rest, from, onto);
            let half = self.relabel_all(rest, from, onto);
            assert(!rest.contains(last)) by {
                if rest.contains(last) {
                    let k = choose|k: int| 0 <= k < rest.len() && rest[k] == last;
                    assert(ids[k] == ids[ids.len() - 1]);
                }
            }
            assert(self.ends.contains_key(ids[ids.len() - 1]));
            assert forall|id: EdgeId| #[trigger] ids.contains(id) == (rest.contains(id) || id
                == last) by {
                if ids.contains(id) {
                    let k = choose|k: int| 0 <= k < ids.len() && ids[k] == id;
                    if k < rest.len() {
                        assert(rest[k] == id);
                    }
                }
                if rest.contains(id) {
                    let k = choose|k: int| 0 <= k < rest.len() && rest[k] == id;
                    assert(ids[k] == id);
                }
                assert(ids[ids.len() - 1] == last);
            }
            assert(half.ends[last] == self.ends[last]);
            assert(half.relabel(last, from, onto).ends =~= half.ends.remove(last).insert(
                last,
                (renamed(half.ends[last].0, from, onto), renamed(half.ends[last].1, from, onto)),
            ));
        }
    }

    /// How many entries an unlink leaves to every vertex.
    pub(crate) proof fn lemma_unlink_counts(self, id: EdgeId)
        requires
            self.wf(),
            self.ends.contains_key(id),
        ensures
            self.unlink(id).blocks.len() == self.blocks.len(),
            forall|u: VertexId|
                self.has_vertex(u) ==> {
                    let (s, t) = self.ends[id];
                    let b = #[trigger] self.unlink(id).block(u);
                    &&& b.out.len() == self.block(u).out.len() - (if u == s { 1int } else { 0int })
                    &&& b.inc.len() == self.block(u).inc.len() - (if u == t { 1int } else { 0int })
                },
            self.block(self.ends[id].0).out.len() > 0,
            self.block(self.ends[id].1).inc.len() > 0,
    {
        broadcast use crate::ids::id_is_its_index;

        let (s, t) = self.ends[id];
        assert(self.has_vertex(s) && self.has_vertex(t));
        let j = choose|j: int|
            0 <= j < self.block(s).out.len() && (#[trigger] self.block(s).out[j]).idx == id;
        let k = choose|k: int|
            0 <= k < self.block(t).inc.len() && (#[trigger] self.block(t).inc[k]).idx == id;
        let b = self.blocks[s@ as int];
        assert(b.out[j].idx == id);
        let p = spot(b.out, id);
        assert(0 <= p < b.out.len());
        let half = self.unlink_out(id);
        let c = half[t@ as int];
        assert(c.inc.len() == self.block(t).inc.len());
        if s == t {
            if k == b.inc.len() - 1 {
                assert(c.inc[0].idx == id);
            } else {
                assert(c.inc[k + 1].idx == id);
            }
        } else {
            assert(c.inc[k].idx == id);
        }
        let q = spot(c.inc, id);
        assert(0 <= q < c.inc.len());
    }

    /// How many entries a link leaves to every vertex.
    pub(crate) proof fn lemma_link_counts(self, id: EdgeId, s: VertexId, t: VertexId)
        requires
            self.has_vertex(s),
            self.has_vertex(t),
        ensures
            self.link(id, s, t).blocks.len() == self.blocks.len(),
            forall|u: VertexId|
                self.has_vertex(u) ==> {
                    let b = #[trigger] self.link(id, s, t).block(u);
                    &&& b.out.len() == self.block(u).out.len() + (if u == s { 1int } else { 0int })
                    &&& b.inc.len() == self.block(u).inc.len() + (if u == t { 1int } else { 0int })
                },
    {
        broadcast use crate::ids::id_is_its_index;

    }

    pub(crate) proof fn lemma_unlink_len(self, id: EdgeId)
        requires
            self.wf(),
            self.ends.contains_key(id),
        ensures
            self.unlink(id).blocks.len() == self.blocks.len(),
    {
    }

    /// A vertex that no edge touches has no entries.
    pub proof fn untouched_is_isolated(self, v: VertexId)
        requires
            self.wf(),
            forall|id: EdgeId| #[trigger] self.ends.contains_key(id) ==> !self.touches(id, v),
        ensures
            self.block(v) == BlockView::empty(),
    {
        broadcast use crate::ids::id_is_its_index;

        if self.has_vertex(v) {
            let b = self.blocks[v@ as int];
            if b.out.len() > 0 {
                assert(self.ends.contains_key(b.out[0].idx));
            }
            if b.inc.len() > 0 {
                assert(self.ends.contains_key(b.inc[0].idx));
            }
            assert(b =~= BlockView::empty());
        }
    }
}

} // verus!
