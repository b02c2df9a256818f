//! The walks over adjacency.
//!
//! Descriptors are made as they are yielded and never stored. Because
//! [`Incident`] is anchored, the out-, in- and all-walks differ only in which
//! run of entries they go over.

use vstd::prelude::*;

use super::block::{Block, BlockView};
use super::entry::{AdjEntry, EdgeRef, Incident};
use crate::ids::{EdgeId, VertexId, MAX_INDEX};
use crate::walk::{BackWalk, ExactWalk, Walk};

verus! {

/// An entry as seen from the vertex whose block it is in.
pub open spec fn anchored(e: AdjEntry) -> Incident {
    Incident { other: e.other, edge: e.idx }
}

/// A run of entries as seen from the vertex whose block it is in.
pub open spec fn incidents(run: Seq<AdjEntry>) -> Seq<Incident> {
    run.map_values(|e: AdjEntry| anchored(e))
}

/// Walks a contiguous run of adjacency entries, yielding anchored incidences.
#[derive(Debug)]
pub struct IncidentIter<'a> {
    pub(crate) run: &'a [AdjEntry],
    pub(crate) from: usize,
    pub(crate) to: usize,
}

impl<'a> IncidentIter<'a> {
    /// A walk over `entries`.
    #[inline]
    pub fn new(entries: &'a [AdjEntry]) -> (r: Self)
        ensures
            r.wf(),
            r.rest() == incidents(entries@),
    {
        let r = IncidentIter { run: entries, from: 0, to: entries.len() };
        assert(r.rest() =~= incidents(entries@));
        r
    }

    /// An empty run.
    #[inline]
    pub fn empty() -> (r: Self)
        ensures
            r.wf(),
            r.rest() == Seq::<Incident>::empty(),
    {
        let r = IncidentIter { run: &[], from: 0, to: 0 };
        assert(r.rest() =~= Seq::<Incident>::empty());
        r
    }
}

impl<'a> Clone for IncidentIter<'a> {
    fn clone(&self) -> (r: Self)
        ensures
            r == *self,
    {
        IncidentIter { run: self.run, from: self.from, to: self.to }
    }
}

impl<'a> Walk for IncidentIter<'a> {
    type Item = Incident;

    open(crate) spec fn wf(&self) -> bool {
        self.from <= self.to <= self.run@.len()
    }

    open(crate) spec fn rest(&self) -> Seq<Incident> {
        incidents(self.run@.subrange(self.from as int, self.to as int))
    }

    open(crate) spec fn hint(&self) -> (nat, Option<nat>) {
        (self.rest().len(), Some(self.rest().len()))
    }

    #[inline]
    fn next(&mut self) -> (r: Option<Incident>) {
        if self.from < self.to {
            let e = self.run[self.from];
            self.from = self.from + 1;
            assert(self.rest() =~= old(self).rest().drop_first());
            Some(Incident { other: e.other, edge: e.idx })
        } else {
            None
        }
    }

    #[inline]
    fn size_hint(&self) -> (r: (usize, Option<usize>)) {
        let n: usize = self.to - self.from;
        (n, Some(n))
    }

    #[inline]
    fn fold<B, F: FnMut(B, Incident) -> B>(self, init: B, f: F) -> (r: B) {
        let ghost all = self.rest();
        let ghost f0 = f;
        let mut step = f;
        let mut acc = init;
        let ghost mut accs: Seq<B> = seq![init];
        let mut i: usize = self.from;
        assert(all.take(0) =~= Seq::empty());
        while i < self.to
            invariant
                self.from <= i <= self.to <= self.run@.len(),
                step == f0,
                f0 == f,
                all == self.rest(),
                crate::walk::fold_ready(f0, all, init),
                crate::walk::fold_chain(f0, all.take(i - self.from), init, accs),
                acc == accs.last(),
            decreases self.to - i,
        {
            let e = self.run[i];
            let ghost k = i - self.from;
            let ghost was = accs;
            assert(all[k] == anchored(e));
            assert(accs[k] == acc);
            acc = step(acc, Incident { other: e.other, edge: e.idx });
            proof {
                accs = accs.push(acc);
                crate::walk::lemma_chain_push(f0, all, init, was, k, acc);
            }
            i = i + 1;
        }
        assert(all.take(i - self.from) =~= all);
        acc
    }
}

impl<'a> ExactWalk for IncidentIter<'a> {
    #[inline]
    fn len(&self) -> (r: usize) {
        self.to - self.from
    }
}

impl<'a> BackWalk for IncidentIter<'a> {
    #[inline]
    fn next_back(&mut self) -> (r: Option<Incident>) {
        if self.from < self.to {
            self.to = self.to - 1;
            let e = self.run[self.to];
            assert(self.rest() =~= old(self).rest().drop_last());
            Some(Incident { other: e.other, edge: e.idx })
        } else {
            None
        }
    }
}

/// Out-edges of a vertex.
pub type OutEdges<'a> = IncidentIter<'a>;

/// In-edges of a vertex.
pub type InEdges<'a> = IncidentIter<'a>;

/// All incident edges of a vertex, out-half first.
pub type AllEdges<'a> = IncidentIter<'a>;

/// The identifiers of the indices from `at` to `end`.
pub open spec fn id_run(at: int, end: int) -> Seq<VertexId> {
    Seq::new((end - at) as nat, |i: int| VertexId::at((at + i) as nat))
}

/// The vertex set, as ids.
#[derive(Debug)]
pub struct Vertices {
    pub(crate) at: usize,
    pub(crate) end: usize,
}

impl Vertices {
    /// A walk over the first `n` vertices.
    #[inline]
    pub fn new(n: usize) -> (r: Self)
        requires
            n <= MAX_INDEX + 1,
        ensures
            r.wf(),
            r.rest() == id_run(0, n as int),
    {
        Vertices { at: 0, end: n }
    }
}

impl Clone for Vertices {
    fn clone(&self) -> (r: Self)
        ensures
            r == *self,
    {
        Vertices { at: self.at, end: self.end }
    }
}

impl Walk for Vertices {
    type Item = VertexId;

    open(crate) spec fn wf(&self) -> bool {
        self.at <= self.end <= MAX_INDEX + 1
    }

    open(crate) spec fn rest(&self) -> Seq<VertexId> {
        id_run(self.at as int, self.end as int)
    }

    open(crate) spec fn hint(&self) -> (nat, Option<nat>) {
        (self.rest().len(), Some(self.rest().len()))
    }

    #[inline]
    fn next(&mut self) -> (r: Option<VertexId>) {
        broadcast use crate::ids::id_is_its_index;
        broadcast use crate::ids::id_at;

        if self.at < self.end {
            let v = VertexId::from_index(self.at);
            self.at = self.at + 1;
            assert(self.rest() =~= old(self).rest().drop_first());
            assert(v@ == old(self).rest()[0]@);
            Some(v)
        } else {
            None
        }
    }

    #[inline]
    fn size_hint(&self) -> (r: (usize, Option<usize>)) {
        let n: usize = self.end - self.at;
        (n, Some(n))
    }
}

impl ExactWalk for Vertices {
    #[inline]
    fn len(&self) -> (r: usize) {
        self.end - self.at
    }
}

/// Out-entry `e` of vertex `v`, as an edge.
pub open(crate) spec fn edge_of(v: int, e: AdjEntry) -> EdgeRef {
    EdgeRef { id: e.idx, src: VertexId::at(v as nat), tgt: e.other }
}

/// The edges that leave vertex `v`, from its out-entry `j` on.
pub open spec fn leaving(b: Seq<BlockView>, v: int, j: int) -> Seq<EdgeRef> {
    if j <= b[v].out.len() {
        Seq::new((b[v].out.len() - j) as nat, |i: int| edge_of(v, b[v].out[j + i]))
    } else {
        Seq::empty()
    }
}

/// The edges of the blocks, from out-entry `j` of vertex `v` on: block by
/// block, every out-half in order.
pub open spec fn edges_from(b: Seq<BlockView>, v: int, j: int) -> Seq<EdgeRef>
    decreases b.len() - v,
{
    if v < b.len() {
        leaving(b, v, j) + edges_from(b, v + 1, 0)
    } else {
        Seq::empty()
    }
}

/// The global edge list: every edge exactly once, in canonical orientation.
///
/// The cursor is forward-only: `vertex` never decreases and `within` resets to
/// zero exactly when `vertex` advances, so an empty block is tested once for
/// the whole sweep.
#[derive(Debug)]
pub struct Edges<'a> {
    /// The blocks swept.
    pub blocks: &'a [Block],
    /// The vertex whose block the cursor is in.
    pub vertex: usize,
    /// The next entry of that block's out-half.
    pub within: usize,
}

impl<'a> Edges<'a> {
    /// A sweep over the out-halves of `blocks`.
    #[inline]
    pub fn new(blocks: &'a [Block]) -> (r: Self)
        requires
            super::index::all_wf(blocks@),
            blocks@.len() <= MAX_INDEX + 1,
        ensures
            r.wf(),
            r.rest() == edges_from(super::index::views(blocks@), 0, 0),
            r.blocks == blocks,
            r.vertex == 0,
            r.within == 0,
    {
        Edges { blocks, vertex: 0, within: 0 }
    }
}

impl<'a> Clone for Edges<'a> {
    fn clone(&self) -> (r: Self)
        ensures
            r == *self,
    {
        Edges { blocks: self.blocks, vertex: self.vertex, within: self.within }
    }
}

impl<'a> Walk for Edges<'a> {
    type Item = EdgeRef;

    open spec fn wf(&self) -> bool {
        super::index::all_wf(self.blocks@) && self.blocks@.len() <= MAX_INDEX + 1
    }

    open spec fn rest(&self) -> Seq<EdgeRef> {
        edges_from(super::index::views(self.blocks@), self.vertex as int, self.within as int)
    }

    open spec fn hint(&self) -> (nat, Option<nat>) {
        (0, None)
    }

    #[inline]
    fn next(&mut self) -> (r: Option<EdgeRef>)
        ensures
            final(self).blocks == old(self).blocks,
            old(self).vertex <= final(self).vertex,
            r is None && old(self).vertex <= old(self).blocks@.len() ==> final(self).vertex
                == old(self).blocks@.len(),
            r is Some ==> final(self).vertex < old(self).blocks@.len(),
    {
        broadcast use crate::ids::id_is_its_index;
        broadcast use crate::ids::id_at;

        let ghost b = super::index::views(self.blocks@);
        loop
            invariant
                self.wf(),
                self.blocks == old(self).blocks,
                b == super::index::views(self.blocks@),
                self.rest() == old(self).rest(),
                old(self).vertex <= self.vertex,
                old(self).vertex <= self.blocks@.len() ==> self.vertex <= self.blocks@.len(),
            decreases self.blocks@.len() - self.vertex,
        {
            if self.vertex >= self.blocks.len() {
                return None;
            }
            assert(self.blocks@[self.vertex as int].wf());
            let out = self.blocks[self.vertex].out();
            let ghost v = self.vertex as int;
            let ghost j = self.within as int;
            if self.within < out.len() {
                let e = out[self.within];
                let src = VertexId::from_index(self.vertex);
                self.within = self.within + 1;
                proof {
                    assert(src == VertexId::at(v as nat));
                    assert(leaving(b, v, j + 1) =~= leaving(b, v, j).drop_first());
                    assert(self.rest() =~= old(self).rest().drop_first());
                }
                return Some(EdgeRef::new(e.idx, src, e.other));
            }
            proof {
                assert(leaving(b, v, j) =~= Seq::empty());
                assert(edges_from(b, v, j) =~= edges_from(b, v + 1, 0));
            }
            self.vertex = self.vertex + 1;
            self.within = 0;
        }
    }

    /// Nothing is promised: the blocks ahead are not counted.
    #[inline]
    fn size_hint(&self) -> (r: (usize, Option<usize>)) {
        (0, None)
    }

    /// Two nested loops over the out-halves, so a full sweep never goes through
    /// the per-element cursor of [`next`](Walk::next).
    #[inline]
    fn fold<B, F: FnMut(B, EdgeRef) -> B>(self, init: B, f: F) -> (r: B) {
        broadcast use crate::ids::id_is_its_index;
        broadcast use crate::ids::id_at;

        let ghost b = super::index::views(self.blocks@);
        let ghost all = self.rest();
        let ghost f0 = f;
        let mut step = f;
        let mut acc = init;
        let ghost mut accs: Seq<B> = seq![init];
        let ghost mut done: int = 0;
        let mut vertex: usize = self.vertex;
        let mut within: usize = self.within;
        assert(all.take(0) =~= Seq::empty());
        assert(all.skip(0) =~= all);
        while vertex < self.blocks.len()
            invariant
                self.wf(),
                b == super::index::views(self.blocks@),
                step == f0,
                f0 == f,
                all == self.rest(),
                crate::walk::fold_ready(f0, all, init),
                0 <= done <= all.len(),
                all.skip(done) == edges_from(b, vertex as int, within as int),
                crate::walk::fold_chain(f0, all.take(done), init, accs),
                acc == accs.last(),
            decreases self.blocks@.len() - vertex,
        {
            let src = VertexId::from_index(vertex);
            assert(self.blocks@[vertex as int].wf());
            let out = self.blocks[vertex].out();
            let ghost v = vertex as int;
            let mut i: usize = within;
            while i < out.len()
                invariant
                    src == VertexId::at(v as nat),
                    0 <= v < b.len(),
                    out@ == b[v].out,
                    step == f0,
                    crate::walk::fold_ready(f0, all, init),
                    0 <= done <= all.len(),
                    all.skip(done) == edges_from(b, v, i as int),
                    crate::walk::fold_chain(f0, all.take(done), init, accs),
                    acc == accs.last(),
                    within <= i,
                decreases out@.len() - i,
            {
                let e = out[i];
                let ghost was = accs;
                let item = EdgeRef::new(e.idx, src, e.other);
                assert(done < all.len() && all[done] == item) by {
                    let here = leaving(b, v, i as int);
                    assert(here.len() > 0);
                    assert(edges_from(b, v, i as int) == here + edges_from(b, v + 1, 0));
                    assert(all.skip(done)[0] == here[0]);
                    assert(here[0] == edge_of(v, b[v].out[i as int]));
                    assert(item == edge_of(v, e));
                }
                assert(accs[done] == acc);
                acc = step(acc, item);
                proof {
                    accs = accs.push(acc);
                    crate::walk::lemma_chain_push(f0, all, init, was, done, acc);
                    assert(leaving(b, v, i + 1) =~= leaving(b, v, i as int).drop_first());
                    assert(all.skip(done + 1) =~= all.skip(done).drop_first());
                    assert(edges_from(b, v, i + 1) =~= edges_from(b, v, i as int).drop_first());
                    done = done + 1;
                }
                i = i + 1;
            }
            proof {
                assert(leaving(b, v, i as int) =~= Seq::empty());
                assert(edges_from(b, v, i as int) =~= edges_from(b, v + 1, 0));
            }
            vertex = vertex + 1;
            within = 0;
        }
        assert(all.skip(done).len() == 0);
        assert(all.take(done) =~= all);
        acc
    }
}

/// Exchanges the endpoints of every [`EdgeRef`] that an inner walk yields.
#[derive(Clone, Debug)]
pub struct SwapEnds<I> {
    pub(crate) inner: I,
}

/// An edge with its endpoints exchanged.
pub open(crate) spec fn flipped(e: EdgeRef) -> EdgeRef {
    EdgeRef { id: e.id, src: e.tgt, tgt: e.src }
}

/// The edges of a run with their endpoints exchanged.
pub open spec fn all_flipped(s: Seq<EdgeRef>) -> Seq<EdgeRef> {
    s.map_values(|e: EdgeRef| flipped(e))
}

impl<I: Walk<Item = EdgeRef>> SwapEnds<I> {
    /// Wrap a walk.
    #[inline]
    pub fn new(inner: I) -> (r: Self)
        ensures
            r.wf() == inner.wf(),
            r.rest() == all_flipped(inner.rest()),
    {
        SwapEnds { inner }
    }
}

impl<I: Walk<Item = EdgeRef>> Walk for SwapEnds<I> {
    type Item = EdgeRef;

    open(crate) spec fn wf(&self) -> bool {
        self.inner.wf()
    }

    open(crate) spec fn rest(&self) -> Seq<EdgeRef> {
        all_flipped(self.inner.rest())
    }

    open(crate) spec fn hint(&self) -> (nat, Option<nat>) {
        self.inner.hint()
    }

    #[inline]
    fn next(&mut self) -> (r: Option<EdgeRef>) {
        match self.inner.next() {
            Some(e) => {
                assert(self.rest() =~= old(self).rest().drop_first());
                Some(e.reversed())
            },
            None => None,
        }
    }

    #[inline]
    fn size_hint(&self) -> (r: (usize, Option<usize>)) {
        self.inner.size_hint()
    }
}

impl<I: ExactWalk<Item = EdgeRef>> ExactWalk for SwapEnds<I> {
    #[inline]
    fn len(&self) -> (r: usize) {
        self.inner.len()
    }
}

/// Yields only the edges that survive a filter.
#[derive(Clone, Debug)]
pub struct FilterEdges<I, F> {
    pub(crate) inner: I,
    pub(crate) filter: F,
}

/// Yields only the incidences whose edge and neighbour survive a filter.
#[derive(Clone, Debug)]
pub struct FilterIncident<I, F> {
    pub(crate) inner: I,
    pub(crate) filter: F,
}

/// Yields only the vertices that survive a filter.
#[derive(Clone, Debug)]
pub struct FilterVertices<I, F> {
    pub(crate) inner: I,
    pub(crate) filter: F,
}

/// The edge identities of an incidence run, for callers that only want ids.
#[derive(Clone, Debug)]
pub struct EdgeIdsOf<I> {
    pub(crate) inner: I,
}

/// The identities of a run of incidences.
pub open spec fn edges_of(s: Seq<Incident>) -> Seq<EdgeId> {
    s.map_values(|i: Incident| i.edge)
}

impl<I: Walk<Item = Incident>> EdgeIdsOf<I> {
    /// Wrap a walk.
    #[inline]
    pub fn new(inner: I) -> (r: Self)
        ensures
            r.wf() == inner.wf(),
            r.rest() == edges_of(inner.rest()),
    {
        EdgeIdsOf { inner }
    }
}

impl<I: Walk<Item = Incident>> Walk for EdgeIdsOf<I> {
    type Item = EdgeId;

    open(crate) spec fn wf(&self) -> bool {
        self.inner.wf()
    }

    open(crate) spec fn rest(&self) -> Seq<EdgeId> {
        edges_of(self.inner.rest())
    }

    open(crate) spec fn hint(&self) -> (nat, Option<nat>) {
        self.inner.hint()
    }

    #[inline]
    fn next(&mut self) -> (r: Option<EdgeId>) {
        match self.inner.next() {
            Some(i) => {
                assert(self.rest() =~= old(self).rest().drop_first());
                Some(i.edge)
            },
            None => None,
        }
    }

    #[inline]
    fn size_hint(&self) -> (r: (usize, Option<usize>)) {
        self.inner.size_hint()
    }
}

impl<I: ExactWalk<Item = Incident>> ExactWalk for EdgeIdsOf<I> {
    #[inline]
    fn len(&self) -> (r: usize) {
        self.inner.len()
    }
}

/// The walks over a run of entries and over the vertices know exactly how many
/// items they have left.
pub proof fn plain_walks_know_their_length(a: IncidentIter<'_>, b: Vertices)
    ensures
        a.hint() == (a.rest().len(), Some(a.rest().len())),
        b.hint() == (b.rest().len(), Some(b.rest().len())),
{
}

} // verus!
