//! The adjacency list itself.

use vstd::prelude::*;

use super::allocator::{EdgeIds, IdSpace};
use super::block::{Block, BlockView, End};
use super::entry::{AdjEntry, EdgeRef, EdgeView};
use super::index::{EHash, EdgeSlot, EdgeSlots, Lookup, NoLookup};
use super::iter::{AllEdges, Edges, InEdges, OutEdges, Vertices};
use super::topology::Topology;
use crate::bound::{EdgeBound, VertexBound};
use crate::error::GraphError;
use crate::ids::{EdgeId, GraphId, Raw, VertexId, MAX_INDEX};
use crate::walk::Walk;

verus! {

/// A graph: contiguous adjacency, dense edge indices, constant-time endpoint
/// lookup.
///
/// `H` selects whether an `(s, t)` hash index is maintained. An `AdjList` is
/// neither directed nor undirected: directedness is a property of the view, and
/// `&AdjList` is the directed one.
#[derive(Debug)]
pub struct AdjList<H: Lookup = NoLookup> {
    pub(crate) blocks: Vec<Block>,
    pub(crate) ids: EdgeIds,
    pub(crate) slots: EdgeSlots,
    pub(crate) lookup: H,
    pub(crate) id: GraphId,
    /// Reused across calls, so that a steady-state sweep allocates nothing.
    pub(crate) scratch: Vec<EdgeId>,
}

/// The graph without an edge hash.
pub type Graph = AdjList<NoLookup>;

/// The graph with one, for constant-time lookup by endpoints.
pub type LookupGraph = AdjList<EHash>;

impl<H: Lookup> AdjList<H> {
    /// The graph as a value.
    pub open(crate) spec fn topology(self) -> Topology {
        Topology {
            blocks: super::index::views(self.blocks@),
            ends: Map::new(
                |e: EdgeId| super::index::live_in(self.slots@, e),
                |e: EdgeId| (self.slots@[e@ as int].src, self.slots@[e@ as int].tgt),
            ),
            indexed: H::ENABLED,
            pairs: Map::new(
                |p: (VertexId, VertexId)| true,
                |p: (VertexId, VertexId)| self.lookup.bucket(p.0, p.1),
            ),
        }
    }

    /// The edge index space.
    pub open(crate) spec fn space(self) -> IdSpace {
        self.ids@
    }

    /// The slot table: where the halves of every edge are.
    pub open(crate) spec fn table(self) -> Seq<EdgeSlot> {
        self.slots@
    }

    /// The graph's identity.
    pub open(crate) spec fn identity(self) -> GraphId {
        self.id
    }

    /// The blocks, the slot table and the pair index agree with one another.
    pub open(crate) spec fn indexes_agree(self) -> bool {
        &&& self.blocks@.len() <= MAX_INDEX + 1
        &&& super::index::all_wf(self.blocks@)
        &&& super::consistency::agree(super::index::views(self.blocks@), self.slots@)
        &&& self.slots@.len() <= MAX_INDEX + 1
        &&& super::index::holes_are_blank(self.slots@)
        &&& self.lookup.wf()
        &&& forall|s: VertexId, t: VertexId| (#[trigger] self.lookup.bucket(s, t)).no_duplicates()
        &&& forall|s: VertexId, t: VertexId, id: EdgeId| #[trigger]
            self.lookup.bucket(s, t).contains(id) <==> H::ENABLED && super::index::ends_in(
                self.slots@,
                id,
            ) == Some((s, t))
    }

    /// The graph is well formed: its indexes agree, and the live identifiers
    /// are those of the linked edges.
    pub open(crate) spec fn wf(self) -> bool {
        &&& self.indexes_agree()
        &&& self.ids.wf()
        &&& self.slots@.len() <= self.ids@.bound
        &&& forall|id: EdgeId| #[trigger]
            super::index::live_in(self.slots@, id) <==> self.ids@.is_live(id)
    }

    /// What linking edge `id` leaves: the indexes agree, the table has a slot
    /// for it, and nothing was issued or released.
    pub open(crate) spec fn links_to(self, id: EdgeId, s: VertexId, t: VertexId, after: Self) -> bool {
        &&& after.indexes_agree()
        &&& after.ids == self.ids
        &&& after.id == self.id
        &&& after.topology() == self.topology().link(id, s, t)
        &&& after.table().len() == super::index::grown(self.table(), id@).len()
    }

    /// What unlinking edge `id` leaves: the indexes agree, and nothing was
    /// issued or released.
    pub open(crate) spec fn unlinks_to(self, id: EdgeId, after: Self) -> bool {
        &&& after.indexes_agree()
        &&& after.ids == self.ids
        &&& after.id == self.id
        &&& after.topology() == self.topology().unlink(id)
        &&& after.table().len() == self.table().len()
    }

    /// A well-formed graph is a well-formed value, whose edges are the live
    /// identifiers.
    pub proof fn wf_topology(self)
        requires
            self.wf(),
        ensures
            self.topology().wf(),
            self.space().wf(),
            self.topology().indexed == H::ENABLED,
            forall|id: EdgeId| #[trigger]
                self.topology().ends.contains_key(id) <==> self.space().is_live(id),
    {
        self.lemma_topology_wf();
    }

    proof fn lemma_topology_wf(self)
        requires
            self.indexes_agree(),
        ensures
            self.topology().wf(),
    {
        broadcast use crate::ids::id_is_its_index;
        reveal(super::consistency::agree);

        let t = self.topology();
        let b = t.blocks;
        let s = self.slots@;
        assert forall|v: int, j: int| 0 <= v < b.len() && 0 <= j < b[v].out.len() implies {
            let e = #[trigger] b[v].out[j];
            &&& t.ends.contains_key(e.idx)
            &&& t.ends[e.idx].0@ == v
            &&& t.ends[e.idx].1 == e.other
        } by {
            assert(super::consistency::out_agrees(b, s, v, j, b[v].out[j]));
        }
        assert forall|v: int, j: int| 0 <= v < b.len() && 0 <= j < b[v].inc.len() implies {
            let e = #[trigger] b[v].inc[j];
            &&& t.ends.contains_key(e.idx)
            &&& t.ends[e.idx].1@ == v
            &&& t.ends[e.idx].0 == e.other
        } by {
            assert(super::consistency::in_agrees(b, s, v, b[v].out.len() + j, b[v].inc[j]));
        }
        assert forall|id: EdgeId| #[trigger] t.ends.contains_key(id) implies {
            let (x, y) = t.ends[id];
            &&& t.has_vertex(x)
            &&& t.has_vertex(y)
            &&& id@ <= MAX_INDEX
            &&& exists|j: int| 0 <= j < t.block(x).out.len() && (
                #[trigger] t.block(x).out[j]).idx == id
            &&& exists|j: int| 0 <= j < t.block(y).inc.len() && (
                #[trigger] t.block(y).inc[j]).idx == id
        } by {
            let (x, y) = t.ends[id];
            let slot = s[id@ as int];
            assert(super::consistency::has_out(b, slot, id@ as int));
            assert(super::consistency::has_in(b, slot, id@ as int));
            assert(t.block(x).out[slot.out_pos as int].idx == id);
            assert(t.block(y).inc[slot.in_pos - t.block(y).out.len()].idx == id);
        }
        assert forall|v: int, i: int, j: int|
            0 <= v < b.len() && 0 <= i < b[v].out.len() && 0 <= j < b[v].out.len() && (
            #[trigger] b[v].out[i]).idx == (#[trigger] b[v].out[j]).idx implies i == j by {
            assert(super::consistency::out_agrees(b, s, v, i, b[v].out[i]));
            assert(super::consistency::out_agrees(b, s, v, j, b[v].out[j]));
        }
        assert forall|v: int, i: int, j: int|
            0 <= v < b.len() && 0 <= i < b[v].inc.len() && 0 <= j < b[v].inc.len() && (
            #[trigger] b[v].inc[i]).idx == (#[trigger] b[v].inc[j]).idx implies i == j by {
            assert(super::consistency::in_agrees(b, s, v, b[v].out.len() + i, b[v].inc[i]));
            assert(super::consistency::in_agrees(b, s, v, b[v].out.len() + j, b[v].inc[j]));
        }
        assert forall|p: (VertexId, VertexId)|
            t.pairs.contains_key(p) && (#[trigger] t.pairs[p]).no_duplicates() by {
            assert(t.pairs[p] == self.lookup.bucket(p.0, p.1));
        }
        assert forall|p: (VertexId, VertexId), id: EdgeId| #[trigger]
            t.pairs[p].contains(id) <==> t.indexed && t.ends.contains_key(id) && t.ends[id]
                == p by {
            assert(t.pairs[p] == self.lookup.bucket(p.0, p.1));
        }
    }

    /// Link an already-allocated edge id into both halves: the out-half first,
    /// which may displace the in-half's first entry, then the in-half, then the
    /// derived indexes.
    pub(crate) fn splice_in(&mut self, id: EdgeId, s: VertexId, t: VertexId) -> (r: Result<
        EdgeRef,
        GraphError,
    >)
        requires
            old(self).indexes_agree(),
            id@ <= MAX_INDEX,
            !super::index::live_in(old(self).slots@, id),
            old(self).topology().has_vertex(s) && old(self).topology().has_vertex(t) ==> old(
                self,
            ).topology().has_room(s, t),
        ensures
            match r {
                Ok(e) => {
                    &&& old(self).topology().has_vertex(s) && old(self).topology().has_vertex(t)
                    &&& e@ == (EdgeView { id, src: s, tgt: t })
                    &&& old(self).links_to(id, s, t, *final(self))
                },
                Err(err) => {
                    &&& err == (GraphError::NoSuchVertex(
                        if old(self).topology().has_vertex(s) {
                            t
                        } else {
                            s
                        },
                    ))
                    &&& !(old(self).topology().has_vertex(s) && old(self).topology().has_vertex(t))
                    &&& *final(self) == *old(self)
                },
            },
    {
        broadcast use crate::ids::id_is_its_index;

        let n: usize = self.blocks.len();
        if s.index() >= n {
            return Err(GraphError::NoSuchVertex(s));
        }
        if t.index() >= n {
            return Err(GraphError::NoSuchVertex(t));
        }
        let ghost before = *self;
        let ghost b0 = super::index::views(self.blocks@);
        let ghost s0 = self.slots@;
        let ghost half = before.topology().link_out(id, s, t);
        let ghost slot = EdgeSlot {
            src: s,
            tgt: t,
            out_pos: b0[s@ as int].out.len() as Raw,
            in_pos: half[t@ as int].len() as Raw,
        };
        let ghost s1 = super::index::grown(s0, id@).update(id@ as int, slot);
        proof {
            super::consistency::lemma_preset(b0, s0, id, slot);
            super::consistency::lemma_insert_out(b0, s1, id, false);
            assert(before.blocks@[s@ as int].wf());
        }
        let ghost m = b0[s@ as int].moved_by_insert();
        let (out_pos, displaced) = self.blocks[s.index()].insert_out(AdjEntry { other: t, idx: id });
        assert(super::index::views(self.blocks@) =~= half);
        if let Some(moved) = displaced {
            assert(super::index::live_in(s0, moved.id)) by {
                reveal(super::consistency::agree);
                assert(super::consistency::in_agrees(
                    b0,
                    s0,
                    s@ as int,
                    b0[s@ as int].out.len() as int,
                    b0[s@ as int].inc[0],
                ));
            }
            self.slots.on_move(moved);
        }
        assert(self.blocks@[t@ as int].wf());
        let in_pos: Raw = self.blocks[t.index()].insert_in(AdjEntry { other: s, idx: id });
        let ghost done = before.topology().link(id, s, t).blocks;
        assert(super::index::views(self.blocks@) =~= done);
        self.slots.on_insert(id, EdgeSlot { src: s, tgt: t, out_pos, in_pos });
        proof {
            let s2 = super::index::relocated(s1, m);
            assert(self.slots@ =~= s2);
            super::consistency::lemma_insert_in(half, s2, id, true);
            assert(super::consistency::agree(done, self.slots@)) by {
                reveal(super::consistency::agree);
                reveal(super::consistency::agree_but);
            }
            lemma_bucket_has_room(before, s, t, id);
            assert forall|a: VertexId, b: VertexId| H::ENABLED implies
                !(#[trigger] before.lookup.bucket(a, b)).contains(id) by {}
        }
        self.lookup.on_link(s, t, id);
        proof {
            lemma_linked_ends(s0, self.slots@, m, id, slot);
            assert forall|a: VertexId, b: VertexId|
                (#[trigger] self.lookup.bucket(a, b)).no_duplicates() by {
                assert(before.lookup.bucket(a, b).no_duplicates());
            }
            assert forall|a: VertexId, b: VertexId, e: EdgeId| #[trigger]
                self.lookup.bucket(a, b).contains(e) <==> H::ENABLED && super::index::ends_in(
                    self.slots@,
                    e,
                ) == Some((a, b)) by {
                let was = before.lookup.bucket(a, b);
                if H::ENABLED && a == s && b == t {
                    lemma_push_contains(was, id, e);
                }
                assert(was.contains(e) <==> H::ENABLED && super::index::ends_in(s0, e) == Some(
                    (a, b),
                ));
            }
            let now = self.topology();
            let want = before.topology().link(id, s, t);
            assert(now.ends =~= want.ends);
            assert(now.pairs =~= want.pairs);
            assert(now =~= want);
        }
        Ok(EdgeRef::new(id, s, t))
    }
}

impl<H: Lookup> AdjList<H> {
    /// Unlink a live edge from both halves, leaving the id allocated.
    ///
    /// The in-half is located *after* the out-half is spliced, because the out
    /// splice can move it: removing a self-loop's out-entry promotes the loop's
    /// own in-entry across the boundary.
    pub(crate) fn splice_out(&mut self, id: EdgeId) -> (r: Result<(VertexId, VertexId), GraphError>)
        requires
            old(self).indexes_agree(),
        ensures
            match r {
                Ok(ends) => {
                    &&& old(self).topology().ends.contains_key(id)
                    &&& ends == old(self).topology().ends[id]
                    &&& old(self).unlinks_to(id, *final(self))
                },
                Err(err) => {
                    &&& !old(self).topology().ends.contains_key(id)
                    &&& err == GraphError::NoSuchEdge(id)
                    &&& *final(self) == *old(self)
                },
            },
    {
        broadcast use crate::ids::id_is_its_index;

        let (s, t) = match self.slots.endpoints(id) {
            Some(ends) => ends,
            None => {
                return Err(GraphError::NoSuchEdge(id));
            },
        };
        let ghost before = *self;
        let ghost b0 = super::index::views(self.blocks@);
        let ghost s0 = self.slots@;
        proof {
            super::consistency::lemma_unlink(b0, s0, id);
        }
        let (owner, out_pos) = match self.slots.locate(self.blocks.as_slice(), id, End::Out) {
            Some(found) => found,
            None => {
                return Err(GraphError::NoSuchEdge(id));
            },
        };
        self.remove_half(owner, out_pos, End::Out);
        let ghost half = before.topology().unlink_out(id);
        assert(super::index::views(self.blocks@) =~= half);
        let (owner, in_pos) = match self.slots.locate(self.blocks.as_slice(), id, End::In) {
            Some(found) => found,
            None => {
                return Err(GraphError::Invariant("a live edge's in-half is not locatable"));
            },
        };
        self.remove_half(owner, in_pos, End::In);
        let ghost done = before.topology().unlink(id).blocks;
        assert(super::index::views(self.blocks@) =~= done);
        self.slots.on_remove(id);
        assert(before.lookup.bucket(s, t).contains(id) <==> H::ENABLED);
        self.lookup.on_unlink(s, t, id);
        proof {
            lemma_unlinked_pairs(before, *self, s, t, id);
            let now = self.topology();
            let want = before.topology().unlink(id);
            assert(now.ends =~= want.ends);
            assert(now.pairs =~= want.pairs);
            assert(now =~= want);
        }
        Ok((s, t))
    }

    /// Remove one entry from a block, noting every relocation in the slot table.
    fn remove_half(&mut self, owner: VertexId, pos: Raw, end: End)
        requires
            super::index::all_wf(old(self).blocks@),
            owner@ < old(self).blocks@.len(),
            old(self).blocks@[owner@ as int]@.holds(pos as int, end),
            ({
                let (m0, m1) = old(self).blocks@[owner@ as int]@.moved_by_remove(pos as int, end);
                &&& m0 matches Some(m) ==> super::index::live_in(old(self).slots@, m.id)
                &&& m1 matches Some(m) ==> super::index::live_in(
                    super::index::relocated(old(self).slots@, m0),
                    m.id,
                )
            }),
        ensures
            super::index::all_wf(final(self).blocks@),
            super::index::views(final(self).blocks@) == super::index::views(
                old(self).blocks@,
            ).update(
                owner@ as int,
                super::index::views(old(self).blocks@)[owner@ as int].without(pos as int, end),
            ),
            ({
                let (m0, m1) = old(self).blocks@[owner@ as int]@.moved_by_remove(pos as int, end);
                final(self).slots@ == super::index::relocated(
                    super::index::relocated(old(self).slots@, m0),
                    m1,
                )
            }),
            final(self).ids == old(self).ids,
            final(self).lookup == old(self).lookup,
            final(self).id == old(self).id,
    {
        let ghost before = self.blocks@;
        assert(self.blocks@[owner@ as int].wf());
        let moves = self.blocks[owner.index()].remove_at(pos, end);
        assert(super::index::views(self.blocks@) =~= super::index::views(before).update(
            owner@ as int,
            before[owner@ as int]@.without(pos as int, end),
        ));
        if let Some(m) = moves[0] {
            self.slots.on_move(m);
        }
        if let Some(m) = moves[1] {
            self.slots.on_move(m);
        }
    }

    /// Append an isolated vertex.
    pub fn add_vertex(&mut self) -> (r: Result<VertexId, GraphError>)
        requires
            old(self).wf(),
        ensures
            final(self).wf(),
            final(self).identity() == old(self).identity(),
            final(self).space() == old(self).space(),
            match r {
                Ok(v) => {
                    &&& old(self).topology().blocks.len() <= MAX_INDEX
                    &&& v@ == old(self).topology().blocks.len()
                    &&& final(self).topology() == old(self).topology().add_vertex()
                },
                Err(err) => {
                    &&& old(self).topology().blocks.len() > MAX_INDEX
                    &&& err == (GraphError::VertexIdSpaceExhausted { max: MAX_INDEX })
                    &&& final(self).topology() == old(self).topology()
                },
            },
    {
        let v = match VertexId::new(self.blocks.len()) {
            Some(v) => v,
            None => {
                return Err(GraphError::VertexIdSpaceExhausted { max: MAX_INDEX });
            },
        };
        let ghost b0 = super::index::views(self.blocks@);
        self.blocks.push(Block::new());
        proof {
            let b = super::index::views(self.blocks@);
            assert(b =~= b0.push(BlockView::empty()));
            super::consistency::lemma_one_more(b0, self.slots@);
            assert(self.topology() =~= old(self).topology().add_vertex());
        }
        Ok(v)
    }

    /// Add an edge, in amortised constant time in both halves.
    ///
    /// Both endpoints are checked *before* an index is taken, so a failed call
    /// leaves the index space untouched. The blocks of `s` and `t` must have
    /// room: their positions fit the index width.
    pub fn add_edge(&mut self, s: VertexId, t: VertexId) -> (r: Result<EdgeRef, GraphError>)
        requires
            old(self).wf(),
            old(self).topology().has_vertex(s) && old(self).topology().has_vertex(t) && old(
                self,
            ).space().has_next() ==> old(self).topology().has_room(s, t),
        ensures
            final(self).wf(),
            final(self).identity() == old(self).identity(),
            match r {
                Ok(e) => {
                    let id = old(self).space().next_id();
                    &&& old(self).topology().has_vertex(s)
                    &&& old(self).topology().has_vertex(t)
                    &&& old(self).space().has_next()
                    &&& e@ == (EdgeView { id, src: s, tgt: t })
                    &&& final(self).topology() == old(self).topology().link(id, s, t)
                    &&& final(self).space() == old(self).space().issue()
                },
                Err(err) => {
                    &&& err == (if !old(self).topology().has_vertex(s) {
                        GraphError::NoSuchVertex(s)
                    } else if !old(self).topology().has_vertex(t) {
                        GraphError::NoSuchVertex(t)
                    } else {
                        GraphError::EdgeIdSpaceExhausted { max: MAX_INDEX }
                    })
                    &&& !(old(self).topology().has_vertex(s) && old(self).topology().has_vertex(t)
                        && old(self).space().has_next())
                    &&& final(self).topology() == old(self).topology()
                    &&& final(self).space() == old(self).space()
                },
            },
    {
        let n: usize = self.blocks.len();
        if s.index() >= n {
            return Err(GraphError::NoSuchVertex(s));
        }
        if t.index() >= n {
            return Err(GraphError::NoSuchVertex(t));
        }
        let ghost before = *self;
        proof {
            super::allocator::issuing_keeps_the_space(self.ids@);
        }
        let id = match self.ids.allocate() {
            Ok(id) => id,
            Err(err) => {
                assert(self.topology() =~= before.topology());
                return Err(err);
            },
        };
        assert(self.topology() =~= before.topology());
        proof {
            assert(!before.ids@.is_live(id));
            assert(!super::index::live_in(before.slots@, id));
            assert(self.ids@.is_live(id));
            before.lemma_topology_wf();
        }
        match self.splice_in(id, s, t) {
            Ok(e) => {
                proof {
                    before.topology().lemma_link_ends(id, s, t);
                    self.lemma_live_is_linked(before, id);
                }
                Ok(e)
            },
            Err(err) => {
                self.ids.release(id);
                Err(err)
            },
        }
    }

    /// Remove an edge, by identity.
    pub fn remove_edge(&mut self, e: EdgeId) -> (r: Result<(), GraphError>)
        requires
            old(self).wf(),
        ensures
            final(self).wf(),
            final(self).identity() == old(self).identity(),
            r is Ok <==> old(self).topology().ends.contains_key(e),
            r is Ok ==> {
                &&& final(self).topology() == old(self).topology().unlink(e)
                &&& final(self).space() == old(self).space().give(e)
            },
            r is Err ==> {
                &&& r == Err::<(), GraphError>(GraphError::NoSuchEdge(e))
                &&& final(self).topology() == old(self).topology()
                &&& final(self).space() == old(self).space()
            },
    {
        let ghost before = *self;
        match self.splice_out(e) {
            Ok(_) => {},
            Err(err) => {
                return Err(err);
            },
        }
        proof {
            assert(super::index::live_in(before.slots@, e));
            super::allocator::releasing_keeps_the_space(self.ids@, e);
            assert(self.topology().ends == before.topology().ends.remove(e));
        }
        let ghost half = *self;
        self.ids.release(e);
        proof {
            assert forall|id: EdgeId| #[trigger]
                super::index::live_in(self.slots@, id) <==> self.ids@.is_live(id) by {
                assert(super::index::live_in(self.slots@, id) == self.topology().ends.contains_key(
                    id,
                ));
                assert(super::index::live_in(before.slots@, id)
                    == before.topology().ends.contains_key(id));
                assert(half.topology().ends.contains_key(id) == self.topology().ends.contains_key(id));
            }
            assert(self.topology() =~= half.topology());
        }
        Ok(())
    }

    /// Remove every edge incident to `v`, leaving `v` in place.
    #[inline]
    pub fn clear_vertex(&mut self, v: VertexId) -> (r: Result<(), GraphError>)
        requires
            old(self).wf(),
        ensures
            final(self).wf(),
            final(self).identity() == old(self).identity(),
            r is Ok <==> old(self).topology().has_vertex(v),
            r is Ok ==> {
                let was = old(self).topology();
                let now = final(self).topology();
                let doomed = super::topology::idents(was.incident_once(v));
                &&& now == was.unlink_all(doomed)
                &&& final(self).space() == old(self).space().give_all(doomed)
                &&& now.blocks.len() == was.blocks.len()
                &&& now.block(v) == BlockView::empty()
                &&& forall|id: EdgeId| #[trigger]
                    now.ends.contains_key(id) <==> was.ends.contains_key(id) && !was.touches(id, v)
                &&& forall|id: EdgeId|
                    now.ends.contains_key(id) ==> #[trigger] now.ends[id] == was.ends[id]
            },
            r is Err ==> {
                &&& r == Err::<(), GraphError>(GraphError::NoSuchVertex(v))
                &&& final(self).topology() == old(self).topology()
                &&& final(self).space() == old(self).space()
            },
    {
        let ghost before = *self;
        let always = |_e: EdgeId, _u: VertexId| -> (hit: bool)
            ensures
                hit == true
        {
            true
        };
        let r = self.clear_vertex_where(v, always);
        proof {
            if r is Ok {
                before.lemma_topology_wf();
                self.lemma_topology_wf();
                let all = before.topology().incident_once(v);
                before.topology().incident_once_is_complete(v);
                let picks = choose|picks: Seq<bool>|
                    #![trigger super::topology::picked(all, picks)]
                    {
                        let doomed = super::topology::picked(all, picks);
                        &&& picks.len() == all.len()
                        &&& forall|i: int|
                            0 <= i < all.len() ==> call_ensures(
                                always,
                                ((#[trigger] all[i]).idx, all[i].other),
                                picks[i],
                            )
                        &&& self.topology() == before.topology().unlink_all(doomed)
                        &&& self.space() == before.space().give_all(doomed)
                    };
                assert forall|i: int| 0 <= i < picks.len() implies picks[i] by {
                    assert(call_ensures(always, (all[i].idx, all[i].other), picks[i]));
                }
                super::topology::lemma_picked(all, picks);
                before.topology().unlink_all_forgets(super::topology::idents(all));
                self.topology().untouched_is_isolated(v);
            }
        }
        r
    }

    /// Remove the incident edges of `v` that satisfy `pred`.
    ///
    /// `pred` is asked once per *edge*, as `pred(id, other)`, where `other` is
    /// the endpoint that is not `v` -- `v` itself for a self-loop -- in the
    /// order of the block.
    pub fn clear_vertex_where<F>(&mut self, v: VertexId, mut pred: F) -> (r: Result<(), GraphError>)
        where F: FnMut(EdgeId, VertexId) -> bool
        requires
            old(self).wf(),
            old(self).topology().has_vertex(v) ==> forall|i: int|
                0 <= i < old(self).topology().incident_once(v).len() ==> call_requires(
                    pred,
                    (
                        (#[trigger] old(self).topology().incident_once(v)[i]).idx,
                        old(self).topology().incident_once(v)[i].other,
                    ),
                ),
        ensures
            final(self).wf(),
            final(self).identity() == old(self).identity(),
            r is Ok <==> old(self).topology().has_vertex(v),
            r is Ok ==> exists|picks: Seq<bool>|
                #![trigger super::topology::picked(old(self).topology().incident_once(v), picks)]
                {
                    let all = old(self).topology().incident_once(v);
                    let doomed = super::topology::picked(all, picks);
                    &&& picks.len() == all.len()
                    &&& forall|i: int|
                        0 <= i < all.len() ==> call_ensures(
                            pred,
                            ((#[trigger] all[i]).idx, all[i].other),
                            picks[i],
                        )
                    &&& final(self).topology() == old(self).topology().unlink_all(doomed)
                    &&& final(self).space() == old(self).space().give_all(doomed)
                    &&& final(self).topology().blocks.len() == old(self).topology().blocks.len()
                },
            r is Err ==> {
                &&& r == Err::<(), GraphError>(GraphError::NoSuchVertex(v))
                &&& final(self).topology() == old(self).topology()
                &&& final(self).space() == old(self).space()
            },
    {
        if v.index() >= self.blocks.len() {
            return Err(GraphError::NoSuchVertex(v));
        }
        let ghost before = *self;
        let ghost all = before.topology().incident_once(v);
        let ghost b = before.topology().block(v);
        let ghost pred0 = pred;
        let mut scratch: Vec<EdgeId> = Vec::new();
        std::mem::swap(&mut scratch, &mut self.scratch);
        scratch.clear();
        let ghost mut picks: Seq<bool> = Seq::empty();
        {
            assert(self.blocks@[v@ as int].wf());
            let block = &self.blocks[v.index()];
            let out_len: usize = block.out_degree();
            let entries = block.all();
            let mut j: usize = 0;
            proof {
                super::topology::lemma_once_ends(b, v);
            }
            while j < entries.len()
                invariant
                    j <= entries@.len(),
                    entries@ == b.all(),
                    entries@.len() == b.len(),
                    out_len == b.out.len(),
                    pred == pred0,
                    all == super::topology::once_before(b, v, b.len() as int),
                    picks.len() == super::topology::once_before(b, v, j as int).len(),
                    scratch@ == super::topology::picked(
                        super::topology::once_before(b, v, j as int),
                        picks,
                    ),
                    super::topology::once_before(b, v, j as int).is_prefix_of(all),
                    forall|i: int|
                        0 <= i < all.len() ==> call_requires(
                            pred0,
                            ((#[trigger] all[i]).idx, all[i].other),
                        ),
                    forall|i: int|
                        0 <= i < picks.len() ==> call_ensures(
                            pred0,
                            ((#[trigger] all[i]).idx, all[i].other),
                            picks[i],
                        ),
                decreases entries@.len() - j,
            {
                let e = entries[j];
                proof {
                    super::topology::lemma_once_step(b, v, j as int);
                    super::topology::lemma_once_prefix(b, v, j + 1);
                }
                if j >= out_len && e.other == v {
                    j = j + 1;
                    continue;
                }
                let ghost sofar = super::topology::once_before(b, v, j as int);
                assert(all[sofar.len() as int] == e) by {
                    assert(sofar.push(e)[sofar.len() as int] == e);
                }
                let hit = pred(e.idx, e.other);
                proof {
                    super::topology::lemma_picked_push(sofar, picks, e, hit);
                    picks = picks.push(hit);
                }
                if hit {
                    scratch.push(e.idx);
                }
                j = j + 1;
            }
        }
        let ghost doomed = scratch@;
        assert(doomed == super::topology::picked(all, picks));
        assert(self.topology() =~= before.topology());
        proof {
            before.lemma_topology_wf();
            before.topology().incident_once_is_complete(v);
            super::topology::lemma_picked(all, picks);
            assert forall|k: int| 0 <= k < doomed.len() implies before.topology().ends.contains_key(
                #[trigger] doomed[k],
            ) by {
                assert(doomed.contains(doomed[k]));
                let i = choose|i: int|
                    0 <= i < all.len() && picks[i] && (#[trigger] all[i]).idx == doomed[k];
                assert(super::topology::idents(all)[i] == doomed[k]);
                assert(super::topology::idents(all).contains(doomed[k]));
            }
        }
        let mut k: usize = 0;
        assert(doomed.take(0) =~= Seq::empty());
        assert(before.ids@.give_all(doomed.take(0)) =~= before.ids@);
        while k < scratch.len()
            invariant
                k <= scratch@.len(),
                scratch@ == doomed,
                doomed.no_duplicates(),
                before.wf(),
                self.wf(),
                self.id == before.id,
                forall|k: int|
                    0 <= k < doomed.len() ==> before.topology().ends.contains_key(
                        #[trigger] doomed[k],
                    ),
                self.topology() == before.topology().unlink_all(doomed.take(k as int)),
                self.ids@ == before.ids@.give_all(doomed.take(k as int)),
                self.topology().blocks.len() == before.topology().blocks.len(),
            decreases scratch@.len() - k,
        {
            let id = scratch[k];
            let ghost half = *self;
            proof {
                before.topology().unlink_all_forgets(doomed.take(k as int));
                assert(!doomed.take(k as int).contains(id)) by {
                    if doomed.take(k as int).contains(id) {
                        let i = choose|i: int|
                            0 <= i < doomed.take(k as int).len() && doomed.take(k as int)[i] == id;
                        assert(doomed[i] == doomed[k as int]);
                    }
                }
                self.lemma_topology_wf();
                self.topology().lemma_unlink_len(id);
                assert(doomed.take(k + 1).drop_last() =~= doomed.take(k as int));
                assert(before.ids@.give_all(doomed.take(k as int)).give(id) =~= before.ids@.give_all(
                    doomed.take(k + 1),
                ));
            }
            if let Err(err) = self.remove_edge(id) {
                return Err(err);
            }
            k = k + 1;
        }
        assert(doomed.take(k as int) =~= doomed);
        scratch.clear();
        self.scratch = scratch;
        assert(self.topology() =~= before.topology().unlink_all(doomed));
        Ok(())
    }

    /// Remove `v`, moving the last vertex into its slot and relabelling.
    ///
    /// The edges of `v` go. Every other edge stays, with `v` written for the
    /// last vertex where that was an endpoint. Relabelling is expressed as
    /// unlink-then-relink, so the slot table and the `(s, t)` index are told of
    /// *both* directions.
    pub fn swap_remove_vertex(&mut self, v: VertexId) -> (r: Result<(), GraphError>)
        requires
            old(self).wf(),
        ensures
            final(self).wf(),
            final(self).identity() == old(self).identity(),
            r is Ok <==> old(self).topology().has_vertex(v),
            r is Ok ==> {
                let was = old(self).topology();
                let now = final(self).topology();
                let back = VertexId::at((was.blocks.len() - 1) as nat);
                &&& now == was.swap_removed(v)
                &&& final(self).space() == old(self).space().give_all(
                    super::topology::idents(was.incident_once(v)),
                )
                &&& now.blocks.len() == was.blocks.len() - 1
                &&& forall|id: EdgeId| #[trigger]
                    now.ends.contains_key(id) <==> was.ends.contains_key(id) && !was.touches(id, v)
                &&& forall|id: EdgeId|
                    now.ends.contains_key(id) ==> #[trigger] now.ends[id] == (
                        super::topology::renamed(was.ends[id].0, back, v),
                        super::topology::renamed(was.ends[id].1, back, v),
                    )
            },
            r is Err ==> {
                &&& r == Err::<(), GraphError>(GraphError::NoSuchVertex(v))
                &&& final(self).topology() == old(self).topology()
                &&& final(self).space() == old(self).space()
            },
    {
        broadcast use crate::ids::id_is_its_index;
        broadcast use crate::ids::id_at;

        let n: usize = self.blocks.len();
        if v.index() >= n {
            return Err(GraphError::NoSuchVertex(v));
        }
        let ghost was = self.topology();
        let ghost doomed = super::topology::idents(was.incident_once(v));
        proof {
            self.lemma_topology_wf();
            was.incident_once_is_complete(v);
            was.unlink_all_forgets(doomed);
        }
        if let Err(err) = self.clear_vertex(v) {
            return Err(err);
        }
        let back = VertexId::from_index(n - 1);
        assert(back == VertexId::at((was.blocks.len() - 1) as nat));
        let ghost cleared = *self;
        let ghost ids = super::topology::idents(self.topology().incident_once(back));
        proof {
            self.lemma_topology_wf();
            self.topology().incident_once_is_complete(back);
        }
        if v != back {
            let mut scratch: Vec<EdgeId> = Vec::new();
            std::mem::swap(&mut scratch, &mut self.scratch);
            assert(self.topology() =~= cleared.topology());
            scratch.clear();
            {
                let ghost b = self.topology().block(back);
                assert(self.blocks@[back@ as int].wf());
                let block = &self.blocks[back.index()];
                let out_len: usize = block.out_degree();
                let entries = block.all();
                let mut j: usize = 0;
                proof {
                    super::topology::lemma_once_ends(b, back);
                    assert(scratch@ =~= super::topology::idents(
                        super::topology::once_before(b, back, 0),
                    ));
                }
                while j < entries.len()
                    invariant
                        j <= entries@.len(),
                        entries@ == b.all(),
                        entries@.len() == b.len(),
                        out_len == b.out.len(),
                        scratch@ == super::topology::idents(
                            super::topology::once_before(b, back, j as int),
                        ),
                    decreases entries@.len() - j,
                {
                    let e = entries[j];
                    proof {
                        super::topology::lemma_once_step(b, back, j as int);
                        let sofar = super::topology::once_before(b, back, j as int);
                        assert(super::topology::idents(sofar.push(e)) =~= super::topology::idents(
                            sofar,
                        ).push(e.idx));
                    }
                    if j >= out_len && e.other == back {
                        j = j + 1;
                        continue;
                    }
                    scratch.push(e.idx);
                    j = j + 1;
                }
            }
            assert(scratch@ == ids);
            assert forall|k: int| 0 <= k < ids.len() implies
                cleared.topology().ends.contains_key(#[trigger] ids[k])
                && cleared.topology().touches(ids[k], back) by {
                assert(ids.contains(ids[k]));
            }
            let outcome = self.relabel(scratch.as_slice(), back, v);
            proof {
                cleared.topology().relabel_all_renames(ids, back, v);
            }
            scratch.clear();
            let ghost relabelled = *self;
            self.scratch = scratch;
            assert(self.topology() =~= relabelled.topology());
            if let Err(err) = outcome {
                return Err(err);
            }
        }
        let ghost moved = *self;
        proof {
            self.lemma_topology_wf();
            assert forall|id: EdgeId| #[trigger]
                self.topology().ends.contains_key(id) implies !self.topology().touches(
                id,
                back,
            ) by {
                assert(cleared.topology().ends.contains_key(id));
                assert(was.ends.contains_key(id) && !was.touches(id, v));
            }
            self.topology().untouched_is_isolated(back);
            assert forall|k: int|
                0 <= k < self.slots@.len() && (#[trigger] self.slots@[k]).is_live() implies
                self.slots@[k].src@ != n - 1 && self.slots@[k].tgt@ != n - 1 by {
                let id = EdgeId::at(k as nat);
                assert(self.topology().ends.contains_key(id));
            }
            super::consistency::lemma_one_less(super::index::views(self.blocks@), self.slots@);
        }
        let _ = self.blocks.pop();
        proof {
            assert(super::index::views(self.blocks@) =~= super::index::views(
                moved.blocks@,
            ).drop_last());
            assert(self.topology() =~= moved.topology().drop_vertex());
        }
        Ok(())
    }

    /// Move every edge in `ids` off `from` and onto `onto`, which has no edge
    /// yet: unlink then relink, per edge.
    fn relabel(&mut self, ids: &[EdgeId], from: VertexId, onto: VertexId) -> (r: Result<
        (),
        GraphError,
    >)
        requires
            old(self).wf(),
            from != onto,
            old(self).topology().has_vertex(from),
            old(self).topology().has_vertex(onto),
            old(self).topology().block(onto) == BlockView::empty(),
            ids@.no_duplicates(),
            forall|k: int|
                0 <= k < ids@.len() ==> old(self).topology().ends.contains_key(
                    #[trigger] ids@[k],
                ) && old(self).topology().touches(ids@[k], from),
        ensures
            r is Ok,
            final(self).wf(),
            final(self).identity() == old(self).identity(),
            final(self).space() == old(self).space(),
            final(self).topology() == old(self).topology().relabel_all(ids@, from, onto),
            final(self).topology().blocks.len() == old(self).topology().blocks.len(),
    {
        broadcast use crate::ids::id_is_its_index;

        let ghost before = *self;
        let ghost was = self.topology();
        let ghost b0 = was.block(from);
        proof {
            self.lemma_topology_wf();
            assert forall|v: VertexId| #[trigger] was.has_vertex(v) implies was.block(v).out.len()
                <= Raw::MAX && was.block(v).len() <= Raw::MAX + 1 by {
                super::consistency::lemma_block_fits(was.blocks, self.slots@, v@ as int);
            }
            assert forall|id: EdgeId| #[trigger] was.ends.contains_key(id) implies !was.touches(
                id,
                onto,
            ) by {}
        }
        let mut k: usize = 0;
        assert(ids@.take(0) =~= Seq::empty());
        while k < ids.len()
            invariant
                k <= ids@.len(),
                from != onto,
                before.wf(),
                was == before.topology(),
                b0 == was.block(from),
                self.wf(),
                self.id == before.id,
                self.ids == before.ids,
                ids@.no_duplicates(),
                was.has_vertex(from),
                was.has_vertex(onto),
                forall|v: VertexId| #[trigger]
                    was.has_vertex(v) ==> was.block(v).out.len() <= Raw::MAX && was.block(v).len()
                        <= Raw::MAX + 1,
                forall|k: int|
                    0 <= k < ids@.len() ==> was.ends.contains_key(#[trigger] ids@[k])
                        && was.touches(ids@[k], from),
                forall|id: EdgeId| #[trigger] was.ends.contains_key(id) ==> !was.touches(id, onto),
                self.topology() == was.relabel_all(ids@.take(k as int), from, onto),
                self.topology().blocks.len() == was.blocks.len(),
                forall|u: VertexId|
                    was.has_vertex(u) && u != from && u != onto ==> (
                    #[trigger] self.topology().block(u)).out.len() == was.block(u).out.len()
                        && self.topology().block(u).inc.len() == was.block(u).inc.len(),
                self.topology().block(from).out.len() + self.topology().block(onto).out.len()
                    == b0.out.len(),
                self.topology().block(from).inc.len() + self.topology().block(onto).inc.len()
                    == b0.inc.len(),
            decreases ids@.len() - k,
        {
            let id = ids[k];
            let ghost start = *self;
            let ghost top = self.topology();
            proof {
                assert forall|i: int| 0 <= i < ids@.take(k as int).len() implies
                    was.ends.contains_key(#[trigger] ids@.take(k as int)[i]) by {
                    assert(ids@.take(k as int)[i] == ids@[i]);
                }
                was.relabel_all_renames(ids@.take(k as int), from, onto);
                assert(!ids@.take(k as int).contains(id)) by {
                    if ids@.take(k as int).contains(id) {
                        let i = choose|i: int|
                            0 <= i < ids@.take(k as int).len() && ids@.take(k as int)[i] == id;
                        assert(ids@[i] == ids@[k as int]);
                    }
                }
                assert(was.ends.contains_key(ids@[k as int]) && was.touches(ids@[k as int], from));
                assert(top.ends.contains_key(id) && top.ends[id] == was.ends[id]);
                self.lemma_topology_wf();
                top.lemma_unlink_counts(id);
                assert(ids@.take(k + 1).drop_last() =~= ids@.take(k as int));
            }
            let (s, t) = match self.splice_out(id) {
                Ok(ends) => ends,
                Err(err) => {
                    return Err(err);
                },
            };
            let s2 = if s == from {
                onto
            } else {
                s
            };
            let t2 = if t == from {
                onto
            } else {
                t
            };
            let ghost half = self.topology();
            proof {
                assert(was.has_vertex(s) && was.has_vertex(t));
                assert(top.block(s).out.len() > 0);
                assert(half.block(s2).out.len() == top.unlink(id).block(s2).out.len());
                assert(half.block(t2).out.len() == top.unlink(id).block(t2).out.len());
                half.lemma_link_counts(id, s2, t2);
                assert(half.has_room(s2, t2));
                assert(id@ <= MAX_INDEX);
                assert(!half.ends.contains_key(id));
            }
            if let Err(err) = self.splice_in(id, s2, t2) {
                return Err(err);
            }
            proof {
                let now = self.topology();
                assert(now == top.relabel(id, from, onto));
                assert(now == was.relabel_all(ids@.take(k + 1), from, onto));
                assert forall|e: EdgeId| #[trigger]
                    super::index::live_in(self.slots@, e) <==> self.ids@.is_live(e) by {
                    assert(super::index::live_in(self.slots@, e) == now.ends.contains_key(e));
                    assert(super::index::live_in(start.slots@, e) == top.ends.contains_key(e));
                }
                assert forall|u: VertexId|
                    was.has_vertex(u) && u != from && u != onto implies (
                #[trigger] now.block(u)).out.len() == was.block(u).out.len() && now.block(
                    u,
                ).inc.len() == was.block(u).inc.len() by {
                    assert(half.block(u).out.len() == top.unlink(id).block(u).out.len());
                    assert(now.block(u) == half.link(id, s2, t2).block(u));
                }
                assert(now.block(from) == half.link(id, s2, t2).block(from));
                assert(now.block(onto) == half.link(id, s2, t2).block(onto));
                assert(half.block(from) == top.unlink(id).block(from));
                assert(half.block(onto) == top.unlink(id).block(onto));
            }
            k = k + 1;
        }
        assert(ids@.take(k as int) =~= ids@);
        Ok(())
    }

    proof fn lemma_live_is_linked(self, before: AdjList<H>, id: EdgeId)
        requires
            before.wf(),
            before.ids@.has_next(),
            id == before.ids@.next_id(),
            self.ids.wf(),
            self.ids@ == before.ids@.issue(),
            self.topology().ends == before.topology().ends.insert(
                id,
                self.topology().ends[id],
            ),
            self.slots@.len() == super::index::grown(before.slots@, id@).len(),
        ensures
            self.slots@.len() <= self.ids@.bound,
            forall|e: EdgeId| #[trigger]
                super::index::live_in(self.slots@, e) <==> self.ids@.is_live(e),
    {
        broadcast use crate::ids::id_at;

        super::allocator::issuing_keeps_the_space(before.ids@);
        assert forall|e: EdgeId| #[trigger]
            super::index::live_in(self.slots@, e) <==> self.ids@.is_live(e) by {
            assert(super::index::live_in(self.slots@, e) == self.topology().ends.contains_key(e));
            assert(super::index::live_in(before.slots@, e) == before.topology().ends.contains_key(
                e,
            ));
        }
        if before.ids@.free.len() > 0 {
            assert(before.ids@.free[before.ids@.free.len() - 1] == id);
        }
    }
}

impl<H: Lookup> AdjList<H> {
    /// The parts are well formed one by one, whatever they say of one another.
    pub open(crate) spec fn shaped(self) -> bool {
        &&& self.blocks@.len() <= MAX_INDEX + 1
        &&& super::index::all_wf(self.blocks@)
        &&& self.ids.wf()
        &&& self.lookup.wf()
    }

    /// Whether the audit finds nothing: no entry, no count and no bucket is at
    /// fault.
    pub open(crate) spec fn faultless(self) -> bool {
        let t = self.topology();
        let n = t.blocks.len() as int;
        &&& super::census::entries_sound(t.blocks, self.slots@, n, 0)
        &&& super::census::count_fault(
            t.blocks,
            self.slots@,
            self.space().live(),
            self.space().bound,
        ) is None
        &&& H::ENABLED ==> super::census::pairs_sound(t.blocks, self.slots@, t.pairs, n, 0)
    }

    /// Whether `why` is the first fault that the audit meets: of the entries in
    /// block order, then of the counts, then of the pair index in block order.
    pub open(crate) spec fn first_fault(self, why: &'static str) -> bool {
        let t = self.topology();
        let s = self.slots@;
        let n = t.blocks.len() as int;
        let counted = super::census::count_fault(
            t.blocks,
            s,
            self.space().live(),
            self.space().bound,
        );
        ||| exists|v: int, j: int|
            0 <= v < n && 0 <= j < t.blocks[v].len() && super::census::entries_sound(
                t.blocks,
                s,
                v,
                j,
            ) && #[trigger] super::census::entry_fault(t.blocks, s, v, j) == Some(why)
        ||| super::census::entries_sound(t.blocks, s, n, 0) && counted == Some(why)
        ||| super::census::entries_sound(t.blocks, s, n, 0) && counted is None && H::ENABLED
            && exists|v: int, j: int|
            0 <= v < n && 0 <= j < t.blocks[v].out.len() && super::census::pairs_sound(
                t.blocks,
                s,
                t.pairs,
                v,
                j,
            ) && #[trigger] super::census::pair_fault(t.blocks, s, t.pairs, v, j) == Some(why)
    }

    /// A well-formed graph has as many out-entries as in-entries as live
    /// identifiers, and passes the audit.
    pub proof fn wf_passes_the_audit(self)
        requires
            self.wf(),
        ensures
            self.shaped(),
            self.faultless(),
            super::census::out_total(self.topology().blocks) == self.space().live(),
            super::census::in_total(self.topology().blocks) == self.space().live(),
    {
        broadcast use crate::ids::id_is_its_index;
        broadcast use crate::ids::id_at;

        let b = self.topology().blocks;
        let s = self.slots@;
        let bound = self.ids@.bound;
        super::census::lemma_agreement_is_sound(b, s, bound);
        super::tally::lemma_named_count(self.ids@.free, bound);
        let live = super::census::live_marks(s, bound);
        let freed = self.ids@.freed();
        assert forall|i: int| 0 <= i < bound implies live[i] != freed[i] by {
            let id = EdgeId::at(i as nat);
            assert(super::index::live_in(s, id) <==> self.ids@.is_live(id));
            if freed[i] {
                let k = choose|k: int|
                    0 <= k < self.ids@.free.len() && (#[trigger] self.ids@.free[k])@ == i;
                assert(self.ids@.free[k] == id);
                assert(self.ids@.free.contains(id));
            } else if self.ids@.free.contains(id) {
                let k = choose|k: int| 0 <= k < self.ids@.free.len() && self.ids@.free[k] == id;
                assert(self.ids@.free[k]@ == i);
            }
        }
        super::tally::lemma_marked_complement(live, freed);
        if H::ENABLED {
            self.lemma_topology_wf();
            super::census::lemma_pairs_are_sound(self.topology(), s);
        }
    }

    /// Cross-check every derived index against the adjacency.
    ///
    /// Every entry of every block is named by the matching half of a live slot,
    /// at exactly the position stored there, with the slot's endpoints; the
    /// halves hold as many entries as there are live edges and live slots; and
    /// the `(s, t)` index, where there is one, agrees in multiplicity.
    pub fn validate(&self) -> (r: Result<(), GraphError>)
        requires
            self.shaped(),
        ensures
            match r {
                Ok(_) => self.faultless(),
                Err(GraphError::Invariant(why)) => self.first_fault(why),
                Err(_) => false,
            },
            r is Ok <==> self.faultless(),
    {
        broadcast use crate::ids::id_is_its_index;
        broadcast use crate::ids::id_at;

        let n: usize = self.blocks.len();
        let slots_len: usize = self.slots.slot.len();
        let ghost b = self.topology().blocks;
        let ghost s = self.slots@;
        let mut out_entries: usize = 0;
        let mut in_entries: usize = 0;
        let mut vi: usize = 0;
        assert(b.take(0) =~= Seq::empty());
        while vi < n
            invariant
                vi <= n,
                n == self.blocks@.len(),
                self.shaped(),
                b == super::index::views(self.blocks@),
                b == self.topology().blocks,
                s == self.slots@,
                s.len() == slots_len,
                super::census::entries_sound(b, s, vi as int, 0),
                out_entries == super::census::out_total(b.take(vi as int)),
                in_entries == super::census::in_total(b.take(vi as int)),
            decreases n - vi,
        {
            let owner = VertexId::from_index(vi);
            assert(self.blocks@[vi as int].wf());
            let block = &self.blocks[vi];
            let out_len: usize = block.out_degree();
            let entries = block.all();
            let ghost v = vi as int;
            assert(entries@ == b[v].all());
            let mut j: usize = 0;
            while j < entries.len()
                invariant
                    j <= entries@.len(),
                    vi < n,
                    v == vi,
                    n == self.blocks@.len(),
                    self.shaped(),
                    b == super::index::views(self.blocks@),
                    b == self.topology().blocks,
                    s == self.slots@,
                    s.len() == slots_len,
                    owner == VertexId::at(vi as nat),
                    owner@ == vi,
                    entries@ == b[v].all(),
                    entries@.len() == b[v].len(),
                    out_len == b[v].out.len(),
                    super::census::entries_sound(b, s, v, j as int),
                    out_entries == super::census::out_total(b.take(v)) + (if j < out_len {
                        j as int
                    } else {
                        out_len as int
                    }),
                    in_entries == super::census::in_total(b.take(v)) + (if j < out_len {
                        0
                    } else {
                        j - out_len
                    }),
                decreases entries@.len() - j,
            {
                let entry = entries[j];
                let ghost fault = super::census::entry_fault(b, s, v, j as int);
                if entry.other.index() >= n {
                    assert(fault is Some);
                    return Err(
                        GraphError::Invariant("an adjacency entry names a vertex outside the graph"),
                    );
                }
                let end = if j < out_len {
                    End::Out
                } else {
                    End::In
                };
                let (src, tgt) = match self.slots.endpoints(entry.idx) {
                    Some(ends) => ends,
                    None => {
                        assert(fault is Some);
                        return Err(
                            GraphError::Invariant("an adjacency entry names a released edge"),
                        );
                    },
                };
                let (holder, pos) = match self.slots.locate(self.blocks.as_slice(), entry.idx, end) {
                    Some(found) => found,
                    None => {
                        assert(fault is Some);
                        return Err(
                            GraphError::Invariant(
                                "an adjacency entry is unreachable from the slot table",
                            ),
                        );
                    },
                };
                if holder != owner || pos as usize != j {
                    assert(fault is Some);
                    return Err(
                        GraphError::Invariant(
                            "the slot table records a different position for an entry",
                        ),
                    );
                }
                match end {
                    End::Out => {
                        if src != owner || tgt != entry.other {
                            assert(fault is Some);
                            return Err(
                                GraphError::Invariant(
                                    "the slot's endpoints disagree with an out-half entry",
                                ),
                            );
                        }
                    },
                    End::In => {
                        if tgt != owner || src != entry.other {
                            assert(fault is Some);
                            return Err(
                                GraphError::Invariant(
                                    "the slot's endpoints disagree with an in-half entry",
                                ),
                            );
                        }
                    },
                }
                assert(fault is None);
                proof {
                    assert(super::census::entries_sound(b, s, v, j + 1));
                    super::census::lemma_reach(b, s, v, j + 1);
                    super::tally::lemma_marked_at_most_len(
                        super::census::reached_out(b, s, v, j + 1),
                    );
                    super::tally::lemma_marked_at_most_len(
                        super::census::reached_in(b, s, v, j + 1),
                    );
                }
                if j < out_len {
                    out_entries = out_entries + 1;
                } else {
                    in_entries = in_entries + 1;
                }
                j = j + 1;
            }
            proof {
                super::census::lemma_totals_step(b, v);
            }
            vi = vi + 1;
        }
        assert(b.take(n as int) =~= b);
        let ghost live = self.space().live();
        let ghost bound = self.space().bound;
        let ghost counted = super::census::count_fault(b, s, live, bound);
        if out_entries != in_entries {
            assert(counted is Some);
            return Err(
                GraphError::Invariant(
                    "the out-halves and the in-halves hold different numbers of entries",
                ),
            );
        }
        if out_entries != self.num_edges() {
            assert(counted is Some);
            return Err(GraphError::Invariant("num_edges() disagrees with the adjacency"));
        }
        let mut live_slots: usize = 0;
        let mut i: usize = 0;
        let upto: usize = self.ids.bound();
        assert(super::census::live_marks(s, 0) =~= Seq::empty());
        while i < upto
            invariant
                i <= upto,
                upto == self.ids@.bound,
                self.shaped(),
                s == self.slots@,
                live_slots == super::tally::marked(super::census::live_marks(s, i as nat)),
                live_slots <= i,
            decreases upto - i,
        {
            let id = EdgeId::from_index(i);
            assert(super::census::live_marks(s, (i + 1) as nat).drop_last()
                =~= super::census::live_marks(s, i as nat));
            if self.slots.endpoints(id).is_some() {
                live_slots = live_slots + 1;
            }
            i = i + 1;
        }
        if live_slots != self.num_edges() {
            assert(counted is Some);
            return Err(
                GraphError::Invariant("the slot table holds entries the adjacency does not"),
            );
        }
        assert(counted is None);
        if H::ENABLED {
            return self.validate_pairs();
        }
        Ok(())
    }

    /// The part of [`validate`](Self::validate) that audits the pair index.
    fn validate_pairs(&self) -> (r: Result<(), GraphError>)
        requires
            self.shaped(),
        ensures
            ({
                let t = self.topology();
                let n = t.blocks.len() as int;
                match r {
                    Ok(_) => super::census::pairs_sound(t.blocks, self.slots@, t.pairs, n, 0),
                    Err(GraphError::Invariant(why)) => exists|v: int, j: int|
                        0 <= v < n && 0 <= j < t.blocks[v].out.len() && super::census::pairs_sound(
                            t.blocks,
                            self.slots@,
                            t.pairs,
                            v,
                            j,
                        ) && #[trigger] super::census::pair_fault(
                            t.blocks,
                            self.slots@,
                            t.pairs,
                            v,
                            j,
                        ) == Some(why),
                    Err(_) => false,
                }
            }),
    {
        broadcast use crate::ids::id_is_its_index;
        broadcast use crate::ids::id_at;

        let n: usize = self.blocks.len();
        let ghost t = self.topology();
        let ghost b = t.blocks;
        let ghost s = self.slots@;
        let mut vi: usize = 0;
        while vi < n
            invariant
                vi <= n,
                n == self.blocks@.len(),
                self.shaped(),
                t == self.topology(),
                b == t.blocks,
                b == super::index::views(self.blocks@),
                s == self.slots@,
                super::census::pairs_sound(b, s, t.pairs, vi as int, 0),
            decreases n - vi,
        {
            let src = VertexId::from_index(vi);
            assert(self.blocks@[vi as int].wf());
            let out = self.blocks[vi].out();
            let ghost v = vi as int;
            let mut j: usize = 0;
            while j < out.len()
                invariant
                    j <= out@.len(),
                    vi < n,
                    v == vi,
                    n == self.blocks@.len(),
                    self.shaped(),
                    t == self.topology(),
                    b == t.blocks,
                    b == super::index::views(self.blocks@),
                    s == self.slots@,
                    src == VertexId::at(vi as nat),
                    out@ == b[v].out,
                    super::census::pairs_sound(b, s, t.pairs, v, j as int),
                decreases out@.len() - j,
            {
                let entry = out[j];
                let ghost fault = super::census::pair_fault(b, s, t.pairs, v, j as int);
                let bucket = self.lookup.find(src, entry.other);
                assert(bucket@ == t.pairs[(src, entry.other)]);
                if !holds_edge(bucket, entry.idx) {
                    assert(fault is Some);
                    return Err(
                        GraphError::Invariant(
                            "the (s,t) index does not hold an edge the adjacency does",
                        ),
                    );
                }
                if bucket.len() != multiplicity(out, entry.other) {
                    assert(fault is Some);
                    return Err(
                        GraphError::Invariant(
                            "the (s,t) index disagrees with the adjacency about multiplicity",
                        ),
                    );
                }
                if !self.all_between(bucket, src, entry.other) {
                    assert(fault is Some);
                    return Err(
                        GraphError::Invariant(
                            "the (s,t) index holds an edge whose endpoints are not (s,t)",
                        ),
                    );
                }
                assert(fault is None);
                j = j + 1;
            }
            vi = vi + 1;
        }
        Ok(())
    }

    /// Whether the slot table has every edge of a bucket from `s` to `t`.
    fn all_between(&self, bucket: &[EdgeId], s: VertexId, t: VertexId) -> (r: bool)
        ensures
            r <==> forall|k: int|
                0 <= k < bucket@.len() ==> super::index::ends_in(self.slots@, #[trigger] bucket@[k])
                    == Some((s, t)),
    {
        let mut k: usize = 0;
        while k < bucket.len()
            invariant
                k <= bucket@.len(),
                forall|i: int|
                    0 <= i < k ==> super::index::ends_in(self.slots@, #[trigger] bucket@[i]) == Some(
                        (s, t),
                    ),
            decreases bucket@.len() - k,
        {
            match self.slots.endpoints(bucket[k]) {
                Some((a, b)) => {
                    if a != s || b != t {
                        return false;
                    }
                },
                None => {
                    return false;
                },
            }
            k = k + 1;
        }
        true
    }

    /// Number of live edges. Derived from the allocator, never accumulated.
    #[inline]
    pub fn num_edges(&self) -> (r: usize)
        requires
            self.shaped(),
        ensures
            r == self.space().live(),
    {
        self.ids.live()
    }
}

impl AdjList<NoLookup> {
    /// An empty graph.
    pub fn new() -> (r: Self)
        ensures
            r.wf(),
            r.topology() == Topology::isolated(0, false),
            r.space() == (IdSpace { bound: 0, free: Seq::empty() }),
    {
        proof {
            super::index::which_lookups_are_kept();
        }
        AdjList::with_lookup(NoLookup)
    }

    /// An empty graph with `n` isolated vertices, which must fit the vertex
    /// index space.
    pub fn with_vertices(n: usize) -> (r: Self)
        requires
            n <= MAX_INDEX + 1,
        ensures
            r.wf(),
            r.topology() == Topology::isolated(n as nat, false),
            r.space() == (IdSpace { bound: 0, free: Seq::empty() }),
    {
        proof {
            super::index::which_lookups_are_kept();
        }
        AdjList::with_vertices_and_lookup(n, NoLookup)
    }
}

impl Default for AdjList<NoLookup> {
    fn default() -> (r: Self)
        ensures
            r.wf(),
            r.topology() == Topology::isolated(0, false),
            r.space() == (IdSpace { bound: 0, free: Seq::empty() }),
    {
        AdjList::new()
    }
}

impl<H: Lookup> Clone for AdjList<H> {
    /// A copy of the graph, which is a graph of its own: it has a fresh
    /// identity, so the bounds and the maps of either are refused by the other.
    ///
    /// As with every graph, that the identity differs from all others is
    /// [`GraphId::fresh`]'s and is left unsaid.
    fn clone(&self) -> (r: Self)
        ensures
            r.topology() == self.topology(),
            r.space() == self.space(),
            self.wf() ==> r.wf(),
    {
        let blocks = self.blocks.clone();
        let lookup = self.lookup.clone();
        let r = AdjList {
            blocks,
            ids: self.ids.clone(),
            slots: self.slots.clone(),
            lookup,
            id: GraphId::fresh(),
            scratch: Vec::new(),
        };
        proof {
            H::clone_is_equal(self.lookup, lookup);
            assert forall|v: int| 0 <= v < blocks@.len() implies #[trigger] blocks@[v]@
                == self.blocks@[v]@ && (self.blocks@[v].wf() ==> blocks@[v].wf()) by {
                assert(cloned(self.blocks@[v], blocks@[v]));
            }
            assert(super::index::views(blocks@) =~= super::index::views(self.blocks@));
            assert(r.topology().ends =~= self.topology().ends);
            assert(r.topology().pairs =~= self.topology().pairs);
            assert(r.topology() =~= self.topology());
        }
        r
    }
}

impl<H: Lookup> AdjList<H> {
    /// Whether an index holds nothing.
    pub open spec fn is_fresh_index(lookup: H) -> bool {
        &&& lookup.wf()
        &&& forall|s: VertexId, t: VertexId| #[trigger]
            lookup.bucket(s, t) == Seq::<EdgeId>::empty()
    }

    /// An empty graph with the given, still empty, `(s, t)` index.
    pub fn with_lookup(lookup: H) -> (r: Self)
        requires
            Self::is_fresh_index(lookup),
        ensures
            r.wf(),
            r.topology() == Topology::isolated(0, H::ENABLED),
            r.space() == (IdSpace { bound: 0, free: Seq::empty() }),
    {
        AdjList::with_vertices_and_lookup(0, lookup)
    }

    /// An empty graph with `n` isolated vertices and the given, still empty,
    /// `(s, t)` index.
    pub fn with_vertices_and_lookup(n: usize, lookup: H) -> (r: Self)
        requires
            n <= MAX_INDEX + 1,
            Self::is_fresh_index(lookup),
        ensures
            r.wf(),
            r.topology() == Topology::isolated(n as nat, H::ENABLED),
            r.space() == (IdSpace { bound: 0, free: Seq::empty() }),
    {
        let empty = Block::new();
        let blocks: Vec<Block> = vec![empty; n];
        let g = AdjList {
            blocks,
            ids: EdgeIds::new(),
            slots: EdgeSlots::new(),
            lookup,
            id: GraphId::fresh(),
            scratch: Vec::new(),
        };
        proof {
            reveal(super::consistency::agree);
            assert forall|v: int| 0 <= v < blocks@.len() implies #[trigger] blocks@[v]@
                == BlockView::empty() && blocks@[v].wf() by {
                assert(cloned(empty, blocks@[v]));
            }
            let want = Topology::isolated(n as nat, H::ENABLED);
            assert(g.topology().blocks =~= want.blocks);
            assert(g.topology().ends =~= want.ends);
            assert(g.topology().pairs =~= want.pairs);
            assert(g.topology() =~= want);
        }
        g
    }

    /// Process-unique identity, carried by every [`Bound`](crate::bound::Bound)
    /// this graph mints.
    #[inline]
    pub fn graph_id(&self) -> (r: GraphId)
        ensures
            r == self.identity(),
    {
        self.id
    }

    /// Number of vertices. Vertices are dense, so this is also the bound.
    #[inline]
    pub fn num_vertices(&self) -> (r: usize)
        ensures
            r == self.topology().blocks.len(),
    {
        self.blocks.len()
    }

    /// Allocation bound of the vertex index space.
    #[inline]
    pub fn vertex_bound(&self) -> (r: VertexBound)
        ensures
            r.owner() == self.identity(),
            r.slots() == self.topology().blocks.len(),
    {
        VertexBound::new(self.id, self.blocks.len())
    }

    /// Allocation bound of the edge index space. Larger than
    /// [`num_edges`](Self::num_edges) whenever edges have been removed; this,
    /// not the count, is what an edge property map must be sized to.
    #[inline]
    pub fn edge_bound(&self) -> (r: EdgeBound)
        ensures
            r.owner() == self.identity(),
            r.slots() == self.space().bound,
    {
        EdgeBound::new(self.id, self.ids.bound())
    }

    /// One vertex's adjacency block.
    #[inline]
    pub fn block(&self, v: VertexId) -> (r: Option<&Block>)
        requires
            self.shaped(),
        ensures
            r is Some <==> self.topology().has_vertex(v),
            r matches Some(b) ==> b.wf() && b@ == self.topology().block(v),
    {
        if v.index() < self.blocks.len() {
            assert(self.blocks@[v@ as int].wf());
            Some(&self.blocks[v.index()])
        } else {
            None
        }
    }

    /// Out-edges of `v`, anchored at `v`. A vertex outside the graph has none.
    #[inline]
    pub fn out_edges(&self, v: VertexId) -> (r: OutEdges<'_>)
        requires
            self.shaped(),
        ensures
            r.wf(),
            r.rest() == super::iter::incidents(self.topology().block(v).out),
    {
        match self.block(v) {
            Some(b) => OutEdges::new(b.out()),
            None => {
                assert(super::iter::incidents(self.topology().block(v).out) =~= Seq::empty());
                OutEdges::empty()
            },
        }
    }

    /// In-edges of `v`, anchored at `v`. A vertex outside the graph has none.
    #[inline]
    pub fn in_edges(&self, v: VertexId) -> (r: InEdges<'_>)
        requires
            self.shaped(),
        ensures
            r.wf(),
            r.rest() == super::iter::incidents(self.topology().block(v).inc),
    {
        match self.block(v) {
            Some(b) => InEdges::new(b.inc()),
            None => {
                assert(super::iter::incidents(self.topology().block(v).inc) =~= Seq::empty());
                InEdges::empty()
            },
        }
    }

    /// All incident edges of `v`, anchored at `v`, out-half first. A self-loop
    /// is there twice, once from either half.
    #[inline]
    pub fn all_edges(&self, v: VertexId) -> (r: AllEdges<'_>)
        requires
            self.shaped(),
        ensures
            r.wf(),
            r.rest() == super::iter::incidents(self.topology().block(v).all()),
    {
        match self.block(v) {
            Some(b) => AllEdges::new(b.all()),
            None => {
                assert(super::iter::incidents(self.topology().block(v).all()) =~= Seq::empty());
                AllEdges::empty()
            },
        }
    }

    /// Number of out-edges of `v`, in constant time.
    #[inline]
    pub fn out_degree(&self, v: VertexId) -> (r: usize)
        requires
            self.shaped(),
        ensures
            r == self.topology().block(v).out.len(),
    {
        match self.block(v) {
            Some(b) => b.out_degree(),
            None => 0,
        }
    }

    /// Number of in-edges of `v`, in constant time.
    #[inline]
    pub fn in_degree(&self, v: VertexId) -> (r: usize)
        requires
            self.shaped(),
        ensures
            r == self.topology().block(v).inc.len(),
    {
        match self.block(v) {
            Some(b) => b.in_degree(),
            None => 0,
        }
    }

    /// Number of incident entries of `v`, in constant time.
    #[inline]
    pub fn degree(&self, v: VertexId) -> (r: usize)
        requires
            self.shaped(),
        ensures
            r == self.topology().block(v).len(),
    {
        match self.block(v) {
            Some(b) => b.degree(),
            None => 0,
        }
    }

    /// The vertex set.
    #[inline]
    pub fn vertices(&self) -> (r: Vertices)
        requires
            self.shaped(),
        ensures
            r.wf(),
            r.rest() == super::iter::id_run(0, self.topology().blocks.len() as int),
    {
        Vertices::new(self.blocks.len())
    }

    /// Every edge exactly once, in canonical orientation.
    #[inline]
    pub fn edges(&self) -> (r: Edges<'_>)
        requires
            self.shaped(),
        ensures
            r.wf(),
            r.rest() == super::iter::edges_from(self.topology().blocks, 0, 0),
    {
        Edges::new(self.blocks.as_slice())
    }

    /// Endpoints of a live edge, in constant time.
    #[inline]
    pub fn endpoints(&self, e: EdgeId) -> (r: Option<(VertexId, VertexId)>)
        ensures
            r == self.topology().ends_of(e),
    {
        self.slots.endpoints(e)
    }

    /// The first edge from `s` to `t`, if any: of the pair's bucket where there
    /// is an `(s, t)` index, and of the shorter of the two halves where there
    /// is none.
    pub fn find_edge(&self, s: VertexId, t: VertexId) -> (r: Option<EdgeRef>)
        requires
            self.wf(),
        ensures
            match r {
                Some(e) => self.topology().first_between(s, t) == Some(e@.id) && e@ == (EdgeView {
                    id: e@.id,
                    src: s,
                    tgt: t,
                }),
                None => self.topology().first_between(s, t) is None,
            },
    {
        let sb = match self.block(s) {
            Some(b) => b,
            None => {
                return None;
            },
        };
        let tb = match self.block(t) {
            Some(b) => b,
            None => {
                return None;
            },
        };
        if H::ENABLED {
            let bucket = self.lookup.find(s, t);
            assert(bucket@ == self.topology().pairs[(s, t)]);
            if bucket.len() > 0 {
                Some(EdgeRef::new(bucket[0], s, t))
            } else {
                None
            }
        } else if sb.out_degree() < tb.in_degree() {
            match first_to(sb.out(), t) {
                Some(id) => Some(EdgeRef::new(id, s, t)),
                None => None,
            }
        } else {
            match first_to(tb.inc(), s) {
                Some(id) => Some(EdgeRef::new(id, s, t)),
                None => None,
            }
        }
    }

    /// Release excess capacity across all blocks. The graph stays as it is: no
    /// edge is renumbered.
    pub fn shrink_to_fit(&mut self)
        requires
            old(self).wf(),
        ensures
            final(self).wf(),
            final(self).topology() == old(self).topology(),
            final(self).space() == old(self).space(),
            final(self).identity() == old(self).identity(),
    {
        let ghost before = *self;
        let mut v: usize = 0;
        while v < self.blocks.len()
            invariant
                v <= self.blocks@.len(),
                before.wf(),
                super::index::all_wf(self.blocks@),
                super::index::views(self.blocks@) == super::index::views(before.blocks@),
                self.blocks@.len() == before.blocks@.len(),
                self.slots == before.slots,
                self.ids == before.ids,
                self.lookup == before.lookup,
                self.id == before.id,
            decreases self.blocks@.len() - v,
        {
            let ghost blocks = self.blocks@;
            assert(blocks[v as int].wf());
            self.blocks[v].shrink();
            assert(super::index::views(self.blocks@) =~= super::index::views(blocks));
            v = v + 1;
        }
        super::block::shrink_to_fit(&mut self.blocks);
        super::block::shrink_to_fit(&mut self.scratch);
        assert(self.topology() =~= before.topology());
    }
}

/// The first entry whose other end is `v`.
fn first_to(run: &[AdjEntry], v: VertexId) -> (r: Option<EdgeId>)
    ensures
        r == super::topology::first_entry(run@, v),
{
    let mut i: usize = 0;
    assert(run@.skip(0) =~= run@);
    while i < run.len()
        invariant
            i <= run@.len(),
            super::topology::first_entry(run@, v) == super::topology::first_entry(
                run@.skip(i as int),
                v,
            ),
        decreases run@.len() - i,
    {
        assert(run@.skip(i as int).drop_first() =~= run@.skip(i + 1));
        assert(run@.skip(i as int)[0] == run@[i as int]);
        if run[i].other == v {
            return Some(run[i].idx);
        }
        i = i + 1;
    }
    None
}

/// Whether a bucket holds `id`.
fn holds_edge(bucket: &[EdgeId], id: EdgeId) -> (r: bool)
    ensures
        r <==> bucket@.contains(id),
{
    let mut k: usize = 0;
    while k < bucket.len()
        invariant
            k <= bucket@.len(),
            forall|i: int| 0 <= i < k ==> bucket@[i] != id,
        decreases bucket@.len() - k,
    {
        if bucket[k] == id {
            assert(bucket@[k as int] == id);
            return true;
        }
        k = k + 1;
    }
    false
}

/// How many entries have `t` as their other end.
fn multiplicity(out: &[AdjEntry], t: VertexId) -> (r: usize)
    ensures
        r == out@.filter(|x: AdjEntry| x.other == t).len(),
{
    let ghost p = |x: AdjEntry| x.other == t;
    let mut m: usize = 0;
    let mut k: usize = 0;
    proof {
        reveal(Seq::filter);
        assert(out@.take(0) =~= Seq::empty());
    }
    while k < out.len()
        invariant
            k <= out@.len(),
            p == (|x: AdjEntry| x.other == t),
            m == out@.take(k as int).filter(p).len(),
            m <= k,
        decreases out@.len() - k,
    {
        proof {
            reveal(Seq::filter);
            assert(out@.take(k + 1).drop_last() =~= out@.take(k as int));
        }
        if out[k].other == t {
            m = m + 1;
        }
        k = k + 1;
    }
    assert(out@.take(k as int) =~= out@);
    m
}

impl Topology {
    pub(crate) proof fn lemma_link_ends(self, id: EdgeId, s: VertexId, t: VertexId)
        ensures
            self.link(id, s, t).ends == self.ends.insert(id, (s, t)),
    {
    }
}

/// The pair index after an unlink holds the edges that are left.
proof fn lemma_unlinked_pairs<H: Lookup>(
    before: AdjList<H>,
    now: AdjList<H>,
    s: VertexId,
    t: VertexId,
    id: EdgeId,
)
    requires
        before.indexes_agree(),
        super::index::ends_in(before.slots@, id) == Some((s, t)),
        super::index::ends_in(now.slots@, id) is None,
        forall|e: EdgeId|
            e != id ==> #[trigger] super::index::ends_in(now.slots@, e) == super::index::ends_in(
                before.slots@,
                e,
            ),
        forall|a: VertexId, b: VertexId| #[trigger]
            now.lookup.bucket(a, b) == (if H::ENABLED && a == s && b == t {
                super::index::bucket_without(before.lookup.bucket(s, t), id)
            } else {
                before.lookup.bucket(a, b)
            }),
    ensures
        forall|a: VertexId, b: VertexId| (#[trigger] now.lookup.bucket(a, b)).no_duplicates(),
        forall|a: VertexId, b: VertexId, e: EdgeId| #[trigger]
            now.lookup.bucket(a, b).contains(e) <==> H::ENABLED && super::index::ends_in(
                now.slots@,
                e,
            ) == Some((a, b)),
{
    assert forall|a: VertexId, b: VertexId|
        (#[trigger] now.lookup.bucket(a, b)).no_duplicates() by {
        let was = before.lookup.bucket(a, b);
        assert(was.no_duplicates());
        if H::ENABLED && a == s && b == t {
            assert(was.contains(id));
            lemma_bucket_without(was, id);
        }
    }
    assert forall|a: VertexId, b: VertexId, e: EdgeId| #[trigger]
        now.lookup.bucket(a, b).contains(e) <==> H::ENABLED && super::index::ends_in(
            now.slots@,
            e,
        ) == Some((a, b)) by {
        let was = before.lookup.bucket(a, b);
        assert(was.contains(id) <==> H::ENABLED && a == s && b == t);
        if H::ENABLED && a == s && b == t {
            lemma_bucket_without(was, id);
        }
        assert(was.contains(e) <==> H::ENABLED && super::index::ends_in(before.slots@, e) == Some(
            (a, b),
        ));
    }
}

/// Taking an edge out of a bucket takes that one and no other.
pub(crate) proof fn lemma_bucket_without(bucket: Seq<EdgeId>, id: EdgeId)
    requires
        bucket.no_duplicates(),
        bucket.contains(id),
    ensures
        super::index::bucket_without(bucket, id).no_duplicates(),
        forall|e: EdgeId| #[trigger]
            super::index::bucket_without(bucket, id).contains(e) <==> bucket.contains(e) && e != id,
{
    let less = super::index::bucket_without(bucket, id);
    let at = bucket.index_of(id);
    assert(bucket[at] == id);
    assert forall|e: EdgeId| #[trigger] less.contains(e) <==> bucket.contains(e) && e != id by {
        if less.contains(e) {
            let k = choose|k: int| 0 <= k < less.len() && less[k] == e;
            if k == at {
                assert(bucket[bucket.len() - 1] == e);
            } else {
                assert(bucket[k] == e);
            }
        }
        if bucket.contains(e) && e != id {
            let k = choose|k: int| 0 <= k < bucket.len() && bucket[k] == e;
            if k == bucket.len() - 1 {
                assert(less[at] == e);
            } else {
                assert(less[k] == e);
            }
        }
    }
}

/// Linking changes the endpoints of the linked edge alone.
proof fn lemma_linked_ends(
    s: Seq<EdgeSlot>,
    t: Seq<EdgeSlot>,
    m: Option<super::block::Moved>,
    id: EdgeId,
    slot: EdgeSlot,
)
    requires
        slot.is_live(),
        !super::index::live_in(s, id),
        m matches Some(m) ==> m.end == End::In && super::index::live_in(s, m.id),
        t == super::index::relocated(
            super::index::grown(s, id@).update(id@ as int, slot),
            m,
        ),
    ensures
        super::index::ends_in(t, id) == Some((slot.src, slot.tgt)),
        forall|e: EdgeId|
            e != id ==> #[trigger] super::index::ends_in(t, e) == super::index::ends_in(s, e),
{
    broadcast use crate::ids::id_is_its_index;

    assert forall|e: EdgeId| e != id implies #[trigger] super::index::ends_in(t, e)
        == super::index::ends_in(s, e) by {
        assert(e@ != id@);
    }
}

pub(crate) proof fn lemma_push_contains(s: Seq<EdgeId>, id: EdgeId, e: EdgeId)
    ensures
        s.push(id).contains(e) <==> s.contains(e) || e == id,
{
    if s.contains(e) {
        let k = choose|k: int| 0 <= k < s.len() && s[k] == e;
        assert(s.push(id)[k] == e);
    }
    if e == id {
        assert(s.push(id)[s.len() as int] == e);
    }
    if s.push(id).contains(e) {
        let k = choose|k: int| 0 <= k < s.push(id).len() && s.push(id)[k] == e;
        if k < s.len() {
            assert(s[k] == e);
        }
    }
}

/// A bucket has room for one edge more while an identifier is not in use.
proof fn lemma_bucket_has_room<H: Lookup>(g: AdjList<H>, s: VertexId, t: VertexId, id: EdgeId)
    requires
        g.indexes_agree(),
        id@ <= MAX_INDEX,
        !super::index::live_in(g.slots@, id),
    ensures
        g.lookup.bucket(s, t).len() <= MAX_INDEX,
{
    let bucket = g.lookup.bucket(s, t);
    let more = bucket.push(id);
    assert forall|k: int| 0 <= k < more.len() implies (#[trigger] more[k])@ < MAX_INDEX + 1 by {
        if k < bucket.len() {
            assert(bucket.contains(bucket[k]));
        }
    }
    assert(!bucket.contains(id));
    assert(more.no_duplicates());
    super::tally::lemma_named_count(more, (MAX_INDEX + 1) as nat);
}

} // verus!
