//! The reversed view.

use std::sync::Arc;

use vstd::prelude::*;

use crate::adj::{AdjList, EdgeRef, Incident, Lookup, SwapEnds};
use crate::bound::{EdgeBound, VertexBound};
use crate::dir::{Directed, HasDir};
use crate::graph::{Bidirectional, EdgeList, Endpoints, GraphBase, GraphRef, VertexList};
use crate::ids::{EdgeId, GraphId, VertexId};

verus! {

/// A directed graph traversed against its edges.
///
/// Its out-edges are the underlying graph's **in-edges only**, never the union
/// of the two.
#[derive(Debug)]
pub struct Rev<G: HasDir<Dir = Directed>>(pub(crate) G);

impl<G: HasDir<Dir = Directed>> Rev<G> {
    /// The underlying forward view.
    pub open(crate) spec fn forward(self) -> G {
        self.0
    }

    /// The reversed view of `g`.
    #[inline]
    pub fn wrap(g: G) -> (r: Self)
        ensures
            r.forward() == g,
    {
        Rev(g)
    }

    /// The underlying forward view.
    #[inline]
    pub fn into_forward(self) -> (r: G)
        ensures
            r == self.forward(),
    {
        self.0
    }
}

impl<G: HasDir<Dir = Directed> + Clone> Clone for Rev<G> {
    #[inline]
    fn clone(&self) -> (r: Self)
        ensures
            call_ensures(G::clone, (&self.forward(),), r.forward()),
    {
        Rev(self.0.clone())
    }
}

impl<G: HasDir<Dir = Directed> + Copy> Copy for Rev<G> {

}

impl<G: HasDir<Dir = Directed>> HasDir for Rev<G> {
    type Dir = Directed;
}

/// Reversing a directed view. An involution: reversing twice gives the view
/// back, as a type and as a value.
pub trait Reverse: Sized {
    /// The resulting reversed view.
    type Out: HasDir<Dir = Directed>;

    /// The reversed view.
    spec fn reversed(self) -> Self::Out;

    /// Take the reversed view.
    fn reverse(self) -> (r: Self::Out)
        ensures
            r == self.reversed(),
    ;
}

impl<G: HasDir<Dir = Directed>> Reverse for Rev<G> {
    type Out = G;

    open spec fn reversed(self) -> G {
        self.forward()
    }

    #[inline]
    fn reverse(self) -> (r: G) {
        self.0
    }
}

impl<'g, H: Lookup> Reverse for &'g AdjList<H> {
    type Out = Rev<&'g AdjList<H>>;

    open(crate) spec fn reversed(self) -> Rev<&'g AdjList<H>> {
        Rev(self)
    }

    #[inline]
    fn reverse(self) -> (r: Rev<&'g AdjList<H>>) {
        Rev::wrap(self)
    }
}

impl<H: Lookup> Reverse for Arc<AdjList<H>> {
    type Out = Rev<Arc<AdjList<H>>>;

    open(crate) spec fn reversed(self) -> Rev<Arc<AdjList<H>>> {
        Rev(self)
    }

    #[inline]
    fn reverse(self) -> (r: Rev<Arc<AdjList<H>>>) {
        Rev::wrap(self)
    }
}

/// A shared graph traversed backwards, by moving the handle into the wrapper.
pub fn own_reversed<H: Lookup>(g: Arc<AdjList<H>>) -> (r: Rev<Arc<AdjList<H>>>)
    ensures
        r.forward() == g,
{
    Rev::wrap(g)
}

impl<G: GraphBase + HasDir<Dir = Directed>> GraphBase for Rev<G> {
    open spec fn wf(self) -> bool {
        self.forward().wf()
    }

    open spec fn storage(self) -> GraphId {
        self.forward().storage()
    }

    open spec fn vertex_count(self) -> nat {
        self.forward().vertex_count()
    }

    open spec fn edge_count(self) -> nat {
        self.forward().edge_count()
    }

    open spec fn vertex_slots(self) -> nat {
        self.forward().vertex_slots()
    }

    open spec fn edge_slots(self) -> nat {
        self.forward().edge_slots()
    }

    #[inline]
    fn graph_id(self) -> (r: GraphId) {
        self.0.graph_id()
    }

    #[inline]
    fn num_vertices(self) -> (r: usize) {
        self.0.num_vertices()
    }

    #[inline]
    fn num_edges(self) -> (r: usize) {
        self.0.num_edges()
    }

    #[inline]
    fn vertex_bound(self) -> (r: VertexBound) {
        self.0.vertex_bound()
    }

    #[inline]
    fn edge_bound(self) -> (r: EdgeBound) {
        self.0.edge_bound()
    }
}

impl<G: Bidirectional> GraphRef for Rev<G> {
    type Out = G::In;

    type All = G::All;

    open spec fn out_list(self, v: VertexId) -> Seq<Incident> {
        self.forward().in_list(v)
    }

    open spec fn all_list(self, v: VertexId) -> Seq<Incident> {
        self.forward().all_list(v)
    }

    #[inline]
    fn out_edges(self, v: VertexId) -> (r: G::In) {
        self.0.in_edges(v)
    }

    #[inline]
    fn all_edges(self, v: VertexId) -> (r: G::All) {
        self.0.all_edges(v)
    }

    #[inline]
    fn out_degree(self, v: VertexId) -> (r: usize) {
        self.0.in_degree(v)
    }

    #[inline]
    fn degree(self, v: VertexId) -> (r: usize) {
        self.0.degree(v)
    }
}

impl<G: Bidirectional> Bidirectional for Rev<G> {
    type In = G::Out;

    open spec fn in_list(self, v: VertexId) -> Seq<Incident> {
        self.forward().out_list(v)
    }

    #[inline]
    fn in_edges(self, v: VertexId) -> (r: G::Out) {
        self.0.out_edges(v)
    }

    #[inline]
    fn in_degree(self, v: VertexId) -> (r: usize) {
        self.0.out_degree(v)
    }
}

impl<G: VertexList + HasDir<Dir = Directed>> VertexList for Rev<G> {
    type Vertices = G::Vertices;

    open spec fn vertex_list(self) -> Seq<VertexId> {
        self.forward().vertex_list()
    }

    proof fn vertices_are_counted(self) {
        self.forward().vertices_are_counted();
    }

    #[inline]
    fn vertices(self) -> (r: G::Vertices) {
        self.0.vertices()
    }
}

impl<G: EdgeList + HasDir<Dir = Directed>> EdgeList for Rev<G> {
    type Edges = SwapEnds<G::Edges>;

    open spec fn edge_list(self) -> Seq<EdgeRef> {
        crate::adj::iter::all_flipped(self.forward().edge_list())
    }

    proof fn edges_are_counted(self) {
        self.forward().edges_are_counted();
    }

    #[inline]
    fn edges(self) -> (r: SwapEnds<G::Edges>) {
        SwapEnds::new(self.0.edges())
    }
}

impl<G: Endpoints + HasDir<Dir = Directed>> Endpoints for Rev<G> {
    open spec fn ends_of(self, e: EdgeId) -> Option<(VertexId, VertexId)> {
        match self.forward().ends_of(e) {
            Some((s, t)) => Some((t, s)),
            None => None,
        }
    }

    open spec fn first_edge(self, s: VertexId, t: VertexId) -> Option<EdgeRef> {
        match self.forward().first_edge(t, s) {
            Some(e) => Some(crate::adj::iter::flipped(e)),
            None => None,
        }
    }

    #[inline]
    fn endpoints(self, e: EdgeId) -> (r: Option<(VertexId, VertexId)>) {
        match self.0.endpoints(e) {
            Some((s, t)) => Some((t, s)),
            None => None,
        }
    }

    #[inline]
    fn opposite(self, e: EdgeId, v: VertexId) -> (r: Option<VertexId>) {
        self.0.opposite(e, v)
    }

    #[inline]
    fn find_edge(self, s: VertexId, t: VertexId) -> (r: Option<EdgeRef>) {
        match self.0.find_edge(t, s) {
            Some(e) => Some(e.reversed()),
            None => None,
        }
    }
}

} // verus!
