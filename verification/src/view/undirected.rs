//! The undirected view.

use std::sync::Arc;

use vstd::prelude::*;

use super::reversed::Rev;
use crate::adj::{AdjList, EdgeRef, Incident, Lookup};
use crate::bound::{EdgeBound, VertexBound};
use crate::dir::{Directed, HasDir, Undirected};
use crate::graph::{EdgeList, Endpoints, GraphBase, GraphRef, VertexList};
use crate::ids::{EdgeId, GraphId, VertexId};

verus! {

/// A directed graph seen as undirected.
///
/// Its out-edges are the *whole* incidence run, anchored at the query vertex.
/// There are no in-edges.
#[derive(Debug)]
pub struct Und<G: HasDir<Dir = Directed>>(pub(crate) G);

impl<G: HasDir<Dir = Directed>> Und<G> {
    /// The underlying directed view.
    pub open(crate) spec fn directed(self) -> G {
        self.0
    }

    /// The undirected view of `g`.
    #[inline]
    pub fn wrap(g: G) -> (r: Self)
        ensures
            r.directed() == g,
    {
        Und(g)
    }

    /// The underlying directed view.
    #[inline]
    pub fn into_directed(self) -> (r: G)
        ensures
            r == self.directed(),
    {
        self.0
    }
}

impl<G: HasDir<Dir = Directed> + Clone> Clone for Und<G> {
    #[inline]
    fn clone(&self) -> (r: Self)
        ensures
            call_ensures(G::clone, (&self.directed(),), r.directed()),
    {
        Und(self.0.clone())
    }
}

impl<G: HasDir<Dir = Directed> + Copy> Copy for Und<G> {

}

impl<G: HasDir<Dir = Directed>> HasDir for Und<G> {
    type Dir = Undirected;
}

/// Viewing a directed graph as undirected.
///
/// Idempotent, and absorbing: the undirected view of a reversed view is that of
/// the forward view.
pub trait Undirect: Sized {
    /// The resulting undirected view.
    type Out: HasDir<Dir = Undirected>;

    /// The undirected view.
    spec fn undirected(self) -> Self::Out;

    /// Take the undirected view.
    fn undirect(self) -> (r: Self::Out)
        ensures
            r == self.undirected(),
    ;
}

impl<G: HasDir<Dir = Directed>> Undirect for Und<G> {
    type Out = Und<G>;

    open spec fn undirected(self) -> Und<G> {
        self
    }

    #[inline]
    fn undirect(self) -> (r: Und<G>) {
        self
    }
}

impl<G: HasDir<Dir = Directed>> Undirect for Rev<G> {
    type Out = Und<G>;

    open(crate) spec fn undirected(self) -> Und<G> {
        Und(self.0)
    }

    #[inline]
    fn undirect(self) -> (r: Und<G>) {
        Und::wrap(self.into_forward())
    }
}

impl<'g, H: Lookup> Undirect for &'g AdjList<H> {
    type Out = Und<&'g AdjList<H>>;

    open(crate) spec fn undirected(self) -> Und<&'g AdjList<H>> {
        Und(self)
    }

    #[inline]
    fn undirect(self) -> (r: Und<&'g AdjList<H>>) {
        Und::wrap(self)
    }
}

impl<H: Lookup> Undirect for Arc<AdjList<H>> {
    type Out = Und<Arc<AdjList<H>>>;

    open(crate) spec fn undirected(self) -> Und<Arc<AdjList<H>>> {
        Und(self)
    }

    #[inline]
    fn undirect(self) -> (r: Und<Arc<AdjList<H>>>) {
        Und::wrap(self)
    }
}

/// A shared graph seen as undirected, by moving the handle into the wrapper.
pub fn own_undirected<H: Lookup>(g: Arc<AdjList<H>>) -> (r: Und<Arc<AdjList<H>>>)
    ensures
        r.directed() == g,
{
    Und::wrap(g)
}

impl<G: GraphBase + HasDir<Dir = Directed>> GraphBase for Und<G> {
    open spec fn wf(self) -> bool {
        self.directed().wf()
    }

    open spec fn storage(self) -> GraphId {
        self.directed().storage()
    }

    open spec fn vertex_count(self) -> nat {
        self.directed().vertex_count()
    }

    open spec fn edge_count(self) -> nat {
        self.directed().edge_count()
    }

    open spec fn vertex_slots(self) -> nat {
        self.directed().vertex_slots()
    }

    open spec fn edge_slots(self) -> nat {
        self.directed().edge_slots()
    }

    #[inline]
    fn graph_id(self) -> (r: GraphId) {
        self.0.graph_id()
    }

    #[inline]
    fn num_vertices(self) -> (r: usize) {
        self.0.num_vertices()
    }

    #[inline]
    fn num_edges(self) -> (r: usize) {
        self.0.num_edges()
    }

    #[inline]
    fn vertex_bound(self) -> (r: VertexBound) {
        self.0.vertex_bound()
    }

    #[inline]
    fn edge_bound(self) -> (r: EdgeBound) {
        self.0.edge_bound()
    }
}

impl<G: GraphRef + HasDir<Dir = Directed>> GraphRef for Und<G> {
    type Out = G::All;

    type All = G::All;

    open spec fn out_list(self, v: VertexId) -> Seq<Incident> {
        self.directed().all_list(v)
    }

    open spec fn all_list(self, v: VertexId) -> Seq<Incident> {
        self.directed().all_list(v)
    }

    #[inline]
    fn out_edges(self, v: VertexId) -> (r: G::All) {
        self.0.all_edges(v)
    }

    #[inline]
    fn all_edges(self, v: VertexId) -> (r: G::All) {
        self.0.all_edges(v)
    }

    #[inline]
    fn out_degree(self, v: VertexId) -> (r: usize) {
        self.0.degree(v)
    }

    #[inline]
    fn degree(self, v: VertexId) -> (r: usize) {
        self.0.degree(v)
    }
}

impl<G: VertexList + HasDir<Dir = Directed>> VertexList for Und<G> {
    type Vertices = G::Vertices;

    open spec fn vertex_list(self) -> Seq<VertexId> {
        self.directed().vertex_list()
    }

    proof fn vertices_are_counted(self) {
        self.directed().vertices_are_counted();
    }

    #[inline]
    fn vertices(self) -> (r: G::Vertices) {
        self.0.vertices()
    }
}

impl<G: EdgeList + HasDir<Dir = Directed>> EdgeList for Und<G> {
    type Edges = G::Edges;

    open spec fn edge_list(self) -> Seq<EdgeRef> {
        self.directed().edge_list()
    }

    proof fn edges_are_counted(self) {
        self.directed().edges_are_counted();
    }

    /// Each edge exactly once, in storage orientation.
    #[inline]
    fn edges(self) -> (r: G::Edges) {
        self.0.edges()
    }
}

impl<G: Endpoints + HasDir<Dir = Directed>> Endpoints for Und<G> {
    open spec fn ends_of(self, e: EdgeId) -> Option<(VertexId, VertexId)> {
        self.directed().ends_of(e)
    }

    open spec fn first_edge(self, s: VertexId, t: VertexId) -> Option<EdgeRef> {
        match self.directed().first_edge(s, t) {
            Some(e) => Some(e),
            None => self.directed().first_edge(t, s),
        }
    }

    #[inline]
    fn endpoints(self, e: EdgeId) -> (r: Option<(VertexId, VertexId)>) {
        self.0.endpoints(e)
    }

    #[inline]
    fn opposite(self, e: EdgeId, v: VertexId) -> (r: Option<VertexId>) {
        self.0.opposite(e, v)
    }

    /// Tries both orientations, and returns the hit **in storage orientation**.
    fn find_edge(self, s: VertexId, t: VertexId) -> (r: Option<EdgeRef>) {
        match self.0.find_edge(s, t) {
            Some(e) => Some(e),
            None => self.0.find_edge(t, s),
        }
    }
}

} // verus!
