//! The graph trait layer.
//!
//! A view is a `Copy` value, and every method takes it by value: the lifetime
//! of the storage is on the implementing type, so a plain associated type names
//! a view's walks. Exact lengths are the separate [`ExactIncidence`]
//! refinement, which filtered views do not have.

use std::sync::Arc;

use vstd::prelude::*;

use crate::adj::{
    AdjList, AllEdges, EdgeRef, Edges, InEdges, Incident, Lookup, OutEdges, Vertices,
};
use crate::bound::{EdgeBound, VertexBound};
use crate::dir::{Directed, HasDir};
use crate::ids::{EdgeId, GraphId, VertexId};
use crate::walk::{ExactWalk, Walk};

verus! {

/// Counts, bounds and identity.
pub trait GraphBase: Copy {
    /// What must hold of the view for its methods to be used.
    spec fn wf(self) -> bool;

    /// Identity of the underlying storage.
    spec fn storage(self) -> GraphId;

    /// How many vertices the view exposes.
    spec fn vertex_count(self) -> nat;

    /// How many edges the view exposes.
    spec fn edge_count(self) -> nat;

    /// The size of the vertex index space of the *unfiltered* storage.
    spec fn vertex_slots(self) -> nat;

    /// The size of the edge index space of the *unfiltered* storage.
    spec fn edge_slots(self) -> nat;

    /// Identity of the underlying storage. Views forward it unchanged, so a
    /// property map sized for a graph is accepted by its views.
    fn graph_id(self) -> (r: GraphId)
        requires
            self.wf(),
        ensures
            r == self.storage(),
    ;

    /// The honest number of vertices this view exposes.
    fn num_vertices(self) -> (r: usize)
        requires
            self.wf(),
        ensures
            r == self.vertex_count(),
    ;

    /// The honest number of edges this view exposes: each edge once, never by
    /// summing degrees.
    fn num_edges(self) -> (r: usize)
        requires
            self.wf(),
        ensures
            r == self.edge_count(),
    ;

    /// Allocation bound of the vertex index space, always of the *unfiltered*
    /// storage. This, never [`num_vertices`](Self::num_vertices), is what sizes
    /// a property map.
    fn vertex_bound(self) -> (r: VertexBound)
        requires
            self.wf(),
        ensures
            r.owner() == self.storage(),
            r.slots() == self.vertex_slots(),
    ;

    /// Allocation bound of the edge index space, always of the *unfiltered*
    /// storage.
    fn edge_bound(self) -> (r: EdgeBound)
        requires
            self.wf(),
        ensures
            r.owner() == self.storage(),
            r.slots() == self.edge_slots(),
    ;
}

/// Incidence.
pub trait GraphRef: GraphBase + HasDir {
    /// Out-edges of a vertex.
    type Out: Walk<Item = Incident> + Clone;

    /// Every incident edge of a vertex, whatever the orientation.
    type All: Walk<Item = Incident> + Clone;

    /// The out-edges of `v`, in order.
    spec fn out_list(self, v: VertexId) -> Seq<Incident>;

    /// The incident edges of `v`, in order.
    spec fn all_list(self, v: VertexId) -> Seq<Incident>;

    /// Out-edges of `v`, **anchored at `v`**: every yielded
    /// [`Incident::other`] is the neighbour.
    fn out_edges(self, v: VertexId) -> (r: Self::Out)
        requires
            self.wf(),
        ensures
            r.wf(),
            r.rest() == self.out_list(v),
    ;

    /// Every incident edge of `v`, anchored at `v`.
    fn all_edges(self, v: VertexId) -> (r: Self::All)
        requires
            self.wf(),
        ensures
            r.wf(),
            r.rest() == self.all_list(v),
    ;

    /// Number of out-edges.
    fn out_degree(self, v: VertexId) -> (r: usize)
        requires
            self.wf(),
        ensures
            r == self.out_list(v).len(),
    ;

    /// Total number of incident edges.
    fn degree(self, v: VertexId) -> (r: usize)
        requires
            self.wf(),
        ensures
            r == self.all_list(v).len(),
    ;
}

/// In-edges. Directed views only.
pub trait Bidirectional: GraphRef + HasDir<Dir = Directed> {
    /// In-edges of a vertex.
    type In: Walk<Item = Incident> + Clone;

    /// The in-edges of `v`, in order.
    spec fn in_list(self, v: VertexId) -> Seq<Incident>;

    /// In-edges of `v`, anchored at `v`.
    fn in_edges(self, v: VertexId) -> (r: Self::In)
        requires
            self.wf(),
        ensures
            r.wf(),
            r.rest() == self.in_list(v),
    ;

    /// Number of in-edges.
    fn in_degree(self, v: VertexId) -> (r: usize)
        requires
            self.wf(),
        ensures
            r == self.in_list(v).len(),
    ;
}

/// The vertex set.
pub trait VertexList: GraphBase {
    /// Walk over the vertices this view exposes.
    type Vertices: Walk<Item = VertexId> + Clone;

    /// The vertices this view exposes, in order.
    spec fn vertex_list(self) -> Seq<VertexId>;

    /// The count is what the walk yields.
    proof fn vertices_are_counted(self)
        requires
            self.wf(),
        ensures
            self.vertex_list().len() == self.vertex_count(),
    ;

    /// The vertices this view exposes.
    fn vertices(self) -> (r: Self::Vertices)
        requires
            self.wf(),
        ensures
            r.wf(),
            r.rest() == self.vertex_list(),
    ;
}

/// The edge set.
pub trait EdgeList: GraphBase {
    /// Walk over the edges this view exposes.
    type Edges: Walk<Item = EdgeRef> + Clone;

    /// The edges this view exposes, in order and in its orientation.
    spec fn edge_list(self) -> Seq<EdgeRef>;

    /// The count is what the walk yields.
    proof fn edges_are_counted(self)
        requires
            self.wf(),
        ensures
            self.edge_list().len() == self.edge_count(),
    ;

    /// Each edge exactly once, in this view's orientation.
    fn edges(self) -> (r: Self::Edges)
        requires
            self.wf(),
        ensures
            r.wf(),
            r.rest() == self.edge_list(),
    ;
}

/// The endpoint of an edge that is not `v`.
pub open spec fn across(ends: Option<(VertexId, VertexId)>, v: VertexId) -> Option<VertexId> {
    match ends {
        Some((s, t)) => if v == s {
            Some(t)
        } else if v == t {
            Some(s)
        } else {
            None
        },
        None => None,
    }
}

/// Resolving a stored [`EdgeId`] back to its endpoints.
pub trait Endpoints: GraphBase + HasDir {
    /// The endpoints of an edge of the view, in its orientation.
    spec fn ends_of(self, e: EdgeId) -> Option<(VertexId, VertexId)>;

    /// The first edge from `s` to `t`.
    spec fn first_edge(self, s: VertexId, t: VertexId) -> Option<EdgeRef>;

    /// Endpoints in this view's orientation, in constant time.
    fn endpoints(self, e: EdgeId) -> (r: Option<(VertexId, VertexId)>)
        requires
            self.wf(),
        ensures
            r == self.ends_of(e),
    ;

    /// The endpoint that is not `v`.
    fn opposite(self, e: EdgeId, v: VertexId) -> (r: Option<VertexId>)
        requires
            self.wf(),
        ensures
            r == across(self.ends_of(e), v),
    ;

    /// The first edge from `s` to `t` in this view's orientation.
    fn find_edge(self, s: VertexId, t: VertexId) -> (r: Option<EdgeRef>)
        requires
            self.wf(),
        ensures
            r == self.first_edge(s, t),
    ;
}

/// A view whose incidence walks know their own length.
pub trait ExactIncidence: GraphRef where Self::Out: ExactWalk, Self::All: ExactWalk {

}

/// Something that owns graph storage and can lend a view of it for `'a`.
pub trait GraphOwner<'a>: HasDir + 'a {
    /// The view type this owner lends.
    type Ref: GraphRef;

    /// The view lent.
    spec fn lent(&'a self) -> Self::Ref;

    /// Borrow a view.
    fn as_graph(&'a self) -> (r: Self::Ref)
        ensures
            r == self.lent(),
    ;
}

impl<H: Lookup> HasDir for AdjList<H> {
    type Dir = Directed;
}

impl<'g, H: Lookup> HasDir for &'g AdjList<H> {
    type Dir = Directed;
}

impl<H: Lookup> HasDir for Arc<AdjList<H>> {
    type Dir = Directed;
}

impl<'g, H: Lookup> GraphBase for &'g AdjList<H> {
    open spec fn wf(self) -> bool {
        AdjList::wf(*self)
    }

    open spec fn storage(self) -> GraphId {
        self.identity()
    }

    open spec fn vertex_count(self) -> nat {
        self.topology().blocks.len()
    }

    open spec fn edge_count(self) -> nat {
        self.space().live() as nat
    }

    open spec fn vertex_slots(self) -> nat {
        self.topology().blocks.len()
    }

    open spec fn edge_slots(self) -> nat {
        self.space().bound
    }

    #[inline]
    fn graph_id(self) -> (r: GraphId) {
        AdjList::graph_id(self)
    }

    #[inline]
    fn num_vertices(self) -> (r: usize) {
        AdjList::num_vertices(self)
    }

    #[inline]
    fn num_edges(self) -> (r: usize) {
        AdjList::num_edges(self)
    }

    #[inline]
    fn vertex_bound(self) -> (r: VertexBound) {
        AdjList::vertex_bound(self)
    }

    #[inline]
    fn edge_bound(self) -> (r: EdgeBound) {
        AdjList::edge_bound(self)
    }
}

impl<'g, H: Lookup> GraphRef for &'g AdjList<H> {
    type Out = OutEdges<'g>;

    type All = AllEdges<'g>;

    open spec fn out_list(self, v: VertexId) -> Seq<Incident> {
        crate::adj::iter::incidents(self.topology().block(v).out)
    }

    open spec fn all_list(self, v: VertexId) -> Seq<Incident> {
        crate::adj::iter::incidents(self.topology().block(v).all())
    }

    #[inline]
    fn out_edges(self, v: VertexId) -> (r: OutEdges<'g>) {
        AdjList::out_edges(self, v)
    }

    #[inline]
    fn all_edges(self, v: VertexId) -> (r: AllEdges<'g>) {
        AdjList::all_edges(self, v)
    }

    #[inline]
    fn out_degree(self, v: VertexId) -> (r: usize) {
        AdjList::out_degree(self, v)
    }

    #[inline]
    fn degree(self, v: VertexId) -> (r: usize) {
        AdjList::degree(self, v)
    }
}

impl<'g, H: Lookup> Bidirectional for &'g AdjList<H> {
    type In = InEdges<'g>;

    open spec fn in_list(self, v: VertexId) -> Seq<Incident> {
        crate::adj::iter::incidents(self.topology().block(v).inc)
    }

    #[inline]
    fn in_edges(self, v: VertexId) -> (r: InEdges<'g>) {
        AdjList::in_edges(self, v)
    }

    #[inline]
    fn in_degree(self, v: VertexId) -> (r: usize) {
        AdjList::in_degree(self, v)
    }
}

impl<'g, H: Lookup> VertexList for &'g AdjList<H> {
    type Vertices = Vertices;

    open spec fn vertex_list(self) -> Seq<VertexId> {
        crate::adj::iter::id_run(0, self.topology().blocks.len() as int)
    }

    proof fn vertices_are_counted(self) {
    }

    #[inline]
    fn vertices(self) -> (r: Vertices) {
        AdjList::vertices(self)
    }
}

impl<'g, H: Lookup> EdgeList for &'g AdjList<H> {
    type Edges = Edges<'g>;

    open spec fn edge_list(self) -> Seq<EdgeRef> {
        crate::adj::iter::edges_from(self.topology().blocks, 0, 0)
    }

    proof fn edges_are_counted(self) {
        crate::adj::laws::the_count_is_what_the_list_yields(*self);
    }

    #[inline]
    fn edges(self) -> (r: Edges<'g>) {
        AdjList::edges(self)
    }
}

impl<'g, H: Lookup> Endpoints for &'g AdjList<H> {
    open spec fn ends_of(self, e: EdgeId) -> Option<(VertexId, VertexId)> {
        self.topology().ends_of(e)
    }

    open(crate) spec fn first_edge(self, s: VertexId, t: VertexId) -> Option<EdgeRef> {
        match self.topology().first_between(s, t) {
            Some(id) => Some(EdgeRef { id, src: s, tgt: t }),
            None => None,
        }
    }

    #[inline]
    fn endpoints(self, e: EdgeId) -> (r: Option<(VertexId, VertexId)>) {
        AdjList::endpoints(self, e)
    }

    #[inline]
    fn opposite(self, e: EdgeId, v: VertexId) -> (r: Option<VertexId>) {
        match AdjList::endpoints(self, e) {
            Some((s, t)) => if v == s {
                Some(t)
            } else if v == t {
                Some(s)
            } else {
                None
            },
            None => None,
        }
    }

    #[inline]
    fn find_edge(self, s: VertexId, t: VertexId) -> (r: Option<EdgeRef>) {
        AdjList::find_edge(self, s, t)
    }
}

impl<'g, H: Lookup> ExactIncidence for &'g AdjList<H> {

}

impl<'a, H: Lookup> GraphOwner<'a> for AdjList<H> {
    type Ref = &'a AdjList<H>;

    open spec fn lent(&'a self) -> &'a AdjList<H> {
        self
    }

    #[inline]
    fn as_graph(&'a self) -> (r: &'a AdjList<H>) {
        self
    }
}

impl<'a, H: Lookup> GraphOwner<'a> for Arc<AdjList<H>> {
    type Ref = &'a AdjList<H>;

    open spec fn lent(&'a self) -> &'a AdjList<H> {
        &**self
    }

    #[inline]
    fn as_graph(&'a self) -> (r: &'a AdjList<H>) {
        &**self
    }
}

} // verus!
