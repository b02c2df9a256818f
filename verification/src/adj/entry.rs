//! Adjacency entries and the two edge descriptor types.
//!
//! [`Incident`] is what incidence iteration yields. It is anchored: `other` is
//! the neighbour, never the query vertex. [`EdgeRef`] is what the global edge
//! list yields, in canonical storage orientation. Neither has `==`: an edge's
//! identity is its [`EdgeId`], obtained by `id` or `From`.

use vstd::prelude::*;

use crate::ids::{EdgeId, VertexId};

verus! {

/// One half-edge as stored: the other endpoint, and the edge's dense index.
#[derive(Debug)]
pub struct AdjEntry {
    /// The endpoint that is not the vertex whose block this is.
    pub other: VertexId,
    /// The edge's dense index.
    pub idx: EdgeId,
}

impl Clone for AdjEntry {
    #[inline]
    fn clone(&self) -> (r: Self)
        ensures
            r == *self,
    {
        *self
    }
}

impl Copy for AdjEntry {

}

impl PartialEq for AdjEntry {
    #[inline]
    fn eq(&self, other: &Self) -> (r: bool) {
        self.other == other.other && self.idx == other.idx
    }
}

impl vstd::std_specs::cmp::PartialEqSpecImpl for AdjEntry {
    open spec fn obeys_eq_spec() -> bool {
        true
    }

    open spec fn eq_spec(&self, other: &Self) -> bool {
        *self == *other
    }
}

impl Eq for AdjEntry {

}

/// An edge as seen *from* a vertex.
#[derive(Clone, Copy, Debug)]
pub struct Incident {
    /// The neighbour.
    pub other: VertexId,
    /// The edge's identity.
    pub edge: EdgeId,
}

impl Incident {
    /// The edge's identity.
    #[inline]
    pub fn id(self) -> (r: EdgeId)
        ensures
            r == self.edge,
    {
        self.edge
    }
}

impl From<Incident> for EdgeId {
    #[inline]
    fn from(i: Incident) -> (r: EdgeId) {
        i.edge
    }
}

impl vstd::std_specs::convert::FromSpecImpl<Incident> for EdgeId {
    open spec fn obeys_from_spec() -> bool {
        true
    }

    open spec fn from_spec(i: Incident) -> EdgeId {
        i.edge
    }
}

/// An edge with both endpoints, in canonical storage orientation.
///
/// There is no null value: a failed lookup is `None`.
#[derive(Clone, Copy, Debug)]
pub struct EdgeRef {
    pub(crate) id: EdgeId,
    pub(crate) src: VertexId,
    pub(crate) tgt: VertexId,
}

/// An edge descriptor as a value: identity, source and target.
pub struct EdgeView {
    /// The edge's identity.
    pub id: EdgeId,
    /// The stored source.
    pub src: VertexId,
    /// The stored target.
    pub tgt: VertexId,
}

impl EdgeView {
    /// The same edge with its endpoints exchanged.
    pub open spec fn flip(self) -> EdgeView {
        EdgeView { id: self.id, src: self.tgt, tgt: self.src }
    }

    /// The endpoint that is not `v`, for `v` an endpoint.
    pub open spec fn other_end(self, v: VertexId) -> Option<VertexId> {
        if v == self.src {
            Some(self.tgt)
        } else if v == self.tgt {
            Some(self.src)
        } else {
            None
        }
    }
}

impl View for EdgeRef {
    type V = EdgeView;

    open(crate) spec fn view(&self) -> EdgeView {
        EdgeView { id: self.id, src: self.src, tgt: self.tgt }
    }
}

impl EdgeRef {
    /// The descriptor of edge `id` from `src` to `tgt`.
    #[inline]
    pub fn new(id: EdgeId, src: VertexId, tgt: VertexId) -> (r: Self)
        ensures
            r@ == (EdgeView { id, src, tgt }),
    {
        EdgeRef { id, src, tgt }
    }

    /// The edge's identity.
    #[inline]
    pub fn id(self) -> (r: EdgeId)
        ensures
            r == self@.id,
    {
        self.id
    }

    /// The stored source.
    #[inline]
    pub fn source(self) -> (r: VertexId)
        ensures
            r == self@.src,
    {
        self.src
    }

    /// The stored target.
    #[inline]
    pub fn target(self) -> (r: VertexId)
        ensures
            r == self@.tgt,
    {
        self.tgt
    }

    /// The same edge with its endpoints exchanged.
    #[inline]
    pub fn reversed(self) -> (r: Self)
        ensures
            r@ == self@.flip(),
    {
        EdgeRef { id: self.id, src: self.tgt, tgt: self.src }
    }

    /// The endpoint that is not `v`, or `None` if `v` is neither.
    #[inline]
    pub fn opposite(self, v: VertexId) -> (r: Option<VertexId>)
        ensures
            r == self@.other_end(v),
    {
        if v == self.src {
            Some(self.tgt)
        } else if v == self.tgt {
            Some(self.src)
        } else {
            None
        }
    }

    /// View this edge from `v`, if `v` is an endpoint.
    #[inline]
    pub fn anchored_at(self, v: VertexId) -> (r: Option<Incident>)
        ensures
            r == (match self@.other_end(v) {
                Some(other) => Some((Incident { other, edge: self@.id })),
                None => None,
            }),
    {
        match self.opposite(v) {
            Some(other) => Some(Incident { other, edge: self.id }),
            None => None,
        }
    }
}

/// A descriptor is its identity and its two stored endpoints.
pub proof fn edge_ref_is_its_view(a: EdgeRef, b: EdgeRef)
    ensures
        a@ == b@ ==> a == b,
{
}

/// Reversing an edge twice gives it back.
pub proof fn reversing_twice_is_nothing(e: EdgeView)
    ensures
        e.flip().flip() == e,
        e.flip().id == e.id,
{
}

impl From<EdgeRef> for EdgeId {
    #[inline]
    fn from(e: EdgeRef) -> (r: EdgeId) {
        e.id
    }
}

impl vstd::std_specs::convert::FromSpecImpl<EdgeRef> for EdgeId {
    open spec fn obeys_from_spec() -> bool {
        true
    }

    open spec fn from_spec(e: EdgeRef) -> EdgeId {
        e@.id
    }
}

} // verus!
