//! Error types. Every fallible operation of the crate returns one of these.

use vstd::prelude::*;

use crate::ids::{EdgeId, VertexId};
use crate::prop::value::ValueKind;

verus! {

/// Structural failures of a graph operation.
#[derive(Debug, Clone, PartialEq, Eq)]
pub enum GraphError {
    /// A vertex descriptor does not name a live vertex.
    NoSuchVertex(VertexId),
    /// An edge descriptor does not name a live edge.
    NoSuchEdge(EdgeId),
    /// The dense edge-index space is exhausted.
    EdgeIdSpaceExhausted {
        /// The largest representable index.
        max: usize,
    },
    /// The dense vertex-index space is exhausted.
    VertexIdSpaceExhausted {
        /// The largest representable index.
        max: usize,
    },
    /// A derived index disagrees with the adjacency. Only reachable from
    /// [`AdjList::validate`](crate::adj::AdjList::validate).
    Invariant(&'static str),
}

/// Failures at the property-map boundary.
#[derive(Debug, Clone, PartialEq, Eq)]
pub enum PropError {
    /// A map sized for one graph was offered to a kernel operating on another.
    WrongGraph {
        /// Identity carried by the map.
        owner: u64,
        /// Identity carried by the bound.
        expected: u64,
    },
    /// A read-only view was requested of a map shorter than the graph's bound.
    Undersized {
        /// Current length.
        have: usize,
        /// Required length.
        need: usize,
    },
    /// The dynamic map does not support reading.
    NotReadable,
    /// The dynamic map does not support writing.
    NotWritable,
    /// A filter mask is shorter than the index bound it was offered for.
    ShortMask {
        /// Mask length.
        have: usize,
        /// Required length.
        need: usize,
    },
    /// A value does not convert between two members.
    NoConversion {
        /// The source member.
        from: ValueKind,
        /// The target member.
        to: ValueKind,
    },
}

/// A runtime kind outside what a dispatch accepts.
#[derive(Debug, Clone, PartialEq, Eq)]
pub struct DispatchError {
    /// Which argument was rejected.
    pub axis: &'static str,
    /// What the caller supplied.
    pub offered: ValueKind,
    /// What this call site accepts.
    pub accepted: &'static [ValueKind],
}

} // verus!
