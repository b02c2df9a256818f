//! Adjacency storage.
//!
//! One contiguous run of [`AdjEntry`] per vertex, out-entries first and
//! in-entries after them. Edge indices are dense, via a free list, so edge
//! property maps stay compact.

pub mod allocator;
pub mod block;
pub mod builder;
pub mod census;
pub mod changes;
pub mod consistency;
pub mod entry;
pub mod index;
pub mod iter;
pub mod laws;
pub mod list;
pub mod splicing;
pub mod tally;
pub mod topology;

pub use allocator::{EdgeIds, IdSpace};
pub use block::{Block, BlockView, End, Moved};
pub use builder::ParBuilder;
pub use entry::{AdjEntry, EdgeRef, Incident};
pub use index::{EHash, EdgeSlot, EdgeSlots, Lookup, NoLookup};
pub use iter::{
    AllEdges, EdgeIdsOf, Edges, FilterEdges, FilterIncident, FilterVertices, InEdges, IncidentIter,
    OutEdges, SwapEnds, Vertices,
};
pub use list::{AdjList, Graph, LookupGraph};
pub use topology::Topology;
