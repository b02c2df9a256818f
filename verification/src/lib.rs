//! Graph adjacency storage, graph views, property maps and deterministic
//! parallel primitives, with every operation's behaviour stated and proved.

pub mod adj;
pub mod bound;
pub mod dir;
pub mod error;
pub mod graph;
pub mod ids;
pub mod par;
pub mod prop;
mod sealed;
mod seqs;
mod text;
pub mod view;
pub mod walk;

pub use bound::{Bound, EdgeBound, VertexBound};
pub use dir::{Dir, Directed, HasDir, Undirected};
pub use error::{GraphError, PropError};
pub use graph::{
    Bidirectional, EdgeList, Endpoints, GraphBase, GraphOwner, GraphRef, VertexList,
};
pub use ids::{EdgeId, GraphId, Id, IdTag, Raw, VertexId};
