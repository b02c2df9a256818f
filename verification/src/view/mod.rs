//! The view algebra: directed, reversed and undirected, each with or without a
//! filter.
//!
//! The wrappers are made by [`Undirect::undirect`] and [`Reverse::reverse`]:
//! `undirect` is idempotent and absorbs a reversal, and `reverse` is an
//! involution.

pub mod filtered;
pub mod incidence;
pub mod laws;
pub mod masks;
pub mod reversed;
pub mod undirected;

pub use filtered::{keeps_edge, keeps_incident, Filter, Filtered, KeepAll, MaskFilter};
pub use reversed::{own_reversed, Rev, Reverse};
pub use undirected::{own_undirected, Und, Undirect};
