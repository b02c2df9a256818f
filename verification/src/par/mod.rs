//! Deterministic parallelism.
//!
//! A [`Plan`] fixes the chunk count and the fold order, [`Seed::split`] keys
//! every generator on the chunk index, and errors are return values: nothing
//! depends on the number of threads.

pub mod lanes;
pub mod locks;
pub mod plan;
pub mod reduce;

pub use lanes::{chunked_sum, ChunkSum};
pub use locks::{lock_order, pair_mut, Pair, RowLocks};
pub use plan::{Plan, Seed};
pub use reduce::{det_reduce, try_det_reduce};
