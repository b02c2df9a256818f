//! Property maps and the closed universe of values they hold.
//!
//! Growth and view-creation are one operation: [`DenseProp::sized_for`] takes a
//! [`Bound`](crate::bound::Bound), grows the map, and returns a view of exactly
//! that length. There is no view shorter than its bound.
//!
//! The map a kernel receives is a trait, [`ReadProp`] or [`WriteProp`], because
//! the identity and the constant maps have no storage at all.

pub mod convert;
pub mod dense;
pub mod dispatch;
pub mod dynamic;
pub mod index_map;
pub mod laws;
pub mod map;
pub mod number;
pub mod value;

pub use convert::{
    convertible, needs_double_text, AnyValue, Carried, ConvertFrom, FromAny, PyCell, ToAny,
};
pub use dense::{
    ConstI64, Constant, DenseProp, EdgeProp, One, PropSlice, PropSliceMut, Unity, VertexProp,
};
pub use dispatch::{AnyMap, KindVisitor, ScalarKernel, ScalarV};
pub use dynamic::{
    DynProp, DynWrap, Erased, ReadOnlyAdaptor, ReadWriteAdaptor, Refusing, WriteOnlyAdaptor,
};
pub use index_map::IndexProp;
pub use map::{Got, LvalueProp, Owned, ReadEdgeProp, ReadProp, ReadVertexProp, WriteProp};
pub use value::{Double, GilFree, LongDouble, PropValue, Scalar, ToF64, ValueKind, Zeroed};
