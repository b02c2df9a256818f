//! The property-map traits a kernel bounds on.

use std::ops::Deref;
use vstd::prelude::*;

use crate::ids::{EdgeTag, Id, IdTag, VertexTag};

verus! {

/// A computed value, held so that it can be read through a reference.
#[derive(Clone, Copy, Debug, PartialEq, Eq, PartialOrd, Ord, Hash)]
pub struct Owned<T>(pub T);

impl<T> Deref for Owned<T> {
    type Target = T;

    fn deref(&self) -> (r: &T)
        ensures
            *r == self.0,
    {
        &self.0
    }
}

/// How a read is handed back: borrowed from storage, or computed.
///
/// Storage-free maps and slice-backed ones are read through the same trait, so
/// a read of a string or a vector need not copy it.
#[derive(Clone, Copy, Debug)]
pub enum Got<'s, T> {
    /// Borrowed from the map's storage.
    Stored(&'s T),
    /// Made for this read.
    Computed(Owned<T>),
}

impl<'s, T> Got<'s, T> {
    /// The value read.
    pub open spec fn value(self) -> T {
        match self {
            Got::Stored(v) => *v,
            Got::Computed(v) => v.0,
        }
    }
}

impl<'s, T> Deref for Got<'s, T> {
    type Target = T;

    fn deref(&self) -> (r: &T)
        ensures
            *r == self.value(),
    {
        match self {
            Got::Stored(v) => v,
            Got::Computed(v) => &v.0,
        }
    }
}

/// Reading a property map.
pub trait ReadProp<K: IdTag> {
    /// The stored type.
    type Value;

    /// Whether every slot reads one, which lets a kernel skip the read.
    const IS_UNITY: bool = false;

    /// Whether every slot reads the same value.
    const IS_CONSTANT: bool = false;

    /// What each slot reads, by index.
    spec fn slots(&self) -> Map<nat, Self::Value>;

    /// Read. The slot must be one the map covers.
    fn get_ref(&self, k: Id<K>) -> (r: Got<'_, Self::Value>)
        requires
            self.slots().contains_key(k@),
        ensures
            r.value() == self.slots()[k@],
    ;

    /// Read a copy.
    fn get(&self, k: Id<K>) -> (r: Self::Value) where Self::Value: Clone
        requires
            self.slots().contains_key(k@),
        ensures
            cloned(self.slots()[k@], r),
    {
        self.get_ref(k).deref().clone()
    }
}

/// Writing a property map.
///
/// Not implemented for the storage-free maps: a write that would be discarded
/// is a type error.
pub trait WriteProp<K: IdTag>: ReadProp<K> {
    /// Store a value.
    fn put(&mut self, k: Id<K>, v: Self::Value)
        requires
            old(self).slots().contains_key(k@),
        ensures
            final(self).slots() == old(self).slots().insert(k@, v),
    ;
}

/// A property map whose slots are addressable.
pub trait LvalueProp<K: IdTag>: WriteProp<K> {
    /// Borrow a slot mutably, for in-place update without a round trip.
    fn at_mut(&mut self, k: Id<K>) -> (r: &mut Self::Value)
        requires
            old(self).slots().contains_key(k@),
        ensures
            *r == old(self).slots()[k@],
            final(self).slots() == old(self).slots().insert(k@, *final(r)),
    ;
}

/// A readable vertex property map.
pub trait ReadVertexProp: ReadProp<VertexTag> {

}

impl<P: ReadProp<VertexTag>> ReadVertexProp for P {

}

/// A readable edge property map.
pub trait ReadEdgeProp: ReadProp<EdgeTag> {

}

impl<P: ReadProp<EdgeTag>> ReadEdgeProp for P {

}

} // verus!
