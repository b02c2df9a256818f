//! The identity property map.

use vstd::prelude::*;

use super::map::{Got, Owned, ReadProp};
use crate::bound::Bound;
use crate::ids::{Id, IdTag};

verus! {

/// Reads back the identifier's own index. Carries no storage.
#[derive(Debug)]
pub struct IndexProp<K: IdTag> {
    pub(crate) bound: Bound<K>,
}

impl<K: IdTag> IndexProp<K> {
    /// The index space the map covers.
    pub open(crate) spec fn space(self) -> Bound<K> {
        self.bound
    }

    /// The identity map over an index space.
    ///
    /// Takes the bound so that the map still knows which graph it belongs to
    /// and how large the space is. Reads are not gated by it: the map answers
    /// for every identifier.
    #[inline]
    pub fn new(bound: Bound<K>) -> (r: Self)
        ensures
            r.space() == bound,
    {
        IndexProp { bound }
    }

    /// The index space this map covers.
    #[inline]
    pub fn bound(&self) -> (r: Bound<K>)
        ensures
            r == self.space(),
    {
        self.bound
    }
}

impl<K: IdTag> Clone for IndexProp<K> {
    fn clone(&self) -> (r: Self)
        ensures
            r == *self,
    {
        *self
    }
}

impl<K: IdTag> Copy for IndexProp<K> {

}

impl<K: IdTag> ReadProp<K> for IndexProp<K> {
    type Value = i64;

    const IS_UNITY: bool = false;

    const IS_CONSTANT: bool = false;

    open spec fn slots(&self) -> Map<nat, i64> {
        Map::new(|k: nat| k <= crate::ids::Raw::MAX, |k: nat| k as i64)
    }

    fn get_ref(&self, k: Id<K>) -> (r: Got<'_, i64>) {
        Got::Computed(Owned(k.index() as i64))
    }
}

/// Every identifier has a slot of the identity map, and reads its own index
/// there, whatever the bound.
pub proof fn the_identity_map_reads_the_index<K: IdTag>(map: IndexProp<K>, k: Id<K>)
    ensures
        map.slots().contains_key(k@),
        map.slots()[k@] == k@,
{
    crate::ids::id_in_range(k);
}

} // verus!
