//! Vector-backed property maps, and the constant and unity maps.

use std::marker::PhantomData;
use vstd::prelude::*;
use vstd::string::StringExecFns;

use super::map::{Got, LvalueProp, Owned, ReadProp, WriteProp};
use super::value::Zeroed;
use crate::bound::Bound;
use crate::error::PropError;
use crate::ids::{EdgeTag, GraphId, Id, IdTag, VertexTag};
use crate::text::{signed_text, write_text};

verus! {

/// A property map backed by a dense vector, owning its storage.
#[derive(Debug)]
pub struct DenseProp<T, K: IdTag> {
    pub(crate) graph: GraphId,
    pub(crate) data: Vec<T>,
    pub(crate) space: PhantomData<K>,
}

/// A vertex property map.
pub type VertexProp<T> = DenseProp<T, VertexTag>;

/// An edge property map.
pub type EdgeProp<T> = DenseProp<T, EdgeTag>;

/// An index space named by a view. Only this crate makes one, and so only this
/// crate makes a view: the length of a view is always that of a bound.
#[derive(Debug)]
pub struct Space<K: IdTag>(pub(crate) PhantomData<K>);

/// A read-only view of a correctly sized map.
#[derive(Debug)]
pub struct PropSlice<'a, T, K: IdTag> {
    /// The run of values.
    pub data: &'a [T],
    /// The index space the run covers.
    pub space: Space<K>,
}

/// A writable view of a correctly sized map.
#[derive(Debug)]
pub struct PropSliceMut<'a, T, K: IdTag> {
    /// The run of values.
    pub data: &'a mut [T],
    /// The index space the run covers.
    pub space: Space<K>,
}

/// The slots of a run of values, by index.
pub open spec fn slots_of<T>(values: Seq<T>) -> Map<nat, T> {
    Map::new(|k: nat| k < values.len(), |k: nat| values[k as int])
}

impl<T, K: IdTag> DenseProp<T, K> {
    /// The values stored, by index.
    pub open(crate) spec fn values(self) -> Seq<T> {
        self.data@
    }

    /// The graph the map belongs to.
    pub open(crate) spec fn owner(self) -> GraphId {
        self.graph
    }

    /// What a bound of another graph is refused with.
    pub open spec fn foreign(self, bound: Bound<K>) -> PropError {
        PropError::WrongGraph { owner: self.owner()@, expected: bound.owner()@ }
    }

    /// An empty map belonging to `graph`.
    pub fn new(graph: GraphId) -> (r: Self)
        ensures
            r.owner() == graph,
            r.values() == Seq::<T>::empty(),
    {
        DenseProp { graph, data: Vec::new(), space: PhantomData }
    }

    /// Adopt existing storage.
    pub fn from_vec(graph: GraphId, data: Vec<T>) -> (r: Self)
        ensures
            r.owner() == graph,
            r.values() == data@,
    {
        DenseProp { graph, data, space: PhantomData }
    }

    /// The graph this map belongs to.
    #[inline]
    pub fn graph(&self) -> (r: GraphId)
        ensures
            r == self.owner(),
    {
        self.graph
    }

    /// Current length.
    #[inline]
    pub fn len(&self) -> (r: usize)
        ensures
            r == self.values().len(),
    {
        self.data.len()
    }

    /// Whether the map holds nothing.
    #[inline]
    pub fn is_empty(&self) -> (r: bool)
        ensures
            r <==> self.values().len() == 0,
    {
        self.data.is_empty()
    }

    /// The whole store, for bulk kernels.
    #[inline]
    pub fn as_slice(&self) -> (r: &[T])
        ensures
            r@ == self.values(),
    {
        self.data.as_slice()
    }

    /// The whole store, mutably.
    #[inline]
    pub fn as_mut_slice(&mut self) -> (r: &mut [T])
        ensures
            r@ == old(self).values(),
            final(self).owner() == old(self).owner(),
            final(self).values() == final(r)@,
    {
        self.data.as_mut_slice()
    }

    /// Grow to `bound` and hand out a writable view, in one operation.
    ///
    /// New slots hold [`Zeroed::zero`]. The store never shrinks, and the view
    /// is exactly as long as the bound however long the store is. A bound of
    /// another graph is refused before anything grows.
    pub fn sized_for(&mut self, bound: Bound<K>) -> (r: Result<
        PropSliceMut<'_, T, K>,
        PropError,
    >) where T: Zeroed
        ensures
            final(self).owner() == old(self).owner(),
            bound.owner() != old(self).owner() ==> {
                &&& r == Err::<PropSliceMut<'_, T, K>, _>(old(self).foreign(bound))
                &&& final(self).values() == old(self).values()
            },
            bound.owner() == old(self).owner() ==> exists|grown: Seq<T>|
                {
                    &&& #[trigger] is_grown(old(self).values(), grown, bound.slots())
                    &&& forall|i: int|
                        old(self).values().len() <= i < grown.len() ==> (
                        #[trigger] grown[i]).is_zero()
                    &&& r matches Ok(v)
                    &&& v.run() == grown.take(bound.slots() as int)
                    &&& final(self).values() == final(v.data)@ + grown.skip(bound.slots() as int)
                },
    {
        self.sized_for_with(bound, T::zero)
    }

    /// As [`sized_for`](Self::sized_for), but filling new slots from a
    /// closure, for values that cannot be made without context. The closure
    /// runs once for each slot that is missing.
    pub fn sized_for_with<F>(&mut self, bound: Bound<K>, fill: F) -> (r: Result<
        PropSliceMut<'_, T, K>,
        PropError,
    >) where F: FnMut() -> T
        requires
            bound.owner() == old(self).owner() && old(self).values().len() < bound.slots()
                ==> fill.requires(()),
        ensures
            final(self).owner() == old(self).owner(),
            bound.owner() != old(self).owner() ==> {
                &&& r == Err::<PropSliceMut<'_, T, K>, _>(old(self).foreign(bound))
                &&& final(self).values() == old(self).values()
            },
            bound.owner() == old(self).owner() ==> exists|grown: Seq<T>|
                {
                    &&& #[trigger] is_grown(old(self).values(), grown, bound.slots())
                    &&& forall|i: int|
                        old(self).values().len() <= i < grown.len() ==> fill.ensures(
                            (),
                            #[trigger] grown[i],
                        )
                    &&& r matches Ok(v)
                    &&& v.run() == grown.take(bound.slots() as int)
                    &&& final(self).values() == final(v.data)@ + grown.skip(bound.slots() as int)
                },
    {
        match self.check_graph(bound) {
            Ok(()) => {},
            Err(e) => {
                return Err(e);
            },
        }
        let n = bound.len();
        let ghost given = fill;
        let mut fill = fill;
        while self.data.len() < n
            invariant
                n == bound.slots(),
                bound.owner() == old(self).owner(),
                self.graph == old(self).graph,
                fill == given,
                old(self).values().len() < n ==> fill.requires(()),
                is_grown(
                    old(self).values(),
                    self.data@,
                    if self.data@.len() < n { self.data@.len() } else { n as nat },
                ),
                forall|i: int|
                    old(self).values().len() <= i < self.data@.len() ==> fill.ensures(
                        (),
                        #[trigger] self.data@[i],
                    ),
            decreases n - self.data@.len(),
        {
            let v = fill();
            self.data.push(v);
        }
        let ghost grown = self.data@;
        assert(is_grown(old(self).values(), grown, bound.slots()));
        let (head, _tail) = self.data.as_mut_slice().split_at_mut(n);
        Ok(PropSliceMut { data: head, space: Space(PhantomData) })
    }

    /// Compare the two identities.
    fn check_graph(&self, bound: Bound<K>) -> (r: Result<(), PropError>)
        ensures
            r == (if bound.owner() == self.owner() {
                Ok(())
            } else {
                Err(self.foreign(bound))
            }),
    {
        if self.graph != bound.graph() {
            return Err(
                PropError::WrongGraph { owner: self.graph.get(), expected: bound.graph().get() },
            );
        }
        Ok(())
    }

    /// A read-only view, if the map is already large enough.
    ///
    /// Fallible: a shared borrow cannot grow, and a short run is never handed
    /// out. The identity is checked before the length.
    pub fn view(&self, bound: Bound<K>) -> (r: Result<PropSlice<'_, T, K>, PropError>)
        ensures
            bound.owner() != self.owner() ==> r == Err::<PropSlice<'_, T, K>, _>(
                self.foreign(bound),
            ),
            bound.owner() == self.owner() && self.values().len() < bound.slots() ==> r == Err::<
                PropSlice<'_, T, K>,
                _,
            >(
                PropError::Undersized {
                    have: self.values().len() as usize,
                    need: bound.slots() as usize,
                },
            ),
            bound.owner() == self.owner() && bound.slots() <= self.values().len() ==> {
                &&& r matches Ok(v)
                &&& v.run() == self.values().take(bound.slots() as int)
            },
    {
        match self.check_graph(bound) {
            Ok(()) => {},
            Err(e) => {
                return Err(e);
            },
        }
        let n = bound.len();
        if self.data.len() < n {
            return Err(PropError::Undersized { have: self.data.len(), need: n });
        }
        Ok(PropSlice::new(vstd::slice::slice_subrange(self.data.as_slice(), 0, n)))
    }

    /// The capacity [`soft_reserve`](Self::soft_reserve) asks for: the request
    /// or twice the length, whichever is larger, and nothing at all for a
    /// request the length already meets.
    pub open spec fn reserved(self, n: usize) -> Option<nat> {
        let have = self.values().len();
        if n <= have {
            None
        } else if n <= 2 * have {
            Some(
                if 2 * have <= usize::MAX {
                    2 * have
                } else {
                    usize::MAX as nat
                },
            )
        } else {
            Some(n as nat)
        }
    }

    /// What [`soft_reserve`](Self::soft_reserve) asks the allocator for: the
    /// capacity to reach, or nothing where the length already meets the request.
    pub fn reservation(&self, n: usize) -> (r: Option<usize>)
        ensures
            match r {
                Some(want) => self.reserved(n) == Some(want as nat),
                None => self.reserved(n) is None,
            },
    {
        let have = self.data.len();
        if n <= have {
            return None;
        }
        let twice: usize = if have <= usize::MAX / 2 {
            have * 2
        } else {
            usize::MAX
        };
        if n > twice {
            Some(n)
        } else {
            Some(twice)
        }
    }

    /// Geometric growth of the capacity, for push-style filling. A hint: the
    /// length and the values never change.
    ///
    /// What is asked for is [`reservation`](Self::reservation). The capacity
    /// that the allocator then grants is not part of the map's state and is
    /// left unsaid.
    pub fn soft_reserve(&mut self, n: usize)
        requires
            old(self).reserved(n) matches Some(want) ==> want * vstd::layout::size_of::<T>()
                <= isize::MAX,
        ensures
            final(self).owner() == old(self).owner(),
            final(self).values() == old(self).values(),
    {
        if let Some(want) = self.reservation(n) {
            let more: usize = want - self.data.len();
            self.data.reserve(more);
        }
    }

    /// How many values the store can hold before it reallocates.
    pub fn capacity(&self) -> (r: usize)
        ensures
            self.values().len() <= r,
    {
        store_capacity(&self.data)
    }
}

/// `Vec::capacity`: how many elements fit before a reallocation, which is
/// never less than the length. How much more is the allocator's choice.
#[verifier::external_body]
fn store_capacity<T>(store: &Vec<T>) -> (r: usize)
    ensures
        store@.len() <= r,
{
    store.capacity()
}

impl<T: Clone, K: IdTag> Clone for DenseProp<T, K> {
    fn clone(&self) -> (r: Self)
        ensures
            r.owner() == self.owner(),
            r.values().len() == self.values().len(),
            forall|i: int|
                0 <= i < self.values().len() ==> cloned(self.values()[i], #[trigger] r.values()[i]),
    {
        DenseProp { graph: self.graph, data: self.data.clone(), space: PhantomData }
    }
}

impl<T: Clone, K: IdTag> ReadProp<K> for DenseProp<T, K> {
    type Value = T;

    const IS_UNITY: bool = false;

    const IS_CONSTANT: bool = false;

    open spec fn slots(&self) -> Map<nat, T> {
        slots_of(self.values())
    }

    #[inline]
    fn get_ref(&self, k: Id<K>) -> (r: Got<'_, T>) {
        Got::Stored(&self.data[k.index()])
    }
}

impl<T: Clone, K: IdTag> WriteProp<K> for DenseProp<T, K> {
    #[inline]
    fn put(&mut self, k: Id<K>, v: T)
        ensures
            final(self).owner() == old(self).owner(),
            final(self).values() == old(self).values().update(k@ as int, v),
    {
        self.data.set(k.index(), v);
        proof {
            lemma_update_is_insert(old(self).values(), k@, v);
        }
    }
}

impl<T: Clone, K: IdTag> LvalueProp<K> for DenseProp<T, K> {
    #[inline]
    fn at_mut(&mut self, k: Id<K>) -> (r: &mut T)
        ensures
            final(self).owner() == old(self).owner(),
            final(self).values() == old(self).values().update(k@ as int, *final(r)),
    {
        let at = k.index();
        proof {
            assert forall|v: T|
                slots_of(#[trigger] old(self).values().update(k@ as int, v)) == slots_of(
                    old(self).values(),
                ).insert(k@, v) by {
                lemma_update_is_insert(old(self).values(), k@, v);
            }
        }
        &mut self.data[at]
    }
}

/// Overwriting one element of a run overwrites one slot.
proof fn lemma_update_is_insert<T>(values: Seq<T>, k: nat, v: T)
    requires
        k < values.len(),
    ensures
        slots_of(values.update(k as int, v)) == slots_of(values).insert(k, v),
{
    assert(slots_of(values.update(k as int, v)) =~= slots_of(values).insert(k, v));
}

/// Growing never shrinks, keeps what was there, and reaches exactly the bound
/// when the store was shorter.
pub open spec fn is_grown<T>(before: Seq<T>, after: Seq<T>, bound: nat) -> bool {
    &&& before.is_prefix_of(after)
    &&& after.len() == if before.len() < bound {
        bound
    } else {
        before.len()
    }
}

impl<'a, T, K: IdTag> PropSlice<'a, T, K> {
    /// The values in view, by index.
    pub open spec fn run(&self) -> Seq<T> {
        self.data@
    }

    pub(crate) fn new(data: &'a [T]) -> (r: Self)
        ensures
            r.run() == data@,
    {
        PropSlice { data, space: Space(PhantomData) }
    }

    /// The whole run, for bulk kernels.
    #[inline]
    pub fn as_slice(&self) -> (r: &[T])
        ensures
            r@ == self.run(),
    {
        self.data
    }

    /// Length, which equals the bound this view was made for.
    #[inline]
    pub fn len(&self) -> (r: usize)
        ensures
            r == self.run().len(),
    {
        self.data.len()
    }

    /// Whether the run is empty.
    #[inline]
    pub fn is_empty(&self) -> (r: bool)
        ensures
            r <==> self.run().len() == 0,
    {
        self.data.len() == 0
    }
}

impl<'a, T, K: IdTag> PropSliceMut<'a, T, K> {
    /// The values in view, by index.
    pub open spec fn run(&self) -> Seq<T> {
        self.data@
    }

    /// The whole run, for bulk kernels.
    #[inline]
    pub fn as_slice(&self) -> (r: &[T])
        ensures
            r@ == self.run(),
    {
        &*self.data
    }

    /// The whole run, mutably: the scatter path.
    #[inline]
    pub fn as_mut_slice(&mut self) -> (r: &mut [T])
        ensures
            r@ == old(self).run(),
            final(self).run() == final(r)@,
            final(final(self).data)@ == final(old(self).data)@,
    {
        &mut *self.data
    }

    /// Length, which equals the bound this view was made for.
    #[inline]
    pub fn len(&self) -> (r: usize)
        ensures
            r == self.run().len(),
    {
        self.data.len()
    }

    /// Whether the run is empty.
    #[inline]
    pub fn is_empty(&self) -> (r: bool)
        ensures
            r <==> self.run().len() == 0,
    {
        self.data.len() == 0
    }

    /// Reborrow, so a view can be passed by value into a kernel and reused.
    #[inline]
    pub fn reborrow(&mut self) -> (r: PropSliceMut<'_, T, K>)
        ensures
            r.run() == old(self).run(),
            final(self).run() == final(r.data)@,
            final(final(self).data)@ == final(old(self).data)@,
    {
        PropSliceMut { data: &mut *self.data, space: Space(PhantomData) }
    }

    /// Downgrade to a read-only view.
    #[inline]
    pub fn as_shared(&self) -> (r: PropSlice<'_, T, K>)
        ensures
            r.run() == self.run(),
    {
        PropSlice::new(&*self.data)
    }
}

impl<T: Clone, K: IdTag> ReadProp<K> for PropSlice<'_, T, K> {
    type Value = T;

    const IS_UNITY: bool = false;

    const IS_CONSTANT: bool = false;

    open spec fn slots(&self) -> Map<nat, T> {
        slots_of(self.run())
    }

    #[inline]
    fn get_ref(&self, k: Id<K>) -> (r: Got<'_, T>) {
        Got::Stored(&self.data[k.index()])
    }
}

impl<T: Clone, K: IdTag> ReadProp<K> for PropSliceMut<'_, T, K> {
    type Value = T;

    const IS_UNITY: bool = false;

    const IS_CONSTANT: bool = false;

    open spec fn slots(&self) -> Map<nat, T> {
        slots_of(self.run())
    }

    #[inline]
    fn get_ref(&self, k: Id<K>) -> (r: Got<'_, T>) {
        Got::Stored(&self.data[k.index()])
    }
}

impl<T: Clone, K: IdTag> WriteProp<K> for PropSliceMut<'_, T, K> {
    #[inline]
    fn put(&mut self, k: Id<K>, v: T)
        ensures
            final(self).run() == old(self).run().update(k@ as int, v),
            final(final(self).data)@ == final(old(self).data)@,
    {
        let at = k.index();
        proof {
            lemma_update_is_insert(old(self).run(), k@, v);
        }
        self.data[at] = v;
    }
}

impl<T: Clone, K: IdTag> LvalueProp<K> for PropSliceMut<'_, T, K> {
    #[inline]
    fn at_mut(&mut self, k: Id<K>) -> (r: &mut T)
        ensures
            final(self).run() == old(self).run().update(k@ as int, *final(r)),
            final(final(self).data)@ == final(old(self).data)@,
    {
        let at = k.index();
        proof {
            assert forall|v: T|
                slots_of(#[trigger] old(self).run().update(k@ as int, v)) == slots_of(
                    old(self).run(),
                ).insert(k@, v) by {
                lemma_update_is_insert(old(self).run(), k@, v);
            }
        }
        &mut self.data[at]
    }
}

/// The multiplicative identity.
pub trait One: Copy {
    /// One.
    const ONE: Self;
}

impl One for i64 {
    const ONE: i64 = 1;
}

impl One for i32 {
    const ONE: i32 = 1;
}

/// A map that reads one everywhere. Zero-sized.
#[verifier::reject_recursive_types(T)]
#[verifier::reject_recursive_types(K)]
pub struct Unity<T, K: IdTag>(PhantomData<(T, K)>);

impl<T, K: IdTag> Unity<T, K> {
    /// The map.
    pub fn new() -> (r: Self) {
        Unity(PhantomData)
    }

    /// The text of the diagnostic form.
    pub open spec fn text(self) -> Seq<char> {
        "Unity<"@ + K::NAME@ + ">"@
    }

    /// The diagnostic form, such as `Unity<vertex>`.
    pub fn label(&self) -> (r: String)
        ensures
            r@ == self.text(),
    {
        let mut s = String::from_str("Unity<");
        s.append(K::NAME);
        s.append(">");
        s
    }
}

impl<T, K: IdTag> std::fmt::Debug for Unity<T, K> {
    /// Writes the [`label`](Unity::label).
    fn fmt(&self, f: &mut std::fmt::Formatter<'_>) -> (r: std::fmt::Result)
        ensures
            r is Ok ==> crate::text::written(*final(f)) == crate::text::written(*old(f))
                + self.text(),
    {
        write_text(f, self.label().as_str())
    }
}

impl<T, K: IdTag> Clone for Unity<T, K> {
    fn clone(&self) -> (r: Self)
        ensures
            r == *self,
    {
        *self
    }
}

impl<T, K: IdTag> Copy for Unity<T, K> {

}

impl<T, K: IdTag> Default for Unity<T, K> {
    fn default() -> (r: Self) {
        Unity::new()
    }
}

impl<T: One + Clone, K: IdTag> ReadProp<K> for Unity<T, K> {
    type Value = T;

    const IS_UNITY: bool = true;

    const IS_CONSTANT: bool = true;

    open spec fn slots(&self) -> Map<nat, T> {
        Map::new(|k: nat| true, |k: nat| T::ONE)
    }

    fn get_ref(&self, k: Id<K>) -> (r: Got<'_, T>) {
        Got::Computed(Owned(T::ONE))
    }
}

/// A map that reads the same value everywhere.
#[derive(Debug)]
pub struct Constant<T, K: IdTag> {
    /// The value.
    pub c: T,
    /// The index space.
    pub space: PhantomData<K>,
}

impl<T, K: IdTag> Constant<T, K> {
    /// A map reading `c` everywhere.
    pub fn new(c: T) -> (r: Self)
        ensures
            r.c == c,
    {
        Constant { c, space: PhantomData }
    }
}

impl<T: Clone, K: IdTag> Clone for Constant<T, K> {
    fn clone(&self) -> (r: Self)
        ensures
            cloned(self.c, r.c),
    {
        Constant::new(self.c.clone())
    }
}

impl<T: Copy, K: IdTag> Copy for Constant<T, K> {

}

impl<T: Default, K: IdTag> Default for Constant<T, K> {
    fn default() -> (r: Self)
        ensures
            call_ensures(T::default, (), r.c),
    {
        Constant::new(T::default())
    }
}

impl<T: Clone, K: IdTag> ReadProp<K> for Constant<T, K> {
    type Value = T;

    const IS_UNITY: bool = false;

    const IS_CONSTANT: bool = true;

    open spec fn slots(&self) -> Map<nat, T> {
        Map::new(|k: nat| true, |k: nat| self.c)
    }

    fn get_ref(&self, k: Id<K>) -> (r: Got<'_, T>) {
        Got::Stored(&self.c)
    }
}

/// A constant map whose value lives in the type, as the two's-complement bits
/// of the integer it reads. Zero-sized, and a unity map when the value is one.
#[verifier::reject_recursive_types(K)]
pub struct ConstI64<const C: u64, K: IdTag>(PhantomData<K>);

/// The integer with the given two's-complement bits.
pub open spec fn of_bits(bits: u64) -> int {
    if bits <= i64::MAX {
        bits as int
    } else {
        bits - 0x1_0000_0000_0000_0000
    }
}

impl<const C: u64, K: IdTag> ConstI64<C, K> {
    /// The map.
    pub fn new() -> (r: Self) {
        ConstI64(PhantomData)
    }

    /// The value read everywhere.
    pub fn value() -> (r: i64)
        ensures
            r == of_bits(C),
    {
        let bits: u64 = C;
        assert(bits <= 0x7fff_ffff_ffff_ffff ==> (bits as i64) as int == bits as int)
            by (bit_vector);
        assert(bits > 0x7fff_ffff_ffff_ffff ==> (bits as i64) as int == bits
            - 0x1_0000_0000_0000_0000) by (bit_vector);
        bits as i64
    }

    /// The text of the diagnostic form.
    pub open spec fn text(self) -> Seq<char> {
        "ConstI64<"@ + crate::text::signed_decimal(of_bits(C)) + ", "@ + K::NAME@ + ">"@
    }

    /// The diagnostic form, such as `ConstI64<7, vertex>`.
    pub fn label(&self) -> (r: String)
        ensures
            r@ == self.text(),
    {
        let mut s = String::from_str("ConstI64<");
        s.append(signed_text(Self::value()).as_str());
        s.append(", ");
        s.append(K::NAME);
        s.append(">");
        s
    }
}

impl<const C: u64, K: IdTag> std::fmt::Debug for ConstI64<C, K> {
    /// Writes the [`label`](ConstI64::label).
    fn fmt(&self, f: &mut std::fmt::Formatter<'_>) -> (r: std::fmt::Result)
        ensures
            r is Ok ==> crate::text::written(*final(f)) == crate::text::written(*old(f))
                + self.text(),
    {
        write_text(f, self.label().as_str())
    }
}

impl<const C: u64, K: IdTag> Clone for ConstI64<C, K> {
    fn clone(&self) -> (r: Self)
        ensures
            r == *self,
    {
        *self
    }
}

impl<const C: u64, K: IdTag> Copy for ConstI64<C, K> {

}

impl<const C: u64, K: IdTag> Default for ConstI64<C, K> {
    fn default() -> (r: Self) {
        ConstI64::new()
    }
}

impl<const C: u64, K: IdTag> ReadProp<K> for ConstI64<C, K> {
    type Value = i64;

    const IS_UNITY: bool = C == 1;

    const IS_CONSTANT: bool = true;

    open spec fn slots(&self) -> Map<nat, i64> {
        Map::new(|k: nat| true, |k: nat| of_bits(C) as i64)
    }

    fn get_ref(&self, k: Id<K>) -> (r: Got<'_, i64>) {
        Got::Computed(Owned(Self::value()))
    }
}

/// Growing is monotone and idempotent: once grown to a bound, the store meets
/// that bound, so a read-only view of it succeeds, and growing to the same or
/// to a smaller bound again changes nothing.
pub proof fn growing_twice_is_growing_once<T>(
    before: Seq<T>,
    once: Seq<T>,
    twice: Seq<T>,
    bound: nat,
    smaller: nat,
)
    requires
        is_grown(before, once, bound),
        smaller <= bound,
        is_grown(once, twice, smaller),
    ensures
        bound <= once.len(),
        before.len() <= once.len(),
        twice == once,
{
    assert(twice =~= once);
}

/// The unity map and the constants say so, a constant of one is a unity map,
/// and the stored maps claim neither shortcut.
pub proof fn which_maps_are_constant<T: One + Clone, K: IdTag, const C: u64>()
    ensures
        <Unity<T, K> as ReadProp<K>>::IS_UNITY,
        <Unity<T, K> as ReadProp<K>>::IS_CONSTANT,
        !<Constant<T, K> as ReadProp<K>>::IS_UNITY,
        <Constant<T, K> as ReadProp<K>>::IS_CONSTANT,
        <ConstI64<C, K> as ReadProp<K>>::IS_CONSTANT,
        <ConstI64<C, K> as ReadProp<K>>::IS_UNITY == (of_bits(C) == 1),
        !<DenseProp<T, K> as ReadProp<K>>::IS_UNITY,
        !<DenseProp<T, K> as ReadProp<K>>::IS_CONSTANT,
        !<PropSlice<'_, T, K> as ReadProp<K>>::IS_UNITY,
        !<PropSlice<'_, T, K> as ReadProp<K>>::IS_CONSTANT,
        !<PropSliceMut<'_, T, K> as ReadProp<K>>::IS_UNITY,
        !<PropSliceMut<'_, T, K> as ReadProp<K>>::IS_CONSTANT,
{
}

/// A map that claims to be constant reads one value at every slot, and a unity
/// map reads one.
pub proof fn the_constant_maps_are_constant<T: One + Clone, K: IdTag, const C: u64>(
    unity: Unity<T, K>,
    constant: Constant<T, K>,
    typed: ConstI64<C, K>,
    k: nat,
)
    ensures
        unity.slots().contains_key(k) && unity.slots()[k] == T::ONE,
        constant.slots().contains_key(k) && constant.slots()[k] == constant.c,
        typed.slots().contains_key(k) && typed.slots()[k] == of_bits(C),
{
}

/// Growing keeps every value where it is, adds as many as are missing and no
/// more, and never takes one away.
pub proof fn growing_keeps_and_fills<T>(before: Seq<T>, after: Seq<T>, bound: nat, i: int)
    requires
        is_grown(before, after, bound),
    ensures
        before.len() >= bound ==> after == before,
        before.len() < bound ==> after.len() == bound,
        0 <= i < before.len() ==> after[i] == before[i],
{
    if before.len() >= bound {
        assert(after =~= before);
    }
}

/// What may come of growing: any run that begins with what was there and is as
/// long as the bound where that was shorter.
pub proof fn what_may_come_of_growing<T>(before: Seq<T>, more: Seq<T>, bound: nat)
    ensures
        before.len() + more.len() == bound ==> is_grown(before, before + more, bound),
        before.len() >= bound ==> is_grown(before, before, bound),
{
    assert(before.is_prefix_of(before + more));
}

/// A stored map has a slot for every value of its run, at that value's index,
/// and no other; a write changes the slot it names and none besides.
pub proof fn a_slot_is_a_value_of_the_run<T>(values: Seq<T>, k: nat, j: nat, v: T)
    ensures
        slots_of(values).contains_key(k) <==> k < values.len(),
        k < values.len() ==> slots_of(values)[k] == values[k as int],
        k < values.len() ==> slots_of(values.update(k as int, v))[k] == v,
        k < values.len() && j < values.len() && j != k ==> slots_of(
            values.update(k as int, v),
        )[j] == values[j as int],
{
}

/// Every stored map, whole or in view, reads the value at the index named.
pub proof fn stored_maps_read_by_index<T: Clone, K: IdTag>(
    map: DenseProp<T, K>,
    view: PropSlice<'_, T, K>,
    k: nat,
)
    ensures
        map.slots().contains_key(k) <==> k < map.values().len(),
        k < map.values().len() ==> map.slots()[k] == map.values()[k as int],
        view.slots().contains_key(k) <==> k < view.run().len(),
        k < view.run().len() ==> view.slots()[k] == view.run()[k as int],
{
}

/// A reservation is made exactly where more is asked for than there is. It is
/// for no less than was asked and no less than twice the length, as far as that
/// can be counted, and for no more than the larger of the two.
pub proof fn a_reservation_at_least_doubles<T, K: IdTag>(map: DenseProp<T, K>, n: usize)
    requires
        map.values().len() <= usize::MAX,
    ensures
        map.reserved(n) is None <==> n <= map.values().len(),
        map.reserved(n) matches Some(want) ==> {
            &&& n <= want <= usize::MAX
            &&& want >= 2 * map.values().len() || want == usize::MAX
            &&& want == n || want <= 2 * map.values().len()
        },
{
}

/// Bits stand for the integer of 64 bits that differs from them by whole turns
/// of two to the power of 64.
pub proof fn bits_stand_for_one_integer(bits: u64)
    ensures
        -9223372036854775808 <= of_bits(bits) <= 9223372036854775807,
        (bits as int - of_bits(bits)) % 18446744073709551616 == 0,
{
}

/// A bound of another graph is refused with the two identities, the map's own
/// first.
pub proof fn a_foreign_bound_is_named<T, K: IdTag>(map: DenseProp<T, K>, bound: Bound<K>)
    ensures
        map.foreign(bound) == (PropError::WrongGraph {
            owner: map.owner()@,
            expected: bound.owner()@,
        }),
{
}

} // verus!
