//! Identifiers.
//!
//! The width of every identifier is one crate-wide alias, [`Raw`], rather than
//! a type parameter, so that no signature carries it.

use std::marker::PhantomData;
use vstd::prelude::*;
use vstd::string::StringExecFns;

use crate::text::{decimal_text, write_text};

verus! {

/// The raw integer width of every vertex and edge identifier.
pub type Raw = u32;

/// Largest representable index. One value is reserved so that a niche-carrying
/// identifier stays free.
pub const MAX_INDEX: usize = 0xffff_fffe;

/// Marker distinguishing one identifier space from another.
pub trait IdTag: Copy + Eq + Ord + std::hash::Hash + std::fmt::Debug + Send + Sync + 'static {
    /// Human-readable name, used in labels and error messages.
    const NAME: &'static str;
}

/// Tag for the vertex index space.
#[derive(Clone, Copy, PartialEq, Eq, PartialOrd, Ord, Hash, Debug)]
pub struct VertexTag;

impl IdTag for VertexTag {
    const NAME: &'static str = "vertex";
}

/// Tag for the edge index space.
#[derive(Clone, Copy, PartialEq, Eq, PartialOrd, Ord, Hash, Debug)]
pub struct EdgeTag;

impl IdTag for EdgeTag {
    const NAME: &'static str = "edge";
}

/// A tagged index into one identifier space.
#[derive(PartialOrd, Ord, Hash)]
pub struct Id<T: IdTag>(pub(crate) Raw, pub(crate) PhantomData<T>);

/// A vertex identifier.
pub type VertexId = Id<VertexTag>;

/// An edge identifier. This, and never an [`EdgeRef`](crate::adj::EdgeRef), is
/// an edge's identity.
pub type EdgeId = Id<EdgeTag>;

impl<T: IdTag> View for Id<T> {
    type V = nat;

    open(crate) spec fn view(&self) -> nat {
        self.0 as nat
    }
}

impl<T: IdTag> Id<T> {
    /// The identifier of index `i`.
    pub open(crate) spec fn at(i: nat) -> Id<T> {
        Id(i as Raw, PhantomData)
    }

    /// Construct from an index, or `None` if it exceeds [`MAX_INDEX`].
    #[inline]
    pub fn new(i: usize) -> (r: Option<Self>)
        ensures
            i <= MAX_INDEX <==> r is Some,
            r matches Some(id) ==> id@ == i,
    {
        if i <= MAX_INDEX {
            Some(Id(i as Raw, PhantomData))
        } else {
            None
        }
    }

    /// Construct from an index known to be in range.
    ///
    /// For call sites that have already proved the bound (a walk over `0..n`,
    /// a value read back out of the same structure).
    #[inline]
    pub fn from_index(i: usize) -> (r: Self)
        requires
            i <= MAX_INDEX,
        ensures
            r@ == i,
    {
        Id(i as Raw, PhantomData)
    }

    /// The index, for use as a slice offset.
    #[inline]
    pub fn index(self) -> (r: usize)
        ensures
            r == self@,
    {
        self.0 as usize
    }

    /// The raw representation.
    #[inline]
    pub fn raw(self) -> (r: Raw)
        ensures
            r == self@,
    {
        self.0
    }

    /// The text of the diagnostic form.
    pub open spec fn text(self) -> Seq<char> {
        T::NAME@ + "#"@ + crate::text::decimal(self@)
    }

    /// The diagnostic form, such as `vertex#3`.
    pub fn label(self) -> (r: String)
        ensures
            r@ == self.text(),
    {
        let mut s = String::from_str(T::NAME);
        s.append("#");
        s.append(decimal_text(self.0 as u64).as_str());
        s
    }
}

impl<T: IdTag> std::fmt::Debug for Id<T> {
    /// Writes the [`label`](Id::label).
    fn fmt(&self, f: &mut std::fmt::Formatter<'_>) -> (r: std::fmt::Result)
        ensures
            r is Ok ==> crate::text::written(*final(f)) == crate::text::written(*old(f))
                + self.text(),
    {
        write_text(f, self.label().as_str())
    }
}

/// An identifier is its index: two of one space with equal indices are equal,
/// and every index of the raw width has one.
pub broadcast proof fn id_is_its_index<T: IdTag>(a: Id<T>, b: Id<T>)
    ensures
        #![trigger a@, b@]
        a@ == b@ ==> a == b,
{
}

/// The identifier of an index in range has that index.
pub broadcast proof fn id_at<T: IdTag>(i: nat)
    requires
        i <= Raw::MAX,
    ensures
        (#[trigger] Id::<T>::at(i))@ == i,
{
}

/// An index fits the raw width.
pub broadcast proof fn id_in_range<T: IdTag>(a: Id<T>)
    ensures
        #[trigger] a@ <= Raw::MAX,
        Id::<T>::at(a@) == a,
{
}

impl<T: IdTag> Clone for Id<T> {
    #[inline]
    fn clone(&self) -> (r: Self)
        ensures
            r == *self,
    {
        *self
    }
}

impl<T: IdTag> Copy for Id<T> {

}

impl<T: IdTag> PartialEq for Id<T> {
    #[inline]
    fn eq(&self, other: &Self) -> (r: bool) {
        self.0 == other.0
    }
}

impl<T: IdTag> vstd::std_specs::cmp::PartialEqSpecImpl for Id<T> {
    open spec fn obeys_eq_spec() -> bool {
        true
    }

    open spec fn eq_spec(&self, other: &Self) -> bool {
        *self == *other
    }
}

impl<T: IdTag> Eq for Id<T> {

}

/// Process-unique identity of one graph.
///
/// Carried by [`Bound`](crate::bound::Bound) and by every owning property map,
/// so that sizing a map from one graph and indexing it with another's
/// descriptors is caught once, at the boundary, by a single comparison.
#[derive(Hash, Debug)]
pub struct GraphId(pub(crate) u64);

impl View for GraphId {
    type V = u64;

    open(crate) spec fn view(&self) -> u64 {
        self.0
    }
}

impl GraphId {
    /// Mint a fresh identity.
    ///
    /// No other identity of this process has the same value: it is the address
    /// of an allocation that is never freed. That distinctness is a property
    /// of the allocator and is not part of the contract.
    pub fn fresh() -> (r: Self)
        ensures
            r@ != 0,
    {
        GraphId(address(leaked(Box::new(0u8))))
    }

    /// The raw value, for diagnostics only.
    #[inline]
    pub fn get(self) -> (r: u64)
        ensures
            r == self@,
    {
        self.0
    }
}

impl Clone for GraphId {
    #[inline]
    fn clone(&self) -> (r: Self)
        ensures
            r == *self,
    {
        *self
    }
}

impl Copy for GraphId {

}

impl PartialEq for GraphId {
    #[inline]
    fn eq(&self, other: &Self) -> (r: bool) {
        self.0 == other.0
    }
}

impl vstd::std_specs::cmp::PartialEqSpecImpl for GraphId {
    open spec fn obeys_eq_spec() -> bool {
        true
    }

    open spec fn eq_spec(&self, other: &Self) -> bool {
        *self == *other
    }
}

impl Eq for GraphId {

}

/// `Box::leak`: the value stays where it is, in an allocation that is then
/// never freed.
#[verifier::external_body]
fn leaked(b: Box<u8>) -> (r: &'static u8)
    ensures
        *r == *b,
{
    Box::leak(b)
}

/// The `addr` of a pointer, here of the pointer that a reference is.
///
/// The contract claims only that a reference is not null. That two allocations
/// of which neither is freed have different addresses is left unsaid.
#[verifier::external_body]
fn address(x: &'static u8) -> (r: u64)
    ensures
        r != 0,
{
    std::ptr::from_ref::<u8>(x).addr() as u64
}

/// An identifier's diagnostic form is its space's name and its index.
pub proof fn an_identifier_is_labelled_by_its_index<T: IdTag>(a: Id<T>)
    ensures
        a.text() == T::NAME@ + "#"@ + crate::text::decimal(a@),
{
}

} // verus!
