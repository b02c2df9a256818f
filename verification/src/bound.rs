//! Allocation bounds, as a type distinct from cardinality.
//!
//! [`GraphBase::num_vertices`](crate::graph::GraphBase::num_vertices) is the
//! honest cardinality of a view, and [`VertexBound`] is the allocation bound of
//! the unfiltered graph beneath it. Both are needed and they are different
//! things, so they are different types. A bound carries its graph's
//! [`GraphId`], so sizing a map from another graph's bound is caught.

use std::marker::PhantomData;
use vstd::prelude::*;
use vstd::string::StringExecFns;

use crate::ids::{EdgeTag, GraphId, IdTag, VertexTag};
use crate::text::{decimal_text, write_text};

verus! {

/// Proof that one identifier space of one graph has exactly `n` slots.
pub struct Bound<K: IdTag> {
    pub(crate) graph: GraphId,
    pub(crate) n: usize,
    pub(crate) space: PhantomData<K>,
}

/// Allocation bound of a graph's vertex index space.
pub type VertexBound = Bound<VertexTag>;

/// Allocation bound of a graph's edge index space.
///
/// This is the edge index *range*, not the edge count: the index space is
/// sparse after removals.
pub type EdgeBound = Bound<EdgeTag>;

impl<K: IdTag> Bound<K> {
    /// The number of slots.
    pub open(crate) spec fn slots(self) -> nat {
        self.n as nat
    }

    /// The graph whose space this bounds.
    pub open(crate) spec fn owner(self) -> GraphId {
        self.graph
    }

    /// Mint a bound for `graph`'s space of `n` slots.
    #[inline]
    pub fn new(graph: GraphId, n: usize) -> (r: Self)
        ensures
            r.owner() == graph,
            r.slots() == n,
    {
        Bound { graph, n, space: PhantomData }
    }

    /// Number of slots.
    #[inline]
    pub fn len(self) -> (r: usize)
        ensures
            r == self.slots(),
    {
        self.n
    }

    /// Whether the space is empty.
    #[inline]
    pub fn is_empty(self) -> (r: bool)
        ensures
            r <==> self.slots() == 0,
    {
        self.n == 0
    }

    /// Identity of the graph this bound describes.
    #[inline]
    pub fn graph(self) -> (r: GraphId)
        ensures
            r == self.owner(),
    {
        self.graph
    }

    /// The text of the diagnostic form.
    pub open spec fn text(self) -> Seq<char> {
        "Bound<"@ + K::NAME@ + ">(graph #"@ + crate::text::decimal(self.owner()@ as nat) + ", "@
            + crate::text::decimal(self.slots()) + ")"@
    }

    /// The diagnostic form, such as `Bound<vertex>(graph #7, 4)`.
    pub fn label(self) -> (r: String)
        ensures
            r@ == self.text(),
    {
        let mut s = String::from_str("Bound<");
        s.append(K::NAME);
        s.append(">(graph #");
        s.append(decimal_text(self.graph.get()).as_str());
        s.append(", ");
        s.append(decimal_text(self.n as u64).as_str());
        s.append(")");
        s
    }
}

impl<K: IdTag> std::fmt::Debug for Bound<K> {
    /// Writes the [`label`](Bound::label).
    fn fmt(&self, f: &mut std::fmt::Formatter<'_>) -> (r: std::fmt::Result)
        ensures
            r is Ok ==> crate::text::written(*final(f)) == crate::text::written(*old(f))
                + self.text(),
    {
        write_text(f, self.label().as_str())
    }
}

/// A bound is its length and the identity that minted it, and nothing else.
pub proof fn bound_is_length_and_identity<K: IdTag>(a: Bound<K>, b: Bound<K>)
    ensures
        a == b <==> a.owner() == b.owner() && a.slots() == b.slots(),
{
}

impl<K: IdTag> Clone for Bound<K> {
    #[inline]
    fn clone(&self) -> (r: Self)
        ensures
            r == *self,
    {
        *self
    }
}

impl<K: IdTag> Copy for Bound<K> {

}

impl<K: IdTag> PartialEq for Bound<K> {
    #[inline]
    fn eq(&self, other: &Self) -> (r: bool) {
        self.graph == other.graph && self.n == other.n
    }
}

impl<K: IdTag> vstd::std_specs::cmp::PartialEqSpecImpl for Bound<K> {
    open spec fn obeys_eq_spec() -> bool {
        true
    }

    open spec fn eq_spec(&self, other: &Self) -> bool {
        *self == *other
    }
}

impl<K: IdTag> Eq for Bound<K> {

}

/// A bound's diagnostic form names its space, its graph and its length.
pub proof fn a_bound_is_labelled_by_its_numbers<K: IdTag>(b: Bound<K>)
    ensures
        b.text() == "Bound<"@ + K::NAME@ + ">(graph #"@ + crate::text::decimal(
            b.owner()@ as nat,
        ) + ", "@ + crate::text::decimal(b.slots()) + ")"@,
{
}

} // verus!
