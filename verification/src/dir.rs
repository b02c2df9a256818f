//! Directedness as a type.
//!
//! [`Dir`] is the type-level directedness with its field set, and [`HasDir`] is
//! a *separate* trait carrying it, so that owners of graph storage have it
//! without being graph views.

use std::marker::PhantomData;
use vstd::prelude::*;
use vstd::string::StringExecFns;

use crate::sealed::Sealed;
use crate::text::{decimal_text, write_text};

verus! {

/// Type-level directedness.
pub trait Dir: Sealed + Copy + Clone + Default + std::fmt::Debug + Send + Sync + 'static {
    /// Whether in-edges are distinct from out-edges.
    const DIRECTED: bool;

    /// Number of adjacency half-fields that a delta buffer needs.
    const N_FIELDS: usize;

    /// Short name for diagnostics.
    const NAME: &'static str;

    /// The delta buffer's field table, as a type: an array of
    /// [`N_FIELDS`](Self::N_FIELDS) vectors, so that an undirected buffer
    /// *contains* no in-field vectors rather than owning empty ones.
    type Fields: Default + Clone + std::fmt::Debug + Send + Sync + 'static;

    /// The number of fields, as a value to reason with.
    spec fn width() -> int;

    /// The constant is the width.
    proof fn width_is_n_fields()
        ensures
            Self::N_FIELDS == Self::width(),
            Self::width() == (if Self::DIRECTED {
                4int
            } else {
                2int
            }),
    ;
}

/// Directed view semantics.
#[derive(Clone, Copy, Default, Debug, PartialEq, Eq)]
pub struct Directed;

impl Sealed for Directed {

}

impl Dir for Directed {
    const DIRECTED: bool = true;

    const N_FIELDS: usize = 4;

    const NAME: &'static str = "directed";

    type Fields = [Vec<u32>; 4];

    open spec fn width() -> int {
        4
    }

    proof fn width_is_n_fields() {
    }
}

/// Undirected view semantics.
#[derive(Clone, Copy, Default, Debug, PartialEq, Eq)]
pub struct Undirected;

impl Sealed for Undirected {

}

impl Dir for Undirected {
    const DIRECTED: bool = false;

    const N_FIELDS: usize = 2;

    const NAME: &'static str = "undirected";

    type Fields = [Vec<u32>; 2];

    open spec fn width() -> int {
        2
    }

    proof fn width_is_n_fields() {
    }
}

/// Carries directedness. Implemented by graph views *and* by owners.
pub trait HasDir {
    /// This value's directedness.
    type Dir: Dir;
}

/// A *total* index into the adjacency half-fields of a delta buffer: two of
/// them where undirected, four where directed.
pub struct Field<D: Dir>(pub(crate) u8, pub(crate) PhantomData<D>);

impl<D: Dir> View for Field<D> {
    type V = int;

    open(crate) spec fn view(&self) -> int {
        self.0 as int
    }
}

impl<D: Dir> Field<D> {
    /// Whether the index names a field that `D` has.
    pub open spec fn wf(self) -> bool {
        0 <= self@ < D::width()
    }

    /// The out-half of the source group.
    #[inline]
    pub fn r_out() -> (r: Self)
        ensures
            r@ == 0,
            r.wf(),
    {
        proof {
            D::width_is_n_fields();
        }
        Field(0, PhantomData)
    }

    /// The out-half of the target group.
    #[inline]
    pub fn nr_out() -> (r: Self)
        ensures
            r@ == 1,
            r.wf(),
    {
        proof {
            D::width_is_n_fields();
        }
        Field(1, PhantomData)
    }

    /// Position in a buffer's field table.
    #[inline]
    pub fn index(self) -> (r: usize)
        ensures
            r == self@,
    {
        self.0 as usize
    }

    /// The text of the diagnostic form.
    pub open spec fn text(self) -> Seq<char> {
        "Field<"@ + D::NAME@ + ">("@ + crate::text::decimal(self@ as nat) + ")"@
    }

    /// The diagnostic form, such as `Field<directed>(2)`.
    pub fn label(self) -> (r: String)
        ensures
            r@ == self.text(),
    {
        let mut s = String::from_str("Field<");
        s.append(D::NAME);
        s.append(">(");
        s.append(decimal_text(self.0 as u64).as_str());
        s.append(")");
        s
    }
}

impl<D: Dir> std::fmt::Debug for Field<D> {
    /// Writes the [`label`](Field::label).
    fn fmt(&self, f: &mut std::fmt::Formatter<'_>) -> (r: std::fmt::Result)
        ensures
            r is Ok ==> crate::text::written(*final(f)) == crate::text::written(*old(f))
                + self.text(),
    {
        write_text(f, self.label().as_str())
    }
}

impl Field<Directed> {
    /// The in-half of the source group. Directed graphs only.
    #[inline]
    pub fn r_in() -> (r: Self)
        ensures
            r@ == 2,
            r.wf(),
    {
        Field(2, PhantomData)
    }

    /// The in-half of the target group. Directed graphs only.
    #[inline]
    pub fn nr_in() -> (r: Self)
        ensures
            r@ == 3,
            r.wf(),
    {
        Field(3, PhantomData)
    }
}

impl<D: Dir> Clone for Field<D> {
    #[inline]
    fn clone(&self) -> (r: Self)
        ensures
            r == *self,
    {
        *self
    }
}

impl<D: Dir> Copy for Field<D> {

}

impl<D: Dir> PartialEq for Field<D> {
    #[inline]
    fn eq(&self, other: &Self) -> (r: bool) {
        self.0 == other.0
    }
}

impl<D: Dir> vstd::std_specs::cmp::PartialEqSpecImpl for Field<D> {
    open spec fn obeys_eq_spec() -> bool {
        true
    }

    open spec fn eq_spec(&self, other: &Self) -> bool {
        *self == *other
    }
}

impl<D: Dir> Eq for Field<D> {

}

} // verus!
