//! Dispatch from a runtime [`ValueKind`] to a static type.
//!
//! A map crosses the boundary as an [`AnyMap`], which knows its member at run
//! time. A subset of the members is an enum of its own, [`ScalarV`]: narrowing
//! a kind into it is the only fallible step, and running a kernel at the
//! member it names is total.

use vstd::prelude::*;

use super::dense::DenseProp;
use super::value::{Double, LongDouble, PropValue, Scalar, ValueKind};
use crate::error::DispatchError;
use crate::ids::IdTag;

verus! {

/// A borrowed map of any member.
pub enum AnyCell<'a, K: IdTag> {
    /// A map of the `Bool` member.
    Bool(&'a mut DenseProp<u8, K>),
    /// A map of the `I16` member.
    I16(&'a mut DenseProp<i16, K>),
    /// A map of the `I32` member.
    I32(&'a mut DenseProp<i32, K>),
    /// A map of the `I64` member.
    I64(&'a mut DenseProp<i64, K>),
    /// A map of the `F64` member.
    F64(&'a mut DenseProp<Double, K>),
    /// A map of the `LongDouble` member.
    LongDouble(&'a mut DenseProp<LongDouble, K>),
    /// A map of the `Str` member.
    Str(&'a mut DenseProp<String, K>),
    /// A map of the `VecBool` member.
    VecBool(&'a mut DenseProp<Vec<u8>, K>),
    /// A map of the `VecI16` member.
    VecI16(&'a mut DenseProp<Vec<i16>, K>),
    /// A map of the `VecI32` member.
    VecI32(&'a mut DenseProp<Vec<i32>, K>),
    /// A map of the `VecI64` member.
    VecI64(&'a mut DenseProp<Vec<i64>, K>),
    /// A map of the `VecF64` member.
    VecF64(&'a mut DenseProp<Vec<Double>, K>),
    /// A map of the `VecLongDouble` member.
    VecLongDouble(&'a mut DenseProp<Vec<LongDouble>, K>),
    /// A map of the `VecStr` member.
    VecStr(&'a mut DenseProp<Vec<String>, K>),
}

impl<'a, K: IdTag> AnyCell<'a, K> {
    /// The member the map stores.
    pub open spec fn member(&self) -> ValueKind {
        match self {
            AnyCell::Bool(_) => ValueKind::Bool,
            AnyCell::I16(_) => ValueKind::I16,
            AnyCell::I32(_) => ValueKind::I32,
            AnyCell::I64(_) => ValueKind::I64,
            AnyCell::F64(_) => ValueKind::F64,
            AnyCell::LongDouble(_) => ValueKind::LongDouble,
            AnyCell::Str(_) => ValueKind::Str,
            AnyCell::VecBool(_) => ValueKind::VecBool,
            AnyCell::VecI16(_) => ValueKind::VecI16,
            AnyCell::VecI32(_) => ValueKind::VecI32,
            AnyCell::VecI64(_) => ValueKind::VecI64,
            AnyCell::VecF64(_) => ValueKind::VecF64,
            AnyCell::VecLongDouble(_) => ValueKind::VecLongDouble,
            AnyCell::VecStr(_) => ValueKind::VecStr,
        }
    }
}

/// Members whose maps can cross the boundary: all but the interpreter's.
pub trait Crossing<K: IdTag>: PropValue {
    /// The map in a cell, if it is one of this member.
    spec fn content(cell: &AnyCell<'_, K>) -> Option<DenseProp<Self, K>>;

    /// A cell holds a map of this member exactly where it says so.
    proof fn content_is_by_member(cell: &AnyCell<'_, K>)
        ensures
            Self::content(cell) is Some <==> cell.member() == Self::KIND,
    ;

    /// Erase a map.
    fn erase<'a>(m: &'a mut DenseProp<Self, K>) -> (r: AnyCell<'a, K>)
        ensures
            Self::content(&r) == Some(*old(m)),
    ;

    /// Recover a map. What the cell will write back is the same as before.
    fn recover<'b, 'a>(cell: &'b mut AnyCell<'a, K>) -> (r: Option<&'b mut DenseProp<Self, K>>)
        ensures
            match Self::content(old(cell)) {
                Some(p) => {
                    &&& r matches Some(x)
                    &&& *x == p
                    &&& Self::content(final(cell)) == Some(*final(x))
                },
                None => r is None && *final(cell) == *old(cell),
            },
            final(cell).member() == old(cell).member(),
            match (*old(cell), *final(cell)) {
                (AnyCell::Bool(a), AnyCell::Bool(b)) => *final(a) == *final(b),
                (AnyCell::I16(a), AnyCell::I16(b)) => *final(a) == *final(b),
                (AnyCell::I32(a), AnyCell::I32(b)) => *final(a) == *final(b),
                (AnyCell::I64(a), AnyCell::I64(b)) => *final(a) == *final(b),
                (AnyCell::F64(a), AnyCell::F64(b)) => *final(a) == *final(b),
                (AnyCell::LongDouble(a), AnyCell::LongDouble(b)) => *final(a) == *final(b),
                (AnyCell::Str(a), AnyCell::Str(b)) => *final(a) == *final(b),
                (AnyCell::VecBool(a), AnyCell::VecBool(b)) => *final(a) == *final(b),
                (AnyCell::VecI16(a), AnyCell::VecI16(b)) => *final(a) == *final(b),
                (AnyCell::VecI32(a), AnyCell::VecI32(b)) => *final(a) == *final(b),
                (AnyCell::VecI64(a), AnyCell::VecI64(b)) => *final(a) == *final(b),
                (AnyCell::VecF64(a), AnyCell::VecF64(b)) => *final(a) == *final(b),
                (AnyCell::VecLongDouble(a), AnyCell::VecLongDouble(b)) => *final(a) == *final(b),
                (AnyCell::VecStr(a), AnyCell::VecStr(b)) => *final(a) == *final(b),
                _ => false,
            },
    ;
}

/// Call a function, keeping what its contract says of this very argument.
fn apply<A, B, F: FnOnce(A) -> B>(a: A, f: F) -> (b: B)
    requires
        f.requires((a,)),
    ensures
        f.ensures((a,), b),
{
    f(a)
}

/// As [`apply`], for the second of two arguments.
fn apply_second<A, B, C, F: FnOnce(A, B) -> C>(b: B, a: A, f: F) -> (c: C)
    requires
        f.requires((a, b)),
    ensures
        f.ensures((a, b), c),
{
    f(a, b)
}

/// A type-erased property map at the dispatch boundary.
pub struct AnyMap<'a, K: IdTag> {
    /// The map.
    pub cell: AnyCell<'a, K>,
}

impl<'a, K: IdTag> AnyMap<'a, K> {
    /// Erase a concrete map. The contract of the member's own
    /// [`erase`](Crossing::erase) says what becomes of the borrowed map.
    pub fn new<V: Crossing<K>>(m: &'a mut DenseProp<V, K>) -> (r: Self)
        ensures
            r.cell.member() == V::KIND,
            V::content(&r.cell) == Some(*old(m)),
            call_ensures(V::erase, (m,), r.cell),
    {
        let cell = apply(m, V::erase);
        proof {
            V::content_is_by_member(&cell);
        }
        AnyMap { cell }
    }

    /// Which member this map stores.
    pub fn kind(&self) -> (r: ValueKind)
        ensures
            r == self.cell.member(),
    {
        match &self.cell {
            AnyCell::Bool(_) => ValueKind::Bool,
            AnyCell::I16(_) => ValueKind::I16,
            AnyCell::I32(_) => ValueKind::I32,
            AnyCell::I64(_) => ValueKind::I64,
            AnyCell::F64(_) => ValueKind::F64,
            AnyCell::LongDouble(_) => ValueKind::LongDouble,
            AnyCell::Str(_) => ValueKind::Str,
            AnyCell::VecBool(_) => ValueKind::VecBool,
            AnyCell::VecI16(_) => ValueKind::VecI16,
            AnyCell::VecI32(_) => ValueKind::VecI32,
            AnyCell::VecI64(_) => ValueKind::VecI64,
            AnyCell::VecF64(_) => ValueKind::VecF64,
            AnyCell::VecLongDouble(_) => ValueKind::VecLongDouble,
            AnyCell::VecStr(_) => ValueKind::VecStr,
        }
    }

    /// Recover the concrete map, if it is of that member.
    pub fn downcast<V: Crossing<K>>(&mut self) -> (r: Option<&mut DenseProp<V, K>>)
        ensures
            r is Some <==> old(self).cell.member() == V::KIND,
            r matches Some(x) ==> {
                &&& V::content(&old(self).cell) == Some(*x)
                &&& V::content(&final(self).cell) == Some(*final(x))
            },
            r is None ==> *final(self) == *old(self),
            final(self).cell.member() == old(self).cell.member(),
            match (old(self).cell, final(self).cell) {
                (AnyCell::Bool(a), AnyCell::Bool(b)) => *final(a) == *final(b),
                (AnyCell::I16(a), AnyCell::I16(b)) => *final(a) == *final(b),
                (AnyCell::I32(a), AnyCell::I32(b)) => *final(a) == *final(b),
                (AnyCell::I64(a), AnyCell::I64(b)) => *final(a) == *final(b),
                (AnyCell::F64(a), AnyCell::F64(b)) => *final(a) == *final(b),
                (AnyCell::LongDouble(a), AnyCell::LongDouble(b)) => *final(a) == *final(b),
                (AnyCell::Str(a), AnyCell::Str(b)) => *final(a) == *final(b),
                (AnyCell::VecBool(a), AnyCell::VecBool(b)) => *final(a) == *final(b),
                (AnyCell::VecI16(a), AnyCell::VecI16(b)) => *final(a) == *final(b),
                (AnyCell::VecI32(a), AnyCell::VecI32(b)) => *final(a) == *final(b),
                (AnyCell::VecI64(a), AnyCell::VecI64(b)) => *final(a) == *final(b),
                (AnyCell::VecF64(a), AnyCell::VecF64(b)) => *final(a) == *final(b),
                (AnyCell::VecLongDouble(a), AnyCell::VecLongDouble(b)) => *final(a) == *final(b),
                (AnyCell::VecStr(a), AnyCell::VecStr(b)) => *final(a) == *final(b),
                _ => false,
            },
    {
        proof {
            V::content_is_by_member(&self.cell);
        }
        V::recover(&mut self.cell)
    }
}

impl<K: IdTag> Crossing<K> for u8 {
    open spec fn content(cell: &AnyCell<'_, K>) -> Option<DenseProp<Self, K>> {
        match cell {
            AnyCell::Bool(m) => Some(**m),
            _ => None,
        }
    }

    proof fn content_is_by_member(cell: &AnyCell<'_, K>) {
        super::value::which_type_is_which_member();
    }

    fn erase<'a>(m: &'a mut DenseProp<Self, K>) -> (r: AnyCell<'a, K>)
        ensures
            r matches AnyCell::Bool(x) && *final(m) == *final(x),
    {
        AnyCell::Bool(m)
    }

    fn recover<'b, 'a>(cell: &'b mut AnyCell<'a, K>) -> (r: Option<&'b mut DenseProp<Self, K>>) {
        match cell {
            AnyCell::Bool(m) => Some(&mut **m),
            _ => None,
        }
    }
}

impl<K: IdTag> Crossing<K> for i16 {
    open spec fn content(cell: &AnyCell<'_, K>) -> Option<DenseProp<Self, K>> {
        match cell {
            AnyCell::I16(m) => Some(**m),
            _ => None,
        }
    }

    proof fn content_is_by_member(cell: &AnyCell<'_, K>) {
        super::value::which_type_is_which_member();
    }

    fn erase<'a>(m: &'a mut DenseProp<Self, K>) -> (r: AnyCell<'a, K>)
        ensures
            r matches AnyCell::I16(x) && *final(m) == *final(x),
    {
        AnyCell::I16(m)
    }

    fn recover<'b, 'a>(cell: &'b mut AnyCell<'a, K>) -> (r: Option<&'b mut DenseProp<Self, K>>) {
        match cell {
            AnyCell::I16(m) => Some(&mut **m),
            _ => None,
        }
    }
}

impl<K: IdTag> Crossing<K> for i32 {
    open spec fn content(cell: &AnyCell<'_, K>) -> Option<DenseProp<Self, K>> {
        match cell {
            AnyCell::I32(m) => Some(**m),
            _ => None,
        }
    }

    proof fn content_is_by_member(cell: &AnyCell<'_, K>) {
        super::value::which_type_is_which_member();
    }

    fn erase<'a>(m: &'a mut DenseProp<Self, K>) -> (r: AnyCell<'a, K>)
        ensures
            r matches AnyCell::I32(x) && *final(m) == *final(x),
    {
        AnyCell::I32(m)
    }

    fn recover<'b, 'a>(cell: &'b mut AnyCell<'a, K>) -> (r: Option<&'b mut DenseProp<Self, K>>) {
        match cell {
            AnyCell::I32(m) => Some(&mut **m),
            _ => None,
        }
    }
}

impl<K: IdTag> Crossing<K> for i64 {
    open spec fn content(cell: &AnyCell<'_, K>) -> Option<DenseProp<Self, K>> {
        match cell {
            AnyCell::I64(m) => Some(**m),
            _ => None,
        }
    }

    proof fn content_is_by_member(cell: &AnyCell<'_, K>) {
        super::value::which_type_is_which_member();
    }

    fn erase<'a>(m: &'a mut DenseProp<Self, K>) -> (r: AnyCell<'a, K>)
        ensures
            r matches AnyCell::I64(x) && *final(m) == *final(x),
    {
        AnyCell::I64(m)
    }

    fn recover<'b, 'a>(cell: &'b mut AnyCell<'a, K>) -> (r: Option<&'b mut DenseProp<Self, K>>) {
        match cell {
            AnyCell::I64(m) => Some(&mut **m),
            _ => None,
        }
    }
}

impl<K: IdTag> Crossing<K> for Double {
    open spec fn content(cell: &AnyCell<'_, K>) -> Option<DenseProp<Self, K>> {
        match cell {
            AnyCell::F64(m) => Some(**m),
            _ => None,
        }
    }

    proof fn content_is_by_member(cell: &AnyCell<'_, K>) {
        super::value::which_type_is_which_member();
    }

    fn erase<'a>(m: &'a mut DenseProp<Self, K>) -> (r: AnyCell<'a, K>)
        ensures
            r matches AnyCell::F64(x) && *final(m) == *final(x),
    {
        AnyCell::F64(m)
    }

    fn recover<'b, 'a>(cell: &'b mut AnyCell<'a, K>) -> (r: Option<&'b mut DenseProp<Self, K>>) {
        match cell {
            AnyCell::F64(m) => Some(&mut **m),
            _ => None,
        }
    }
}

impl<K: IdTag> Crossing<K> for LongDouble {
    open spec fn content(cell: &AnyCell<'_, K>) -> Option<DenseProp<Self, K>> {
        match cell {
            AnyCell::LongDouble(m) => Some(**m),
            _ => None,
        }
    }

    proof fn content_is_by_member(cell: &AnyCell<'_, K>) {
        super::value::which_type_is_which_member();
    }

    fn erase<'a>(m: &'a mut DenseProp<Self, K>) -> (r: AnyCell<'a, K>)
        ensures
            r matches AnyCell::LongDouble(x) && *final(m) == *final(x),
    {
        AnyCell::LongDouble(m)
    }

    fn recover<'b, 'a>(cell: &'b mut AnyCell<'a, K>) -> (r: Option<&'b mut DenseProp<Self, K>>) {
        match cell {
            AnyCell::LongDouble(m) => Some(&mut **m),
            _ => None,
        }
    }
}

impl<K: IdTag> Crossing<K> for String {
    open spec fn content(cell: &AnyCell<'_, K>) -> Option<DenseProp<Self, K>> {
        match cell {
            AnyCell::Str(m) => Some(**m),
            _ => None,
        }
    }

    proof fn content_is_by_member(cell: &AnyCell<'_, K>) {
        super::value::which_type_is_which_member();
    }

    fn erase<'a>(m: &'a mut DenseProp<Self, K>) -> (r: AnyCell<'a, K>)
        ensures
            r matches AnyCell::Str(x) && *final(m) == *final(x),
    {
        AnyCell::Str(m)
    }

    fn recover<'b, 'a>(cell: &'b mut AnyCell<'a, K>) -> (r: Option<&'b mut DenseProp<Self, K>>) {
        match cell {
            AnyCell::Str(m) => Some(&mut **m),
            _ => None,
        }
    }
}

impl<K: IdTag> Crossing<K> for Vec<u8> {
    open spec fn content(cell: &AnyCell<'_, K>) -> Option<DenseProp<Self, K>> {
        match cell {
            AnyCell::VecBool(m) => Some(**m),
            _ => None,
        }
    }

    proof fn content_is_by_member(cell: &AnyCell<'_, K>) {
        super::value::which_type_is_which_member();
    }

    fn erase<'a>(m: &'a mut DenseProp<Self, K>) -> (r: AnyCell<'a, K>)
        ensures
            r matches AnyCell::VecBool(x) && *final(m) == *final(x),
    {
        AnyCell::VecBool(m)
    }

    fn recover<'b, 'a>(cell: &'b mut AnyCell<'a, K>) -> (r: Option<&'b mut DenseProp<Self, K>>) {
        match cell {
            AnyCell::VecBool(m) => Some(&mut **m),
            _ => None,
        }
    }
}

impl<K: IdTag> Crossing<K> for Vec<i16> {
    open spec fn content(cell: &AnyCell<'_, K>) -> Option<DenseProp<Self, K>> {
        match cell {
            AnyCell::VecI16(m) => Some(**m),
            _ => None,
        }
    }

    proof fn content_is_by_member(cell: &AnyCell<'_, K>) {
        super::value::which_type_is_which_member();
    }

    fn erase<'a>(m: &'a mut DenseProp<Self, K>) -> (r: AnyCell<'a, K>)
        ensures
            r matches AnyCell::VecI16(x) && *final(m) == *final(x),
    {
        AnyCell::VecI16(m)
    }

    fn recover<'b, 'a>(cell: &'b mut AnyCell<'a, K>) -> (r: Option<&'b mut DenseProp<Self, K>>) {
        match cell {
            AnyCell::VecI16(m) => Some(&mut **m),
            _ => None,
        }
    }
}

impl<K: IdTag> Crossing<K> for Vec<i32> {
    open spec fn content(cell: &AnyCell<'_, K>) -> Option<DenseProp<Self, K>> {
        match cell {
            AnyCell::VecI32(m) => Some(**m),
            _ => None,
        }
    }

    proof fn content_is_by_member(cell: &AnyCell<'_, K>) {
        super::value::which_type_is_which_member();
    }

    fn erase<'a>(m: &'a mut DenseProp<Self, K>) -> (r: AnyCell<'a, K>)
        ensures
            r matches AnyCell::VecI32(x) && *final(m) == *final(x),
    {
        AnyCell::VecI32(m)
    }

    fn recover<'b, 'a>(cell: &'b mut AnyCell<'a, K>) -> (r: Option<&'b mut DenseProp<Self, K>>) {
        match cell {
            AnyCell::VecI32(m) => Some(&mut **m),
            _ => None,
        }
    }
}

impl<K: IdTag> Crossing<K> for Vec<i64> {
    open spec fn content(cell: &AnyCell<'_, K>) -> Option<DenseProp<Self, K>> {
        match cell {
            AnyCell::VecI64(m) => Some(**m),
            _ => None,
        }
    }

    proof fn content_is_by_member(cell: &AnyCell<'_, K>) {
        super::value::which_type_is_which_member();
    }

    fn erase<'a>(m: &'a mut DenseProp<Self, K>) -> (r: AnyCell<'a, K>)
        ensures
            r matches AnyCell::VecI64(x) && *final(m) == *final(x),
    {
        AnyCell::VecI64(m)
    }

    fn recover<'b, 'a>(cell: &'b mut AnyCell<'a, K>) -> (r: Option<&'b mut DenseProp<Self, K>>) {
        match cell {
            AnyCell::VecI64(m) => Some(&mut **m),
            _ => None,
        }
    }
}

impl<K: IdTag> Crossing<K> for Vec<Double> {
    open spec fn content(cell: &AnyCell<'_, K>) -> Option<DenseProp<Self, K>> {
        match cell {
            AnyCell::VecF64(m) => Some(**m),
            _ => None,
        }
    }

    proof fn content_is_by_member(cell: &AnyCell<'_, K>) {
        super::value::which_type_is_which_member();
    }

    fn erase<'a>(m: &'a mut DenseProp<Self, K>) -> (r: AnyCell<'a, K>)
        ensures
            r matches AnyCell::VecF64(x) && *final(m) == *final(x),
    {
        AnyCell::VecF64(m)
    }

    fn recover<'b, 'a>(cell: &'b mut AnyCell<'a, K>) -> (r: Option<&'b mut DenseProp<Self, K>>) {
        match cell {
            AnyCell::VecF64(m) => Some(&mut **m),
            _ => None,
        }
    }
}

impl<K: IdTag> Crossing<K> for Vec<LongDouble> {
    open spec fn content(cell: &AnyCell<'_, K>) -> Option<DenseProp<Self, K>> {
        match cell {
            AnyCell::VecLongDouble(m) => Some(**m),
            _ => None,
        }
    }

    proof fn content_is_by_member(cell: &AnyCell<'_, K>) {
        super::value::which_type_is_which_member();
    }

    fn erase<'a>(m: &'a mut DenseProp<Self, K>) -> (r: AnyCell<'a, K>)
        ensures
            r matches AnyCell::VecLongDouble(x) && *final(m) == *final(x),
    {
        AnyCell::VecLongDouble(m)
    }

    fn recover<'b, 'a>(cell: &'b mut AnyCell<'a, K>) -> (r: Option<&'b mut DenseProp<Self, K>>) {
        match cell {
            AnyCell::VecLongDouble(m) => Some(&mut **m),
            _ => None,
        }
    }
}

impl<K: IdTag> Crossing<K> for Vec<String> {
    open spec fn content(cell: &AnyCell<'_, K>) -> Option<DenseProp<Self, K>> {
        match cell {
            AnyCell::VecStr(m) => Some(**m),
            _ => None,
        }
    }

    proof fn content_is_by_member(cell: &AnyCell<'_, K>) {
        super::value::which_type_is_which_member();
    }

    fn erase<'a>(m: &'a mut DenseProp<Self, K>) -> (r: AnyCell<'a, K>)
        ensures
            r matches AnyCell::VecStr(x) && *final(m) == *final(x),
    {
        AnyCell::VecStr(m)
    }

    fn recover<'b, 'a>(cell: &'b mut AnyCell<'a, K>) -> (r: Option<&'b mut DenseProp<Self, K>>) {
        match cell {
            AnyCell::VecStr(m) => Some(&mut **m),
            _ => None,
        }
    }
}

/// A generic operation over the whole universe of members.
pub trait KindVisitor {
    /// What the operation produces.
    type Out;

    /// Run at one concrete member.
    fn visit<V: PropValue>(self) -> Self::Out;
}

/// The arithmetic scalars, as a subset of the members.
#[derive(Clone, Copy, PartialEq, Eq, Structural, Debug)]
pub enum ScalarV {
    /// The `Bool` member.
    Bool,
    /// The `I16` member.
    I16,
    /// The `I32` member.
    I32,
    /// The `I64` member.
    I64,
    /// The `F64` member.
    F64,
}

/// A kernel that runs at every member of [`ScalarV`].
pub trait ScalarKernel<K: IdTag>: Sized {
    /// What the kernel produces.
    type Out;

    /// Run at one concrete member, with the map already recovered.
    fn call<V: Scalar>(self, map: &mut DenseProp<V, K>) -> Self::Out;
}

/// Run a kernel at one member, on the map recovered from the boundary.
fn run_at<V: Scalar + Crossing<K>, K: IdTag, T: ScalarKernel<K>>(
    map: &mut AnyMap<'_, K>,
    kernel: T,
) -> (r: T::Out)
    requires
        old(map).cell.member() == V::KIND,
        forall|m: &mut DenseProp<V, K>| #[trigger] call_requires(T::call::<V>, (kernel, m)),
    ensures
        exists|m: &mut DenseProp<V, K>|
            {
                &&& #[trigger] call_ensures(T::call::<V>, (kernel, m), r)
                &&& V::content(&old(map).cell) == Some(*m)
                &&& V::content(&final(map).cell) == Some(*final(m))
            },
        final(map).cell.member() == old(map).cell.member(),
{
    match map.downcast::<V>() {
        Some(m) => apply_second(m, kernel, T::call::<V>),
        None => vstd::pervasive::unreached(),
    }
}

impl ScalarV {
    /// The member this is.
    pub open spec fn member(self) -> ValueKind {
        match self {
            ScalarV::Bool => ValueKind::Bool,
            ScalarV::I16 => ValueKind::I16,
            ScalarV::I32 => ValueKind::I32,
            ScalarV::I64 => ValueKind::I64,
            ScalarV::F64 => ValueKind::F64,
        }
    }

    /// Every member this subset accepts, in declaration order.
    pub open spec fn members() -> Seq<ValueKind> {
        seq![
            ValueKind::Bool,
            ValueKind::I16,
            ValueKind::I32,
            ValueKind::I64,
            ValueKind::F64,
        ]
    }

    /// Every member this subset accepts.
    pub fn accepted() -> (r: &'static [ValueKind])
        ensures
            r@ == Self::members(),
    {
        let all: &'static [ValueKind; 5] = &[
            ValueKind::Bool,
            ValueKind::I16,
            ValueKind::I32,
            ValueKind::I64,
            ValueKind::F64,
        ];
        assert(all@ =~= Self::members());
        all
    }

    /// Narrow a runtime kind into this subset. The only fallible step of a
    /// dispatch: everything after it is total.
    pub fn narrow(k: ValueKind) -> (r: Result<ScalarV, DispatchError>)
        ensures
            k.integral() || k is F64 ==> (r matches Ok(s) && s.member() == k),
            !(k.integral() || k is F64) ==> {
                &&& r matches Err(e)
                &&& e.axis@ == "value"@
                &&& e.offered == k
                &&& e.accepted@ == Self::members()
            },
    {
        match k {
            ValueKind::Bool => Ok(ScalarV::Bool),
            ValueKind::I16 => Ok(ScalarV::I16),
            ValueKind::I32 => Ok(ScalarV::I32),
            ValueKind::I64 => Ok(ScalarV::I64),
            ValueKind::F64 => Ok(ScalarV::F64),
            other => Err(
                DispatchError { axis: "value", offered: other, accepted: Self::accepted() },
            ),
        }
    }

    /// Run `kernel` at the concrete member, handing it the recovered map. The
    /// map must be one of that member.
    pub fn dispatch<K: IdTag, T: ScalarKernel<K>>(self, map: &mut AnyMap<'_, K>, kernel: T) -> (r:
        T::Out)
        requires
            old(map).cell.member() == self.member(),
            self is Bool ==> forall|m: &mut DenseProp<u8, K>| #[trigger]
                call_requires(T::call::<u8>, (kernel, m)),
            self is I16 ==> forall|m: &mut DenseProp<i16, K>| #[trigger]
                call_requires(T::call::<i16>, (kernel, m)),
            self is I32 ==> forall|m: &mut DenseProp<i32, K>| #[trigger]
                call_requires(T::call::<i32>, (kernel, m)),
            self is I64 ==> forall|m: &mut DenseProp<i64, K>| #[trigger]
                call_requires(T::call::<i64>, (kernel, m)),
            self is F64 ==> forall|m: &mut DenseProp<Double, K>| #[trigger]
                call_requires(T::call::<Double>, (kernel, m)),
        ensures
            final(map).cell.member() == old(map).cell.member(),
            self is Bool ==> exists|m: &mut DenseProp<u8, K>|
                {
                    &&& #[trigger] call_ensures(T::call::<u8>, (kernel, m), r)
                    &&& u8::content(&old(map).cell) == Some(*m)
                    &&& u8::content(&final(map).cell) == Some(*final(m))
                },
            self is I16 ==> exists|m: &mut DenseProp<i16, K>|
                {
                    &&& #[trigger] call_ensures(T::call::<i16>, (kernel, m), r)
                    &&& i16::content(&old(map).cell) == Some(*m)
                    &&& i16::content(&final(map).cell) == Some(*final(m))
                },
            self is I32 ==> exists|m: &mut DenseProp<i32, K>|
                {
                    &&& #[trigger] call_ensures(T::call::<i32>, (kernel, m), r)
                    &&& i32::content(&old(map).cell) == Some(*m)
                    &&& i32::content(&final(map).cell) == Some(*final(m))
                },
            self is I64 ==> exists|m: &mut DenseProp<i64, K>|
                {
                    &&& #[trigger] call_ensures(T::call::<i64>, (kernel, m), r)
                    &&& i64::content(&old(map).cell) == Some(*m)
                    &&& i64::content(&final(map).cell) == Some(*final(m))
                },
            self is F64 ==> exists|m: &mut DenseProp<Double, K>|
                {
                    &&& #[trigger] call_ensures(T::call::<Double>, (kernel, m), r)
                    &&& Double::content(&old(map).cell) == Some(*m)
                    &&& Double::content(&final(map).cell) == Some(*final(m))
                },
    {
        proof {
            super::value::which_type_is_which_member();
        }
        match self {
            ScalarV::Bool => run_at::<u8, K, T>(map, kernel),
            ScalarV::I16 => run_at::<i16, K, T>(map, kernel),
            ScalarV::I32 => run_at::<i32, K, T>(map, kernel),
            ScalarV::I64 => run_at::<i64, K, T>(map, kernel),
            ScalarV::F64 => run_at::<Double, K, T>(map, kernel),
        }
    }
}

/// Narrowing a map's own kind meets what dispatching asks of it.
pub proof fn a_narrowed_kind_is_the_maps_member(k: ValueKind, s: ScalarV)
    requires
        s.member() == k,
    ensures
        k.integral() || k is F64,
        ScalarV::members().contains(k),
{
    let all = ScalarV::members();
    match s {
        ScalarV::Bool => assert(all[0] == k),
        ScalarV::I16 => assert(all[1] == k),
        ScalarV::I32 => assert(all[2] == k),
        ScalarV::I64 => assert(all[3] == k),
        ScalarV::F64 => assert(all[4] == k),
    }
}

/// The subset is the integers and the double, in the order of their
/// declaration, each once, and a subset member is the member of its name.
pub proof fn which_members_are_scalars(s: ScalarV, k: ValueKind)
    ensures
        s is Bool ==> s.member() is Bool,
        s is I16 ==> s.member() is I16,
        s is I32 ==> s.member() is I32,
        s is I64 ==> s.member() is I64,
        s is F64 ==> s.member() is F64,
        ScalarV::members().len() == 5,
        ScalarV::members().no_duplicates(),
        ScalarV::members().contains(k) <==> (k is Bool || k is I16 || k is I32 || k is I64
            || k is F64),
{
    let all = ScalarV::members();
    assert(all[0] is Bool && all[1] is I16 && all[2] is I32 && all[3] is I64 && all[4] is F64);
}

/// What an erased map says it stores is what it stores.
pub proof fn a_cell_names_its_member<K: IdTag>(cell: AnyCell<'_, K>)
    ensures
        cell is Bool <==> cell.member() is Bool,
        cell is I16 <==> cell.member() is I16,
        cell is I32 <==> cell.member() is I32,
        cell is I64 <==> cell.member() is I64,
        cell is F64 <==> cell.member() is F64,
        cell is LongDouble <==> cell.member() is LongDouble,
        cell is Str <==> cell.member() is Str,
        cell is VecBool <==> cell.member() is VecBool,
        cell is VecI16 <==> cell.member() is VecI16,
        cell is VecI32 <==> cell.member() is VecI32,
        cell is VecI64 <==> cell.member() is VecI64,
        cell is VecF64 <==> cell.member() is VecF64,
        cell is VecLongDouble <==> cell.member() is VecLongDouble,
        cell is VecStr <==> cell.member() is VecStr,
{
}

} // verus!
