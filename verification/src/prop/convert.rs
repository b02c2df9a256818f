//! Conversion between members of the value universe.
//!
//! A value is erased into a normalised carrier, [`AnyValue`], and recovered
//! from it as another member. [`convertible`] says which pairs of members
//! convert at all; whether a particular value does is up to the value, as the
//! text `"abc"` is of no integer.
//!
//! The two long-double members carry their bytes and convert only to
//! themselves. Integers narrow by wrapping, doubles become integers by
//! rounding towards zero and saturating, and vectors convert element by
//! element, one failed element failing the whole. The text of a double, in
//! either direction, is not made here: see [`needs_double_text`].

use vstd::prelude::*;

use super::number::{int_to_double, parse_all, saturate_all, widen_all, wrap_all, Integer};
use super::value::{Double, LongDouble, PropValue, ValueKind};
use crate::error::PropError;
use crate::text::signed_text;

verus! {

/// Opaque slot for the interpreter's member inside [`AnyValue`]. This library
/// has no interpreter, so no value of it exists.
#[derive(Clone, Copy, Debug, PartialEq, Eq)]
pub struct PyCell(pub(crate) std::convert::Infallible);

/// A normalised carrier for conversion between members.
#[derive(Clone, Debug, PartialEq)]
pub enum AnyValue {
    /// Any integral member, widened.
    Int(i64),
    /// A double.
    Float(Double),
    /// A long double, opaque.
    Long(LongDouble),
    /// A string.
    Str(String),
    /// Any integral vector, widened.
    IntVec(Vec<i64>),
    /// A vector of doubles.
    FloatVec(Vec<Double>),
    /// A vector of long doubles, opaque.
    LongVec(Vec<LongDouble>),
    /// A vector of strings.
    StrVec(Vec<String>),
    /// The interpreter's member.
    Py(PyCell),
}

/// What a carrier holds.
pub enum Carried {
    /// An integer.
    Int(int),
    /// The bits of a double.
    Float(u64),
    /// The bytes of a long double.
    Long(Seq<u8>),
    /// A text.
    Str(Seq<char>),
    /// Integers.
    IntVec(Seq<int>),
    /// The bits of doubles.
    FloatVec(Seq<u64>),
    /// The bytes of long doubles.
    LongVec(Seq<Seq<u8>>),
    /// Texts.
    StrVec(Seq<Seq<char>>),
    /// The interpreter's member.
    Py,
}

impl View for AnyValue {
    type V = Carried;

    open spec fn view(&self) -> Carried {
        match self {
            AnyValue::Int(i) => Carried::Int(*i as int),
            AnyValue::Float(d) => Carried::Float(d.0),
            AnyValue::Long(l) => Carried::Long(l.0@),
            AnyValue::Str(s) => Carried::Str(s@),
            AnyValue::IntVec(v) => Carried::IntVec(v@.map_values(|i: i64| i as int)),
            AnyValue::FloatVec(v) => Carried::FloatVec(v@.map_values(|d: Double| d.0)),
            AnyValue::LongVec(v) => Carried::LongVec(v@.map_values(|l: LongDouble| l.0@)),
            AnyValue::StrVec(v) => Carried::StrVec(v@.map_values(|s: String| s@)),
            AnyValue::Py(_) => Carried::Py,
        }
    }
}

impl Carried {
    /// The member a carrier presents itself as.
    pub open spec fn kind(self) -> ValueKind {
        match self {
            Carried::Int(_) => ValueKind::I64,
            Carried::Float(_) => ValueKind::F64,
            Carried::Long(_) => ValueKind::LongDouble,
            Carried::Str(_) => ValueKind::Str,
            Carried::IntVec(_) => ValueKind::VecI64,
            Carried::FloatVec(_) => ValueKind::VecF64,
            Carried::LongVec(_) => ValueKind::VecLongDouble,
            Carried::StrVec(_) => ValueKind::VecStr,
            Carried::Py => ValueKind::PyObject,
        }
    }
}

impl AnyValue {
    /// The member this carrier presents itself as.
    ///
    /// The carrier is normalised, so every integral member reports
    /// [`ValueKind::I64`] and every integral vector [`ValueKind::VecI64`].
    pub fn kind(&self) -> (r: ValueKind)
        ensures
            r == self@.kind(),
    {
        match self {
            AnyValue::Int(_) => ValueKind::I64,
            AnyValue::Float(_) => ValueKind::F64,
            AnyValue::Long(_) => ValueKind::LongDouble,
            AnyValue::Str(_) => ValueKind::Str,
            AnyValue::IntVec(_) => ValueKind::VecI64,
            AnyValue::FloatVec(_) => ValueKind::VecF64,
            AnyValue::LongVec(_) => ValueKind::VecLongDouble,
            AnyValue::StrVec(_) => ValueKind::VecStr,
            AnyValue::Py(_) => ValueKind::PyObject,
        }
    }
}

/// The members that convert only to themselves.
pub open spec fn opaque_kind(k: ValueKind) -> bool {
    k is LongDouble || k is VecLongDouble
}

/// Whether a conversion between two members exists at all: to itself; never
/// otherwise for a long double; to and from the interpreter's member; and
/// among scalars and strings, or among vectors.
pub open spec fn converts(from: ValueKind, to: ValueKind) -> bool {
    from == to || (!opaque_kind(from) && !opaque_kind(to) && (from is PyObject || to is PyObject
        || (from.element() is Some) == (to.element() is Some)))
}

fn is_opaque(k: ValueKind) -> (r: bool)
    ensures
        r == opaque_kind(k),
{
    matches!(k, ValueKind::LongDouble | ValueKind::VecLongDouble)
}

/// Whether a conversion between these two members exists at all.
pub fn convertible(from: ValueKind, to: ValueKind) -> (r: bool)
    ensures
        r == converts(from, to),
{
    if from == to {
        return true;
    }
    if is_opaque(from) || is_opaque(to) {
        return false;
    }
    if matches!(from, ValueKind::PyObject) || matches!(to, ValueKind::PyObject) {
        return true;
    }
    from.is_vector() == to.is_vector()
}

/// The pairs that would write a double as text or read one from it.
pub open spec fn double_text(from: ValueKind, to: ValueKind) -> bool {
    ||| from is F64 && to is Str
    ||| from is Str && to is F64
    ||| from is VecF64 && to is VecStr
    ||| from is VecStr && to is VecF64
}

/// Whether converting between two members writes a double as text or reads one
/// from it. Both are decimal floating point, which is the caller's to do; the
/// conversions here are of every other pair.
pub fn needs_double_text(from: ValueKind, to: ValueKind) -> (r: bool)
    ensures
        r == double_text(from, to),
{
    match (from, to) {
        (ValueKind::F64, ValueKind::Str) => true,
        (ValueKind::Str, ValueKind::F64) => true,
        (ValueKind::VecF64, ValueKind::VecStr) => true,
        (ValueKind::VecStr, ValueKind::VecF64) => true,
        _ => false,
    }
}

/// What a carrier becomes as a value of the member `to`, if it becomes one.
pub open spec fn recovered(to: ValueKind, a: Carried) -> Option<Carried> {
    match to.element() {
        None => recovered_one(to, a),
        Some(e) => recovered_all(e, a),
    }
}

/// What a carrier becomes as a scalar or a string.
pub open spec fn recovered_one(to: ValueKind, a: Carried) -> Option<Carried> {
    if to.integral() {
        match a {
            Carried::Int(i) => Some(Carried::Int(super::number::wrapped(to, i))),
            Carried::Float(bits) => Some(Carried::Int(super::number::saturated(to, bits))),
            Carried::Str(s) => match super::number::parsed(to, s) {
                Some(i) => Some(Carried::Int(i)),
                None => None,
            },
            _ => None,
        }
    } else {
        match (to, a) {
            (ValueKind::F64, Carried::Int(i)) => Some(
                Carried::Float(super::number::nearest(i) as u64),
            ),
            (ValueKind::F64, Carried::Float(_)) => Some(a),
            (ValueKind::LongDouble, Carried::Long(_)) => Some(a),
            (ValueKind::Str, Carried::Int(i)) => Some(
                Carried::Str(crate::text::signed_decimal(i)),
            ),
            (ValueKind::Str, Carried::Str(_)) => Some(a),
            _ => None,
        }
    }
}

/// What a carrier becomes as a vector of the member `e`.
pub open spec fn recovered_all(e: ValueKind, a: Carried) -> Option<Carried> {
    if e.integral() {
        match a {
            Carried::IntVec(v) => Some(
                Carried::IntVec(v.map_values(|i: int| super::number::wrapped(e, i))),
            ),
            Carried::FloatVec(v) => Some(
                Carried::IntVec(v.map_values(|bits: u64| super::number::saturated(e, bits))),
            ),
            Carried::StrVec(v) => if forall|i: int|
                0 <= i < v.len() ==> super::number::parsed(e, #[trigger] v[i]) is Some {
                Some(
                    Carried::IntVec(
                        v.map_values(|s: Seq<char>| super::number::parsed(e, s)->Some_0),
                    ),
                )
            } else {
                None
            },
            _ => None,
        }
    } else {
        match (e, a) {
            (ValueKind::F64, Carried::IntVec(v)) => Some(
                Carried::FloatVec(v.map_values(|i: int| super::number::nearest(i) as u64)),
            ),
            (ValueKind::F64, Carried::FloatVec(_)) => Some(a),
            (ValueKind::LongDouble, Carried::LongVec(_)) => Some(a),
            (ValueKind::Str, Carried::IntVec(v)) => Some(
                Carried::StrVec(v.map_values(|i: int| crate::text::signed_decimal(i))),
            ),
            (ValueKind::Str, Carried::StrVec(_)) => Some(a),
            _ => None,
        }
    }
}

/// What a value of the member `from` becomes as one of the member `to`.
pub open spec fn converted(from: ValueKind, to: ValueKind, a: Carried) -> Option<Carried> {
    if converts(from, to) {
        recovered(to, a)
    } else {
        None
    }
}

/// The member a member's values are carried as.
pub open spec fn normal_kind(k: ValueKind) -> ValueKind {
    if k.integral() {
        ValueKind::I64
    } else if k.element() matches Some(e) && e.integral() {
        ValueKind::VecI64
    } else {
        k
    }
}

/// Whether a carrier holds a value of the member `k`.
pub open spec fn holds(k: ValueKind, a: Carried) -> bool {
    &&& a.kind() == normal_kind(k)
    &&& a matches Carried::Int(i) ==> super::number::in_range(k, i)
    &&& a matches Carried::IntVec(v) ==> forall|i: int|
        0 <= i < v.len() ==> super::number::in_range(k.element()->Some_0, #[trigger] v[i])
}

/// A pair that does not exist in the lattice, or a value that did not survive
/// one that does.
pub open spec fn refusal(from: ValueKind, to: ValueKind) -> PropError {
    PropError::NoConversion { from, to }
}

/// Erase a value into the carrier.
pub trait ToAny: PropValue {
    /// What the carrier of this value holds.
    spec fn carried(&self) -> Carried;

    /// The carrier of a value is one of its own member.
    proof fn carried_is_held(&self)
        ensures
            holds(Self::KIND, self.carried()),
    ;

    /// Normalise.
    fn to_any(&self) -> (r: AnyValue)
        ensures
            r@ == self.carried(),
    ;
}

/// Recover a value from the carrier.
pub trait FromAny: ToAny {
    /// Denormalise, or explain why not. The error names the carrier's own
    /// normalised member.
    fn from_any(a: &AnyValue) -> (r: Result<Self, PropError>)
        requires
            !double_text(a@.kind(), Self::KIND),
        ensures
            match recovered(Self::KIND, a@) {
                Some(c) => r matches Ok(v) && v.carried() == c,
                None => r == Err::<Self, _>(refusal(a@.kind(), Self::KIND)),
            },
    ;

    /// Duplicate a value of this same member.
    fn from_same(s: &Self) -> (r: Self)
        ensures
            r.carried() == s.carried(),
    ;
}

/// Lossy or lossless conversion within the value universe.
pub trait ConvertFrom<S: ToAny>: FromAny {
    /// Convert, or explain why not. The error names the true pair of members.
    fn convert_from(s: &S) -> (r: Result<Self, PropError>)
        requires
            !double_text(S::KIND, Self::KIND),
        ensures
            match converted(S::KIND, Self::KIND, s.carried()) {
                Some(c) => r matches Ok(v) && v.carried() == c,
                None => r == Err::<Self, _>(refusal(S::KIND, Self::KIND)),
            },
    ;
}

fn no_conversion(from: ValueKind, to: ValueKind) -> (r: PropError)
    ensures
        r == refusal(from, to),
{
    PropError::NoConversion { from, to }
}

impl<S: ToAny, T: FromAny> ConvertFrom<S> for T {
    fn convert_from(s: &S) -> (r: Result<T, PropError>) {
        if !convertible(S::KIND, T::KIND) {
            return Err(no_conversion(S::KIND, T::KIND));
        }
        proof {
            s.carried_is_held();
        }
        match T::from_any(&s.to_any()) {
            Ok(v) => Ok(v),
            Err(PropError::NoConversion { .. }) => Err(no_conversion(S::KIND, T::KIND)),
            Err(other) => Err(other),
        }
    }
}

impl ToAny for u8 {
    open spec fn carried(&self) -> Carried {
        Carried::Int(*self as int)
    }

    proof fn carried_is_held(&self) {
        super::value::which_type_is_which_member();
    }

    fn to_any(&self) -> (r: AnyValue) {
        AnyValue::Int(self.widen())
    }
}

impl FromAny for u8 {
    fn from_any(a: &AnyValue) -> (r: Result<Self, PropError>) {
        proof {
            super::value::which_type_is_which_member();
        }
        match a {
            AnyValue::Int(i) => Ok(u8::wrap(*i)),
            AnyValue::Float(d) => Ok(u8::saturate(d.0)),
            AnyValue::Str(s) => match <u8 as Integer>::parse(s.as_str()) {
                Some(i) => Ok(i),
                None => Err(no_conversion(a.kind(), Self::KIND)),
            },
            _ => Err(no_conversion(a.kind(), Self::KIND)),
        }
    }

    fn from_same(s: &Self) -> (r: Self) {
        *s
    }
}

impl ToAny for i16 {
    open spec fn carried(&self) -> Carried {
        Carried::Int(*self as int)
    }

    proof fn carried_is_held(&self) {
        super::value::which_type_is_which_member();
    }

    fn to_any(&self) -> (r: AnyValue) {
        AnyValue::Int(self.widen())
    }
}

impl FromAny for i16 {
    fn from_any(a: &AnyValue) -> (r: Result<Self, PropError>) {
        proof {
            super::value::which_type_is_which_member();
        }
        match a {
            AnyValue::Int(i) => Ok(i16::wrap(*i)),
            AnyValue::Float(d) => Ok(i16::saturate(d.0)),
            AnyValue::Str(s) => match <i16 as Integer>::parse(s.as_str()) {
                Some(i) => Ok(i),
                None => Err(no_conversion(a.kind(), Self::KIND)),
            },
            _ => Err(no_conversion(a.kind(), Self::KIND)),
        }
    }

    fn from_same(s: &Self) -> (r: Self) {
        *s
    }
}

impl ToAny for i32 {
    open spec fn carried(&self) -> Carried {
        Carried::Int(*self as int)
    }

    proof fn carried_is_held(&self) {
        super::value::which_type_is_which_member();
    }

    fn to_any(&self) -> (r: AnyValue) {
        AnyValue::Int(self.widen())
    }
}

impl FromAny for i32 {
    fn from_any(a: &AnyValue) -> (r: Result<Self, PropError>) {
        proof {
            super::value::which_type_is_which_member();
        }
        match a {
            AnyValue::Int(i) => Ok(i32::wrap(*i)),
            AnyValue::Float(d) => Ok(i32::saturate(d.0)),
            AnyValue::Str(s) => match <i32 as Integer>::parse(s.as_str()) {
                Some(i) => Ok(i),
                None => Err(no_conversion(a.kind(), Self::KIND)),
            },
            _ => Err(no_conversion(a.kind(), Self::KIND)),
        }
    }

    fn from_same(s: &Self) -> (r: Self) {
        *s
    }
}

impl ToAny for i64 {
    open spec fn carried(&self) -> Carried {
        Carried::Int(*self as int)
    }

    proof fn carried_is_held(&self) {
        super::value::which_type_is_which_member();
    }

    fn to_any(&self) -> (r: AnyValue) {
        AnyValue::Int(self.widen())
    }
}

impl FromAny for i64 {
    fn from_any(a: &AnyValue) -> (r: Result<Self, PropError>) {
        proof {
            super::value::which_type_is_which_member();
        }
        match a {
            AnyValue::Int(i) => Ok(i64::wrap(*i)),
            AnyValue::Float(d) => Ok(i64::saturate(d.0)),
            AnyValue::Str(s) => match <i64 as Integer>::parse(s.as_str()) {
                Some(i) => Ok(i),
                None => Err(no_conversion(a.kind(), Self::KIND)),
            },
            _ => Err(no_conversion(a.kind(), Self::KIND)),
        }
    }

    fn from_same(s: &Self) -> (r: Self) {
        *s
    }
}

impl ToAny for Double {
    open spec fn carried(&self) -> Carried {
        Carried::Float(self.0)
    }

    proof fn carried_is_held(&self) {
        super::value::which_type_is_which_member();
    }

    fn to_any(&self) -> (r: AnyValue) {
        AnyValue::Float(*self)
    }
}

impl FromAny for Double {
    fn from_any(a: &AnyValue) -> (r: Result<Self, PropError>) {
        proof {
            super::value::which_type_is_which_member();
        }
        match a {
            AnyValue::Int(i) => Ok(Double(int_to_double(*i))),
            AnyValue::Float(d) => Ok(*d),
            _ => Err(no_conversion(a.kind(), Self::KIND)),
        }
    }

    fn from_same(s: &Self) -> (r: Self) {
        *s
    }
}

impl ToAny for LongDouble {
    open spec fn carried(&self) -> Carried {
        Carried::Long(self.0@)
    }

    proof fn carried_is_held(&self) {
        super::value::which_type_is_which_member();
    }

    fn to_any(&self) -> (r: AnyValue) {
        AnyValue::Long(*self)
    }
}

impl FromAny for LongDouble {
    fn from_any(a: &AnyValue) -> (r: Result<Self, PropError>) {
        proof {
            super::value::which_type_is_which_member();
        }
        match a {
            AnyValue::Long(l) => Ok(*l),
            _ => Err(no_conversion(a.kind(), Self::KIND)),
        }
    }

    fn from_same(s: &Self) -> (r: Self) {
        *s
    }
}

impl ToAny for String {
    open spec fn carried(&self) -> Carried {
        Carried::Str(self@)
    }

    proof fn carried_is_held(&self) {
        super::value::which_type_is_which_member();
    }

    fn to_any(&self) -> (r: AnyValue) {
        AnyValue::Str(self.clone())
    }
}

impl FromAny for String {
    fn from_any(a: &AnyValue) -> (r: Result<Self, PropError>) {
        proof {
            super::value::which_type_is_which_member();
        }
        match a {
            AnyValue::Int(i) => Ok(signed_text(*i)),
            AnyValue::Str(s) => Ok(s.clone()),
            _ => Err(no_conversion(a.kind(), Self::KIND)),
        }
    }

    fn from_same(s: &Self) -> (r: Self) {
        s.clone()
    }
}

impl ToAny for Vec<u8> {
    open spec fn carried(&self) -> Carried {
        Carried::IntVec(self@.map_values(|x: u8| x as int))
    }

    proof fn carried_is_held(&self) {
        super::value::which_type_is_which_member();
    }

    fn to_any(&self) -> (r: AnyValue) {
        let wide = widen_all(self);
        assert(wide@.map_values(|i: i64| i as int) =~= self@.map_values(|x: u8| x as int));
        AnyValue::IntVec(wide)
    }
}

impl FromAny for Vec<u8> {
    fn from_any(a: &AnyValue) -> (r: Result<Self, PropError>) {
        proof {
            super::value::which_type_is_which_member();
        }
        match a {
            AnyValue::IntVec(v) => {
                let out: Vec<u8> = wrap_all(v);
                assert(out.carried()->IntVec_0 =~= recovered(Self::KIND, a@)->Some_0->IntVec_0);
                Ok(out)
            },
            AnyValue::FloatVec(v) => {
                let out: Vec<u8> = saturate_all(v);
                assert(out.carried()->IntVec_0 =~= recovered(Self::KIND, a@)->Some_0->IntVec_0);
                Ok(out)
            },
            AnyValue::StrVec(v) => {
                let ghost texts = a@->StrVec_0;
                assert(forall|i: int| 0 <= i < v@.len() ==> #[trigger] texts[i] == v@[i]@);
                match parse_all::<u8>(v) {
                    Some(out) => {
                        assert forall|i: int| 0 <= i < texts.len() implies super::number::parsed(
                            ValueKind::Bool,
                            #[trigger] texts[i],
                        ) is Some by {
                            assert(super::number::parsed(ValueKind::Bool, v@[i]@) == Some(
                                out@[i].number(),
                            ));
                        }
                        assert(out.carried()->IntVec_0 =~= recovered(
                            Self::KIND,
                            a@,
                        )->Some_0->IntVec_0);
                        Ok(out)
                    },
                    None => {
                        proof {
                            let bad = choose|i: int|
                                0 <= i < v@.len() && super::number::parsed(
                                    ValueKind::Bool,
                                    (#[trigger] v@[i])@,
                                ) is None;
                            assert(texts[bad] == v@[bad]@);
                        }
                        Err(no_conversion(a.kind(), Self::KIND))
                    },
                }
            },
            _ => Err(no_conversion(a.kind(), Self::KIND)),
        }
    }

    fn from_same(s: &Self) -> (r: Self) {
        let r = s.clone();
        assert(r@ =~= s@);
        r
    }
}

impl ToAny for Vec<i16> {
    open spec fn carried(&self) -> Carried {
        Carried::IntVec(self@.map_values(|x: i16| x as int))
    }

    proof fn carried_is_held(&self) {
        super::value::which_type_is_which_member();
    }

    fn to_any(&self) -> (r: AnyValue) {
        let wide = widen_all(self);
        assert(wide@.map_values(|i: i64| i as int) =~= self@.map_values(|x: i16| x as int));
        AnyValue::IntVec(wide)
    }
}

impl FromAny for Vec<i16> {
    fn from_any(a: &AnyValue) -> (r: Result<Self, PropError>) {
        proof {
            super::value::which_type_is_which_member();
        }
        match a {
            AnyValue::IntVec(v) => {
                let out: Vec<i16> = wrap_all(v);
                assert(out.carried()->IntVec_0 =~= recovered(Self::KIND, a@)->Some_0->IntVec_0);
                Ok(out)
            },
            AnyValue::FloatVec(v) => {
                let out: Vec<i16> = saturate_all(v);
                assert(out.carried()->IntVec_0 =~= recovered(Self::KIND, a@)->Some_0->IntVec_0);
                Ok(out)
            },
            AnyValue::StrVec(v) => {
                let ghost texts = a@->StrVec_0;
                assert(forall|i: int| 0 <= i < v@.len() ==> #[trigger] texts[i] == v@[i]@);
                match parse_all::<i16>(v) {
                    Some(out) => {
                        assert forall|i: int| 0 <= i < texts.len() implies super::number::parsed(
                            ValueKind::I16,
                            #[trigger] texts[i],
                        ) is Some by {
                            assert(super::number::parsed(ValueKind::I16, v@[i]@) == Some(
                                out@[i].number(),
                            ));
                        }
                        assert(out.carried()->IntVec_0 =~= recovered(
                            Self::KIND,
                            a@,
                        )->Some_0->IntVec_0);
                        Ok(out)
                    },
                    None => {
                        proof {
                            let bad = choose|i: int|
                                0 <= i < v@.len() && super::number::parsed(
                                    ValueKind::I16,
                                    (#[trigger] v@[i])@,
                                ) is None;
                            assert(texts[bad] == v@[bad]@);
                        }
                        Err(no_conversion(a.kind(), Self::KIND))
                    },
                }
            },
            _ => Err(no_conversion(a.kind(), Self::KIND)),
        }
    }

    fn from_same(s: &Self) -> (r: Self) {
        let r = s.clone();
        assert(r@ =~= s@);
        r
    }
}

impl ToAny for Vec<i32> {
    open spec fn carried(&self) -> Carried {
        Carried::IntVec(self@.map_values(|x: i32| x as int))
    }

    proof fn carried_is_held(&self) {
        super::value::which_type_is_which_member();
    }

    fn to_any(&self) -> (r: AnyValue) {
        let wide = widen_all(self);
        assert(wide@.map_values(|i: i64| i as int) =~= self@.map_values(|x: i32| x as int));
        AnyValue::IntVec(wide)
    }
}

impl FromAny for Vec<i32> {
    fn from_any(a: &AnyValue) -> (r: Result<Self, PropError>) {
        proof {
            super::value::which_type_is_which_member();
        }
        match a {
            AnyValue::IntVec(v) => {
                let out: Vec<i32> = wrap_all(v);
                assert(out.carried()->IntVec_0 =~= recovered(Self::KIND, a@)->Some_0->IntVec_0);
                Ok(out)
            },
            AnyValue::FloatVec(v) => {
                let out: Vec<i32> = saturate_all(v);
                assert(out.carried()->IntVec_0 =~= recovered(Self::KIND, a@)->Some_0->IntVec_0);
                Ok(out)
            },
            AnyValue::StrVec(v) => {
                let ghost texts = a@->StrVec_0;
                assert(forall|i: int| 0 <= i < v@.len() ==> #[trigger] texts[i] == v@[i]@);
                match parse_all::<i32>(v) {
                    Some(out) => {
                        assert forall|i: int| 0 <= i < texts.len() implies super::number::parsed(
                            ValueKind::I32,
                            #[trigger] texts[i],
                        ) is Some by {
                            assert(super::number::parsed(ValueKind::I32, v@[i]@) == Some(
                                out@[i].number(),
                            ));
                        }
                        assert(out.carried()->IntVec_0 =~= recovered(
                            Self::KIND,
                            a@,
                        )->Some_0->IntVec_0);
                        Ok(out)
                    },
                    None => {
                        proof {
                            let bad = choose|i: int|
                                0 <= i < v@.len() && super::number::parsed(
                                    ValueKind::I32,
                                    (#[trigger] v@[i])@,
                                ) is None;
                            assert(texts[bad] == v@[bad]@);
                        }
                        Err(no_conversion(a.kind(), Self::KIND))
                    },
                }
            },
            _ => Err(no_conversion(a.kind(), Self::KIND)),
        }
    }

    fn from_same(s: &Self) -> (r: Self) {
        let r = s.clone();
        assert(r@ =~= s@);
        r
    }
}

impl ToAny for Vec<i64> {
    open spec fn carried(&self) -> Carried {
        Carried::IntVec(self@.map_values(|x: i64| x as int))
    }

    proof fn carried_is_held(&self) {
        super::value::which_type_is_which_member();
    }

    fn to_any(&self) -> (r: AnyValue) {
        let wide = widen_all(self);
        assert(wide@.map_values(|i: i64| i as int) =~= self@.map_values(|x: i64| x as int));
        AnyValue::IntVec(wide)
    }
}

impl FromAny for Vec<i64> {
    fn from_any(a: &AnyValue) -> (r: Result<Self, PropError>) {
        proof {
            super::value::which_type_is_which_member();
        }
        match a {
            AnyValue::IntVec(v) => {
                let out: Vec<i64> = wrap_all(v);
                assert(out.carried()->IntVec_0 =~= recovered(Self::KIND, a@)->Some_0->IntVec_0);
                Ok(out)
            },
            AnyValue::FloatVec(v) => {
                let out: Vec<i64> = saturate_all(v);
                assert(out.carried()->IntVec_0 =~= recovered(Self::KIND, a@)->Some_0->IntVec_0);
                Ok(out)
            },
            AnyValue::StrVec(v) => {
                let ghost texts = a@->StrVec_0;
                assert(forall|i: int| 0 <= i < v@.len() ==> #[trigger] texts[i] == v@[i]@);
                match parse_all::<i64>(v) {
                    Some(out) => {
                        assert forall|i: int| 0 <= i < texts.len() implies super::number::parsed(
                            ValueKind::I64,
                            #[trigger] texts[i],
                        ) is Some by {
                            assert(super::number::parsed(ValueKind::I64, v@[i]@) == Some(
                                out@[i].number(),
                            ));
                        }
                        assert(out.carried()->IntVec_0 =~= recovered(
                            Self::KIND,
                            a@,
                        )->Some_0->IntVec_0);
                        Ok(out)
                    },
                    None => {
                        proof {
                            let bad = choose|i: int|
                                0 <= i < v@.len() && super::number::parsed(
                                    ValueKind::I64,
                                    (#[trigger] v@[i])@,
                                ) is None;
                            assert(texts[bad] == v@[bad]@);
                        }
                        Err(no_conversion(a.kind(), Self::KIND))
                    },
                }
            },
            _ => Err(no_conversion(a.kind(), Self::KIND)),
        }
    }

    fn from_same(s: &Self) -> (r: Self) {
        let r = s.clone();
        assert(r@ =~= s@);
        r
    }
}

impl ToAny for Vec<Double> {
    open spec fn carried(&self) -> Carried {
        Carried::FloatVec(self@.map_values(|d: Double| d.0))
    }

    proof fn carried_is_held(&self) {
        super::value::which_type_is_which_member();
    }

    fn to_any(&self) -> (r: AnyValue) {
        AnyValue::FloatVec(Self::from_same(self))
    }
}

impl FromAny for Vec<Double> {
    fn from_any(a: &AnyValue) -> (r: Result<Self, PropError>) {
        proof {
            super::value::which_type_is_which_member();
        }
        match a {
            AnyValue::IntVec(v) => {
                let mut out: Vec<Double> = Vec::new();
                for i in 0..v.len()
                    invariant
                        out@.len() == i,
                        forall|j: int|
                            0 <= j < i ==> (#[trigger] out@[j]).0 == super::number::nearest(
                                v@[j] as int,
                            ),
                {
                    out.push(Double(int_to_double(v[i])));
                }
                assert(out.carried()->FloatVec_0 =~= recovered(
                    Self::KIND,
                    a@,
                )->Some_0->FloatVec_0);
                Ok(out)
            },
            AnyValue::FloatVec(v) => Ok(Self::from_same(v)),
            _ => Err(no_conversion(a.kind(), Self::KIND)),
        }
    }

    fn from_same(s: &Self) -> (r: Self) {
        let r = s.clone();
        assert(r@ =~= s@);
        r
    }
}

impl ToAny for Vec<LongDouble> {
    open spec fn carried(&self) -> Carried {
        Carried::LongVec(self@.map_values(|l: LongDouble| l.0@))
    }

    proof fn carried_is_held(&self) {
        super::value::which_type_is_which_member();
    }

    fn to_any(&self) -> (r: AnyValue) {
        AnyValue::LongVec(Self::from_same(self))
    }
}

impl FromAny for Vec<LongDouble> {
    fn from_any(a: &AnyValue) -> (r: Result<Self, PropError>) {
        proof {
            super::value::which_type_is_which_member();
        }
        match a {
            AnyValue::LongVec(v) => Ok(Self::from_same(v)),
            _ => Err(no_conversion(a.kind(), Self::KIND)),
        }
    }

    fn from_same(s: &Self) -> (r: Self) {
        let r = s.clone();
        assert(r@ =~= s@);
        r
    }
}

impl ToAny for Vec<String> {
    open spec fn carried(&self) -> Carried {
        Carried::StrVec(self@.map_values(|s: String| s@))
    }

    proof fn carried_is_held(&self) {
        super::value::which_type_is_which_member();
    }

    fn to_any(&self) -> (r: AnyValue) {
        AnyValue::StrVec(Self::from_same(self))
    }
}

impl FromAny for Vec<String> {
    fn from_any(a: &AnyValue) -> (r: Result<Self, PropError>) {
        proof {
            super::value::which_type_is_which_member();
        }
        match a {
            AnyValue::IntVec(v) => {
                let mut out: Vec<String> = Vec::new();
                for i in 0..v.len()
                    invariant
                        out@.len() == i,
                        forall|j: int|
                            0 <= j < i ==> (#[trigger] out@[j])@ == crate::text::signed_decimal(
                                v@[j] as int,
                            ),
                {
                    out.push(signed_text(v[i]));
                }
                assert(out.carried()->StrVec_0 =~= recovered(Self::KIND, a@)->Some_0->StrVec_0);
                Ok(out)
            },
            AnyValue::StrVec(v) => Ok(Self::from_same(v)),
            _ => Err(no_conversion(a.kind(), Self::KIND)),
        }
    }

    fn from_same(s: &Self) -> (r: Self) {
        let r = s.clone();
        assert(r.carried()->StrVec_0 =~= s.carried()->StrVec_0);
        r
    }
}

/// Every member converts to itself, and a conversion exists in one direction
/// exactly where it does in the other.
pub proof fn the_lattice_is_reflexive_and_symmetric(a: ValueKind, b: ValueKind)
    ensures
        converts(a, a),
        converts(a, b) == converts(b, a),
{
}

/// A long double and a vector of them convert to themselves and to nothing
/// else.
pub proof fn long_doubles_are_isolated(a: ValueKind, b: ValueKind)
    requires
        opaque_kind(a),
    ensures
        converts(a, b) == (a == b),
        converts(b, a) == (a == b),
{
}

/// Apart from the interpreter's member, a vector never converts to a scalar or
/// a string, nor the other way.
pub proof fn scalars_and_vectors_do_not_mix(a: ValueKind, b: ValueKind)
    requires
        !(a is PyObject),
        !(b is PyObject),
        (a.element() is Some) != (b.element() is Some),
    ensures
        !converts(a, b),
{
}

/// Recovering refuses every carrier whose own member does not convert, so the
/// table of pairs is never wider than what the values do.
pub proof fn recovering_stays_within_the_lattice(to: ValueKind, a: Carried)
    ensures
        recovered(to, a) is Some ==> converts(a.kind(), to),
{
}

/// Converting a value to its own member changes nothing.
pub proof fn converting_to_the_same_member_is_the_identity<T: FromAny>(v: T)
    requires
        !(T::KIND is PyObject),
    ensures
        converted(T::KIND, T::KIND, v.carried()) == Some(v.carried()),
{
    v.carried_is_held();
    let k = T::KIND;
    match v.carried() {
        Carried::Int(i) => {
            super::number::wrapping_keeps_the_range(k, i);
        },
        Carried::IntVec(s) => {
            let e = k.element()->Some_0;
            assert forall|i: int| 0 <= i < s.len() implies super::number::wrapped(
                e,
                #[trigger] s[i],
            ) == s[i] by {
                super::number::wrapping_keeps_the_range(e, s[i]);
            }
            assert(s.map_values(|i: int| super::number::wrapped(e, i)) =~= s);
        },
        _ => {},
    }
}

/// What is recovered as a member is a value of that member.
pub proof fn a_recovered_value_is_of_its_member(to: ValueKind, a: Carried)
    requires
        recovered(to, a) is Some,
    ensures
        holds(to, recovered(to, a)->Some_0),
{
    if to.integral() {
        match a {
            Carried::Int(i) => {
                super::number::wrapping_keeps_the_range(to, i);
            },
            Carried::Str(s) => {
                super::number::wrapping_keeps_the_range(
                    to,
                    super::number::integer_text(s)->Some_0,
                );
            },
            _ => {},
        }
    }
    if to.element() is Some && to.element()->Some_0.integral() {
        let e = to.element()->Some_0;
        let out = recovered(to, a)->Some_0->IntVec_0;
        assert forall|i: int| 0 <= i < out.len() implies super::number::in_range(
            e,
            #[trigger] out[i],
        ) by {
            match a {
                Carried::IntVec(v) => {
                    super::number::wrapping_keeps_the_range(e, v[i]);
                },
                Carried::StrVec(v) => {
                    assert(super::number::parsed(e, v[i]) is Some);
                    super::number::wrapping_keeps_the_range(
                        e,
                        super::number::integer_text(v[i])->Some_0,
                    );
                },
                _ => {},
            }
        }
    }
}

/// An integer converts unchanged to every integral member that holds it, so
/// widening loses nothing.
pub proof fn widening_keeps_the_integer(from: ValueKind, to: ValueKind, i: int)
    requires
        from.integral(),
        to.integral(),
        super::number::in_range(to, i),
    ensures
        converted(from, to, Carried::Int(i)) == Some(Carried::Int(i)),
{
    super::number::wrapping_keeps_the_range(to, i);
}

/// An integer converted to text and back is the same integer.
pub proof fn an_integer_survives_a_string(k: ValueKind, i: int)
    requires
        k.integral(),
        super::number::in_range(k, i),
    ensures
        converted(k, ValueKind::Str, Carried::Int(i)) is Some,
        converted(
            ValueKind::Str,
            k,
            converted(k, ValueKind::Str, Carried::Int(i))->Some_0,
        ) == Some(Carried::Int(i)),
{
    super::number::an_integer_survives_its_text(k, i);
}

/// The element of a vector carrier, as a scalar carrier.
pub open spec fn element_at(a: Carried, i: int) -> Carried {
    match a {
        Carried::IntVec(v) => Carried::Int(v[i]),
        Carried::FloatVec(v) => Carried::Float(v[i]),
        Carried::LongVec(v) => Carried::Long(v[i]),
        Carried::StrVec(v) => Carried::Str(v[i]),
        _ => a,
    }
}

/// How many elements a vector carrier has.
pub open spec fn element_count(a: Carried) -> nat {
    match a {
        Carried::IntVec(v) => v.len(),
        Carried::FloatVec(v) => v.len(),
        Carried::LongVec(v) => v.len(),
        Carried::StrVec(v) => v.len(),
        _ => 0,
    }
}

/// Vectors convert element by element: the whole converts exactly where every
/// element does, and then to a vector of the elements' conversions.
pub proof fn vectors_convert_elementwise(from: ValueKind, to: ValueKind, a: Carried)
    requires
        from.element() is Some,
        to.element() is Some,
        a.kind() == normal_kind(from),
        converts(from, to),
        !double_text(from, to),
    ensures
        converted(from, to, a) is Some <==> forall|i: int|
            0 <= i < element_count(a) ==> converted(
                from.element()->Some_0,
                to.element()->Some_0,
                #[trigger] element_at(a, i),
            ) is Some,
        converted(from, to, a) matches Some(b) ==> {
            &&& element_count(b) == element_count(a)
            &&& forall|i: int|
                0 <= i < element_count(a) ==> converted(
                    from.element()->Some_0,
                    to.element()->Some_0,
                    #[trigger] element_at(a, i),
                ) == Some(element_at(b, i))
        },
{
    let f = from.element()->Some_0;
    let e = to.element()->Some_0;
    assert(converts(f, e));
    if e.integral() && a is StrVec {
        let v = a->StrVec_0;
        assert forall|i: int| 0 <= i < v.len() implies (super::number::parsed(
            e,
            #[trigger] v[i],
        ) is Some) == (converted(f, e, element_at(a, i)) is Some) by {
            assert(element_at(a, i) == Carried::Str(v[i]));
        }
        if converted(from, to, a) is None {
            let bad = choose|i: int|
                0 <= i < v.len() && super::number::parsed(e, #[trigger] v[i]) is None;
            assert(converted(f, e, element_at(a, bad)) is None);
        }
    }
}

} // verus!
