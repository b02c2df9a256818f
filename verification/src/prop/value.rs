//! The closed universe of property values: fifteen members.
//!
//! A freshly grown property slot needs a value, and the interpreter's member
//! has none without an interpreter, so growth takes a closure in general and
//! the [`Zeroed`] marker covers the other members. Likewise `Send + Sync` is
//! not on [`PropValue`] but on [`GilFree`], which is what every parallel entry
//! point is bounded by.
//!
//! The two floating members are carried by their bytes: [`Double`] holds the
//! bits of a binary64 number and [`LongDouble`] sixteen opaque bytes. Neither
//! has arithmetic here.

use vstd::prelude::*;

use super::number::int_to_double;
use crate::sealed::Sealed;
use crate::text::same_text;

verus! {

/// The members, in declaration order.
#[derive(Clone, Copy, PartialEq, Eq, Structural, PartialOrd, Ord, Hash, Debug)]
pub enum ValueKind {
    /// An unsigned byte, named "bool" to callers.
    Bool,
    /// A 16-bit integer.
    I16,
    /// A 32-bit integer.
    I32,
    /// A 64-bit integer.
    I64,
    /// A double, carried as its bits by [`Double`].
    F64,
    /// An extended-precision float, carried opaquely by [`LongDouble`].
    LongDouble,
    /// A string.
    Str,
    /// A vector of [`Bool`](ValueKind::Bool) values.
    VecBool,
    /// A vector of [`I16`](ValueKind::I16) values.
    VecI16,
    /// A vector of [`I32`](ValueKind::I32) values.
    VecI32,
    /// A vector of [`I64`](ValueKind::I64) values.
    VecI64,
    /// A vector of [`F64`](ValueKind::F64) values.
    VecF64,
    /// A vector of [`LongDouble`](ValueKind::LongDouble) values.
    VecLongDouble,
    /// A vector of [`Str`](ValueKind::Str) values.
    VecStr,
    /// An object of an embedded interpreter.
    PyObject,
}

impl ValueKind {
    /// Every member, in declaration order.
    pub const ALL: [ValueKind; 15] = [
        ValueKind::Bool,
        ValueKind::I16,
        ValueKind::I32,
        ValueKind::I64,
        ValueKind::F64,
        ValueKind::LongDouble,
        ValueKind::Str,
        ValueKind::VecBool,
        ValueKind::VecI16,
        ValueKind::VecI32,
        ValueKind::VecI64,
        ValueKind::VecF64,
        ValueKind::VecLongDouble,
        ValueKind::VecStr,
        ValueKind::PyObject,
    ];

    /// The name callers see.
    pub open spec fn title(self) -> Seq<char> {
        match self {
            ValueKind::Bool => "bool"@,
            ValueKind::I16 => "int16_t"@,
            ValueKind::I32 => "int32_t"@,
            ValueKind::I64 => "int64_t"@,
            ValueKind::F64 => "double"@,
            ValueKind::LongDouble => "long double"@,
            ValueKind::Str => "string"@,
            ValueKind::VecBool => "vector<bool>"@,
            ValueKind::VecI16 => "vector<int16_t>"@,
            ValueKind::VecI32 => "vector<int32_t>"@,
            ValueKind::VecI64 => "vector<int64_t>"@,
            ValueKind::VecF64 => "vector<double>"@,
            ValueKind::VecLongDouble => "vector<long double>"@,
            ValueKind::VecStr => "vector<string>"@,
            ValueKind::PyObject => "python::object"@,
        }
    }

    /// The member's own identifier.
    pub open spec fn variant_name(self) -> Seq<char> {
        match self {
            ValueKind::Bool => "Bool"@,
            ValueKind::I16 => "I16"@,
            ValueKind::I32 => "I32"@,
            ValueKind::I64 => "I64"@,
            ValueKind::F64 => "F64"@,
            ValueKind::LongDouble => "LongDouble"@,
            ValueKind::Str => "Str"@,
            ValueKind::VecBool => "VecBool"@,
            ValueKind::VecI16 => "VecI16"@,
            ValueKind::VecI32 => "VecI32"@,
            ValueKind::VecI64 => "VecI64"@,
            ValueKind::VecF64 => "VecF64"@,
            ValueKind::VecLongDouble => "VecLongDouble"@,
            ValueKind::VecStr => "VecStr"@,
            ValueKind::PyObject => "PyObject"@,
        }
    }

    /// The element member of a vector member.
    pub open spec fn element(self) -> Option<ValueKind> {
        match self {
            ValueKind::VecBool => Some(ValueKind::Bool),
            ValueKind::VecI16 => Some(ValueKind::I16),
            ValueKind::VecI32 => Some(ValueKind::I32),
            ValueKind::VecI64 => Some(ValueKind::I64),
            ValueKind::VecF64 => Some(ValueKind::F64),
            ValueKind::VecLongDouble => Some(ValueKind::LongDouble),
            ValueKind::VecStr => Some(ValueKind::Str),
            _ => None,
        }
    }

    /// The members that hold an integer.
    pub open spec fn integral(self) -> bool {
        self is Bool || self is I16 || self is I32 || self is I64
    }

    /// The name callers see: exactly one spelling for each member.
    pub fn name(self) -> (r: &'static str)
        ensures
            r@ == self.title(),
    {
        match self {
            ValueKind::Bool => "bool",
            ValueKind::I16 => "int16_t",
            ValueKind::I32 => "int32_t",
            ValueKind::I64 => "int64_t",
            ValueKind::F64 => "double",
            ValueKind::LongDouble => "long double",
            ValueKind::Str => "string",
            ValueKind::VecBool => "vector<bool>",
            ValueKind::VecI16 => "vector<int16_t>",
            ValueKind::VecI32 => "vector<int32_t>",
            ValueKind::VecI64 => "vector<int64_t>",
            ValueKind::VecF64 => "vector<double>",
            ValueKind::VecLongDouble => "vector<long double>",
            ValueKind::VecStr => "vector<string>",
            ValueKind::PyObject => "python::object",
        }
    }

    /// The member's own identifier, for diagnostics.
    pub fn variant(self) -> (r: &'static str)
        ensures
            r@ == self.variant_name(),
    {
        match self {
            ValueKind::Bool => "Bool",
            ValueKind::I16 => "I16",
            ValueKind::I32 => "I32",
            ValueKind::I64 => "I64",
            ValueKind::F64 => "F64",
            ValueKind::LongDouble => "LongDouble",
            ValueKind::Str => "Str",
            ValueKind::VecBool => "VecBool",
            ValueKind::VecI16 => "VecI16",
            ValueKind::VecI32 => "VecI32",
            ValueKind::VecI64 => "VecI64",
            ValueKind::VecF64 => "VecF64",
            ValueKind::VecLongDouble => "VecLongDouble",
            ValueKind::VecStr => "VecStr",
            ValueKind::PyObject => "PyObject",
        }
    }

    /// Parse a name. Exact: no normalisation of case, whitespace or spelling,
    /// and no aliases.
    pub fn from_name(s: &str) -> (r: Option<ValueKind>)
        ensures
            forall|k: ValueKind| (r == Some(k)) <==> #[trigger] k.title() == s@,
    {
        let found = if same_text(s, "bool") {
            Some(ValueKind::Bool)
        } else if same_text(s, "int16_t") {
            Some(ValueKind::I16)
        } else if same_text(s, "int32_t") {
            Some(ValueKind::I32)
        } else if same_text(s, "int64_t") {
            Some(ValueKind::I64)
        } else if same_text(s, "double") {
            Some(ValueKind::F64)
        } else if same_text(s, "long double") {
            Some(ValueKind::LongDouble)
        } else if same_text(s, "string") {
            Some(ValueKind::Str)
        } else if same_text(s, "vector<bool>") {
            Some(ValueKind::VecBool)
        } else if same_text(s, "vector<int16_t>") {
            Some(ValueKind::VecI16)
        } else if same_text(s, "vector<int32_t>") {
            Some(ValueKind::VecI32)
        } else if same_text(s, "vector<int64_t>") {
            Some(ValueKind::VecI64)
        } else if same_text(s, "vector<double>") {
            Some(ValueKind::VecF64)
        } else if same_text(s, "vector<long double>") {
            Some(ValueKind::VecLongDouble)
        } else if same_text(s, "vector<string>") {
            Some(ValueKind::VecStr)
        } else if same_text(s, "python::object") {
            Some(ValueKind::PyObject)
        } else {
            None
        };
        proof {
            assert(found matches Some(k) ==> k.title() == s@);
            assert forall|k: ValueKind| (found == Some(k)) <==> #[trigger] k.title() == s@ by {
                if found is Some {
                    names_are_distinct(k, found->0);
                }
            }
        }
        found
    }

    /// The arithmetic scalars.
    pub fn is_scalar(self) -> (r: bool)
        ensures
            r == (self.integral() || self is F64),
    {
        matches!(
            self,
            ValueKind::Bool | ValueKind::I16 | ValueKind::I32 | ValueKind::I64 | ValueKind::F64
        )
    }

    /// The integer members.
    pub fn is_integer(self) -> (r: bool)
        ensures
            r == self.integral(),
    {
        matches!(self, ValueKind::Bool | ValueKind::I16 | ValueKind::I32 | ValueKind::I64)
    }

    /// The floating members.
    pub fn is_floating(self) -> (r: bool)
        ensures
            r == (self is F64 || self is LongDouble),
    {
        matches!(self, ValueKind::F64 | ValueKind::LongDouble)
    }

    /// The vector members.
    pub fn is_vector(self) -> (r: bool)
        ensures
            r == (self.element() is Some),
    {
        self.elem().is_some()
    }

    /// The element member of a vector member.
    pub fn elem(self) -> (r: Option<ValueKind>)
        ensures
            r == self.element(),
    {
        match self {
            ValueKind::VecBool => Some(ValueKind::Bool),
            ValueKind::VecI16 => Some(ValueKind::I16),
            ValueKind::VecI32 => Some(ValueKind::I32),
            ValueKind::VecI64 => Some(ValueKind::I64),
            ValueKind::VecF64 => Some(ValueKind::F64),
            ValueKind::VecLongDouble => Some(ValueKind::LongDouble),
            ValueKind::VecStr => Some(ValueKind::Str),
            _ => None,
        }
    }
}

/// Two members never share a name, so a name determines its member and
/// [`ValueKind::from_name`] undoes [`ValueKind::name`].
pub proof fn names_are_distinct(k: ValueKind, l: ValueKind)
    ensures
        k.title() == l.title() ==> k == l,
{
    reveal_strlit("bool");
    reveal_strlit("int16_t");
    reveal_strlit("int32_t");
    reveal_strlit("int64_t");
    reveal_strlit("double");
    reveal_strlit("long double");
    reveal_strlit("string");
    reveal_strlit("vector<bool>");
    reveal_strlit("vector<int16_t>");
    reveal_strlit("vector<int32_t>");
    reveal_strlit("vector<int64_t>");
    reveal_strlit("vector<double>");
    reveal_strlit("vector<long double>");
    reveal_strlit("vector<string>");
    reveal_strlit("python::object");
    if k.title() == l.title() {
        assert(k.title().len() == l.title().len());
        assert(k.title()[0] == l.title()[0]);
        assert(k.title()[3] == l.title()[3]);
        assert(k.title().len() > 8 ==> k.title()[7] == l.title()[7]);
        assert(k.title().len() > 10 ==> k.title()[10] == l.title()[10]);
    }
}

/// A vector's elements are scalars, strings or long doubles: no member nests.
pub proof fn vectors_do_not_nest(k: ValueKind)
    ensures
        k.element() matches Some(e) ==> e.element() is None && !(e is PyObject),
{
}

/// A member of the value universe.
///
/// Sealed: no other type joins the universe. The interpreter's member has no
/// type here, since this library has no interpreter.
pub trait PropValue: Sealed + Sized + 'static {
    /// This type's member.
    const KIND: ValueKind;

    /// The type itself for scalars, the element type for vectors. Always a
    /// member too.
    type Elem: 'static;
}

/// Values that can be made with no context.
pub trait Zeroed: PropValue {
    /// Whether a value is the one a freshly grown slot holds.
    spec fn is_zero(&self) -> bool;

    /// The value a freshly grown property slot holds.
    fn zero() -> (r: Self)
        ensures
            r.is_zero(),
    ;
}

/// Values that hold no interpreter reference and may therefore cross threads.
pub trait GilFree: PropValue + Clone + Send + Sync {

}

/// Widening to a double.
pub trait ToF64: Copy {
    /// The bits of the double a value widens to.
    spec fn as_double(self) -> int;

    /// Widen, accepting the precision that a large integer loses.
    fn to_f64(self) -> (r: Double)
        ensures
            r.0 == self.as_double(),
    ;
}

/// The arithmetic scalars: the integers and the double.
pub trait Scalar: PropValue + GilFree + Copy + ToF64 + PartialOrd {

}

/// Opaque carrier of a long double: its sixteen bytes, which round-trip
/// unchanged, and no arithmetic.
#[derive(Clone, Copy, PartialEq, Eq, Hash, Debug)]
pub struct LongDouble(pub [u8; 16]);

/// Carrier of a double: the bits of a binary64 number.
///
/// Compared as a number, not as bits: the two zeros are equal, and a number
/// that is not one equals nothing and is not ordered.
#[derive(Clone, Copy, Debug)]
pub struct Double(pub u64);

impl Double {
    /// Where a number stands among the others, if it is one. Numbers compare
    /// as these do.
    pub open spec fn rank(self) -> Option<int> {
        let magnitude = (self.0 % 0x8000_0000_0000_0000) as int;
        if magnitude > 0x7ff0_0000_0000_0000 {
            None
        } else if self.0 >= 0x8000_0000_0000_0000 {
            Some(-magnitude)
        } else {
            Some(magnitude)
        }
    }

    fn place(self) -> (r: Option<i64>)
        ensures
            match self.rank() {
                Some(p) => r matches Some(q) && q == p,
                None => r is None,
            },
    {
        let magnitude: u64 = self.0 % 0x8000_0000_0000_0000;
        if magnitude > 0x7ff0_0000_0000_0000 {
            None
        } else if self.0 >= 0x8000_0000_0000_0000 {
            Some(-(magnitude as i64))
        } else {
            Some(magnitude as i64)
        }
    }
}

impl PartialEq for Double {
    fn eq(&self, other: &Self) -> (r: bool) {
        match (self.place(), other.place()) {
            (Some(a), Some(b)) => a == b,
            _ => false,
        }
    }
}

impl vstd::std_specs::cmp::PartialEqSpecImpl for Double {
    open spec fn obeys_eq_spec() -> bool {
        true
    }

    open spec fn eq_spec(&self, other: &Self) -> bool {
        self.rank() is Some && self.rank() == other.rank()
    }
}

impl PartialOrd for Double {
    fn partial_cmp(&self, other: &Self) -> (r: Option<std::cmp::Ordering>) {
        match (self.place(), other.place()) {
            (Some(a), Some(b)) => if a < b {
                Some(std::cmp::Ordering::Less)
            } else if a == b {
                Some(std::cmp::Ordering::Equal)
            } else {
                Some(std::cmp::Ordering::Greater)
            },
            _ => None,
        }
    }
}

impl vstd::std_specs::cmp::PartialOrdSpecImpl for Double {
    open spec fn obeys_partial_cmp_spec() -> bool {
        true
    }

    open spec fn partial_cmp_spec(&self, other: &Self) -> Option<std::cmp::Ordering> {
        match (self.rank(), other.rank()) {
            (Some(a), Some(b)) => if a < b {
                Some(std::cmp::Ordering::Less)
            } else if a == b {
                Some(std::cmp::Ordering::Equal)
            } else {
                Some(std::cmp::Ordering::Greater)
            },
            _ => None,
        }
    }
}

impl Default for LongDouble {
    fn default() -> (r: Self)
        ensures
            r.is_zero(),
    {
        LongDouble::zero()
    }
}

impl Sealed for u8 {

}

impl PropValue for u8 {
    const KIND: ValueKind = ValueKind::Bool;

    type Elem = u8;
}

impl Zeroed for u8 {
    open spec fn is_zero(&self) -> bool {
        *self == 0
    }

    fn zero() -> (r: Self) {
        0
    }
}

impl GilFree for u8 {

}

impl ToF64 for u8 {
    open spec fn as_double(self) -> int {
        super::number::nearest(self as int)
    }

    fn to_f64(self) -> (r: Double) {
        Double(int_to_double(self as i64))
    }
}

impl Scalar for u8 {

}

impl Sealed for i16 {

}

impl PropValue for i16 {
    const KIND: ValueKind = ValueKind::I16;

    type Elem = i16;
}

impl Zeroed for i16 {
    open spec fn is_zero(&self) -> bool {
        *self == 0
    }

    fn zero() -> (r: Self) {
        0
    }
}

impl GilFree for i16 {

}

impl ToF64 for i16 {
    open spec fn as_double(self) -> int {
        super::number::nearest(self as int)
    }

    fn to_f64(self) -> (r: Double) {
        Double(int_to_double(self as i64))
    }
}

impl Scalar for i16 {

}

impl Sealed for i32 {

}

impl PropValue for i32 {
    const KIND: ValueKind = ValueKind::I32;

    type Elem = i32;
}

impl Zeroed for i32 {
    open spec fn is_zero(&self) -> bool {
        *self == 0
    }

    fn zero() -> (r: Self) {
        0
    }
}

impl GilFree for i32 {

}

impl ToF64 for i32 {
    open spec fn as_double(self) -> int {
        super::number::nearest(self as int)
    }

    fn to_f64(self) -> (r: Double) {
        Double(int_to_double(self as i64))
    }
}

impl Scalar for i32 {

}

impl Sealed for i64 {

}

impl PropValue for i64 {
    const KIND: ValueKind = ValueKind::I64;

    type Elem = i64;
}

impl Zeroed for i64 {
    open spec fn is_zero(&self) -> bool {
        *self == 0
    }

    fn zero() -> (r: Self) {
        0
    }
}

impl GilFree for i64 {

}

impl ToF64 for i64 {
    open spec fn as_double(self) -> int {
        super::number::nearest(self as int)
    }

    fn to_f64(self) -> (r: Double) {
        Double(int_to_double(self))
    }
}

impl Scalar for i64 {

}

impl Sealed for Double {

}

impl PropValue for Double {
    const KIND: ValueKind = ValueKind::F64;

    type Elem = Double;
}

impl Zeroed for Double {
    open spec fn is_zero(&self) -> bool {
        self.0 == 0
    }

    fn zero() -> (r: Self) {
        Double(0)
    }
}

impl GilFree for Double {

}

impl Sealed for LongDouble {

}

impl PropValue for LongDouble {
    const KIND: ValueKind = ValueKind::LongDouble;

    type Elem = LongDouble;
}

impl Zeroed for LongDouble {
    open spec fn is_zero(&self) -> bool {
        forall|i: int| 0 <= i < 16 ==> self.0@[i] == 0u8
    }

    fn zero() -> (r: Self) {
        let bytes: [u8; 16] = [0; 16];
        LongDouble(bytes)
    }
}

impl GilFree for LongDouble {

}

impl Sealed for String {

}

impl PropValue for String {
    const KIND: ValueKind = ValueKind::Str;

    type Elem = String;
}

impl Zeroed for String {
    open spec fn is_zero(&self) -> bool {
        self@.len() == 0
    }

    fn zero() -> (r: Self) {
        String::new()
    }
}

impl GilFree for String {

}

impl ToF64 for Double {
    open spec fn as_double(self) -> int {
        self.0 as int
    }

    fn to_f64(self) -> (r: Double) {
        self
    }
}

impl Scalar for Double {

}

impl Sealed for Vec<u8> {

}

impl PropValue for Vec<u8> {
    const KIND: ValueKind = ValueKind::VecBool;

    type Elem = u8;
}

impl Zeroed for Vec<u8> {
    open spec fn is_zero(&self) -> bool {
        self@.len() == 0
    }

    fn zero() -> (r: Self) {
        Vec::new()
    }
}

impl GilFree for Vec<u8> {

}

impl Sealed for Vec<i16> {

}

impl PropValue for Vec<i16> {
    const KIND: ValueKind = ValueKind::VecI16;

    type Elem = i16;
}

impl Zeroed for Vec<i16> {
    open spec fn is_zero(&self) -> bool {
        self@.len() == 0
    }

    fn zero() -> (r: Self) {
        Vec::new()
    }
}

impl GilFree for Vec<i16> {

}

impl Sealed for Vec<i32> {

}

impl PropValue for Vec<i32> {
    const KIND: ValueKind = ValueKind::VecI32;

    type Elem = i32;
}

impl Zeroed for Vec<i32> {
    open spec fn is_zero(&self) -> bool {
        self@.len() == 0
    }

    fn zero() -> (r: Self) {
        Vec::new()
    }
}

impl GilFree for Vec<i32> {

}

impl Sealed for Vec<i64> {

}

impl PropValue for Vec<i64> {
    const KIND: ValueKind = ValueKind::VecI64;

    type Elem = i64;
}

impl Zeroed for Vec<i64> {
    open spec fn is_zero(&self) -> bool {
        self@.len() == 0
    }

    fn zero() -> (r: Self) {
        Vec::new()
    }
}

impl GilFree for Vec<i64> {

}

impl Sealed for Vec<Double> {

}

impl PropValue for Vec<Double> {
    const KIND: ValueKind = ValueKind::VecF64;

    type Elem = Double;
}

impl Zeroed for Vec<Double> {
    open spec fn is_zero(&self) -> bool {
        self@.len() == 0
    }

    fn zero() -> (r: Self) {
        Vec::new()
    }
}

impl GilFree for Vec<Double> {

}

impl Sealed for Vec<LongDouble> {

}

impl PropValue for Vec<LongDouble> {
    const KIND: ValueKind = ValueKind::VecLongDouble;

    type Elem = LongDouble;
}

impl Zeroed for Vec<LongDouble> {
    open spec fn is_zero(&self) -> bool {
        self@.len() == 0
    }

    fn zero() -> (r: Self) {
        Vec::new()
    }
}

impl GilFree for Vec<LongDouble> {

}

impl Sealed for Vec<String> {

}

impl PropValue for Vec<String> {
    const KIND: ValueKind = ValueKind::VecStr;

    type Elem = String;
}

impl Zeroed for Vec<String> {
    open spec fn is_zero(&self) -> bool {
        self@.len() == 0
    }

    fn zero() -> (r: Self) {
        Vec::new()
    }
}

impl GilFree for Vec<String> {

}

/// Which type is which member. Every member but the interpreter's has exactly
/// one type, and that type's element is the member's element.
pub proof fn which_type_is_which_member()
    ensures
        <u8 as PropValue>::KIND == ValueKind::Bool,
        <i16 as PropValue>::KIND == ValueKind::I16,
        <i32 as PropValue>::KIND == ValueKind::I32,
        <i64 as PropValue>::KIND == ValueKind::I64,
        <Double as PropValue>::KIND == ValueKind::F64,
        <LongDouble as PropValue>::KIND == ValueKind::LongDouble,
        <String as PropValue>::KIND == ValueKind::Str,
        <Vec<u8> as PropValue>::KIND == ValueKind::VecBool,
        <Vec<i16> as PropValue>::KIND == ValueKind::VecI16,
        <Vec<i32> as PropValue>::KIND == ValueKind::VecI32,
        <Vec<i64> as PropValue>::KIND == ValueKind::VecI64,
        <Vec<Double> as PropValue>::KIND == ValueKind::VecF64,
        <Vec<LongDouble> as PropValue>::KIND == ValueKind::VecLongDouble,
        <Vec<String> as PropValue>::KIND == ValueKind::VecStr,
        Some(<<Vec<u8> as PropValue>::Elem as PropValue>::KIND) == ValueKind::VecBool.element(),
        Some(<<Vec<i16> as PropValue>::Elem as PropValue>::KIND) == ValueKind::VecI16.element(),
        Some(<<Vec<i32> as PropValue>::Elem as PropValue>::KIND) == ValueKind::VecI32.element(),
        Some(<<Vec<i64> as PropValue>::Elem as PropValue>::KIND) == ValueKind::VecI64.element(),
        Some(<<Vec<Double> as PropValue>::Elem as PropValue>::KIND) == ValueKind::VecF64.element(),
        Some(<<Vec<LongDouble> as PropValue>::Elem as PropValue>::KIND) == ValueKind::VecLongDouble.element(),
        Some(<<Vec<String> as PropValue>::Elem as PropValue>::KIND) == ValueKind::VecStr.element(),
        <<u8 as PropValue>::Elem as PropValue>::KIND == ValueKind::Bool,
        <<i16 as PropValue>::Elem as PropValue>::KIND == ValueKind::I16,
        <<i32 as PropValue>::Elem as PropValue>::KIND == ValueKind::I32,
        <<i64 as PropValue>::Elem as PropValue>::KIND == ValueKind::I64,
        <<Double as PropValue>::Elem as PropValue>::KIND == ValueKind::F64,
        <<LongDouble as PropValue>::Elem as PropValue>::KIND == ValueKind::LongDouble,
        <<String as PropValue>::Elem as PropValue>::KIND == ValueKind::Str,
{
}

/// The members by what they hold: four hold an integer, seven are vectors, and
/// a vector's element is the member that its name says.
pub proof fn which_members_hold_what(k: ValueKind)
    ensures
        k.integral() <==> (k is Bool || k is I16 || k is I32 || k is I64),
        k.element() is Some <==> (k is VecBool || k is VecI16 || k is VecI32 || k is VecI64
            || k is VecF64 || k is VecLongDouble || k is VecStr),
        k.element() matches Some(e) ==> k.title() == "vector<"@ + e.title() + ">"@,
{
    reveal_strlit("bool");
    reveal_strlit("int16_t");
    reveal_strlit("int32_t");
    reveal_strlit("int64_t");
    reveal_strlit("double");
    reveal_strlit("long double");
    reveal_strlit("string");
    reveal_strlit("vector<bool>");
    reveal_strlit("vector<int16_t>");
    reveal_strlit("vector<int32_t>");
    reveal_strlit("vector<int64_t>");
    reveal_strlit("vector<double>");
    reveal_strlit("vector<long double>");
    reveal_strlit("vector<string>");
    reveal_strlit("vector<");
    reveal_strlit(">");
    if k.element() is Some {
        assert(k.title() =~= "vector<"@ + k.element()->0.title() + ">"@);
    }
}

/// A fresh slot holds zero, or nothing where the member is a text or a vector.
pub proof fn a_fresh_slot_is_zero_or_empty(
    a: u8,
    b: i16,
    c: i32,
    d: i64,
    x: Double,
    s: String,
    v: Vec<i64>,
)
    ensures
        a.is_zero() <==> a == 0,
        b.is_zero() <==> b == 0,
        c.is_zero() <==> c == 0,
        d.is_zero() <==> d == 0,
        x.is_zero() <==> x.0 == 0,
        s.is_zero() <==> s@.len() == 0,
        v.is_zero() <==> v@.len() == 0,
{
}

/// Doubles compare by rank: two are equal where they have the same one, and one
/// without a rank equals nothing, itself included.
pub proof fn doubles_are_equal_by_rank(a: Double, b: Double)
    ensures
        vstd::std_specs::cmp::PartialEqSpec::eq_spec(&a, &b) <==> a.rank() is Some && b.rank() is Some
            && a.rank()->0 == b.rank()->0,
        vstd::std_specs::cmp::PartialOrdSpec::partial_cmp_spec(&a, &b) is Some <==> a.rank() is Some
            && b.rank() is Some,
        vstd::std_specs::cmp::PartialOrdSpec::partial_cmp_spec(&a, &b) == Some(
            std::cmp::Ordering::Less,
        ) <==> a.rank() is Some && b.rank() is Some && a.rank()->0 < b.rank()->0,
        vstd::std_specs::cmp::PartialOrdSpec::partial_cmp_spec(&a, &b) == Some(
            std::cmp::Ordering::Greater,
        ) <==> a.rank() is Some && b.rank() is Some && a.rank()->0 > b.rank()->0,
{
}

} // verus!
