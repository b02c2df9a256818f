//! What the conversions do, said of the numbers and of the text themselves.

use vstd::prelude::*;

use super::convert::{AnyValue, Carried, ToAny};
use super::value::{Double, LongDouble, ToF64, ValueKind};

verus! {

/// The range of an integral member is that of the type that carries it.
pub proof fn the_ranges_are_those_of_the_types(to: ValueKind, i: int)
    ensures
        super::number::in_range(ValueKind::Bool, i) <==> 0 <= i <= 255,
        super::number::in_range(ValueKind::I16, i) <==> -32768 <= i <= 32767,
        super::number::in_range(ValueKind::I32, i) <==> -2147483648 <= i <= 2147483647,
        super::number::in_range(ValueKind::I64, i) <==> -9223372036854775808 <= i
            <= 9223372036854775807,
        super::number::in_range(to, i) <==> super::number::lowest(to) <= i
            <= super::number::highest(to),
{
}

/// Narrowing an integer takes whole turns of the member's range from it, or
/// adds them, until it is in range.
pub proof fn an_integer_narrows_by_whole_turns(i: int)
    ensures
        ({
            let r = super::number::wrapped(ValueKind::Bool, i);
            0 <= r <= 255 && (i - r) % 256 == 0
        }),
        ({
            let r = super::number::wrapped(ValueKind::I16, i);
            -32768 <= r <= 32767 && (i - r) % 65536 == 0
        }),
        ({
            let r = super::number::wrapped(ValueKind::I32, i);
            -2147483648 <= r <= 2147483647 && (i - r) % 4294967296 == 0
        }),
        ({
            let r = super::number::wrapped(ValueKind::I64, i);
            -9223372036854775808 <= r <= 9223372036854775807 && (i - r) % 18446744073709551616 == 0
        }),
{
}

/// A double becomes an integer by dropping what is behind the point, and is
/// held to the member's range.
///
/// The magnitude of a finite double is its significand times two to the power
/// of its exponent less 1075; the result's magnitude is the largest integer not
/// above that, or the end of the range where that is nearer to zero. The sign
/// is kept, the infinities become the ends of the range, and what is not a
/// number becomes zero.
pub proof fn a_double_drops_what_is_behind_the_point(to: ValueKind, bits: u64)
    requires
        to is Bool || to is I16 || to is I32 || to is I64,
    ensures
        ({
            let e = (bits / 0x10_0000_0000_0000 % 0x800) as int;
            let f = (bits % 0x10_0000_0000_0000) as int;
            let place = if e == 0 {
                1
            } else {
                e
            };
            let m = if e == 0 {
                f
            } else {
                0x10_0000_0000_0000 + f
            };
            let negative = bits >= 0x8000_0000_0000_0000;
            let low: int = if to is Bool {
                0
            } else if to is I16 {
                -32768
            } else if to is I32 {
                -2147483648
            } else {
                -9223372036854775808
            };
            let high: int = if to is Bool {
                255
            } else if to is I16 {
                32767
            } else if to is I32 {
                2147483647
            } else {
                9223372036854775807
            };
            let end = if negative {
                low
            } else {
                high
            };
            let r = super::number::saturated(to, bits);
            let q = if negative {
                -r
            } else {
                r
            };
            &&& low <= r <= high
            &&& 0 <= q
            &&& e == 2047 && f != 0 ==> r == 0
            &&& e == 2047 && f == 0 ==> r == end
            &&& e < 1075 ==> ({
                let unit = vstd::arithmetic::power2::pow2((1075 - place) as nat) as int;
                q * unit <= m && (m < (q + 1) * unit || r == end)
            })
            &&& 1075 <= e < 2047 ==> ({
                let size = m * vstd::arithmetic::power2::pow2((e - 1075) as nat);
                q <= size && (q == size || r == end)
            })
        }),
{
    let e = (bits / 0x10_0000_0000_0000 % 0x800) as int;
    let f = (bits % 0x10_0000_0000_0000) as int;
    let negative = bits >= 0x8000_0000_0000_0000;
    let r = super::number::saturated(to, bits);
    let q = if negative {
        -r
    } else {
        r
    };
    let w = super::number::whole(bits) as int;
    vstd::arithmetic::power2::lemma2_to64();
    vstd::arithmetic::power2::lemma2_to64_rest();
    if e == 0 {
        let unit = vstd::arithmetic::power2::pow2(1074) as int;
        vstd::arithmetic::power2::lemma_pow2_strictly_increases(53, 1074);
        assert(w == 0 && r == 0);
        assert(0 * unit == 0 && 1 * unit == unit);
    } else if e < 1075 {
        let m = 0x10_0000_0000_0000 + f;
        let unit = vstd::arithmetic::power2::pow2((1075 - e) as nat) as int;
        vstd::arithmetic::power2::lemma_pow2_pos((1075 - e) as nat);
        vstd::arithmetic::div_mod::lemma_fundamental_div_mod(m, unit);
        vstd::arithmetic::div_mod::lemma_mod_bound(m, unit);
        assert(w == m / unit);
        assert(w * unit <= m < (w + 1) * unit) by (nonlinear_arith)
            requires
                m == unit * w + m % unit,
                0 <= m % unit < unit,
        ;
        assert(q <= w);
        assert(q * unit <= w * unit) by (nonlinear_arith)
            requires
                q <= w,
                unit > 0,
        ;
    } else if e < 2047 {
        assert(w >= 0);
    }
}

/// An integer becomes the double nearest to it, and of two that are equally
/// near the one whose significand is even. One of at most 53 binary digits
/// becomes a double of the same value.
///
/// The result's magnitude is its significand `m` times a unit, which is two to
/// the power of its exponent less 1075; the doubles next to it are a unit away,
/// or half a unit below where the significand is the least.
pub proof fn an_integer_becomes_the_nearest_double(i: int)
    requires
        -9223372036854775808 <= i <= 9223372036854775807,
    ensures
        ({
            let bits = super::number::nearest(i);
            let e = bits / 0x10_0000_0000_0000 % 0x800;
            let m = 0x10_0000_0000_0000 + bits % 0x10_0000_0000_0000;
            let n = if i < 0 {
                -i
            } else {
                i
            };
            &&& 0 <= bits <= 0xffff_ffff_ffff_ffff
            &&& i == 0 <==> bits == 0
            &&& i < 0 <==> bits >= 0x8000_0000_0000_0000
            &&& i != 0 ==> 1023 <= e <= 1086
            &&& i != 0 && e < 1075 ==> m == n * vstd::arithmetic::power2::pow2((1075 - e) as nat)
            &&& i != 0 && e >= 1075 ==> ({
                let unit = vstd::arithmetic::power2::pow2((e - 1075) as nat) as int;
                let off = if n < m * unit {
                    m * unit - n
                } else {
                    n - m * unit
                };
                &&& 2 * off <= unit
                &&& 2 * off == unit ==> m % 2 == 0
                &&& m == 0x10_0000_0000_0000 && n < m * unit ==> 4 * off <= unit
            })
        }),
{
    let n: nat = if i < 0 {
        (-i) as nat
    } else {
        i as nat
    };
    if n > 0 {
        super::number::lemma_significand(n);
        super::number::lemma_bit_length(n);
        vstd::arithmetic::power2::lemma2_to64();
        vstd::arithmetic::power2::lemma2_to64_rest();
        let l = super::number::bit_length(n);
        let sig = super::number::significand(n) as int;
        let bits = super::number::nearest(i);
        let e = bits / 0x10_0000_0000_0000 % 0x800;
        let m = 0x10_0000_0000_0000 + bits % 0x10_0000_0000_0000;
        if l <= 53 {
            let scale = vstd::arithmetic::power2::pow2((53 - l) as nat) as int;
            vstd::arithmetic::power2::lemma_pow2_pos((53 - l) as nat);
            vstd::arithmetic::power2::lemma_pow2_adds(l, (53 - l) as nat);
            assert(n * scale < 0x20_0000_0000_0000) by (nonlinear_arith)
                requires
                    n < vstd::arithmetic::power2::pow2(l),
                    vstd::arithmetic::power2::pow2(l) * scale == 0x20_0000_0000_0000,
                    scale > 0,
            ;
            assert(sig == n * scale);
            assert(e == 1022 + l);
            assert(m == sig);
            if l == 53 {
                assert(scale == 1);
                assert(n * 1 == n);
                assert(m * 1 == m);
            }
        } else {
            let drop = (l - 53) as nat;
            let unit = vstd::arithmetic::power2::pow2(drop) as int;
            vstd::arithmetic::power2::lemma_pow2_pos(drop);
            vstd::arithmetic::power2::lemma_pow2_adds(52, drop);
            vstd::arithmetic::power2::lemma_pow2_adds(53, drop);
            let q = n as int / unit;
            let rest = n as int % unit;
            vstd::arithmetic::div_mod::lemma_fundamental_div_mod(n as int, unit);
            vstd::arithmetic::div_mod::lemma_mod_bound(n as int, unit);
            assert(0x10_0000_0000_0000 <= q < 0x20_0000_0000_0000) by (nonlinear_arith)
                requires
                    0x10_0000_0000_0000 * unit <= n < 0x20_0000_0000_0000 * unit,
                    n == unit * q + rest,
                    0 <= rest < unit,
            ;
            assert(n == q * unit + rest) by (nonlinear_arith)
                requires
                    n == unit * q + rest,
            ;
            assert((q + 1) * unit == q * unit + unit) by (nonlinear_arith);
            if sig < 0x20_0000_0000_0000 {
                assert(e == 1022 + l);
                assert(m == sig);
                assert((e - 1075) as nat == drop);
                assert(sig == q || sig == q + 1);
            } else {
                assert(sig == q + 1 == 0x20_0000_0000_0000);
                assert(e == 1023 + l);
                assert(m == 0x10_0000_0000_0000);
                vstd::arithmetic::power2::lemma_pow2_unfold((drop + 1) as nat);
                assert((e - 1075) as nat == drop + 1);
                let wide = vstd::arithmetic::power2::pow2((drop + 1) as nat) as int;
                assert(wide == 2 * unit);
                assert(m * wide == (q + 1) * unit) by (nonlinear_arith)
                    requires
                        wide == 2 * unit,
                        2 * m == q + 1,
                ;
            }
        }
    }
}

/// Widening to a double is taking the double nearest to the integer, whichever
/// integral member it is of, and a double stays as it is.
pub proof fn widening_takes_the_nearest_double(a: u8, b: i16, c: i32, d: i64, x: Double)
    ensures
        a.as_double() == super::number::nearest(a as int),
        b.as_double() == super::number::nearest(b as int),
        c.as_double() == super::number::nearest(c as int),
        d.as_double() == super::number::nearest(d as int),
        x.as_double() == x.0,
{
}

/// A decimal numeral is written most significant digit first, without leading
/// zeros: the digit `k` places from its end is that of the number's `k`-th
/// power of ten, and a negative number is its magnitude behind a minus sign.
pub proof fn a_numeral_is_written_by_place(n: nat, k: nat)
    ensures
        ({
            let text = crate::text::decimal(n);
            let size = text.len();
            &&& size >= 1
            &&& n < vstd::arithmetic::power::pow(10, size)
            &&& size > 1 ==> n >= vstd::arithmetic::power::pow(10, (size - 1) as nat)
            &&& k < size ==> text[size - 1 - k] as int == 48 + n as int
                / vstd::arithmetic::power::pow(10, k) % 10
        }),
        crate::text::signed_decimal(n as int) == crate::text::decimal(n),
        n > 0 ==> crate::text::signed_decimal(-(n as int)) == seq!['-'] + crate::text::decimal(n),
    decreases n,
{
    let text = crate::text::decimal(n);
    vstd::arithmetic::power::lemma_pow0(10);
    vstd::arithmetic::power::lemma_pow1(10);
    vstd::arithmetic::power::lemma_pow_positive(10, k);
    if n < 10 {
        if k == 0 {
            assert(n as int / 1 == n);
        }
    } else {
        let less = (n / 10) as nat;
        a_numeral_is_written_by_place(
            less,
            if k > 0 {
                (k - 1) as nat
            } else {
                0
            },
        );
        let size = crate::text::decimal(less).len();
        vstd::arithmetic::power::lemma_pow_adds(10, size, 1);
        vstd::arithmetic::power::lemma_pow_adds(10, (size - 1) as nat, 1);
        assert(text.len() == size + 1);
        assert(n < vstd::arithmetic::power::pow(10, size) * 10);
        assert(size > 1 ==> n >= vstd::arithmetic::power::pow(10, (size - 1) as nat) * 10);
        if size == 1 {
            assert(vstd::arithmetic::power::pow(10, 1) == 10);
        }
        if k == 0 {
            assert(n as int / 1 == n);
        } else if k < text.len() {
            let unit = vstd::arithmetic::power::pow(10, (k - 1) as nat);
            vstd::arithmetic::power::lemma_pow_positive(10, (k - 1) as nat);
            vstd::arithmetic::power::lemma_pow_adds(10, 1, (k - 1) as nat);
            vstd::arithmetic::div_mod::lemma_div_denominator(n as int, 10, unit);
            assert(text[text.len() - 1 - k] == crate::text::decimal(less)[size - 1 - (k - 1)]);
        }
    }
}

/// A numeral is read by place: its first digit counts ten times for every
/// digit behind it, and what is behind it is a numeral again.
pub proof fn a_numeral_is_read_by_place(s: Seq<char>)
    requires
        forall|i: int| 0 <= i < s.len() ==> 48 <= #[trigger] s[i] as int <= 57,
    ensures
        s.len() == 0 ==> super::number::digits_value(s) == 0,
        s.len() > 0 ==> super::number::digits_value(s) == (s[0] as int - 48)
            * vstd::arithmetic::power::pow(10, (s.len() - 1) as nat) + super::number::digits_value(
            s.skip(1),
        ),
    decreases s.len(),
{
    vstd::arithmetic::power::lemma_pow0(10);
    if s.len() == 1 {
        assert(s.drop_last() =~= Seq::<char>::empty());
        assert(s.skip(1) =~= Seq::<char>::empty());
        assert((s[0] as int - 48) * 1 == s[0] as int - 48);
    } else if s.len() > 1 {
        let front = s.drop_last();
        a_numeral_is_read_by_place(front);
        let behind = s.skip(1);
        assert(behind.drop_last() =~= front.skip(1));
        assert(behind.last() == s.last());
        vstd::arithmetic::power::lemma_pow_adds(10, 1, (front.len() - 1) as nat);
        vstd::arithmetic::power::lemma_pow1(10);
        let d = s[0] as int - 48;
        let unit = vstd::arithmetic::power::pow(10, (front.len() - 1) as nat);
        assert(10 * (d * unit) == d * (10 * unit)) by (nonlinear_arith);
    }
}

/// Whether a text is one or more digits and nothing else.
pub open spec fn is_numeral(s: Seq<char>) -> bool {
    s.len() > 0 && forall|i: int| 0 <= i < s.len() ==> 48 <= #[trigger] s[i] as int <= 57
}

/// An integer's text is a numeral, alone or behind one plus or minus sign, and
/// a minus sign turns the number round. No other text is an integer's.
pub proof fn which_texts_are_integers(s: Seq<char>)
    ensures
        is_numeral(s) ==> super::number::integer_text(s) == Some(
            super::number::digits_value(s) as int,
        ),
        is_numeral(s) ==> super::number::integer_text(seq!['+'] + s) == Some(
            super::number::digits_value(s) as int,
        ),
        is_numeral(s) ==> super::number::integer_text(seq!['-'] + s) == Some(
            -(super::number::digits_value(s) as int),
        ),
        super::number::integer_text(s) is Some ==> is_numeral(s) || (s.len() > 1 && (s[0] == '+'
            || s[0] == '-') && is_numeral(s.skip(1))),
{
    if is_numeral(s) {
        assert(48 <= s[0] as int <= 57);
        assert((seq!['+'] + s).skip(1) =~= s);
        assert((seq!['-'] + s).skip(1) =~= s);
    }
}

/// Text converts to an integral member exactly where it is an integer's and
/// that integer is in range, which for the byte member is the range of 32 bits,
/// and then to that integer, which the byte member narrows.
pub proof fn which_texts_convert_to_integers(s: Seq<char>, i: int)
    requires
        super::number::integer_text(s) == Some(i),
    ensures
        super::number::parsed(ValueKind::Bool, s) == (if -2147483648 <= i <= 2147483647 {
            Some(i % 256)
        } else {
            None
        }),
        super::number::parsed(ValueKind::I16, s) == (if -32768 <= i <= 32767 {
            Some(i)
        } else {
            None
        }),
        super::number::parsed(ValueKind::I32, s) == (if -2147483648 <= i <= 2147483647 {
            Some(i)
        } else {
            None
        }),
        super::number::parsed(ValueKind::I64, s) == (if -9223372036854775808 <= i
            <= 9223372036854775807 {
            Some(i)
        } else {
            None
        }),
{
}

/// A text that is no integer's converts to no integral member.
pub proof fn other_texts_convert_to_no_integer(to: ValueKind, s: Seq<char>)
    requires
        super::number::integer_text(s) is None,
    ensures
        super::number::parsed(to, s) is None,
{
}

/// What a value is carried as: an integer of any width as that integer, a double
/// as its bits, a long double as its bytes, a text as its characters.
pub proof fn a_scalar_is_carried_as_it_is(
    a: u8,
    b: i16,
    c: i32,
    d: i64,
    x: Double,
    l: LongDouble,
    s: String,
)
    ensures
        a.carried() == Carried::Int(a as int),
        b.carried() == Carried::Int(b as int),
        c.carried() == Carried::Int(c as int),
        d.carried() == Carried::Int(d as int),
        x.carried() == Carried::Float(x.0),
        l.carried() == Carried::Long(l.0@),
        s.carried() == Carried::Str(s@),
        AnyValue::Int(d)@ == Carried::Int(d as int),
        AnyValue::Float(x)@ == Carried::Float(x.0),
        AnyValue::Long(l)@ == Carried::Long(l.0@),
        AnyValue::Str(s)@ == Carried::Str(s@),
{
}

/// What a vector is carried as: the same number of elements, each as it would
/// be carried alone.
pub proof fn a_vector_is_carried_element_by_element(
    a: Vec<u8>,
    b: Vec<i16>,
    c: Vec<i32>,
    d: Vec<i64>,
    x: Vec<Double>,
    l: Vec<LongDouble>,
    s: Vec<String>,
)
    ensures
        a.carried() matches Carried::IntVec(v) && v.len() == a@.len() && forall|i: int|
            0 <= i < v.len() ==> #[trigger] v[i] == a@[i],
        b.carried() matches Carried::IntVec(v) && v.len() == b@.len() && forall|i: int|
            0 <= i < v.len() ==> #[trigger] v[i] == b@[i],
        c.carried() matches Carried::IntVec(v) && v.len() == c@.len() && forall|i: int|
            0 <= i < v.len() ==> #[trigger] v[i] == c@[i],
        d.carried() matches Carried::IntVec(v) && v.len() == d@.len() && forall|i: int|
            0 <= i < v.len() ==> #[trigger] v[i] == d@[i],
        x.carried() matches Carried::FloatVec(v) && v.len() == x@.len() && forall|i: int|
            0 <= i < v.len() ==> #[trigger] v[i] == x@[i].0,
        l.carried() matches Carried::LongVec(v) && v.len() == l@.len() && forall|i: int|
            0 <= i < v.len() ==> #[trigger] v[i] == l@[i].0@,
        s.carried() matches Carried::StrVec(v) && v.len() == s@.len() && forall|i: int|
            0 <= i < v.len() ==> #[trigger] v[i] == s@[i]@,
        AnyValue::IntVec(d)@ == d.carried(),
        AnyValue::FloatVec(x)@ == x.carried(),
        AnyValue::LongVec(l)@ == l.carried(),
        AnyValue::StrVec(s)@ == s.carried(),
{
}

/// How an integer converts: to another integral member by narrowing, to a
/// double as the nearest one, to text as its numeral, and to nothing else.
pub proof fn how_an_integer_converts(from: ValueKind, i: int)
    requires
        from is Bool || from is I16 || from is I32 || from is I64,
    ensures
        forall|to: ValueKind|
            to is Bool || to is I16 || to is I32 || to is I64
                ==> #[trigger] super::convert::converted(from, to, Carried::Int(i)) == Some(
                Carried::Int(super::number::wrapped(to, i)),
            ),
        super::convert::converted(from, ValueKind::F64, Carried::Int(i)) == Some(
            Carried::Float(super::number::nearest(i) as u64),
        ),
        super::convert::converted(from, ValueKind::Str, Carried::Int(i)) == Some(
            Carried::Str(crate::text::signed_decimal(i)),
        ),
        super::convert::converted(from, ValueKind::LongDouble, Carried::Int(i)) is None,
        super::convert::converted(from, ValueKind::PyObject, Carried::Int(i)) is None,
{
}

/// How a double converts: to an integral member by dropping what is behind the
/// point, to a double as it is, and to a long double not at all.
pub proof fn how_a_double_converts(bits: u64)
    ensures
        forall|to: ValueKind|
            to is Bool || to is I16 || to is I32 || to is I64
                ==> #[trigger] super::convert::converted(ValueKind::F64, to, Carried::Float(bits))
                == Some(Carried::Int(super::number::saturated(to, bits))),
        super::convert::converted(ValueKind::F64, ValueKind::F64, Carried::Float(bits)) == Some(
            Carried::Float(bits),
        ),
        super::convert::converted(
            ValueKind::F64,
            ValueKind::LongDouble,
            Carried::Float(bits),
        ) is None,
{
}

/// How a text converts: to an integral member where it is the text of an
/// integer in range, to text as it is, and to a long double not at all.
pub proof fn how_a_text_converts(s: Seq<char>)
    ensures
        forall|to: ValueKind|
            to is Bool || to is I16 || to is I32 || to is I64
                ==> #[trigger] super::convert::converted(ValueKind::Str, to, Carried::Str(s)) == (
            match super::number::parsed(to, s) {
                Some(i) => Some(Carried::Int(i)),
                None => None,
            }),
        super::convert::converted(ValueKind::Str, ValueKind::Str, Carried::Str(s)) == Some(
            Carried::Str(s),
        ),
        super::convert::converted(ValueKind::Str, ValueKind::LongDouble, Carried::Str(s)) is None,
{
}

/// A long double and a vector of them convert to themselves, byte for byte, and
/// to and from nothing else.
pub proof fn how_a_long_double_converts(k: ValueKind, a: Carried, bytes: Seq<u8>, all: Seq<Seq<u8>>)
    ensures
        super::convert::converted(
            ValueKind::LongDouble,
            ValueKind::LongDouble,
            Carried::Long(bytes),
        ) == Some(Carried::Long(bytes)),
        super::convert::converted(
            ValueKind::VecLongDouble,
            ValueKind::VecLongDouble,
            Carried::LongVec(all),
        ) == Some(Carried::LongVec(all)),
        !(k is LongDouble) ==> super::convert::converted(ValueKind::LongDouble, k, a) is None
            && super::convert::converted(k, ValueKind::LongDouble, a) is None,
        !(k is VecLongDouble) ==> super::convert::converted(ValueKind::VecLongDouble, k, a) is None
            && super::convert::converted(k, ValueKind::VecLongDouble, a) is None,
{
}

/// How vectors convert, element by element: integers narrow, become the nearest
/// doubles or their numerals; doubles drop what is behind the point; texts
/// become integers where every one of them is an integer's in range, and one
/// that is not fails the whole.
pub proof fn how_vectors_convert(ints: Seq<int>, bits: Seq<u64>, texts: Seq<Seq<char>>)
    ensures
        forall|from: ValueKind, to: ValueKind|
            (from is VecBool || from is VecI16 || from is VecI32 || from is VecI64) && (to is VecBool
                || to is VecI16 || to is VecI32 || to is VecI64) ==> (
            #[trigger] super::convert::converted(from, to, Carried::IntVec(ints)) matches Some(
                Carried::IntVec(r),
            ) && r.len() == ints.len() && forall|i: int|
                0 <= i < r.len() ==> #[trigger] r[i] == super::number::wrapped(
                    item_of(to),
                    ints[i],
                )),
        forall|from: ValueKind|
            from is VecBool || from is VecI16 || from is VecI32 || from is VecI64 ==> (
            #[trigger] super::convert::converted(
                from,
                ValueKind::VecF64,
                Carried::IntVec(ints),
            ) matches Some(Carried::FloatVec(r)) && r.len() == ints.len() && forall|i: int|
                0 <= i < r.len() ==> #[trigger] r[i] == super::number::nearest(ints[i]) as u64),
        forall|from: ValueKind|
            from is VecBool || from is VecI16 || from is VecI32 || from is VecI64 ==> (
            #[trigger] super::convert::converted(
                from,
                ValueKind::VecStr,
                Carried::IntVec(ints),
            ) matches Some(Carried::StrVec(r)) && r.len() == ints.len() && forall|i: int|
                0 <= i < r.len() ==> #[trigger] r[i] == crate::text::signed_decimal(ints[i])),
        forall|to: ValueKind|
            to is VecBool || to is VecI16 || to is VecI32 || to is VecI64 ==> (
            #[trigger] super::convert::converted(
                ValueKind::VecF64,
                to,
                Carried::FloatVec(bits),
            ) matches Some(Carried::IntVec(r)) && r.len() == bits.len() && forall|i: int|
                0 <= i < r.len() ==> #[trigger] r[i] == super::number::saturated(
                    item_of(to),
                    bits[i],
                )),
        forall|to: ValueKind|
            to is VecBool || to is VecI16 || to is VecI32 || to is VecI64 ==> (
            #[trigger] super::convert::converted(
                ValueKind::VecStr,
                to,
                Carried::StrVec(texts),
            ) is Some <==> forall|i: int|
                0 <= i < texts.len() ==> super::number::parsed(
                    item_of(to),
                    #[trigger] texts[i],
                ) is Some),
        forall|to: ValueKind|
            (to is VecBool || to is VecI16 || to is VecI32 || to is VecI64) && (
            #[trigger] super::convert::converted(
                ValueKind::VecStr,
                to,
                Carried::StrVec(texts),
            )) is Some ==> (super::convert::converted(
                ValueKind::VecStr,
                to,
                Carried::StrVec(texts),
            ) matches Some(Carried::IntVec(r)) && r.len() == texts.len() && forall|i: int|
                0 <= i < r.len() ==> super::number::parsed(item_of(to), texts[i]) == Some(
                    #[trigger] r[i],
                )),
        super::convert::converted(ValueKind::VecF64, ValueKind::VecF64, Carried::FloatVec(bits))
            == Some(Carried::FloatVec(bits)),
        super::convert::converted(ValueKind::VecStr, ValueKind::VecStr, Carried::StrVec(texts))
            == Some(Carried::StrVec(texts)),
{
    assert forall|to: ValueKind|
        (to is VecBool || to is VecI16 || to is VecI32 || to is VecI64) && (
        #[trigger] super::convert::converted(
            ValueKind::VecStr,
            to,
            Carried::StrVec(texts),
        )) is Some implies (super::convert::converted(
        ValueKind::VecStr,
        to,
        Carried::StrVec(texts),
    ) matches Some(Carried::IntVec(r)) && r.len() == texts.len() && forall|i: int|
        0 <= i < r.len() ==> super::number::parsed(item_of(to), texts[i]) == Some(
            #[trigger] r[i],
        )) by {
        let r = super::convert::converted(
            ValueKind::VecStr,
            to,
            Carried::StrVec(texts),
        )->Some_0->IntVec_0;
        assert forall|i: int| 0 <= i < r.len() implies super::number::parsed(
            item_of(to),
            texts[i],
        ) == Some(#[trigger] r[i]) by {
            assert(super::number::parsed(item_of(to), texts[i]) is Some);
        }
    }
}

/// The member of the items of an integral vector.
pub open spec fn item_of(k: ValueKind) -> ValueKind {
    if k is VecBool {
        ValueKind::Bool
    } else if k is VecI16 {
        ValueKind::I16
    } else if k is VecI32 {
        ValueKind::I32
    } else {
        ValueKind::I64
    }
}

/// Which members convert: every scalar and text to every other, every vector to
/// every other, and the interpreter's member both ways with each of those. The
/// long doubles and their vectors convert to themselves alone, and a vector
/// never to a scalar.
pub proof fn which_members_convert(a: ValueKind, b: ValueKind)
    ensures
        ({
            let one = |k: ValueKind|
                k is Bool || k is I16 || k is I32 || k is I64 || k is F64 || k is Str;
            let many = |k: ValueKind|
                k is VecBool || k is VecI16 || k is VecI32 || k is VecI64 || k is VecF64
                    || k is VecStr;
            super::convert::converts(a, b) <==> (a == b || (one(a) && one(b)) || (many(a) && many(b))
                || (a is PyObject && (one(b) || many(b))) || (b is PyObject && (one(a) || many(a))))
        }),
{
}

/// Doubles compare as the numbers they are: one that is not a number is not
/// ranked, the two zeros have one rank, a number and its opposite have opposite
/// ranks, and of two that are not negative the one of greater value ranks
/// higher.
///
/// The value of a finite one is its significand times two to the power of its
/// exponent less 1075; here both are scaled by two to the power of 1074.
pub proof fn doubles_rank_by_value(a: Double, b: Double)
    ensures
        a.rank() is None <==> a.0 / 0x10_0000_0000_0000 % 0x800 == 2047 && a.0
            % 0x10_0000_0000_0000 != 0,
        a.0 == 0 || a.0 == 0x8000_0000_0000_0000 ==> a.rank() == Some(0int),
        a.0 < 0x8000_0000_0000_0000 && b.0 == a.0 + 0x8000_0000_0000_0000 && a.rank() is Some
            ==> b.rank() == Some(-(a.rank()->0)),
        a.rank() matches Some(r) ==> (a.0 < 0x8000_0000_0000_0000 ==> r >= 0) && (a.0
            >= 0x8000_0000_0000_0000 ==> r <= 0),
        a.0 < 0x7ff0_0000_0000_0000 && b.0 < 0x7ff0_0000_0000_0000 ==> (a.rank()->0 < b.rank()->0
            <==> magnitude(a.0) < magnitude(b.0)),
        a.0 < 0x7ff0_0000_0000_0000 && b.0 == 0x7ff0_0000_0000_0000 ==> a.rank()->0 < b.rank()->0,
{
    if a.0 < 0x7ff0_0000_0000_0000 && b.0 < 0x7ff0_0000_0000_0000 {
        if a.0 < b.0 {
            lemma_greater_bits_greater_value(a.0, b.0);
        } else if b.0 < a.0 {
            lemma_greater_bits_greater_value(b.0, a.0);
        }
    }
}

/// The magnitude of the finite double with these bits, scaled to an integer.
pub open spec fn magnitude(bits: u64) -> int {
    let e = (bits / 0x10_0000_0000_0000 % 0x800) as int;
    let f = (bits % 0x10_0000_0000_0000) as int;
    if e == 0 {
        f
    } else {
        (0x10_0000_0000_0000 + f) * vstd::arithmetic::power2::pow2((e - 1) as nat)
    }
}

proof fn lemma_greater_bits_greater_value(a: u64, b: u64)
    requires
        a < b < 0x7ff0_0000_0000_0000,
    ensures
        magnitude(a) < magnitude(b),
{
    let (d, e) = (
        (a / 0x10_0000_0000_0000 % 0x800) as int,
        (b / 0x10_0000_0000_0000 % 0x800) as int,
    );
    let (f, g) = ((a % 0x10_0000_0000_0000) as int, (b % 0x10_0000_0000_0000) as int);
    assert(a == d * 0x10_0000_0000_0000 + f);
    assert(b == e * 0x10_0000_0000_0000 + g);
    assert(d <= e);
    vstd::arithmetic::power2::lemma2_to64();
    if e > 0 {
        let unit = vstd::arithmetic::power2::pow2((e - 1) as nat) as int;
        vstd::arithmetic::power2::lemma_pow2_pos((e - 1) as nat);
        if d == e {
            assert((0x10_0000_0000_0000 + f) * unit < (0x10_0000_0000_0000 + g) * unit)
                by (nonlinear_arith)
                requires
                    f < g,
                    unit > 0,
            ;
        } else if d == 0 {
            assert((0x10_0000_0000_0000 + g) * unit >= 0x10_0000_0000_0000) by (nonlinear_arith)
                requires
                    g >= 0,
                    unit >= 1,
            ;
        } else {
            let less = vstd::arithmetic::power2::pow2((d - 1) as nat) as int;
            vstd::arithmetic::power2::lemma_pow2_pos((d - 1) as nat);
            vstd::arithmetic::power2::lemma_pow2_unfold(d as nat);
            if d < e - 1 {
                vstd::arithmetic::power2::lemma_pow2_strictly_increases(d as nat, (e - 1) as nat);
            }
            assert(2 * less <= unit);
            assert((0x10_0000_0000_0000 + f) * less < (0x10_0000_0000_0000 + g) * unit)
                by (nonlinear_arith)
                requires
                    2 * less <= unit,
                    less > 0,
                    0 <= f < 0x10_0000_0000_0000,
                    g >= 0,
            ;
        }
    }
}

/// Where a text of a double would be made or read: from a double to text or
/// back, and the same for vectors, and nowhere else.
pub proof fn which_conversions_need_the_text_of_a_double(a: ValueKind, b: ValueKind)
    ensures
        super::convert::double_text(a, b) <==> (a is F64 && b is Str) || (a is Str && b is F64) || (
        a is VecF64 && b is VecStr) || (a is VecStr && b is VecF64),
        super::convert::refusal(a, b) == (crate::error::PropError::NoConversion { from: a, to: b }),
{
}

/// The member a carrier presents itself as: the widest of its sort.
pub proof fn which_member_a_carrier_is_of(c: Carried)
    ensures
        c is Int ==> c.kind() is I64,
        c is Float ==> c.kind() is F64,
        c is Long ==> c.kind() is LongDouble,
        c is Str ==> c.kind() is Str,
        c is IntVec ==> c.kind() is VecI64,
        c is FloatVec ==> c.kind() is VecF64,
        c is LongVec ==> c.kind() is VecLongDouble,
        c is StrVec ==> c.kind() is VecStr,
        c is Py ==> c.kind() is PyObject,
{
}

/// Recovering a carrier is converting from the member it presents itself as.
pub proof fn recovering_is_converting(to: ValueKind, c: Carried)
    ensures
        super::convert::recovered(to, c) == super::convert::converted(c.kind(), to, c),
{
    super::convert::recovering_stays_within_the_lattice(to, c);
}

} // verus!
