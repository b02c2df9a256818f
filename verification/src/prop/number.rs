//! Numbers across members: wrapping, decimal text, and the bits of a double.

use vstd::prelude::*;

use super::value::{Double, ValueKind};
use crate::text::chars_of;

verus! {

/// The smallest integer of an integral member.
pub open spec fn lowest(to: ValueKind) -> int {
    match to {
        ValueKind::Bool => 0,
        ValueKind::I16 => i16::MIN as int,
        ValueKind::I32 => i32::MIN as int,
        _ => i64::MIN as int,
    }
}

/// The largest integer of an integral member.
pub open spec fn highest(to: ValueKind) -> int {
    match to {
        ValueKind::Bool => u8::MAX as int,
        ValueKind::I16 => i16::MAX as int,
        ValueKind::I32 => i32::MAX as int,
        _ => i64::MAX as int,
    }
}

/// Whether an integer is one of an integral member.
pub open spec fn in_range(to: ValueKind, i: int) -> bool {
    lowest(to) <= i <= highest(to)
}

/// The integer of the member's range that differs from `i` by a multiple of
/// the range's size.
pub open spec fn wrapped(to: ValueKind, i: int) -> int {
    match to {
        ValueKind::Bool => i % 0x100,
        ValueKind::I16 => (i + 0x8000) % 0x1_0000 - 0x8000,
        ValueKind::I32 => (i + 0x8000_0000) % 0x1_0000_0000 - 0x8000_0000,
        _ => (i + 0x8000_0000_0000_0000) % 0x1_0000_0000_0000_0000 - 0x8000_0000_0000_0000,
    }
}

/// Wrapping is the identity on the member's own range, and always lands in it.
pub proof fn wrapping_keeps_the_range(to: ValueKind, i: int)
    ensures
        in_range(to, wrapped(to, i)),
        in_range(to, i) ==> wrapped(to, i) == i,
{
}

/// Whether a text is one or more decimal digits.
pub open spec fn all_digits(s: Seq<char>) -> bool {
    s.len() > 0 && forall|i: int| 0 <= i < s.len() ==> '0' <= #[trigger] s[i] <= '9'
}

/// The number that digits write, most significant first.
pub open spec fn digits_value(s: Seq<char>) -> nat
    decreases s.len(),
{
    if s.len() == 0 {
        0
    } else {
        10 * digits_value(s.drop_last()) + (s.last() as nat - '0' as nat) as nat
    }
}

/// The text behind an optional sign.
pub open spec fn unsigned_part(s: Seq<char>) -> Seq<char> {
    if s.len() > 0 && (s[0] == '-' || s[0] == '+') {
        s.skip(1)
    } else {
        s
    }
}

/// The integer that a text writes: an optional sign and decimal digits, and
/// nothing around them.
pub open spec fn integer_text(s: Seq<char>) -> Option<int> {
    let body = unsigned_part(s);
    if !all_digits(body) {
        None
    } else if s[0] == '-' {
        Some(-(digits_value(body) as int))
    } else {
        Some(digits_value(body) as int)
    }
}

/// The range a text is read in for an integral member. Text for the byte
/// member is read as a 32-bit integer and wrapped afterwards.
pub open spec fn text_range(to: ValueKind) -> ValueKind {
    if to is Bool {
        ValueKind::I32
    } else {
        to
    }
}

/// The integer of a member that a text writes, if it writes one in range.
pub open spec fn parsed(to: ValueKind, s: Seq<char>) -> Option<int> {
    match integer_text(s) {
        Some(i) => if in_range(text_range(to), i) {
            Some(wrapped(to, i))
        } else {
            None
        },
        None => None,
    }
}

proof fn lemma_digits_grow(s: Seq<char>, n: int)
    requires
        0 <= n <= s.len(),
    ensures
        digits_value(s.take(n)) <= digits_value(s),
    decreases s.len(),
{
    if n == s.len() {
        assert(s.take(n) =~= s);
    } else {
        lemma_digits_grow(s.drop_last(), n);
        assert(s.drop_last().take(n) =~= s.take(n));
    }
}

/// Read a text as an integer of `low..=high`.
pub(crate) fn parse_int(s: &str, low: i64, high: i64) -> (r: Option<i64>)
    requires
        low < 0 < high,
    ensures
        match integer_text(s@) {
            Some(i) if low <= i <= high => r == Some(i as i64),
            _ => r is None,
        },
{
    let text = chars_of(s);
    if text.len() == 0 {
        return None;
    }
    let negative: bool = text[0] == '-';
    let start: usize = if negative || text[0] == '+' {
        1
    } else {
        0
    };
    let ghost body = unsigned_part(s@);
    assert(body =~= text@.skip(start as int));
    if start == text.len() {
        return None;
    }
    let limit: u64 = if negative {
        (-(low + 1)) as u64 + 1
    } else {
        high as u64
    };
    let mut value: u64 = 0;
    let mut i: usize = start;
    while i < text.len()
        invariant
            text@ == s@,
            start <= i <= text@.len(),
            start < text@.len(),
            body == text@.skip(start as int),
            body == unsigned_part(s@),
            low < 0 < high,
            limit <= 0x8000_0000_0000_0000,
            limit == if s@[0] == '-' {
                -low
            } else {
                high as int
            },
            negative == (s@[0] == '-'),
            value <= limit,
            value == digits_value(body.take(i - start)),
            forall|j: int| 0 <= j < i - start ==> '0' <= #[trigger] body[j] <= '9',
        decreases text@.len() - i,
    {
        let c: char = text[i];
        let ghost at = i - start;
        assert(c == body[at]);
        if c < '0' || c > '9' {
            assert(!all_digits(body));
            return None;
        }
        let digit: u64 = (c as u32 - '0' as u32) as u64;
        let next: u128 = value as u128 * 10 + digit as u128;
        proof {
            assert(body.take(at + 1).drop_last() =~= body.take(at));
            assert(body.take(at + 1).last() == c);
            assert(digits_value(body.take(at + 1)) == next);
        }
        if next > limit as u128 {
            proof {
                lemma_digits_grow(body, at + 1);
            }
            return None;
        }
        value = next as u64;
        i += 1;
    }
    assert(body.take(i - start) =~= body);
    assert(all_digits(body));
    if negative {
        if value == 0x8000_0000_0000_0000 {
            Some(i64::MIN)
        } else {
            Some(-(value as i64))
        }
    } else {
        Some(value as i64)
    }
}

proof fn lemma_decimal_reads_back(n: nat)
    ensures
        all_digits(crate::text::decimal(n)),
        digits_value(crate::text::decimal(n)) == n,
    decreases n,
{
    let text = crate::text::decimal(n);
    if n < 10 {
        assert(text.drop_last() =~= Seq::<char>::empty());
        assert(digits_value(text.drop_last()) == 0);
    } else {
        lemma_decimal_reads_back(n / 10);
        assert(text.drop_last() =~= crate::text::decimal(n / 10));
        assert forall|i: int| 0 <= i < text.len() implies '0' <= #[trigger] text[i] <= '9' by {
            if i < text.len() - 1 {
                assert(text[i] == crate::text::decimal(n / 10)[i]);
            }
        }
    }
}

/// Reading back the decimal text of an integer gives that integer, for every
/// integral member that holds it.
pub proof fn an_integer_survives_its_text(to: ValueKind, i: int)
    requires
        in_range(to, i),
    ensures
        integer_text(crate::text::signed_decimal(i)) == Some(i),
        parsed(to, crate::text::signed_decimal(i)) == Some(i),
{
    let text = crate::text::signed_decimal(i);
    let n: nat = if i < 0 {
        (-i) as nat
    } else {
        i as nat
    };
    lemma_decimal_reads_back(n);
    let digits = crate::text::decimal(n);
    assert('0' <= digits[0] <= '9');
    if i < 0 {
        assert(text.skip(1) =~= digits);
    }
    wrapping_keeps_the_range(to, i);
}

/// Whether the number is negative.
pub open spec fn sign_bit(bits: u64) -> bool {
    bits >= 0x8000_0000_0000_0000
}

/// The biased exponent.
pub open spec fn exponent(bits: u64) -> nat {
    (bits / 0x10_0000_0000_0000 % 0x800) as nat
}

/// The fraction behind the leading bit of the significand.
pub open spec fn fraction(bits: u64) -> nat {
    (bits % 0x10_0000_0000_0000) as nat
}

/// The integer part of a finite number's magnitude.
pub open spec fn whole(bits: u64) -> nat {
    let e = exponent(bits);
    let significand = 0x10_0000_0000_0000 + fraction(bits);
    if e == 0 {
        0
    } else if e >= 1075 {
        significand * vstd::arithmetic::power2::pow2((e - 1075) as nat)
    } else {
        significand / vstd::arithmetic::power2::pow2((1075 - e) as nat)
    }
}

/// The integer of a member that a double becomes: rounded towards zero, held
/// to the member's range, and zero for a number that is not one.
pub open spec fn saturated(to: ValueKind, bits: u64) -> int {
    let signed = if sign_bit(bits) {
        -(whole(bits) as int)
    } else {
        whole(bits) as int
    };
    if exponent(bits) == 2047 {
        if fraction(bits) != 0 {
            0
        } else if sign_bit(bits) {
            lowest(to)
        } else {
            highest(to)
        }
    } else if signed < lowest(to) {
        lowest(to)
    } else if signed > highest(to) {
        highest(to)
    } else {
        signed
    }
}

/// Two to the power of `k`.
fn power_of_two(k: u64) -> (r: u64)
    requires
        k < 64,
    ensures
        r == vstd::arithmetic::power2::pow2(k as nat),
        r > 0,
{
    proof {
        vstd::bits::lemma_u64_pow2_no_overflow(k as nat);
        vstd::bits::lemma_u64_shl_is_mul(1, k);
    }
    1u64 << k
}

/// The double with these bits, as an integer of `low..=high`.
pub(crate) fn double_to_int(bits: u64, to: ValueKind, low: i64, high: i64) -> (r: i64)
    requires
        low == lowest(to),
        high == highest(to),
    ensures
        r == saturated(to, bits),
{
    let negative: bool = bits >= 0x8000_0000_0000_0000;
    let e: u64 = bits / 0x10_0000_0000_0000 % 0x800;
    let f: u64 = bits % 0x10_0000_0000_0000;
    if e == 2047 && f != 0 {
        return 0;
    }
    let significand: u64 = 0x10_0000_0000_0000 + f;
    let magnitude: u64 = if e < 1023 {
        proof {
            if e > 0 {
                vstd::arithmetic::power2::lemma2_to64();
                let shift = (1075 - e) as nat;
                if shift > 53 {
                    vstd::arithmetic::power2::lemma_pow2_strictly_increases(53, shift);
                }
                vstd::arithmetic::power2::lemma2_to64_rest();
                vstd::arithmetic::div_mod::lemma_basic_div(
                    significand as int,
                    vstd::arithmetic::power2::pow2(shift) as int,
                );
            }
        }
        0
    } else if e < 1075 {
        significand / power_of_two(1075 - e)
    } else if e < 1086 {
        let scale: u64 = power_of_two(e - 1075);
        proof {
            vstd::arithmetic::power2::lemma2_to64();
            if e < 1085 {
                vstd::arithmetic::power2::lemma_pow2_strictly_increases((e - 1075) as nat, 10);
            }
            assert(significand * scale <= 0x20_0000_0000_0000 * 1024) by (nonlinear_arith)
                requires
                    significand < 0x20_0000_0000_0000,
                    scale <= 1024,
            ;
        }
        significand * scale
    } else {
        proof {
            let scale = vstd::arithmetic::power2::pow2((e - 1075) as nat);
            vstd::arithmetic::power2::lemma2_to64();
            if e > 1086 {
                vstd::arithmetic::power2::lemma_pow2_strictly_increases(11, (e - 1075) as nat);
            }
            assert(significand * scale >= 0x10_0000_0000_0000 * 2048) by (nonlinear_arith)
                requires
                    significand >= 0x10_0000_0000_0000,
                    scale >= 2048,
            ;
        }
        return if negative {
            low
        } else {
            high
        };
    };
    assert(magnitude == whole(bits));
    if negative {
        let limit: u64 = if low == 0 {
            0
        } else {
            (-(low + 1)) as u64 + 1
        };
        if magnitude >= limit {
            low
        } else {
            -(magnitude as i64)
        }
    } else if magnitude >= high as u64 {
        high
    } else {
        magnitude as i64
    }
}

/// How many binary digits a number has.
pub open spec fn bit_length(n: nat) -> nat
    decreases n,
{
    if n == 0 {
        0
    } else {
        1 + bit_length(n / 2)
    }
}

/// `n` divided by two to the power of `drop`, rounded to the nearest integer,
/// and to the even one of two that are equally near.
pub open spec fn rounded(n: nat, drop: nat) -> nat {
    let unit = vstd::arithmetic::power2::pow2(drop);
    let q = n / unit;
    let rest = n % unit;
    if 2 * rest > unit || (2 * rest == unit && q % 2 == 1) {
        q + 1
    } else {
        q
    }
}

/// The 53-bit significand of the double nearest to a positive integer, or two
/// to the power of 53 where rounding carries.
pub open spec fn significand(n: nat) -> nat {
    let length = bit_length(n);
    if length <= 53 {
        n * vstd::arithmetic::power2::pow2((53 - length) as nat)
    } else {
        rounded(n, (length - 53) as nat)
    }
}

/// The bits of the double nearest to an integer, ties going to the even
/// significand.
pub open spec fn nearest(i: int) -> int {
    let n: nat = if i < 0 {
        (-i) as nat
    } else {
        i as nat
    };
    if n == 0 {
        0
    } else {
        (if i < 0 {
            0x8000_0000_0000_0000int
        } else {
            0
        }) + (1022 + bit_length(n)) * 0x10_0000_0000_0000 + (significand(n)
            - 0x10_0000_0000_0000)
    }
}

pub(crate) proof fn lemma_bit_length(n: nat)
    requires
        n > 0,
    ensures
        bit_length(n) >= 1,
        vstd::arithmetic::power2::pow2((bit_length(n) - 1) as nat) <= n
            < vstd::arithmetic::power2::pow2(bit_length(n)),
    decreases n,
{
    vstd::arithmetic::power2::lemma2_to64();
    if n == 1 {
        assert(bit_length(0) == 0);
        assert(bit_length(1) == 1);
    } else {
        lemma_bit_length(n / 2);
        let l = bit_length(n / 2);
        vstd::arithmetic::power2::lemma_pow2_unfold(l);
        vstd::arithmetic::power2::lemma_pow2_unfold(l + 1);
    }
}

/// A significand has its leading bit, and at most one carry.
pub(crate) proof fn lemma_significand(n: nat)
    requires
        0 < n <= 0x8000_0000_0000_0000,
    ensures
        1 <= bit_length(n) <= 64,
        0x10_0000_0000_0000 <= significand(n) <= 0x20_0000_0000_0000,
{
    let l = bit_length(n);
    lemma_bit_length(n);
    vstd::arithmetic::power2::lemma2_to64();
    vstd::arithmetic::power2::lemma2_to64_rest();
    if l > 64 {
        if l > 65 {
            vstd::arithmetic::power2::lemma_pow2_strictly_increases(64, (l - 1) as nat);
        }
    }
    if l <= 53 {
        let scale = vstd::arithmetic::power2::pow2((53 - l) as nat);
        vstd::arithmetic::power2::lemma_pow2_adds((l - 1) as nat, (53 - l) as nat);
        vstd::arithmetic::power2::lemma_pow2_adds(l, (53 - l) as nat);
        vstd::arithmetic::mul::lemma_mul_inequality(
            vstd::arithmetic::power2::pow2((l - 1) as nat) as int,
            n as int,
            scale as int,
        );
        vstd::arithmetic::mul::lemma_mul_inequality(
            n as int,
            vstd::arithmetic::power2::pow2(l) as int,
            scale as int,
        );
    } else {
        let drop = (l - 53) as nat;
        let unit = vstd::arithmetic::power2::pow2(drop);
        vstd::arithmetic::power2::lemma_pow2_pos(drop);
        vstd::arithmetic::power2::lemma_pow2_adds(52, drop);
        vstd::arithmetic::power2::lemma_pow2_adds(53, drop);
        assert(0x10_0000_0000_0000 <= n / unit < 0x20_0000_0000_0000) by (nonlinear_arith)
            requires
                0x10_0000_0000_0000 * unit <= n < 0x20_0000_0000_0000 * unit,
                unit > 0,
        ;
    }
}

/// The bits of the double nearest to `i`.
pub(crate) fn int_to_double(i: i64) -> (r: u64)
    ensures
        r == nearest(i as int),
{
    if i == 0 {
        return 0;
    }
    let n: u64 = if i < 0 {
        (-(i + 1)) as u64 + 1
    } else {
        i as u64
    };
    proof {
        lemma_significand(n as nat);
        lemma_bit_length(n as nat);
    }
    let mut length: u64 = 0;
    let mut left: u64 = n;
    while left > 0
        invariant
            length + bit_length(left as nat) == bit_length(n as nat),
            bit_length(n as nat) <= 64,
        decreases left,
    {
        left = left / 2;
        length += 1;
    }
    let bits: u64 = if length <= 53 {
        let scale: u64 = power_of_two(53 - length);
        n * scale
    } else {
        let unit: u64 = power_of_two(length - 53);
        let q: u64 = n / unit;
        let rest: u64 = n % unit;
        proof {
            vstd::arithmetic::power2::lemma2_to64();
            if length < 64 {
                vstd::arithmetic::power2::lemma_pow2_strictly_increases((length - 53) as nat, 11);
            }
        }
        if 2 * rest > unit || (2 * rest == unit && q % 2 == 1) {
            q + 1
        } else {
            q
        }
    };
    assert(bits == significand(n as nat));
    let magnitude: u64 = (1022 + length) * 0x10_0000_0000_0000 + (bits - 0x10_0000_0000_0000);
    if i < 0 {
        magnitude + 0x8000_0000_0000_0000
    } else {
        magnitude
    }
}

/// An integer of at most 53 binary digits is exactly a double: converting it
/// and back gives it again.
pub proof fn a_small_integer_survives_as_a_double(to: ValueKind, i: int)
    requires
        in_range(to, i),
        -0x20_0000_0000_0000 <= i <= 0x20_0000_0000_0000,
    ensures
        0 <= nearest(i) <= u64::MAX,
        saturated(to, nearest(i) as u64) == i,
{
    let n: nat = if i < 0 {
        (-i) as nat
    } else {
        i as nat
    };
    if n > 0 {
        lemma_significand(n);
        lemma_bit_length(n);
        let l = bit_length(n);
        let bits = nearest(i) as u64;
        vstd::arithmetic::power2::lemma2_to64();
        vstd::arithmetic::power2::lemma2_to64_rest();
        if l > 54 {
            vstd::arithmetic::power2::lemma_pow2_strictly_increases(53, (l - 1) as nat);
        }
        let scale = vstd::arithmetic::power2::pow2((53 - l) as nat);
        if l <= 53 {
            vstd::arithmetic::power2::lemma_pow2_pos((53 - l) as nat);
            vstd::arithmetic::power2::lemma_pow2_adds(l, (53 - l) as nat);
            assert(n * scale < 0x20_0000_0000_0000) by (nonlinear_arith)
                requires
                    n < vstd::arithmetic::power2::pow2(l),
                    vstd::arithmetic::power2::pow2(l) * scale == 0x20_0000_0000_0000,
                    scale > 0,
            ;
            assert(exponent(bits) == 1022 + l);
            assert(fraction(bits) + 0x10_0000_0000_0000 == n * scale);
            if l == 53 {
                assert(scale == 1);
                vstd::arithmetic::mul::lemma_mul_basics(n as int);
                vstd::arithmetic::mul::lemma_mul_basics(0x10_0000_0000_0000 + fraction(bits) as int);
                assert(whole(bits) == n);
            } else {
                vstd::arithmetic::div_mod::lemma_div_by_multiple(n as int, scale as int);
                assert((1075 - exponent(bits)) as nat == (53 - l) as nat);
                assert(whole(bits) == (n * scale) / scale);
                assert(whole(bits) == n);
            }
        } else {
            assert(l == 54 && n == 0x20_0000_0000_0000);
            assert(rounded(n, 1) == 0x10_0000_0000_0000);
            assert(exponent(bits) == 1076);
            assert(fraction(bits) == 0);
            assert((exponent(bits) - 1075) as nat == 1);
            assert(whole(bits) == 0x10_0000_0000_0000 * vstd::arithmetic::power2::pow2(1));
        }
    } else {
        assert(nearest(i) == 0);
    }
}

/// The integral members, as the conversions see them.
pub(crate) trait Integer: Copy {
    /// The member.
    spec fn kind() -> ValueKind;

    /// The integer a value is.
    spec fn number(self) -> int;

    /// The same integer, widened.
    fn widen(self) -> (r: i64)
        ensures
            r == self.number(),
    ;

    /// The integer, wrapped into the member's range.
    fn wrap(i: i64) -> (r: Self)
        ensures
            r.number() == wrapped(Self::kind(), i as int),
    ;

    /// The double with these bits, held to the member's range.
    fn saturate(bits: u64) -> (r: Self)
        ensures
            r.number() == saturated(Self::kind(), bits),
    ;

    /// The integer a text writes.
    fn parse(s: &str) -> (r: Option<Self>)
        ensures
            match parsed(Self::kind(), s@) {
                Some(i) => r matches Some(x) && x.number() == i,
                None => r is None,
            },
    ;
}

impl Integer for u8 {
    open spec fn kind() -> ValueKind {
        ValueKind::Bool
    }

    open spec fn number(self) -> int {
        self as int
    }

    fn widen(self) -> (r: i64) {
        self as i64
    }

    fn wrap(i: i64) -> (r: Self) {
        assert((i as u8) as int == i % 0x100) by (bit_vector);
        i as u8
    }

    fn saturate(bits: u64) -> (r: Self) {
        double_to_int(bits, ValueKind::Bool, 0, 255) as u8
    }

    fn parse(s: &str) -> (r: Option<Self>) {
        match parse_int(s, i32::MIN as i64, i32::MAX as i64) {
            Some(i) => Some(Self::wrap(i)),
            None => None,
        }
    }
}

impl Integer for i16 {
    open spec fn kind() -> ValueKind {
        ValueKind::I16
    }

    open spec fn number(self) -> int {
        self as int
    }

    fn widen(self) -> (r: i64) {
        self as i64
    }

    fn wrap(i: i64) -> (r: Self) {
        assert((i as i16) as int == (i + 0x8000) % 0x1_0000 - 0x8000) by (bit_vector);
        i as i16
    }

    fn saturate(bits: u64) -> (r: Self) {
        double_to_int(bits, ValueKind::I16, i16::MIN as i64, i16::MAX as i64) as i16
    }

    fn parse(s: &str) -> (r: Option<Self>) {
        match parse_int(s, i16::MIN as i64, i16::MAX as i64) {
            Some(i) => Some(Self::wrap(i)),
            None => None,
        }
    }
}

impl Integer for i32 {
    open spec fn kind() -> ValueKind {
        ValueKind::I32
    }

    open spec fn number(self) -> int {
        self as int
    }

    fn widen(self) -> (r: i64) {
        self as i64
    }

    fn wrap(i: i64) -> (r: Self) {
        assert((i as i32) as int == (i + 0x8000_0000) % 0x1_0000_0000 - 0x8000_0000)
            by (bit_vector);
        i as i32
    }

    fn saturate(bits: u64) -> (r: Self) {
        double_to_int(bits, ValueKind::I32, i32::MIN as i64, i32::MAX as i64) as i32
    }

    fn parse(s: &str) -> (r: Option<Self>) {
        match parse_int(s, i32::MIN as i64, i32::MAX as i64) {
            Some(i) => Some(Self::wrap(i)),
            None => None,
        }
    }
}

impl Integer for i64 {
    open spec fn kind() -> ValueKind {
        ValueKind::I64
    }

    open spec fn number(self) -> int {
        self as int
    }

    fn widen(self) -> (r: i64) {
        self
    }

    fn wrap(i: i64) -> (r: Self) {
        proof {
            wrapping_keeps_the_range(ValueKind::I64, i as int);
        }
        i
    }

    fn saturate(bits: u64) -> (r: Self) {
        double_to_int(bits, ValueKind::I64, i64::MIN, i64::MAX)
    }

    fn parse(s: &str) -> (r: Option<Self>) {
        match parse_int(s, i64::MIN, i64::MAX) {
            Some(i) => Some(Self::wrap(i)),
            None => None,
        }
    }
}

/// Every value, widened.
pub(crate) fn widen_all<T: Integer>(v: &Vec<T>) -> (r: Vec<i64>)
    ensures
        r@.len() == v@.len(),
        forall|i: int| 0 <= i < v@.len() ==> #[trigger] r@[i] == v@[i].number(),
{
    let mut out: Vec<i64> = Vec::new();
    for i in 0..v.len()
        invariant
            out@.len() == i,
            forall|j: int| 0 <= j < i ==> #[trigger] out@[j] == v@[j].number(),
    {
        out.push(v[i].widen());
    }
    out
}

/// Every integer, wrapped.
pub(crate) fn wrap_all<T: Integer>(v: &Vec<i64>) -> (r: Vec<T>)
    ensures
        r@.len() == v@.len(),
        forall|i: int|
            0 <= i < v@.len() ==> (#[trigger] r@[i]).number() == wrapped(T::kind(), v@[i] as int),
{
    let mut out: Vec<T> = Vec::new();
    for i in 0..v.len()
        invariant
            out@.len() == i,
            forall|j: int|
                0 <= j < i ==> (#[trigger] out@[j]).number() == wrapped(T::kind(), v@[j] as int),
    {
        out.push(T::wrap(v[i]));
    }
    out
}

/// Every double, held to the member's range.
pub(crate) fn saturate_all<T: Integer>(v: &Vec<Double>) -> (r: Vec<T>)
    ensures
        r@.len() == v@.len(),
        forall|i: int|
            0 <= i < v@.len() ==> (#[trigger] r@[i]).number() == saturated(T::kind(), v@[i].0),
{
    let mut out: Vec<T> = Vec::new();
    for i in 0..v.len()
        invariant
            out@.len() == i,
            forall|j: int|
                0 <= j < i ==> (#[trigger] out@[j]).number() == saturated(T::kind(), v@[j].0),
    {
        out.push(T::saturate(v[i].0));
    }
    out
}

/// Every text, read; nothing if one of them writes no integer of the member.
pub(crate) fn parse_all<T: Integer>(v: &Vec<String>) -> (r: Option<Vec<T>>)
    ensures
        match r {
            Some(out) => {
                &&& out@.len() == v@.len()
                &&& forall|i: int|
                    0 <= i < v@.len() ==> parsed(T::kind(), v@[i]@) == Some(
                        (#[trigger] out@[i]).number(),
                    )
            },
            None => exists|i: int|
                0 <= i < v@.len() && parsed(T::kind(), (#[trigger] v@[i])@) is None,
        },
{
    let mut out: Vec<T> = Vec::new();
    for i in 0..v.len()
        invariant
            out@.len() == i,
            forall|j: int|
                0 <= j < i ==> parsed(T::kind(), v@[j]@) == Some((#[trigger] out@[j]).number()),
    {
        match T::parse(v[i].as_str()) {
            Some(x) => out.push(x),
            None => {
                return None;
            },
        }
    }
    Some(out)
}

} // verus!
