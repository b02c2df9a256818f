//! Text: its characters, its equality, and decimal numerals.

use vstd::prelude::*;
use vstd::string::StringExecFns;

verus! {

/// The character of one decimal digit.
pub open spec fn digit(d: nat) -> char {
    (48 + d) as char
}

/// A natural number in decimal, without leading zeros.
pub open spec fn decimal(n: nat) -> Seq<char>
    decreases n,
{
    if n < 10 {
        seq![digit(n)]
    } else {
        decimal(n / 10).push(digit(n % 10))
    }
}

fn digit_text(d: u64) -> (r: &'static str)
    requires
        d < 10,
    ensures
        r@ == seq![digit(d as nat)],
{
    proof {
        reveal_strlit("0");
        reveal_strlit("1");
        reveal_strlit("2");
        reveal_strlit("3");
        reveal_strlit("4");
        reveal_strlit("5");
        reveal_strlit("6");
        reveal_strlit("7");
        reveal_strlit("8");
        reveal_strlit("9");
    }
    match d {
        0 => "0",
        1 => "1",
        2 => "2",
        3 => "3",
        4 => "4",
        5 => "5",
        6 => "6",
        7 => "7",
        8 => "8",
        _ => "9",
    }
}

/// `n` in decimal.
pub(crate) fn decimal_text(n: u64) -> (r: String)
    ensures
        r@ == decimal(n as nat),
    decreases n,
{
    let mut s = if n < 10 {
        String::new()
    } else {
        decimal_text(n / 10)
    };
    s.append(digit_text(n % 10));
    assert(s@ =~= decimal(n as nat));
    s
}

/// An integer in decimal: its magnitude, behind a minus sign if it is negative.
pub open spec fn signed_decimal(i: int) -> Seq<char> {
    if i < 0 {
        seq!['-'] + decimal((-i) as nat)
    } else {
        decimal(i as nat)
    }
}

/// `i` in decimal.
pub(crate) fn signed_text(i: i64) -> (r: String)
    ensures
        r@ == signed_decimal(i as int),
{
    if i < 0 {
        proof {
            reveal_strlit("-");
        }
        let mut s = String::from_str("-");
        let magnitude: u64 = (-(i + 1)) as u64 + 1;
        s.append(decimal_text(magnitude).as_str());
        assert(s@ =~= signed_decimal(i as int));
        s
    } else {
        decimal_text(i as u64)
    }
}

/// The characters of a text.
pub(crate) fn chars_of(s: &str) -> (r: Vec<char>)
    ensures
        r@ == s@,
{
    let mut out: Vec<char> = Vec::new();
    for c in it: s.chars()
        invariant
            out@ == it.seq().take(it.index() as int),
            it.seq() == s@,
    {
        out.push(c);
    }
    out
}

/// Whether two texts are the same, character by character.
pub(crate) fn same_text(a: &str, b: &str) -> (r: bool)
    ensures
        r == (a@ == b@),
{
    let left = chars_of(a);
    let right = chars_of(b);
    if left.len() != right.len() {
        return false;
    }
    for i in 0..left.len()
        invariant
            left@.len() == right@.len(),
            left@ == a@,
            right@ == b@,
            forall|j: int| 0 <= j < i ==> left@[j] == right@[j],
    {
        if left[i] != right[i] {
            return false;
        }
    }
    assert(left@ =~= right@);
    true
}

/// Where a diagnostic form is written to.
#[verifier::external_type_specification]
#[verifier::external_body]
pub struct ExFormatter<'a>(std::fmt::Formatter<'a>);

/// The failure of a write.
#[verifier::external_type_specification]
#[verifier::external_body]
pub struct ExFmtError(std::fmt::Error);

/// The text that a formatter has handed to the buffer it writes to.
pub uninterp spec fn written(f: std::fmt::Formatter<'_>) -> Seq<char>;

/// Whether a formatter was given the `#` flag.
pub uninterp spec fn alternate(f: std::fmt::Formatter<'_>) -> bool;

/// `Formatter::alternate`: whether the `#` flag was given.
#[verifier::external_body]
pub(crate) fn is_alternate(f: &std::fmt::Formatter<'_>) -> (r: bool)
    ensures
        r == alternate(*f),
{
    f.alternate()
}

/// `Formatter::write_str`: hands the text to the buffer as it is, whatever the
/// flags. Whether the buffer takes it is the buffer's; of a write that fails
/// nothing is claimed.
#[verifier::external_body]
pub(crate) fn write_text(f: &mut std::fmt::Formatter<'_>, s: &str) -> (r: std::fmt::Result)
    ensures
        r is Ok ==> written(*final(f)) == written(*old(f)) + s@,
{
    f.write_str(s)
}

} // verus!
