//! Decimal text of the numbers that appear in messages and payloads.

use vstd::prelude::*;
use vstd::string::*;

verus! {

/// The number of millionths in one.
pub const MILLION: u64 = 1_000_000;

/// The character of a decimal digit.
pub open spec fn digit(d: nat) -> char {
    if d == 0 {
        '0'
    } else if d == 1 {
        '1'
    } else if d == 2 {
        '2'
    } else if d == 3 {
        '3'
    } else if d == 4 {
        '4'
    } else if d == 5 {
        '5'
    } else if d == 6 {
        '6'
    } else if d == 7 {
        '7'
    } else if d == 8 {
        '8'
    } else {
        '9'
    }
}

/// The decimal digits of a natural number, most significant first, without leading zeros.
pub open spec fn digits(n: nat) -> Seq<char>
    decreases n,
{
    if n < 10 {
        seq![digit(n)]
    } else {
        digits(n / 10).push(digit(n % 10))
    }
}

/// The six decimal digits of a number of millionths below one.
pub open spec fn fraction_digits(f: nat) -> Seq<char> {
    seq![
        digit(f / 100000 % 10),
        digit(f / 10000 % 10),
        digit(f / 1000 % 10),
        digit(f / 100 % 10),
        digit(f / 10 % 10),
        digit(f % 10),
    ]
}

/// The magnitude of an integer.
pub open spec fn magnitude(v: int) -> nat {
    if v < 0 {
        (-v) as nat
    } else {
        v as nat
    }
}

/// The decimal text of a number of millionths: a minus sign if it is negative, the
/// integer part, a point, and six fractional digits.
pub open spec fn millionths_text(v: int) -> Seq<char> {
    (if v < 0 {
        seq!['-']
    } else {
        Seq::<char>::empty()
    }) + digits(magnitude(v) / 1000000) + seq!['.'] + fraction_digits(magnitude(v) % 1000000)
}

fn digit_text(d: u64) -> (text: &'static str)
    requires
        d < 10,
    ensures
        text@ == seq![digit(d as nat)],
{
    proof {
        reveal_strlit("0");
        reveal_strlit("1");
        reveal_strlit("2");
        reveal_strlit("3");
        reveal_strlit("4");
        reveal_strlit("5");
        reveal_strlit("6");
        reveal_strlit("7");
        reveal_strlit("8");
        reveal_strlit("9");
    }
    let text = if d == 0 {
        "0"
    } else if d == 1 {
        "1"
    } else if d == 2 {
        "2"
    } else if d == 3 {
        "3"
    } else if d == 4 {
        "4"
    } else if d == 5 {
        "5"
    } else if d == 6 {
        "6"
    } else if d == 7 {
        "7"
    } else if d == 8 {
        "8"
    } else {
        "9"
    };
    assert(text@ =~= seq![digit(d as nat)]);
    text
}

/// Appends the decimal digits of `n` to `out`.
pub fn append_digits(out: &mut String, n: u64)
    ensures
        final(out)@ == old(out)@ + digits(n as nat),
    decreases n,
{
    if n >= 10 {
        append_digits(out, n / 10);
    }
    out.append(digit_text(n % 10));
    assert(out@ =~= old(out)@ + digits(n as nat));
}

/// The decimal text of `n`.
pub fn render(n: u64) -> (text: String)
    ensures
        text@ == digits(n as nat),
{
    let mut text = String::new();
    append_digits(&mut text, n);
    assert(text@ =~= digits(n as nat));
    text
}

/// Appends the six fractional digits of `part` millionths to `out`.
pub fn append_fraction(out: &mut String, part: u64)
    requires
        part < MILLION,
    ensures
        final(out)@ == old(out)@ + fraction_digits(part as nat),
{
    out.append(digit_text(part / 100000 % 10));
    out.append(digit_text(part / 10000 % 10));
    out.append(digit_text(part / 1000 % 10));
    out.append(digit_text(part / 100 % 10));
    out.append(digit_text(part / 10 % 10));
    out.append(digit_text(part % 10));
    assert(out@ =~= old(out)@ + fraction_digits(part as nat));
}

/// Appends the decimal text of `v` millionths to `out`.
pub fn append_millionths(out: &mut String, v: i64)
    ensures
        final(out)@ == old(out)@ + millionths_text(v as int),
{
    proof {
        reveal_strlit("-");
        reveal_strlit(".");
    }
    let size: u64 = if v < 0 {
        out.append("-");
        (-(v + 1)) as u64 + 1
    } else {
        v as u64
    };
    assert(size == magnitude(v as int));
    let whole: u64 = size / MILLION;
    let part: u64 = size % MILLION;
    append_digits(out, whole);
    out.append(".");
    append_fraction(out, part);
    assert(out@ =~= old(out)@ + millionths_text(v as int));
}

/// The decimal text of `v` millionths.
pub fn render_millionths(v: i64) -> (text: String)
    ensures
        text@ == millionths_text(v as int),
{
    let mut text = String::new();
    append_millionths(&mut text, v);
    assert(text@ =~= millionths_text(v as int));
    text
}

} // verus!
