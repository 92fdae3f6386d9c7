//! Numbers in decimal digits, as the log and the names of its files write
//! them.

use vstd::prelude::*;
use crate::text::push_char;

verus! {

/// The character that writes the digit `d`.
pub open spec fn digit(d: int) -> char {
    (48 + d) as char
}

/// `n` in decimal digits, without leading zeros.
pub open spec fn decimal(n: nat) -> Seq<char>
    decreases n,
{
    if n < 10 {
        seq![digit(n as int)]
    } else {
        decimal(n / 10).push(digit((n % 10) as int))
    }
}

/// `digits` with as many zeros before it as it takes to fill `width`.
pub open spec fn zero_padded(digits: Seq<char>, width: nat) -> Seq<char> {
    if digits.len() >= width {
        digits
    } else {
        Seq::new((width - digits.len()) as nat, |i: int| '0') + digits
    }
}

/// `n` in two decimal digits, the first a zero where `n` is below ten.
pub open spec fn two_digits(n: int) -> Seq<char> {
    seq![digit(n / 10), digit(n % 10)]
}

/// A year in plain decimal digits, with a minus sign before a year below 0.
pub open spec fn year_plain(year: int) -> Seq<char> {
    if year < 0 {
        seq!['-'] + decimal((-year) as nat)
    } else {
        decimal(year as nat)
    }
}

/// A year in at least four decimal digits. A year that four digits cannot
/// write, because it is below 0 or above 9999, has its sign before it.
pub open spec fn year_padded(year: int) -> Seq<char> {
    if year < 0 {
        seq!['-'] + zero_padded(decimal((-year) as nat), 4)
    } else if year <= 9999 {
        zero_padded(decimal(year as nat), 4)
    } else {
        seq!['+'] + zero_padded(decimal(year as nat), 4)
    }
}

/// Appends `n` in decimal digits, with zeros before them up to `width`.
pub(crate) fn push_padded(out: &mut String, n: u32, width: usize)
    ensures
        final(out)@ == old(out)@ + zero_padded(decimal(n as nat), width as nat),
{
    // The digits of `n`, the last one first.
    let mut low: Vec<char> = Vec::new();
    let mut rest: u32 = n;
    while rest >= 10
        invariant
            decimal(n as nat) == decimal(rest as nat) + low@.reverse(),
        decreases rest,
    {
        let d: u8 = (rest % 10) as u8;
        proof {
            let next = low@.push((48u8 + d) as char);
            assert(next.reverse() =~= seq![digit(d as int)] + low@.reverse());
            assert(decimal(rest as nat) == decimal((rest / 10) as nat).push(digit(d as int)));
            assert(decimal(n as nat) =~= decimal((rest / 10) as nat) + next.reverse());
        }
        low.push((48u8 + d) as char);
        rest = rest / 10;
    }
    proof {
        let next = low@.push((48u8 + rest as u8) as char);
        assert(next.reverse() =~= seq![digit(rest as int)] + low@.reverse());
        assert(decimal(n as nat) =~= next.reverse());
    }
    low.push((48u8 + rest as u8) as char);
    let count = low.len();
    let mut zeros: usize = 0;
    while zeros + count < width
        invariant
            count == low@.len(),
            zeros + count <= width || zeros == 0,
            out@ == old(out)@ + Seq::new(zeros as nat, |i: int| '0'),
        decreases width - zeros - count,
    {
        push_char(out, '0');
        zeros = zeros + 1;
        assert(out@ =~= old(out)@ + Seq::new(zeros as nat, |i: int| '0'));
    }
    let ghost padding = Seq::new(zeros as nat, |i: int| '0');
    let ghost digits = low@.reverse();
    let mut k: usize = count;
    while k > 0
        invariant
            k <= count,
            count == low@.len(),
            digits == low@.reverse(),
            out@ == old(out)@ + padding + digits.take(count - k),
        decreases k,
    {
        k = k - 1;
        push_char(out, low[k]);
        assert(digits.take(count - k) =~= digits.take(count - k - 1).push(low@[k as int]));
    }
    assert(digits.take(count as int) =~= digits);
    assert(out@ =~= old(out)@ + zero_padded(decimal(n as nat), width as nat));
}

/// Appends `n` in two decimal digits.
pub(crate) fn push_two_digits(out: &mut String, n: u32)
    requires
        n < 100,
    ensures
        final(out)@ == old(out)@ + two_digits(n as int),
{
    let tens: u8 = (n / 10) as u8;
    let ones: u8 = (n % 10) as u8;
    push_char(out, (48u8 + tens) as char);
    push_char(out, (48u8 + ones) as char);
    assert(out@ =~= old(out)@ + two_digits(n as int));
}

/// The distance of `year` from 0.
fn magnitude(year: i32) -> (m: u32)
    ensures
        year >= 0 ==> m == year,
        year < 0 ==> m == -year,
{
    if year >= 0 {
        year as u32
    } else {
        (-(year as i64)) as u32
    }
}

/// Appends a year in plain decimal digits.
pub(crate) fn push_year_plain(out: &mut String, year: i32)
    ensures
        final(out)@ == old(out)@ + year_plain(year as int),
{
    if year < 0 {
        push_char(out, '-');
    }
    push_padded(out, magnitude(year), 0);
    assert(out@ =~= old(out)@ + year_plain(year as int));
}

/// Appends a year in at least four decimal digits.
pub(crate) fn push_year_padded(out: &mut String, year: i32)
    ensures
        final(out)@ == old(out)@ + year_padded(year as int),
{
    if year < 0 {
        push_char(out, '-');
    } else if year > 9999 {
        push_char(out, '+');
    }
    push_padded(out, magnitude(year), 4);
    assert(out@ =~= old(out)@ + year_padded(year as int));
}

} // verus!
