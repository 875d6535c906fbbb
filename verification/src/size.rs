//! Human-readable byte sizes.

use vstd::prelude::*;
use crate::text::{push_str, string_from_chars};

verus! {

/// The decimal digits of `n`, most significant first.
pub open spec fn decimal_digits(n: nat) -> Seq<char>
    decreases n,
{
    if n < 10 {
        seq![digit_char(n as int)]
    } else {
        decimal_digits(n / 10).push(digit_char((n % 10) as int))
    }
}

/// The character of a decimal digit.
pub open spec fn digit_char(d: int) -> char {
    (d + '0' as int) as char
}

/// The decimal form of an unsigned integer (`u128::to_string`).
pub fn decimal_string(n: u128) -> (s: String)
    ensures
        s@ == decimal_digits(n as nat),
{
    let mut rev: Vec<char> = Vec::new();
    let mut m: u128 = n;
    // Digits are produced least significant first, then reversed.
    loop
        invariant_except_break
            decimal_digits(n as nat) == decimal_digits(m as nat) + rev@.reverse(),
        ensures
            decimal_digits(n as nat) == rev@.reverse(),
        decreases m,
    {
        let d = (m % 10) as u32;
        let c: char = match d {
            0 => '0',
            1 => '1',
            2 => '2',
            3 => '3',
            4 => '4',
            5 => '5',
            6 => '6',
            7 => '7',
            8 => '8',
            _ => '9',
        };
        assert(c == digit_char(d as int));
        if m < 10 {
            let ghost old_rev = rev@;
            rev.push(c);
            assert(rev@.reverse() =~= seq![c] + old_rev.reverse());
            assert(decimal_digits(m as nat) == seq![c]);
            break;
        }
        let ghost old_rev = rev@;
        rev.push(c);
        assert(rev@.reverse() =~= seq![c] + old_rev.reverse());
        assert(decimal_digits(m as nat) == decimal_digits((m / 10) as nat).push(c));
        assert(decimal_digits((m / 10) as nat).push(c) + old_rev.reverse() =~= decimal_digits((m / 10) as nat) + rev@.reverse());
        m = m / 10;
    }
    let mut out: Vec<char> = Vec::new();
    let mut i: usize = rev.len();
    while i > 0
        invariant
            i <= rev@.len(),
            out@ == rev@.reverse().subrange(0, rev@.len() - i),
        decreases i,
    {
        i = i - 1;
        out.push(rev[i]);
        assert(out@ =~= rev@.reverse().subrange(0, rev@.len() - i));
    }
    assert(rev@.reverse().subrange(0, rev@.len() as int) =~= rev@.reverse());
    string_from_chars(&out)
}

/// `bytes / unit` rounded to hundredths, ties to the even hundredth, in
/// hundredths.
pub open spec fn hundredths(bytes: nat, unit: nat) -> nat
    recommends
        unit > 0,
{
    let q = (bytes * 100) / unit;
    let r = (bytes * 100) % unit;
    if 2 * r > unit || (2 * r == unit && q % 2 == 1) {
        q + 1
    } else {
        q
    }
}

/// A number of hundredths written with two decimals, e.g. `150` as `1.50`.
pub open spec fn two_decimals(h: nat) -> Seq<char> {
    decimal_digits(h / 100) + "."@ + seq![digit_char(((h % 100) / 10) as int), digit_char((h % 10) as int)]
}

/// The human-readable form of a byte count: whole bytes below 1 KiB, else the
/// largest of KiB, MiB and GiB that fits, with two decimals.
pub open spec fn size_text(bytes: nat) -> Seq<char> {
    let kb: nat = 1024;
    let mb: nat = 1024 * 1024;
    let gb: nat = 1024 * 1024 * 1024;
    if bytes >= gb {
        two_decimals(hundredths(bytes, gb)) + " GB"@
    } else if bytes >= mb {
        two_decimals(hundredths(bytes, mb)) + " MB"@
    } else if bytes >= kb {
        two_decimals(hundredths(bytes, kb)) + " KB"@
    } else {
        decimal_digits(bytes) + " B"@
    }
}

fn hundredths_exec(bytes: u64, unit: u64) -> (h: u128)
    requires
        unit > 0,
    ensures
        h == hundredths(bytes as nat, unit as nat),
{
    let x: u128 = (bytes as u128) * 100;
    let q: u128 = x / (unit as u128);
    let r: u128 = x % (unit as u128);
    if 2 * r > unit as u128 || (2 * r == unit as u128 && q % 2 == 1) {
        q + 1
    } else {
        q
    }
}

fn two_decimals_exec(h: u128) -> (s: String)
    ensures
        s@ == two_decimals(h as nat),
{
    let mut s = decimal_string(h / 100);
    let tens: char = digit_of((h % 100) / 10);
    let ones: char = digit_of(h % 10);
    push_str(&mut s, ".");
    let tail = string_from_chars(&[tens, ones]);
    let ghost before = s@;
    push_str(&mut s, tail.as_str());
    assert(tail@ =~= seq![tens, ones]);
    s
}

fn digit_of(d: u128) -> (c: char)
    requires
        d < 10,
    ensures
        c == digit_char(d as int),
{
    match d {
        0 => '0',
        1 => '1',
        2 => '2',
        3 => '3',
        4 => '4',
        5 => '5',
        6 => '6',
        7 => '7',
        8 => '8',
        _ => '9',
    }
}

/// Formats a byte count for display (see [`size_text`]).
pub fn format_size(bytes: u64) -> (s: String)
    ensures
        s@ == size_text(bytes as nat),
{
    let kb: u64 = 1024;
    let mb: u64 = 1024 * 1024;
    let gb: u64 = 1024 * 1024 * 1024;
    if bytes >= gb {
        let mut s = two_decimals_exec(hundredths_exec(bytes, gb));
        push_str(&mut s, " GB");
        s
    } else if bytes >= mb {
        let mut s = two_decimals_exec(hundredths_exec(bytes, mb));
        push_str(&mut s, " MB");
        s
    } else if bytes >= kb {
        let mut s = two_decimals_exec(hundredths_exec(bytes, kb));
        push_str(&mut s, " KB");
        s
    } else {
        let mut s = decimal_string(bytes as u128);
        push_str(&mut s, " B");
        s
    }
}

} // verus!
