//! Block identifiers: ULIDs, held as 128-bit integers.
//!
//! Decoding and encoding go through the `ulid` crate; its Crockford base-32
//! format is short enough to be stated here in full.

use vstd::prelude::*;
use crate::text::{byte_len, chars_of, concat, owned, starts_with_chars, string_from_chars};

verus! {

/// 2^128.
pub open spec fn two_pow_128() -> int {
    340282366920938463463374607431768211456int
}

/// The value of a Crockford base-32 digit as the `ulid` crate reads it:
/// `0-9`, then the letters without `I`, `L`, `O`, `U`, in either case.
pub open spec fn base32_digit(c: char) -> Option<int> {
    if '0' <= c && c <= '9' {
        Some(c as int - '0' as int)
    } else {
        let u = if 'a' <= c && c <= 'z' {
            c as int - 32
        } else {
            c as int
        };
        if 'A' as int <= u && u <= 'H' as int {
            Some(u - 'A' as int + 10)
        } else if u == 'J' as int || u == 'K' as int {
            Some(u - 'J' as int + 18)
        } else if u == 'M' as int || u == 'N' as int {
            Some(u - 'M' as int + 20)
        } else if 'P' as int <= u && u <= 'T' as int {
            Some(u - 'P' as int + 22)
        } else if 'V' as int <= u && u <= 'Z' as int {
            Some(u - 'V' as int + 27)
        } else {
            None
        }
    }
}

/// Whether every character of `s` is a base-32 digit.
pub open spec fn all_base32(s: Seq<char>) -> bool {
    forall|i: int| 0 <= i < s.len() ==> (#[trigger] base32_digit(s[i])) is Some
}

/// The value of a string of base-32 digits, most significant first, with
/// bits beyond the 128th dropped (the crate shifts a `u128` left by five bits
/// per digit).
pub open spec fn base32_value(s: Seq<char>) -> int
    decreases s.len(),
{
    if s.len() == 0 {
        0
    } else {
        (base32_value(s.drop_last()) * 32 + base32_digit(s.last())->0) % two_pow_128()
    }
}

/// What `Ulid::from_string` gives: a value exactly for 26 base-32 digits.
pub open spec fn ulid_decode(s: Seq<char>) -> Option<u128> {
    if s.len() == 26 && all_base32(s) {
        Some(base32_value(s) as u128)
    } else {
        None
    }
}

/// The alphabet of the encoding.
pub open spec fn base32_char(d: int) -> char {
    "0123456789ABCDEFGHJKMNPQRSTVWXYZ"@[d]
}

/// What `Ulid::to_string` gives: 26 digits, most significant first.
pub open spec fn ulid_encode(v: u128) -> Seq<char> {
    Seq::new(26, |i: int| base32_char((v as int / vstd::arithmetic::power2::pow2((5 * (25 - i)) as nat) as int) % 32))
}

proof fn lemma_digit_of_char(d: int)
    requires
        0 <= d < 32,
    ensures
        base32_digit(base32_char(d)) == Some(d),
{
    reveal_strlit("0123456789ABCDEFGHJKMNPQRSTVWXYZ");
}

/// The value of the first `k` digits of an encoding: `v` without its last
/// `26 - k` digits.
spec fn leading_value(v: u128, k: int) -> int {
    v as int / vstd::arithmetic::power2::pow2((5 * (26 - k)) as nat) as int
}

proof fn lemma_encoded_prefix(v: u128, k: int)
    requires
        0 <= k <= 26,
    ensures
        all_base32(ulid_encode(v).take(k)),
        base32_value(ulid_encode(v).take(k)) == leading_value(v, k),
    decreases k,
{
    let p = vstd::arithmetic::power2::pow2((5 * (26 - k)) as nat) as int;
    vstd::arithmetic::power2::lemma_pow2_pos((5 * (26 - k)) as nat);
    vstd::arithmetic::div_mod::lemma_div_is_ordered_by_denominator(v as int, 1, p);
    assert(leading_value(v, k) <= v);
    if k == 0 {
        vstd::arithmetic::power2::lemma2_to64();
        vstd::arithmetic::power2::lemma_pow2_adds(64, 66);
        vstd::arithmetic::power2::lemma_pow2_adds(64, 2);
        assert(p > v);
        vstd::arithmetic::div_mod::lemma_basic_div(v as int, p);
        assert(ulid_encode(v).take(0) =~= Seq::<char>::empty());
    } else {
        lemma_encoded_prefix(v, k - 1);
        let s = ulid_encode(v).take(k);
        assert(s.drop_last() =~= ulid_encode(v).take(k - 1));
        let q = leading_value(v, k);
        let d = q % 32;
        assert(s.last() == base32_char(d));
        lemma_digit_of_char(d);
        vstd::arithmetic::power2::lemma_pow2_adds((5 * (26 - k)) as nat, 5);
        vstd::arithmetic::power2::lemma2_to64();
        assert(vstd::arithmetic::power2::pow2((5 * (26 - (k - 1))) as nat) == p * 32);
        vstd::arithmetic::div_mod::lemma_div_denominator(v as int, p, 32);
        assert(leading_value(v, k - 1) == q / 32);
        vstd::arithmetic::div_mod::lemma_fundamental_div_mod(q, 32);
        assert(q / 32 * 32 + d == q) by (nonlinear_arith)
            requires
                q == 32 * (q / 32) + d,
        ;
        assert(q < two_pow_128());
        assert(all_base32(s)) by {
            assert forall|i: int| 0 <= i < s.len() implies (#[trigger] base32_digit(s[i])) is Some by {
                if i < k - 1 {
                    assert(s[i] == ulid_encode(v).take(k - 1)[i]);
                }
            }
        }
    }
}

/// Decoding an encoded identifier gives the identifier back.
pub proof fn lemma_ulid_round_trip(v: u128)
    ensures
        ulid_decode(ulid_encode(v)) == Some(v),
{
    lemma_encoded_prefix(v, 26);
    assert(ulid_encode(v).take(26) =~= ulid_encode(v));
    vstd::arithmetic::power2::lemma2_to64();
}

/// The text of the error `Ulid::from_string` gives for a string that is no
/// ULID: `invalid length` unless the string is 26 bytes long, else
/// `invalid character`.
pub open spec fn ulid_error_text(s: Seq<char>) -> Seq<char> {
    if byte_len(s) != 26 {
        "invalid length"@
    } else {
        "invalid character"@
    }
}

/// `Ulid::from_string`: decodes a 26-character Crockford base-32 string;
/// on failure, the `Display` text of its `DecodeError`.
#[verifier::external_body]
pub(crate) fn ulid_from_string(s: &str) -> (r: Result<u128, String>)
    ensures
        match r {
            Ok(v) => ulid_decode(s@) == Some(v),
            Err(m) => ulid_decode(s@) is None && m@ == ulid_error_text(s@),
        },
{
    match ulid::Ulid::from_string(s) {
        Ok(u) => Ok(u.0),
        Err(e) => Err(e.to_string()),
    }
}

/// The identifier a ULID string names, if it is one.
pub(crate) fn decode_ulid(s: &str) -> (r: Option<u128>)
    ensures
        r == ulid_decode(s@),
{
    match ulid_from_string(s) {
        Ok(v) => Some(v),
        Err(_) => None,
    }
}

/// `Ulid::to_string`: the 26-character encoding of an identifier.
#[verifier::external_body]
pub(crate) fn encode_ulid(v: u128) -> (s: String)
    ensures
        s@ == ulid_encode(v),
{
    ulid::Ulid(v).to_string()
}

/// `Ulid::new`: a fresh identifier from the clock and a random source.
/// Nothing is promised of its value.
#[verifier::external_body]
pub(crate) fn new_ulid() -> (v: u128) {
    ulid::Ulid::new().0
}

/// The value of a string of decimal digits.
pub open spec fn decimal_value(s: Seq<char>) -> int
    decreases s.len(),
{
    if s.len() == 0 {
        0
    } else {
        decimal_value(s.drop_last()) * 10 + (s.last() as int - '0' as int)
    }
}

/// `s` without a leading `+`.
pub open spec fn sign_stripped(s: Seq<char>) -> Seq<char> {
    if s.len() > 0 && s[0] == '+' {
        s.drop_first()
    } else {
        s
    }
}

/// What `str::parse::<u128>` gives: an optional `+`, then one or more decimal
/// digits whose value fits in 128 bits.
pub open spec fn u128_parse(s: Seq<char>) -> Option<u128> {
    let digits = sign_stripped(s);
    if digits.len() > 0 && (forall|i: int| 0 <= i < digits.len() ==> '0' <= #[trigger] digits[i]
        <= '9') && decimal_value(digits) < two_pow_128() {
        Some(decimal_value(digits) as u128)
    } else {
        None
    }
}

proof fn lemma_decimal_prefix(s: Seq<char>, k: int)
    requires
        0 <= k <= s.len(),
        forall|i: int| 0 <= i < s.len() ==> '0' <= #[trigger] s[i] <= '9',
    ensures
        decimal_value(s) >= decimal_value(s.take(k)),
    decreases s.len() - k,
{
    if k < s.len() {
        lemma_decimal_prefix(s, k + 1);
        let t = s.take(k + 1);
        assert(t.drop_last() =~= s.take(k));
        assert(decimal_value(t) == decimal_value(s.take(k)) * 10 + (t.last() as int - '0' as int));
        lemma_decimal_nonneg(s.take(k));
    } else {
        assert(s.take(k) =~= s);
    }
}

proof fn lemma_decimal_nonneg(s: Seq<char>)
    requires
        forall|i: int| 0 <= i < s.len() ==> '0' <= #[trigger] s[i] <= '9',
    ensures
        decimal_value(s) >= 0,
    decreases s.len(),
{
    if s.len() > 0 {
        lemma_decimal_nonneg(s.drop_last());
    }
}

/// `str::parse::<u128>` (see [`u128_parse`]).
pub(crate) fn parse_u128(s: &str) -> (r: Option<u128>)
    ensures
        r == u128_parse(s@),
{
    let cs = chars_of(s);
    let start: usize = if cs.len() > 0 && cs[0] == '+' {
        1
    } else {
        0
    };
    let ghost digits = sign_stripped(s@);
    assert(digits =~= cs@.subrange(start as int, cs@.len() as int));
    if start >= cs.len() {
        assert(digits.len() == 0);
        return None;
    }
    let mut v: u128 = 0;
    let mut i: usize = start;
    while i < cs.len()
        invariant
            start <= i <= cs@.len(),
            cs@ == s@,
            digits == cs@.subrange(start as int, cs@.len() as int),
            digits == sign_stripped(s@),
            forall|k: int| 0 <= k < i - start ==> '0' <= #[trigger] digits[k] <= '9',
            v == decimal_value(digits.take(i - start)),
        decreases cs@.len() - i,
    {
        let c = cs[i];
        let ghost k = i - start;
        assert(digits[k] == c);
        if c < '0' || c > '9' {
            assert(!('0' <= digits[k] <= '9'));
            assert(u128_parse(s@) is None);
            return None;
        }
        let d = (c as u32 - '0' as u32) as u128;
        assert(digits.take(k + 1).drop_last() =~= digits.take(k));
        assert(decimal_value(digits.take(k + 1)) == v * 10 + d);
        let ghost full = forall|q: int| 0 <= q < digits.len() ==> '0' <= #[trigger] digits[q] <= '9';
        match v.checked_mul(10) {
            Some(m) => match m.checked_add(d) {
                Some(n) => {
                    v = n;
                },
                None => {
                    proof {
                        assert(m + d > u128::MAX);
                        if full {
                            lemma_decimal_prefix(digits, k + 1);
                            assert(decimal_value(digits) >= two_pow_128());
                        }
                        assert(u128_parse(s@) is None);
                    }
                    return None;
                },
            },
            None => {
                proof {
                    assert(v * 10 > u128::MAX);
                    if full {
                        lemma_decimal_prefix(digits, k + 1);
                        assert(decimal_value(digits) >= two_pow_128());
                    }
                    assert(u128_parse(s@) is None);
                }
                return None;
            },
        }
        i = i + 1;
    }
    assert(digits.take(digits.len() as int) =~= digits);
    Some(v)
}

/// A string that names no block.
#[derive(Debug, Clone, PartialEq, Eq)]
pub struct InvalidUlid {
    pub input: String,
}

impl InvalidUlid {
    /// `"Invalid ULID format: <input>"`.
    pub fn message(&self) -> (s: String)
        ensures
            s@ == "Invalid ULID format: "@ + self.input@,
    {
        concat("Invalid ULID format: ", self.input.as_str())
    }
}

/// `s` with `prefix` removed, when `s` starts with it.
pub open spec fn strip_prefix_seq(s: Seq<char>, prefix: Seq<char>) -> Option<Seq<char>> {
    if prefix.len() <= s.len() && s.subrange(0, prefix.len() as int) == prefix {
        Some(s.subrange(prefix.len() as int, s.len() as int))
    } else {
        None
    }
}

/// `str::strip_prefix`.
pub fn strip_prefix(s: &str, prefix: &str) -> (r: Option<String>)
    ensures
        match r {
            Some(rest) => strip_prefix_seq(s@, prefix@) == Some(rest@),
            None => strip_prefix_seq(s@, prefix@) is None,
        },
{
    let cs = chars_of(s);
    let ps = chars_of(prefix);
    if !starts_with_chars(&cs, &ps) {
        return None;
    }
    let mut rest: Vec<char> = Vec::new();
    let mut i: usize = ps.len();
    while i < cs.len()
        invariant
            ps@.len() <= i <= cs@.len(),
            rest@ == cs@.subrange(ps@.len() as int, i as int),
        decreases cs@.len() - i,
    {
        rest.push(cs[i]);
        i = i + 1;
    }
    Some(string_from_chars(&rest))
}

/// The identifier a reference names: a bare ULID or a `block:`-prefixed one.
pub open spec fn block_ref_value(s: Seq<char>) -> Option<u128> {
    if ulid_decode(s) is Some {
        ulid_decode(s)
    } else {
        match strip_prefix_seq(s, "block:"@) {
            Some(rest) => ulid_decode(rest),
            None => None,
        }
    }
}

/// Parses a block reference: a ULID, or `block:` followed by a ULID.
pub fn parse_ulid(s: &str) -> (r: Result<u128, InvalidUlid>)
    ensures
        match r {
            Ok(v) => block_ref_value(s@) == Some(v),
            Err(e) => block_ref_value(s@) is None && e.input@ == s@,
        },
{
    if let Some(v) = decode_ulid(s) {
        return Ok(v);
    }
    if let Some(inner) = strip_prefix(s, "block:") {
        if let Some(v) = decode_ulid(inner.as_str()) {
            return Ok(v);
        }
    }
    Err(InvalidUlid { input: owned(s) })
}

/// The identifier a ghost reference names: what [`block_ref_value`] accepts,
/// or `ghost_<n>` for a decimal `n`, which names `u128::MAX - n`.
pub open spec fn ghost_ref_value(s: Seq<char>) -> Option<u128> {
    if block_ref_value(s) is Some {
        block_ref_value(s)
    } else {
        match strip_prefix_seq(s, "ghost_"@) {
            Some(rest) => match u128_parse(rest) {
                Some(n) => Some((u128::MAX - n) as u128),
                None => None,
            },
            None => None,
        }
    }
}

/// Parses a ghost node reference (see [`ghost_ref_value`]).
pub fn parse_ghost_ulid(s: &str) -> (r: Result<u128, InvalidUlid>)
    ensures
        match r {
            Ok(v) => ghost_ref_value(s@) == Some(v),
            Err(e) => ghost_ref_value(s@) is None && e.input@ == s@,
        },
{
    match parse_ulid(s) {
        Ok(v) => {
            return Ok(v);
        },
        Err(_) => {},
    }
    if let Some(rest) = strip_prefix(s, "ghost_") {
        if let Some(n) = parse_u128(rest.as_str()) {
            return Ok(u128::MAX - n);
        }
    }
    Err(InvalidUlid { input: owned(s) })
}

} // verus!
