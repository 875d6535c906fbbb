//! Character-level text utilities shared by the parsers and analyzers.
//!
//! Strings are reasoned about through their character sequences (`s@`).
//! Unicode case mapping and the letter and digit classes come from the
//! standard library and are named here; the white-space class is short
//! enough to be written out. Everything built on top of them (substring
//! search, trimming, splitting) is verified.

use vstd::prelude::*;

verus! {

// ---------------------------------------------------------------------------
// Names for the standard library's Unicode tables
// ---------------------------------------------------------------------------

/// What `str::to_lowercase` gives for a string (Unicode lowercase mapping).
pub uninterp spec fn lowercase(s: Seq<char>) -> Seq<char>;

/// What `str::to_uppercase` gives for a string (Unicode uppercase mapping).
pub uninterp spec fn uppercase(s: Seq<char>) -> Seq<char>;

/// Whether `char::is_alphanumeric` holds of a character.
pub uninterp spec fn is_alphanumeric(c: char) -> bool;

/// Whether `char::is_whitespace` holds of a character: the characters with
/// the Unicode `White_Space` property.
pub open spec fn is_whitespace(c: char) -> bool {
    ('\u{9}' <= c && c <= '\u{d}') || c == ' ' || c == '\u{85}' || c == '\u{a0}' || c == '\u{1680}' || ('\u{2000}' <= c
        && c <= '\u{200a}') || c == '\u{2028}' || c == '\u{2029}' || c == '\u{202f}' || c == '\u{205f}' || c == '\u{3000}'
}

/// Whether `char::is_numeric` holds of a character.
pub uninterp spec fn is_numeric(c: char) -> bool;

/// Every character is ASCII.
pub open spec fn is_ascii_text(s: Seq<char>) -> bool {
    forall|i: int| 0 <= i < s.len() ==> (#[trigger] s[i] as u32) < 128
}

/// ASCII letters `A` to `Z` made lowercase, other characters kept.
pub open spec fn ascii_lower(s: Seq<char>) -> Seq<char> {
    s.map_values(|c: char| if 'A' <= c && c <= 'Z' { ((c as u32) + 32) as char } else { c })
}

/// ASCII letters `a` to `z` made uppercase, other characters kept.
pub open spec fn ascii_upper(s: Seq<char>) -> Seq<char> {
    s.map_values(|c: char| if 'a' <= c && c <= 'z' { ((c as u32) - 32) as char } else { c })
}

/// `str::to_lowercase`: the Unicode lowercase form of `s`.
/// The contract names the result; of the mapping it states only Unicode's
/// lowercase mapping of ASCII text, `A` to `Z` becoming `a` to `z`.
#[verifier::external_body]
pub(crate) fn to_lowercase(s: &str) -> (out: String)
    ensures
        out@ == lowercase(s@),
        is_ascii_text(s@) ==> out@ == ascii_lower(s@),
{
    s.to_lowercase()
}

/// `str::to_uppercase`: the Unicode uppercase form of `s`.
/// The contract names the result; of the mapping it states only Unicode's
/// uppercase mapping of ASCII text, `a` to `z` becoming `A` to `Z`.
#[verifier::external_body]
pub(crate) fn to_uppercase(s: &str) -> (out: String)
    ensures
        out@ == uppercase(s@),
        is_ascii_text(s@) ==> out@ == ascii_upper(s@),
{
    s.to_uppercase()
}

/// `char::is_alphanumeric`.
#[verifier::external_body]
pub(crate) fn char_is_alphanumeric(c: char) -> (b: bool)
    ensures
        b == is_alphanumeric(c),
{
    c.is_alphanumeric()
}

/// `char::is_whitespace` (see [`is_whitespace`]).
pub(crate) fn char_is_whitespace(c: char) -> (b: bool)
    ensures
        b == is_whitespace(c),
{
    ('\u{9}' <= c && c <= '\u{d}') || c == ' ' || c == '\u{85}' || c == '\u{a0}' || c == '\u{1680}' || ('\u{2000}' <= c
        && c <= '\u{200a}') || c == '\u{2028}' || c == '\u{2029}' || c == '\u{202f}' || c == '\u{205f}' || c == '\u{3000}'
}

/// `char::is_numeric`.
#[verifier::external_body]
pub(crate) fn char_is_numeric(c: char) -> (b: bool)
    ensures
        b == is_numeric(c),
{
    c.is_numeric()
}

/// `String::push`: appends one character.
#[verifier::external_body]
fn push_char(s: &mut String, c: char)
    ensures
        final(s)@ == old(s)@.push(c),
{
    s.push(c);
}

// ---------------------------------------------------------------------------
// Conversions between strings and character vectors
// ---------------------------------------------------------------------------

/// The characters of a string slice, in order.
pub fn chars_of(s: &str) -> (out: Vec<char>)
    ensures
        out@ == s@,
{
    let mut out: Vec<char> = Vec::new();
    for c in it: s.chars()
        invariant
            out@ == it.seq().take(it.index() as int),
            it.seq() == s@,
    {
        out.push(c);
    }
    out
}

/// Builds a `String` from a sequence of characters.
pub fn string_from_chars(cs: &[char]) -> (out: String)
    ensures
        out@ == cs@,
{
    let mut out = String::new();
    let mut i: usize = 0;
    while i < cs.len()
        invariant
            i <= cs@.len(),
            out@ == cs@.subrange(0, i as int),
        decreases cs@.len() - i,
    {
        push_char(&mut out, cs[i]);
        i = i + 1;
    }
    out
}

/// Appends the characters of `s` to `out`.
pub fn push_str(out: &mut String, s: &str)
    ensures
        final(out)@ == old(out)@ + s@,
{
    let cs = chars_of(s);
    let mut i: usize = 0;
    while i < cs.len()
        invariant
            i <= cs@.len(),
            cs@ == s@,
            out@ == old(out)@ + cs@.subrange(0, i as int),
        decreases cs@.len() - i,
    {
        push_char(out, cs[i]);
        i = i + 1;
    }
}

/// A copy of a string slice as an owned `String`.
pub fn owned(s: &str) -> (out: String)
    ensures
        out@ == s@,
{
    let cs = chars_of(s);
    string_from_chars(&cs)
}

/// The first `n` characters of `s` (all of it when it is shorter).
pub fn first_chars(s: &str, n: usize) -> (out: String)
    ensures
        out@ == (if n <= s@.len() { s@.take(n as int) } else { s@ }),
{
    let cs = chars_of(s);
    let mut out = String::new();
    let mut i: usize = 0;
    while i < n && i < cs.len()
        invariant
            i <= cs@.len(),
            i <= n,
            cs@ == s@,
            out@ == cs@.take(i as int),
        decreases cs@.len() - i,
    {
        push_char(&mut out, cs[i]);
        i = i + 1;
        assert(out@ =~= cs@.take(i as int));
    }
    assert(n > s@.len() ==> cs@.take(i as int) =~= s@);
    out
}

/// The texts of a sequence of strings.
pub open spec fn strings_view(s: Seq<String>) -> Seq<Seq<char>> {
    s.map_values(|t: String| t@)
}

/// The parts joined by `sep` (`[..].join(sep)`).
pub open spec fn join_seq(parts: Seq<Seq<char>>, sep: Seq<char>) -> Seq<char>
    decreases parts.len(),
{
    if parts.len() == 0 {
        Seq::<char>::empty()
    } else if parts.len() == 1 {
        parts[0]
    } else {
        join_seq(parts.drop_last(), sep) + sep + parts.last()
    }
}

/// Joins strings with a separator (see [`join_seq`]).
pub fn join_with(parts: &Vec<String>, sep: &str) -> (out: String)
    ensures
        out@ == join_seq(strings_view(parts@), sep@),
{
    let mut out = String::new();
    let mut i: usize = 0;
    while i < parts.len()
        invariant
            i <= parts@.len(),
            out@ == join_seq(strings_view(parts@.subrange(0, i as int)), sep@),
        decreases parts@.len() - i,
    {
        let ghost pre = strings_view(parts@.subrange(0, i as int));
        let ghost nxt = strings_view(parts@.subrange(0, i + 1));
        assert(nxt.drop_last() =~= pre);
        if i > 0 {
            push_str(&mut out, sep);
        }
        push_str(&mut out, parts[i].as_str());
        proof {
            if i == 0 {
                assert(out@ =~= nxt[0]);
            }
        }
        i = i + 1;
    }
    assert(parts@.subrange(0, parts@.len() as int) =~= parts@);
    out
}

/// The concatenation of two string slices.
pub fn concat(a: &str, b: &str) -> (out: String)
    ensures
        out@ == a@ + b@,
{
    let mut out = owned(a);
    push_str(&mut out, b);
    out
}

// ---------------------------------------------------------------------------
// Comparisons and searching
// ---------------------------------------------------------------------------

/// Whether `pat` occurs as a contiguous part of `text`.
pub open spec fn occurs_at(text: Seq<char>, pat: Seq<char>, i: int) -> bool {
    0 <= i && i + pat.len() <= text.len() && text.subrange(i, i + pat.len()) == pat
}

/// `text` contains `pat` (every sequence contains the empty one).
pub open spec fn contains_seq(text: Seq<char>, pat: Seq<char>) -> bool {
    exists|i: int| #[trigger] occurs_at(text, pat, i)
}

/// `text` begins with `pat`.
pub open spec fn starts_with_seq(text: Seq<char>, pat: Seq<char>) -> bool {
    pat.len() <= text.len() && text.subrange(0, pat.len() as int) == pat
}

/// Whether `text[i..i+pat.len()]` equals `pat`.
fn matches_at(text: &[char], pat: &[char], i: usize) -> (b: bool)
    requires
        i + pat@.len() <= text@.len(),
    ensures
        b == occurs_at(text@, pat@, i as int),
{
    let tl = text.len();
    let mut k: usize = 0;
    while k < pat.len()
        invariant
            tl == text@.len(),
            i + pat@.len() <= text@.len(),
            k <= pat@.len(),
            forall|j: int| 0 <= j < k ==> text@[i + j] == pat@[j],
        decreases pat@.len() - k,
    {
        if text[i + k] != pat[k] {
            assert(text@.subrange(i as int, i + pat@.len())[k as int] != pat@[k as int]);
            return false;
        }
        k = k + 1;
    }
    assert(text@.subrange(i as int, i + pat@.len()) =~= pat@);
    true
}

/// Substring search over character slices.
pub fn contains_chars(text: &[char], pat: &[char]) -> (b: bool)
    ensures
        b == contains_seq(text@, pat@),
{
    if pat.len() > text.len() {
        assert forall|i: int| !occurs_at(text@, pat@, i) by {}
        return false;
    }
    let last = text.len() - pat.len();
    let mut i: usize = 0;
    while i <= last
        invariant
            last == text@.len() - pat@.len(),
            pat@.len() <= text@.len(),
            forall|j: int| 0 <= j < i ==> !occurs_at(text@, pat@, j),
        decreases last + 1 - i,
    {
        if matches_at(text, pat, i) {
            return true;
        }
        if i == last {
            assert forall|j: int| !occurs_at(text@, pat@, j) by {
                if 0 <= j && j + pat@.len() <= text@.len() {
                    assert(j <= last);
                }
            }
            return false;
        }
        i = i + 1;
    }
    false
}

/// Substring search over strings.
pub fn contains_str(text: &str, pat: &str) -> (b: bool)
    ensures
        b == contains_seq(text@, pat@),
{
    let t = chars_of(text);
    let p = chars_of(pat);
    contains_chars(&t, &p)
}

/// The first position at or after `from` where `pat` occurs in `text`.
pub open spec fn first_match(text: Seq<char>, pat: Seq<char>, from: int) -> Option<int>
    decreases text.len() - from,
{
    if from < 0 || from + pat.len() > text.len() {
        None
    } else if occurs_at(text, pat, from) {
        Some(from)
    } else if from >= text.len() {
        None
    } else {
        first_match(text, pat, from + 1)
    }
}

/// The first position where `pat` occurs in `text` (`str::find`, counted in
/// characters).
pub open spec fn find_seq(text: Seq<char>, pat: Seq<char>) -> Option<int> {
    first_match(text, pat, 0)
}

/// Finds the first occurrence of `pat` in `text`.
pub fn find_chars(text: &[char], pat: &[char]) -> (r: Option<usize>)
    ensures
        match r {
            Some(i) => find_seq(text@, pat@) == Some(i as int),
            None => find_seq(text@, pat@) is None,
        },
{
    let mut i: usize = 0;
    while i < text.len() && pat.len() <= text.len() - i
        invariant
            i <= text@.len(),
            find_seq(text@, pat@) == first_match(text@, pat@, i as int),
        decreases text@.len() - i,
    {
        if matches_at(text, pat, i) {
            return Some(i);
        }
        i = i + 1;
    }
    if i <= text.len() && pat.len() <= text.len() - i {
        if matches_at(text, pat, i) {
            return Some(i);
        }
    }
    proof {
        if i as int + pat@.len() <= text@.len() {
            assert(i == text@.len());
            assert(pat@.len() == 0);
            assert(occurs_at(text@, pat@, i as int)) by {
                assert(text@.subrange(i as int, i as int) =~= pat@);
            }
        }
    }
    None
}

/// Prefix test over character slices.
pub fn starts_with_chars(text: &[char], pat: &[char]) -> (b: bool)
    ensures
        b == starts_with_seq(text@, pat@),
{
    if pat.len() > text.len() {
        return false;
    }
    let b = matches_at(text, pat, 0);
    b
}

/// Equality of two character slices.
pub fn chars_eq(a: &[char], b: &[char]) -> (r: bool)
    ensures
        r == (a@ == b@),
{
    if a.len() != b.len() {
        return false;
    }
    let r = matches_at(a, b, 0);
    assert(a@ =~= a@.subrange(0, b@.len() as int));
    r
}

/// Equality of two strings.
pub fn str_eq(a: &str, b: &str) -> (r: bool)
    ensures
        r == (a@ == b@),
{
    let x = chars_of(a);
    let y = chars_of(b);
    chars_eq(&x, &y)
}

// ---------------------------------------------------------------------------
// Trimming and splitting
// ---------------------------------------------------------------------------

/// `s` without its leading whitespace.
pub open spec fn trim_start_seq(s: Seq<char>) -> Seq<char>
    decreases s.len(),
{
    if s.len() > 0 && is_whitespace(s[0]) {
        trim_start_seq(s.drop_first())
    } else {
        s
    }
}

/// `s` without its trailing whitespace.
pub open spec fn trim_end_seq(s: Seq<char>) -> Seq<char>
    decreases s.len(),
{
    if s.len() > 0 && is_whitespace(s.last()) {
        trim_end_seq(s.drop_last())
    } else {
        s
    }
}

/// `s` without leading and trailing whitespace (`str::trim`).
pub open spec fn trim_seq(s: Seq<char>) -> Seq<char> {
    trim_end_seq(trim_start_seq(s))
}

proof fn lemma_trim_start_skip(s: Seq<char>, i: int)
    requires
        0 <= i <= s.len(),
        forall|j: int| 0 <= j < i ==> is_whitespace(#[trigger] s[j]),
    ensures
        trim_start_seq(s) == trim_start_seq(s.subrange(i, s.len() as int)),
    decreases i,
{
    if i > 0 {
        assert(is_whitespace(s[0]));
        assert(s.drop_first().subrange(i - 1, s.drop_first().len() as int) =~= s.subrange(
            i,
            s.len() as int,
        ));
        assert forall|j: int| 0 <= j < i - 1 implies is_whitespace(#[trigger] s.drop_first()[j]) by {
            assert(s.drop_first()[j] == s[j + 1]);
        }
        lemma_trim_start_skip(s.drop_first(), i - 1);
    } else {
        assert(s.subrange(0, s.len() as int) =~= s);
    }
}

proof fn lemma_trim_end_skip(s: Seq<char>, e: int)
    requires
        0 <= e <= s.len(),
        forall|j: int| e <= j < s.len() ==> is_whitespace(#[trigger] s[j]),
    ensures
        trim_end_seq(s) == trim_end_seq(s.subrange(0, e)),
    decreases s.len() - e,
{
    if e < s.len() {
        assert(s.drop_last().subrange(0, e) =~= s.subrange(0, e));
        lemma_trim_end_skip(s.drop_last(), e);
    } else {
        assert(s.subrange(0, e) =~= s);
    }
}

/// `str::trim` over a character slice.
pub fn trim_chars(s: &[char]) -> (out: Vec<char>)
    ensures
        out@ == trim_seq(s@),
{
    let mut a: usize = 0;
    while a < s.len() && char_is_whitespace(s[a])
        invariant
            a <= s@.len(),
            forall|j: int| 0 <= j < a ==> is_whitespace(#[trigger] s@[j]),
        decreases s@.len() - a,
    {
        a = a + 1;
    }
    proof {
        lemma_trim_start_skip(s@, a as int);
    }
    let ghost rest = s@.subrange(a as int, s@.len() as int);
    assert(trim_start_seq(rest) == rest);
    let mut e: usize = s.len();
    while e > a && char_is_whitespace(s[e - 1])
        invariant
            a <= e <= s@.len(),
            forall|j: int| e <= j < s@.len() ==> is_whitespace(#[trigger] s@[j]),
        decreases e,
    {
        e = e - 1;
    }
    proof {
        let r = rest;
        assert forall|j: int| e - a <= j < r.len() implies is_whitespace(#[trigger] r[j]) by {
            assert(r[j] == s@[a + j]);
        }
        lemma_trim_end_skip(r, e - a);
        assert(r.subrange(0, e - a) =~= s@.subrange(a as int, e as int));
        let t = s@.subrange(a as int, e as int);
        if t.len() > 0 {
            assert(t.last() == s@[e - 1]);
        }
    }
    let mut out: Vec<char> = Vec::new();
    let mut k: usize = a;
    while k < e
        invariant
            a <= k <= e <= s@.len(),
            out@ == s@.subrange(a as int, k as int),
        decreases e - k,
    {
        out.push(s[k]);
        k = k + 1;
    }
    out
}

/// The pieces of `s` between occurrences of `sep` (`str::split` with a
/// character pattern): `n` separators give `n + 1` pieces, empty ones kept.
pub open spec fn split_seq(s: Seq<char>, sep: char) -> Seq<Seq<char>>
    decreases s.len(),
{
    if s.len() == 0 {
        seq![Seq::<char>::empty()]
    } else {
        let rest = split_seq(s.drop_last(), sep);
        if s.last() == sep {
            rest.push(Seq::<char>::empty())
        } else {
            rest.update(rest.len() - 1, rest.last().push(s.last()))
        }
    }
}

proof fn lemma_split_nonempty(s: Seq<char>, sep: char)
    ensures
        split_seq(s, sep).len() >= 1,
    decreases s.len(),
{
    if s.len() > 0 {
        lemma_split_nonempty(s.drop_last(), sep);
    }
}

/// `str::split` on a single character, over a character slice.
pub fn split_chars(s: &[char], sep: char) -> (out: Vec<Vec<char>>)
    ensures
        out@.len() == split_seq(s@, sep).len(),
        forall|i: int| 0 <= i < out@.len() ==> #[trigger] out@[i]@ == split_seq(s@, sep)[i],
{
    let mut done: Vec<Vec<char>> = Vec::new();
    let mut cur: Vec<char> = Vec::new();
    let mut i: usize = 0;
    while i < s.len()
        invariant
            i <= s@.len(),
            done@.len() + 1 == split_seq(s@.subrange(0, i as int), sep).len(),
            forall|j: int|
                0 <= j < done@.len() ==> #[trigger] done@[j]@ == split_seq(
                    s@.subrange(0, i as int),
                    sep,
                )[j],
            cur@ == split_seq(s@.subrange(0, i as int), sep).last(),
        decreases s@.len() - i,
    {
        let ghost pre = s@.subrange(0, i as int);
        let ghost nxt = s@.subrange(0, i + 1);
        assert(nxt.drop_last() =~= pre);
        assert(nxt.last() == s@[i as int]);
        proof {
            lemma_split_nonempty(pre, sep);
        }
        let c = s[i];
        if c == sep {
            let piece = cur;
            done.push(piece);
            cur = Vec::new();
        } else {
            cur.push(c);
        }
        i = i + 1;
    }
    assert(s@.subrange(0, s@.len() as int) =~= s@);
    done.push(cur);
    done
}

/// The pieces of `s` between whitespace characters, empty pieces kept
/// (`str::split(char::is_whitespace)`).
pub open spec fn ws_split_seq(s: Seq<char>) -> Seq<Seq<char>>
    decreases s.len(),
{
    if s.len() == 0 {
        seq![Seq::<char>::empty()]
    } else {
        let rest = ws_split_seq(s.drop_last());
        if is_whitespace(s.last()) {
            rest.push(Seq::<char>::empty())
        } else {
            rest.update(rest.len() - 1, rest.last().push(s.last()))
        }
    }
}

/// The words of `s`: maximal runs of non-whitespace characters
/// (`str::split_whitespace`).
pub open spec fn words_seq(s: Seq<char>) -> Seq<Seq<char>> {
    ws_split_seq(s).filter(|w: Seq<char>| w.len() > 0)
}

proof fn lemma_ws_split_nonempty(s: Seq<char>)
    ensures
        ws_split_seq(s).len() >= 1,
    decreases s.len(),
{
    if s.len() > 0 {
        lemma_ws_split_nonempty(s.drop_last());
    }
}

/// `str::split_whitespace` over a character slice.
pub fn words_of(s: &[char]) -> (out: Vec<Vec<char>>)
    ensures
        out@.len() == words_seq(s@).len(),
        forall|i: int| 0 <= i < out@.len() ==> #[trigger] out@[i]@ == words_seq(s@)[i],
{
    let mut done: Vec<Vec<char>> = Vec::new();
    let mut cur: Vec<char> = Vec::new();
    let mut i: usize = 0;
    while i < s.len()
        invariant
            i <= s@.len(),
            done@.len() == ws_split_seq(s@.subrange(0, i as int)).drop_last().filter(
                |w: Seq<char>| w.len() > 0,
            ).len(),
            forall|j: int|
                0 <= j < done@.len() ==> #[trigger] done@[j]@ == ws_split_seq(
                    s@.subrange(0, i as int),
                ).drop_last().filter(|w: Seq<char>| w.len() > 0)[j],
            cur@ == ws_split_seq(s@.subrange(0, i as int)).last(),
        decreases s@.len() - i,
    {
        let ghost pre = s@.subrange(0, i as int);
        let ghost nxt = s@.subrange(0, i + 1);
        assert(nxt.drop_last() =~= pre);
        assert(nxt.last() == s@[i as int]);
        proof {
            lemma_ws_split_nonempty(pre);
            reveal(Seq::filter);
        }
        let ghost before = ws_split_seq(pre);
        let ghost done_before = done@;
        let c = s[i];
        if char_is_whitespace(c) {
            assert(ws_split_seq(nxt).drop_last() =~= before);
            assert(before =~= before.drop_last().push(before.last()));
            let piece = cur;
            if piece.len() > 0 {
                done.push(piece);
            }
            cur = Vec::new();
        } else {
            assert(ws_split_seq(nxt).drop_last() =~= before.drop_last());
            cur.push(c);
        }
        i = i + 1;
    }
    proof {
        assert(s@.subrange(0, s@.len() as int) =~= s@);
        lemma_ws_split_nonempty(s@);
        reveal(Seq::filter);
        let all = ws_split_seq(s@);
        assert(all =~= all.drop_last().push(all.last()));
    }
    if cur.len() > 0 {
        done.push(cur);
    }
    done
}

/// The length of the UTF-8 encoding of a text, in bytes (`str::len`).
pub open spec fn byte_len(s: Seq<char>) -> nat {
    vstd::utf8::encode_utf8(s).len()
}

/// The length of a text in bytes.
pub fn byte_length(s: &str) -> (n: usize)
    ensures
        n == byte_len(s@),
{
    s.as_bytes().len()
}

} // verus!
