//! Keywords of a text: its long enough words that are no stop words,
//! reduced to their letters and digits, each listed once in order of first
//! appearance.

use vstd::prelude::*;
use crate::text::{
    byte_len, byte_length, char_is_alphanumeric, is_alphanumeric, str_eq, string_from_chars, words_of, words_seq,
};

verus! {

/// Whether `w` is one of the listed words.
pub open spec fn is_listed(w: Seq<char>, list: Seq<&'static str>) -> bool {
    exists|j: int| 0 <= j < list.len() && (#[trigger] list[j])@ == w
}

/// The alphanumeric characters of a word.
pub open spec fn alnum_only(w: Seq<char>) -> Seq<char> {
    w.filter(|c: char| is_alphanumeric(c))
}

/// Whether a word of the text qualifies: at least `min_word` bytes and not
/// listed as a stop word.
pub open spec fn keyword_candidate(w: Seq<char>, stop: Seq<&'static str>, min_word: nat) -> bool {
    byte_len(w) >= min_word && !is_listed(w, stop)
}

/// `k` is a keyword of `text`: the alphanumeric part, of at least
/// `min_kept` bytes, of a qualifying word of the text.
pub open spec fn is_keyword_of(text: Seq<char>, stop: Seq<&'static str>, min_word: nat, min_kept: nat, k: Seq<char>) -> bool {
    exists|i: int|
        0 <= i < words_seq(text).len() && keyword_candidate(#[trigger] words_seq(text)[i], stop, min_word)
            && alnum_only(words_seq(text)[i]) == k && byte_len(k) >= min_kept
}

/// `ks` lists the keywords of `text`, each once.
pub open spec fn lists_keywords_of(
    text: Seq<char>,
    stop: Seq<&'static str>,
    min_word: nat,
    min_kept: nat,
    ks: Seq<String>,
) -> bool {
    &&& forall|j: int| 0 <= j < ks.len() ==> is_keyword_of(text, stop, min_word, min_kept, #[trigger] ks[j]@)
    &&& forall|j: int, l: int| 0 <= j < l < ks.len() ==> ks[j]@ != ks[l]@
    &&& forall|k: Seq<char>| #[trigger] is_keyword_of(text, stop, min_word, min_kept, k) ==> exists|j: int|
        0 <= j < ks.len() && ks[j]@ == k
}

/// Whether `w` is one of the listed words.
pub fn listed(w: &str, list: &[&'static str]) -> (r: bool)
    ensures
        r == is_listed(w@, list@),
{
    let mut j: usize = 0;
    while j < list.len()
        invariant
            j <= list@.len(),
            forall|q: int| 0 <= q < j ==> (#[trigger] list@[q])@ != w@,
        decreases list@.len() - j,
    {
        if str_eq(list[j], w) {
            return true;
        }
        j = j + 1;
    }
    false
}

/// The alphanumeric characters of a word.
pub fn keep_alnum(w: &[char]) -> (out: Vec<char>)
    ensures
        out@ == alnum_only(w@),
{
    let mut out: Vec<char> = Vec::new();
    let mut i: usize = 0;
    while i < w.len()
        invariant
            i <= w@.len(),
            out@ == w@.subrange(0, i as int).filter(|c: char| is_alphanumeric(c)),
        decreases w@.len() - i,
    {
        proof {
            reveal(Seq::filter);
            assert(w@.subrange(0, i + 1).drop_last() =~= w@.subrange(0, i as int));
        }
        if char_is_alphanumeric(w[i]) {
            out.push(w[i]);
        }
        i = i + 1;
    }
    assert(w@.subrange(0, w@.len() as int) =~= w@);
    out
}

/// Whether `s` is among the strings of `v`.
pub fn contains_string(v: &Vec<String>, s: &str) -> (r: bool)
    ensures
        r == exists|j: int| 0 <= j < v@.len() && #[trigger] v@[j]@ == s@,
{
    let mut j: usize = 0;
    while j < v.len()
        invariant
            j <= v@.len(),
            forall|q: int| 0 <= q < j ==> #[trigger] v@[q]@ != s@,
        decreases v@.len() - j,
    {
        if str_eq(v[j].as_str(), s) {
            return true;
        }
        j = j + 1;
    }
    false
}

/// The keywords of `text` (see [`lists_keywords_of`]): its
/// whitespace-separated words of at least `min_word` bytes that are no stop
/// words, reduced to their alphanumeric characters and kept when at least
/// `min_kept` bytes remain; each once, in order of first appearance.
pub fn keywords_in(text: &str, stop: &[&'static str], min_word: usize, min_kept: usize) -> (ks: Vec<String>)
    ensures
        lists_keywords_of(text@, stop@, min_word as nat, min_kept as nat, ks@),
{
    let cs = crate::text::chars_of(text);
    let words = words_of(&cs);
    let ghost ws = words_seq(text@);
    let mut ks: Vec<String> = Vec::new();
    let mut i: usize = 0;
    while i < words.len()
        invariant
            i <= words@.len(),
            words@.len() == ws.len(),
            ws == words_seq(text@),
            forall|j: int| 0 <= j < words@.len() ==> #[trigger] words@[j]@ == ws[j],
            forall|j: int| 0 <= j < ks@.len() ==> is_keyword_of(text@, stop@, min_word as nat, min_kept as nat, #[trigger] ks@[j]@),
            forall|j: int, l: int| 0 <= j < l < ks@.len() ==> ks@[j]@ != ks@[l]@,
            forall|q: int|
                #![trigger ws[q]]
                0 <= q < i && keyword_candidate(ws[q], stop@, min_word as nat) && byte_len(alnum_only(ws[q])) >= min_kept
                    ==> exists|j: int| 0 <= j < ks@.len() && ks@[j]@ == alnum_only(ws[q]),
        decreases words@.len() - i,
    {
        let w = string_from_chars(words[i].as_slice());
        assert(w@ == ws[i as int]);
        if byte_length(w.as_str()) >= min_word && !listed(w.as_str(), stop) {
            let kept = keep_alnum(words[i].as_slice());
            let k = string_from_chars(kept.as_slice());
            if byte_length(k.as_str()) >= min_kept {
                if !contains_string(&ks, k.as_str()) {
                    let ghost before = ks@;
                    ks.push(k);
                    proof {
                        assert forall|q: int|
                            #![trigger ws[q]]
                            0 <= q < i + 1 && keyword_candidate(ws[q], stop@, min_word as nat) && byte_len(alnum_only(ws[q]))
                                >= min_kept implies exists|j: int| 0 <= j < ks@.len() && ks@[j]@ == alnum_only(ws[q]) by {
                            if q < i {
                                let j = choose|j: int| 0 <= j < before.len() && before[j]@ == alnum_only(ws[q]);
                                assert(ks@[j] == before[j]);
                            } else {
                                assert(ks@[before.len() as int]@ == alnum_only(ws[q]));
                            }
                        }
                    }
                }
            }
        }
        i = i + 1;
    }
    proof {
        assert forall|k: Seq<char>| #[trigger] is_keyword_of(text@, stop@, min_word as nat, min_kept as nat, k) implies exists|j: int|
            0 <= j < ks@.len() && ks@[j]@ == k by {
            let q = choose|q: int|
                0 <= q < ws.len() && keyword_candidate(#[trigger] ws[q], stop@, min_word as nat) && alnum_only(ws[q]) == k
                    && byte_len(k) >= min_kept;
            assert(ws[q] == ws[q]);
        }
    }
    ks
}

} // verus!
