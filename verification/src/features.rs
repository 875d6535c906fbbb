//! Counting features of text used by the pseudo-embeddings: punctuation,
//! numbers, sentences, paragraphs, hashtags, mentions and character and word
//! frequencies. The floating-point embedding built from them lives outside
//! this crate.

use vstd::prelude::*;
use crate::block::Block;
use crate::text::{chars_of, char_is_alphanumeric, char_is_numeric, char_is_whitespace, is_alphanumeric, is_numeric, is_whitespace, lowercase, push_str, string_from_chars, str_eq, to_lowercase, words_of, words_seq};

verus! {

/// The number of occurrences of `c` in `s`.
pub open spec fn occurrences(s: Seq<char>, c: char) -> nat
    decreases s.len(),
{
    if s.len() == 0 {
        0
    } else {
        occurrences(s.drop_last(), c) + if s.last() == c {
            1nat
        } else {
            0nat
        }
    }
}

/// Whether a word reads as a number: only numeric characters, `.` and `,`.
pub open spec fn is_number_word(w: Seq<char>) -> bool {
    forall|i: int| 0 <= i < w.len() ==> is_numeric(#[trigger] w[i]) || w[i] == '.' || w[i] == ','
}

/// The number of words satisfying a predicate.
pub open spec fn count_words(ws: Seq<Seq<char>>, p: spec_fn(Seq<char>) -> bool) -> nat
    decreases ws.len(),
{
    if ws.len() == 0 {
        0
    } else {
        count_words(ws.drop_last(), p) + if p(ws.last()) {
            1nat
        } else {
            0nat
        }
    }
}

/// Sentence scanning state after reading `s`: sentences closed so far, and
/// whether the last thing read closed one (or nothing was read yet).
pub open spec fn sentence_scan(s: Seq<char>) -> (nat, bool)
    decreases s.len(),
{
    if s.len() == 0 {
        (0, true)
    } else {
        let (n, at_end) = sentence_scan(s.drop_last());
        let c = s.last();
        if c == '.' || c == '!' || c == '?' {
            if !at_end {
                (n + 1, true)
            } else {
                (n, true)
            }
        } else if is_alphanumeric(c) {
            (n, false)
        } else {
            (n, at_end)
        }
    }
}

/// The number of sentences: runs of text ending in `.`, `!` or `?` that hold
/// an alphanumeric character, counting an unterminated last one; at least 1.
pub open spec fn sentence_count_spec(s: Seq<char>) -> nat {
    let (n, at_end) = sentence_scan(s);
    let total = if at_end {
        n
    } else {
        n + 1
    };
    if total == 0 {
        1
    } else {
        total
    }
}

/// The pieces of `s` between (non-overlapping, leftmost) occurrences of a
/// blank line `"\n\n"` (`str::split("\n\n")`).
pub open spec fn paragraph_pieces(s: Seq<char>) -> Seq<Seq<char>>
    decreases s.len(),
{
    if s.len() == 0 {
        seq![Seq::<char>::empty()]
    } else if s.len() >= 2 && s[0] == '\n' && s[1] == '\n' {
        seq![Seq::<char>::empty()] + paragraph_pieces(s.subrange(2, s.len() as int))
    } else {
        let rest = paragraph_pieces(s.drop_first());
        rest.update(0, seq![s[0]] + rest[0])
    }
}

/// Whether a piece of text holds a non-whitespace character (so that it is
/// not empty once trimmed).
pub open spec fn has_content(p: Seq<char>) -> bool {
    exists|i: int| 0 <= i < p.len() && !is_whitespace(#[trigger] p[i])
}

/// The number of pieces holding a non-whitespace character.
pub open spec fn count_with_content(ps: Seq<Seq<char>>) -> nat
    decreases ps.len(),
{
    if ps.len() == 0 {
        0
    } else {
        (if has_content(ps[0]) {
            1nat
        } else {
            0nat
        }) + count_with_content(ps.drop_first())
    }
}

/// The number of paragraphs: pieces between blank lines that are not blank;
/// at least 1.
pub open spec fn paragraph_count_spec(s: Seq<char>) -> nat {
    let n = count_with_content(paragraph_pieces(s));
    if n == 0 {
        1
    } else {
        n
    }
}

/// The text embedded for a raw string: lowercased, then only alphanumeric and
/// whitespace characters kept, then lowercased again.
pub open spec fn prepared_raw(s: Seq<char>) -> Seq<char> {
    lowercase(lowercase(s).filter(|c: char| is_alphanumeric(c) || is_whitespace(c)))
}

/// Tags joined with single spaces.
pub open spec fn join_spaces(parts: Seq<Seq<char>>) -> Seq<char>
    decreases parts.len(),
{
    if parts.len() == 0 {
        seq![]
    } else if parts.len() == 1 {
        parts[0]
    } else {
        join_spaces(parts.drop_last()) + " "@ + parts.last()
    }
}

/// The text embedded for a block: the title (unless empty or the default
/// "Fleeting Note"), the content, and the tags when there are any, joined by
/// spaces.
pub open spec fn prepared_block_text(title: Seq<char>, content: Seq<char>, tags: Seq<Seq<char>>) -> Seq<char> {
    let with_title = if title.len() > 0 && title != "Fleeting Note"@ {
        title + " "@ + content
    } else {
        content
    };
    if tags.len() > 0 {
        with_title + " "@ + join_spaces(tags)
    } else {
        with_title
    }
}

/// Characters that count towards the character frequencies.
pub open spec fn counted_char(c: char) -> bool {
    is_alphanumeric(c) || is_whitespace(c)
}

/// Whether `pairs` lists each counted character of `s` exactly once with its
/// number of occurrences, most frequent first.
pub open spec fn is_char_frequency(s: Seq<char>, pairs: Seq<(char, usize)>) -> bool {
    &&& forall|i: int| 0 <= i < pairs.len() ==> counted_char(#[trigger] pairs[i].0)
        && pairs[i].1 as nat == occurrences(s, pairs[i].0) && s.contains(pairs[i].0)
    &&& forall|i: int, j: int| 0 <= i < j < pairs.len() ==> pairs[i].0 != pairs[j].0
    &&& forall|c: char| #[trigger] s.contains(c) && counted_char(c) ==> exists|i: int|
        0 <= i < pairs.len() && pairs[i].0 == c
    &&& forall|i: int, j: int| 0 <= i < j < pairs.len() ==> pairs[i].1 >= pairs[j].1
}

/// The pseudo-embedding generator. It holds no state.
#[derive(Debug, Clone, Copy)]
pub struct EmbeddingGenerator {}

proof fn lemma_occurrences_bound(s: Seq<char>, c: char)
    ensures
        occurrences(s, c) <= s.len(),
    decreases s.len(),
{
    if s.len() > 0 {
        lemma_occurrences_bound(s.drop_last(), c);
    }
}

proof fn lemma_count_words_bound(ws: Seq<Seq<char>>, p: spec_fn(Seq<char>) -> bool)
    ensures
        count_words(ws, p) <= ws.len(),
    decreases ws.len(),
{
    if ws.len() > 0 {
        lemma_count_words_bound(ws.drop_last(), p);
    }
}

/// Counts the occurrences of a character.
pub fn count_char(s: &[char], c: char) -> (n: usize)
    ensures
        n == occurrences(s@, c),
{
    let mut n: usize = 0;
    let mut i: usize = 0;
    while i < s.len()
        invariant
            i <= s@.len(),
            n == occurrences(s@.subrange(0, i as int), c),
            n <= i,
        decreases s@.len() - i,
    {
        assert(s@.subrange(0, i + 1).drop_last() =~= s@.subrange(0, i as int));
        if s[i] == c {
            n = n + 1;
        }
        i = i + 1;
    }
    assert(s@.subrange(0, s@.len() as int) =~= s@);
    n
}

fn is_number_word_exec(w: &[char]) -> (b: bool)
    ensures
        b == is_number_word(w@),
{
    let mut i: usize = 0;
    while i < w.len()
        invariant
            i <= w@.len(),
            forall|j: int| 0 <= j < i ==> is_numeric(#[trigger] w@[j]) || w@[j] == '.' || w@[j] == ',',
        decreases w@.len() - i,
    {
        let c = w[i];
        if !(char_is_numeric(c) || c == '.' || c == ',') {
            return false;
        }
        i = i + 1;
    }
    true
}

impl EmbeddingGenerator {
    /// A generator.
    pub fn new() -> (g: EmbeddingGenerator) {
        EmbeddingGenerator {}
    }

    /// The number of `?` characters.
    pub fn question_marks(&self, text: &str) -> (n: usize)
        ensures
            n == occurrences(text@, '?'),
    {
        let cs = chars_of(text);
        count_char(&cs, '?')
    }

    /// The number of `!` characters.
    pub fn exclamation_marks(&self, text: &str) -> (n: usize)
        ensures
            n == occurrences(text@, '!'),
    {
        let cs = chars_of(text);
        count_char(&cs, '!')
    }

    /// The number of words made only of numeric characters, `.` and `,`.
    pub fn number_count(&self, text: &str) -> (n: usize)
        ensures
            n == count_words(words_seq(text@), |w: Seq<char>| is_number_word(w)),
    {
        let cs = chars_of(text);
        let ws = words_of(&cs);
        let ghost all = words_seq(text@);
        let mut n: usize = 0;
        let mut i: usize = 0;
        while i < ws.len()
            invariant
                i <= ws@.len(),
                ws@.len() == all.len(),
                forall|j: int| 0 <= j < ws@.len() ==> #[trigger] ws@[j]@ == all[j],
                n == count_words(all.subrange(0, i as int), |w: Seq<char>| is_number_word(w)),
                n <= i,
            decreases ws@.len() - i,
        {
            assert(all.subrange(0, i + 1).drop_last() =~= all.subrange(0, i as int));
            if is_number_word_exec(ws[i].as_slice()) {
                n = n + 1;
            }
            i = i + 1;
        }
        assert(all.subrange(0, all.len() as int) =~= all);
        n
    }

    /// The number of words starting with `first`.
    fn words_starting_with(&self, text: &str, first: char) -> (n: usize)
        ensures
            n == count_words(words_seq(text@), |w: Seq<char>| w.len() > 0 && w[0] == first),
    {
        let cs = chars_of(text);
        let ws = words_of(&cs);
        let ghost all = words_seq(text@);
        let mut n: usize = 0;
        let mut i: usize = 0;
        while i < ws.len()
            invariant
                i <= ws@.len(),
                ws@.len() == all.len(),
                forall|j: int| 0 <= j < ws@.len() ==> #[trigger] ws@[j]@ == all[j],
                n == count_words(all.subrange(0, i as int), |w: Seq<char>| w.len() > 0 && w[0] == first),
                n <= i,
            decreases ws@.len() - i,
        {
            assert(all.subrange(0, i + 1).drop_last() =~= all.subrange(0, i as int));
            if ws[i].len() > 0 && ws[i][0] == first {
                n = n + 1;
            }
            i = i + 1;
        }
        assert(all.subrange(0, all.len() as int) =~= all);
        n
    }

    /// The number of words starting with `#`.
    pub fn hashtag_count(&self, text: &str) -> (n: usize)
        ensures
            n == count_words(words_seq(text@), |w: Seq<char>| w.len() > 0 && w[0] == '#'),
    {
        self.words_starting_with(text, '#')
    }

    /// The number of words starting with `@`.
    pub fn mention_count(&self, text: &str) -> (n: usize)
        ensures
            n == count_words(words_seq(text@), |w: Seq<char>| w.len() > 0 && w[0] == '@'),
    {
        self.words_starting_with(text, '@')
    }

    /// The number of sentences (see [`sentence_count_spec`]).
    pub fn sentence_count(&self, text: &str) -> (n: usize)
        ensures
            n == sentence_count_spec(text@),
    {
        let cs = chars_of(text);
        let mut count: usize = 0;
        let mut prev_was_end = true;
        let mut i: usize = 0;
        while i < cs.len()
            invariant
                i <= cs@.len(),
                cs@ == text@,
                sentence_scan(cs@.subrange(0, i as int)) == (count as nat, prev_was_end),
                count + (if prev_was_end { 0int } else { 1int }) <= i,
            decreases cs@.len() - i,
        {
            assert(cs@.subrange(0, i + 1).drop_last() =~= cs@.subrange(0, i as int));
            let c = cs[i];
            if c == '.' || c == '!' || c == '?' {
                if !prev_was_end {
                    count = count + 1;
                    prev_was_end = true;
                }
            } else if char_is_alphanumeric(c) {
                prev_was_end = false;
            }
            i = i + 1;
        }
        assert(cs@.subrange(0, cs@.len() as int) =~= cs@);
        if !prev_was_end {
            count = count + 1;
        }
        if count == 0 {
            1
        } else {
            count
        }
    }

    /// The number of paragraphs (see [`paragraph_count_spec`]).
    pub fn paragraph_count(&self, text: &str) -> (n: usize)
        ensures
            n == paragraph_count_spec(text@),
    {
        let cs = chars_of(text);
        let len = cs.len();
        // Scanning from the end: for the suffix starting at `i`, `rest` counts
        // the non-blank pieces after the first one, `first` says whether the
        // first piece is non-blank; `(rest1, first1)` describe suffix `i + 1`.
        let mut rest: usize = 0;
        let mut first = false;
        let mut rest1: usize = 0;
        let mut first1 = false;
        let mut i: usize = len;
        proof {
            let e = cs@.subrange(len as int, len as int);
            assert(e.len() == 0);
            assert(paragraph_pieces(e) =~= seq![Seq::<char>::empty()]);
            lemma_count_split(paragraph_pieces(e));
        }
        while i > 0
            invariant
                i <= len,
                len == cs@.len(),
                cs@ == text@,
                pieces_summary(cs@.subrange(i as int, len as int)) == (rest as nat, first),
                i < len ==> pieces_summary(cs@.subrange(i + 1, len as int)) == (rest1 as nat, first1),
                rest + (if first { 1int } else { 0int }) <= len - i,
                i < len ==> rest1 + (if first1 { 1int } else { 0int }) <= len - i - 1,
            decreases i,
        {
            let j = i - 1;
            let ghost s = cs@.subrange(j as int, len as int);
            proof {
                assert(s.drop_first() =~= cs@.subrange(i as int, len as int));
                if s.len() >= 2 {
                    assert(s.subrange(2, s.len() as int) =~= cs@.subrange(i + 1, len as int));
                }
                lemma_summary_step(s);
            }
            let c = cs[j];
            let blank_line = j + 1 < len && c == '\n' && cs[j + 1] == '\n';
            let (nr, nf) = if blank_line {
                (rest1 + (if first1 { 1usize } else { 0usize }), false)
            } else {
                (rest, first || !char_is_whitespace(c))
            };
            rest1 = rest;
            first1 = first;
            rest = nr;
            first = nf;
            i = j;
        }
        assert(cs@.subrange(0, len as int) =~= cs@);
        proof {
            lemma_pieces_nonempty(cs@);
            lemma_count_split(paragraph_pieces(cs@));
        }
        let total = rest + if first { 1usize } else { 0usize };
        if total == 0 {
            1
        } else {
            total
        }
    }

    /// The text embedded for a raw string (see [`prepared_raw`]).
    pub fn prepare_text_raw(&self, text: &str) -> (out: String)
        ensures
            out@ == prepared_raw(text@),
    {
        let lower = to_lowercase(text);
        let cs = chars_of(lower.as_str());
        let mut kept: Vec<char> = Vec::new();
        let mut i: usize = 0;
        while i < cs.len()
            invariant
                i <= cs@.len(),
                cs@ == lowercase(text@),
                kept@ == cs@.subrange(0, i as int).filter(|c: char| is_alphanumeric(c) || is_whitespace(c)),
            decreases cs@.len() - i,
        {
            proof {
                reveal(Seq::filter);
                assert(cs@.subrange(0, i + 1).drop_last() =~= cs@.subrange(0, i as int));
            }
            let c = cs[i];
            if char_is_alphanumeric(c) || char_is_whitespace(c) {
                kept.push(c);
            }
            i = i + 1;
        }
        assert(cs@.subrange(0, cs@.len() as int) =~= cs@);
        let filtered = string_from_chars(&kept);
        to_lowercase(filtered.as_str())
    }

    /// The text embedded for a block (see [`prepared_block_text`]).
    pub fn prepare_text(&self, block: &Block) -> (out: String)
        ensures
            out@ == prepared_block_text(block.title@, block.content@, block.tags.deep_view()),
    {
        let mut out = String::new();
        let title = block.title.as_str();
        if !title.is_empty() && !str_eq(title, "Fleeting Note") {
            push_str(&mut out, title);
            push_str(&mut out, " ");
        }
        push_str(&mut out, block.content.as_str());
        if block.tags.len() > 0 {
            push_str(&mut out, " ");
            let joined = join_with_spaces(&block.tags);
            push_str(&mut out, joined.as_str());
        }
        proof {
            if block.title@.len() > 0 && block.title@ != "Fleeting Note"@ {
                assert(out@ =~= prepared_block_text(block.title@, block.content@, block.tags.deep_view()));
            }
        }
        out
    }

    /// Character frequencies of the alphanumeric and whitespace characters,
    /// most frequent first (see [`is_char_frequency`]).
    pub fn char_frequency(&self, text: &str) -> (pairs: Vec<(char, usize)>)
        ensures
            is_char_frequency(text@, pairs@),
    {
        let cs = chars_of(text);
        let counts = count_chars(&cs);
        sort_by_count_desc(counts, Ghost(cs@))
    }
}

/// Summary of the pieces of a text split at blank lines: the number of
/// non-blank pieces after the first, and whether the first is non-blank.
pub open spec fn pieces_summary(s: Seq<char>) -> (nat, bool) {
    let ps = paragraph_pieces(s);
    (count_with_content(ps.drop_first()), has_content(ps[0]))
}

proof fn lemma_pieces_nonempty(s: Seq<char>)
    ensures
        paragraph_pieces(s).len() >= 1,
    decreases s.len(),
{
    if s.len() > 0 {
        if s.len() >= 2 && s[0] == '\n' && s[1] == '\n' {
            lemma_pieces_nonempty(s.subrange(2, s.len() as int));
        } else {
            lemma_pieces_nonempty(s.drop_first());
        }
    }
}

proof fn lemma_count_split(ps: Seq<Seq<char>>)
    requires
        ps.len() >= 1,
    ensures
        count_with_content(ps) == count_with_content(ps.drop_first()) + if has_content(ps[0]) {
            1nat
        } else {
            0nat
        },
{
}

proof fn lemma_summary_step(s: Seq<char>)
    requires
        s.len() >= 1,
    ensures
        (s.len() >= 2 && s[0] == '\n' && s[1] == '\n') ==> pieces_summary(s) == ({
            let (r, f) = pieces_summary(s.subrange(2, s.len() as int));
            ((r + if f {
                1nat
            } else {
                0nat
            }) as nat, false)
        }),
        !(s.len() >= 2 && s[0] == '\n' && s[1] == '\n') ==> pieces_summary(s) == ({
            let (r, f) = pieces_summary(s.drop_first());
            (r, f || !is_whitespace(s[0]))
        }),
{
    if s.len() >= 2 && s[0] == '\n' && s[1] == '\n' {
        let t = s.subrange(2, s.len() as int);
        lemma_pieces_nonempty(t);
        let pt = paragraph_pieces(t);
        let ps = paragraph_pieces(s);
        assert(ps =~= seq![Seq::<char>::empty()] + pt);
        assert(ps.drop_first() =~= pt);
        assert(!has_content(ps[0]));
        lemma_count_split(pt);
    } else {
        let t = s.drop_first();
        lemma_pieces_nonempty(t);
        let pt = paragraph_pieces(t);
        let ps = paragraph_pieces(s);
        assert(ps.drop_first() =~= pt.drop_first());
        let p0 = seq![s[0]] + pt[0];
        assert(ps[0] == p0);
        if has_content(p0) {
            let k = choose|k: int| 0 <= k < p0.len() && !is_whitespace(#[trigger] p0[k]);
            if k > 0 {
                assert(pt[0][k - 1] == p0[k]);
            }
        }
        if has_content(pt[0]) {
            let k = choose|k: int| 0 <= k < pt[0].len() && !is_whitespace(#[trigger] pt[0][k]);
            assert(p0[k + 1] == pt[0][k]);
        }
        if !is_whitespace(s[0]) {
            assert(p0[0] == s[0]);
        }
    }
}

/// Joins strings with single spaces.
pub fn join_with_spaces(parts: &Vec<String>) -> (out: String)
    ensures
        out@ == join_spaces(parts.deep_view()),
{
    let mut out = String::new();
    let mut i: usize = 0;
    while i < parts.len()
        invariant
            i <= parts@.len(),
            out@ == join_spaces(parts.deep_view().subrange(0, i as int)),
        decreases parts@.len() - i,
    {
        let ghost pre = parts.deep_view().subrange(0, i as int);
        let ghost nxt = parts.deep_view().subrange(0, i + 1);
        assert(nxt.drop_last() =~= pre);
        if i > 0 {
            push_str(&mut out, " ");
        }
        push_str(&mut out, parts[i].as_str());
        proof {
            if i == 0 {
                assert(out@ =~= nxt[0]);
            }
        }
        i = i + 1;
    }
    assert(parts.deep_view().subrange(0, parts@.len() as int) =~= parts.deep_view());
    out
}

/// The index of the entry for character `c`, if there is one.
fn find_char(pairs: &Vec<(char, usize)>, c: char) -> (r: Option<usize>)
    ensures
        match r {
            Some(k) => k < pairs@.len() && pairs@[k as int].0 == c,
            None => forall|l: int| 0 <= l < pairs@.len() ==> #[trigger] pairs@[l].0 != c,
        },
{
    let mut k: usize = 0;
    while k < pairs.len()
        invariant
            k <= pairs@.len(),
            forall|l: int| 0 <= l < k ==> #[trigger] pairs@[l].0 != c,
        decreases pairs@.len() - k,
    {
        if pairs[k].0 == c {
            return Some(k);
        }
        k = k + 1;
    }
    None
}

/// Counts each counted character in order of first occurrence.
fn count_chars(cs: &[char]) -> (pairs: Vec<(char, usize)>)
    ensures
        forall|i: int| 0 <= i < pairs@.len() ==> counted_char(#[trigger] pairs@[i].0)
            && pairs@[i].1 as nat == occurrences(cs@, pairs@[i].0) && cs@.contains(pairs@[i].0),
        forall|i: int, j: int| 0 <= i < j < pairs@.len() ==> pairs@[i].0 != pairs@[j].0,
        forall|c: char| #[trigger] cs@.contains(c) && counted_char(c) ==> exists|i: int|
            0 <= i < pairs@.len() && pairs@[i].0 == c,
{
    let mut pairs: Vec<(char, usize)> = Vec::new();
    let mut i: usize = 0;
    while i < cs.len()
        invariant
            i <= cs@.len(),
            forall|k: int| 0 <= k < pairs@.len() ==> counted_char(#[trigger] pairs@[k].0)
                && pairs@[k].1 as nat == occurrences(cs@.subrange(0, i as int), pairs@[k].0)
                && cs@.subrange(0, i as int).contains(pairs@[k].0),
            forall|k: int, l: int| 0 <= k < l < pairs@.len() ==> pairs@[k].0 != pairs@[l].0,
            forall|c: char| #[trigger] cs@.subrange(0, i as int).contains(c) && counted_char(c) ==> exists|k: int|
                0 <= k < pairs@.len() && pairs@[k].0 == c,
        decreases cs@.len() - i,
    {
        let c = cs[i];
        let ghost pre = cs@.subrange(0, i as int);
        let ghost nxt = cs@.subrange(0, i + 1);
        assert(nxt.drop_last() =~= pre);
        assert(nxt.last() == c);
        proof {
            lemma_occurrences_bound(pre, c);
        }
        if char_is_alphanumeric(c) || char_is_whitespace(c) {
            let found_at = find_char(&pairs, c);
            if let Some(k) = found_at {
                let ghost old_pairs = pairs@;
                let (ch, n) = pairs[k];
                assert(n as nat == occurrences(pre, c));
                assert(n < i + 1);
                pairs.set(k, (ch, n + 1));
                assert forall|l: int| 0 <= l < pairs@.len() implies counted_char(#[trigger] pairs@[l].0)
                    && pairs@[l].1 as nat == occurrences(nxt, pairs@[l].0) && nxt.contains(pairs@[l].0) by {
                    assert(old_pairs[l].0 == pairs@[l].0);
                    let w = choose|w: int| 0 <= w < pre.len() && pre[w] == old_pairs[l].0;
                    assert(nxt[w] == pre[w]);
                }
                assert forall|d: char| #[trigger] nxt.contains(d) && counted_char(d) implies exists|l: int|
                    0 <= l < pairs@.len() && pairs@[l].0 == d by {
                    let w = choose|w: int| 0 <= w < nxt.len() && nxt[w] == d;
                    if w < pre.len() {
                        assert(pre[w] == d);
                        assert(pre.contains(d));
                        let l = choose|l: int| 0 <= l < old_pairs.len() && old_pairs[l].0 == d;
                        assert(pairs@[l].0 == d);
                    } else {
                        assert(pairs@[k as int].0 == d);
                    }
                }
            } else {
                let ghost old_pairs = pairs@;
                assert(!pre.contains(c)) by {
                    if pre.contains(c) {
                        let l = choose|l: int| 0 <= l < old_pairs.len() && old_pairs[l].0 == c;
                        assert(old_pairs[l].0 != c);
                    }
                }
                assert(occurrences(pre, c) == 0) by {
                    lemma_occurrences_zero(pre, c);
                }
                pairs.push((c, 1));
                assert(nxt[i as int] == c);
                assert forall|l: int| 0 <= l < pairs@.len() implies counted_char(#[trigger] pairs@[l].0)
                    && pairs@[l].1 as nat == occurrences(nxt, pairs@[l].0) && nxt.contains(pairs@[l].0) by {
                    if l < old_pairs.len() {
                        assert(old_pairs[l].0 == pairs@[l].0);
                        let w = choose|w: int| 0 <= w < pre.len() && pre[w] == old_pairs[l].0;
                        assert(nxt[w] == pre[w]);
                    }
                }
                assert forall|d: char| #[trigger] nxt.contains(d) && counted_char(d) implies exists|l: int|
                    0 <= l < pairs@.len() && pairs@[l].0 == d by {
                    let w = choose|w: int| 0 <= w < nxt.len() && nxt[w] == d;
                    if w < pre.len() {
                        assert(pre[w] == d);
                        assert(pre.contains(d));
                        let l = choose|l: int| 0 <= l < old_pairs.len() && old_pairs[l].0 == d;
                        assert(pairs@[l].0 == d);
                    } else {
                        assert(pairs@[old_pairs.len() as int].0 == d);
                    }
                }
            }
        } else {
            let ghost old_pairs = pairs@;
            assert forall|l: int| 0 <= l < pairs@.len() implies counted_char(#[trigger] pairs@[l].0)
                && pairs@[l].1 as nat == occurrences(nxt, pairs@[l].0) && nxt.contains(pairs@[l].0) by {
                let w = choose|w: int| 0 <= w < pre.len() && pre[w] == old_pairs[l].0;
                assert(nxt[w] == pre[w]);
            }
            assert forall|d: char| #[trigger] nxt.contains(d) && counted_char(d) implies exists|l: int|
                0 <= l < pairs@.len() && pairs@[l].0 == d by {
                let w = choose|w: int| 0 <= w < nxt.len() && nxt[w] == d;
                if w < pre.len() {
                    assert(pre[w] == d);
                    assert(pre.contains(d));
                } else {
                    assert(nxt[w] == c);
                }
            }
        }
        i = i + 1;
    }
    assert(cs@.subrange(0, cs@.len() as int) =~= cs@);
    pairs
}

proof fn lemma_occurrences_zero(s: Seq<char>, c: char)
    requires
        !s.contains(c),
    ensures
        occurrences(s, c) == 0,
    decreases s.len(),
{
    if s.len() > 0 {
        assert(!s.drop_last().contains(c)) by {
            if s.drop_last().contains(c) {
                let w = choose|w: int| 0 <= w < s.drop_last().len() && s.drop_last()[w] == c;
                assert(s[w] == c);
            }
        }
        lemma_occurrences_zero(s.drop_last(), c);
        assert(s[s.len() - 1] != c);
    }
}

/// Every entry of `out` is one of the first `n` entries of `pairs`.
pub open spec fn drawn_from(out: Seq<(char, usize)>, pairs: Seq<(char, usize)>, n: int) -> bool {
    forall|k: int| #![trigger out[k]] 0 <= k < out.len() ==> exists|l: int| 0 <= l < n && out[k] == #[trigger] pairs[l]
}

/// Each of the first `n` entries of `pairs` is an entry of `out`.
pub open spec fn covers(out: Seq<(char, usize)>, pairs: Seq<(char, usize)>, n: int) -> bool {
    forall|l: int| #![trigger pairs[l]] 0 <= l < n ==> exists|k: int| 0 <= k < out.len() && #[trigger] out[k] == pairs[l]
}

/// No character is listed twice.
pub open spec fn distinct_keys(out: Seq<(char, usize)>) -> bool {
    forall|k: int, l: int| 0 <= k < l < out.len() ==> out[k].0 != out[l].0
}

/// Counts never increase along the list.
pub open spec fn counts_descending(out: Seq<(char, usize)>) -> bool {
    forall|k: int, l: int| 0 <= k < l < out.len() ==> out[k].1 >= out[l].1
}

/// Inserting the next entry of `pairs` after every entry with a count at
/// least as large keeps the list drawn from, and covering, the entries seen.
proof fn lemma_insert_membership(old_out: Seq<(char, usize)>, pairs: Seq<(char, usize)>, i: int, p: int)
    requires
        0 <= i < pairs.len(),
        0 <= p <= old_out.len(),
        drawn_from(old_out, pairs, i),
        covers(old_out, pairs, i),
    ensures
        drawn_from(old_out.insert(p, pairs[i]), pairs, i + 1),
        covers(old_out.insert(p, pairs[i]), pairs, i + 1),
{
    let out = old_out.insert(p, pairs[i]);
    assert forall|k: int| #![trigger out[k]] 0 <= k < out.len() implies exists|l: int|
        0 <= l < i + 1 && out[k] == #[trigger] pairs[l] by {
        if k < p {
            assert(out[k] == old_out[k]);
        } else if k == p {
            assert(out[k] == pairs[i]);
        } else {
            assert(out[k] == old_out[k - 1]);
        }
    }
    assert forall|l: int| #![trigger pairs[l]] 0 <= l < i + 1 implies exists|k: int|
        0 <= k < out.len() && #[trigger] out[k] == pairs[l] by {
        if l == i {
            assert(out[p] == pairs[l]);
        } else {
            let k = choose|k: int| 0 <= k < old_out.len() && #[trigger] old_out[k] == pairs[l];
            if k < p {
                assert(out[k] == pairs[l]);
            } else {
                assert(out[k + 1] == pairs[l]);
            }
        }
    }
}

/// The same insertion keeps characters distinct, given that the new entry's
/// character is new, and keeps counts descending.
proof fn lemma_insert_order(old_out: Seq<(char, usize)>, item: (char, usize), p: int)
    requires
        0 <= p <= old_out.len(),
        distinct_keys(old_out),
        counts_descending(old_out),
        forall|k: int| 0 <= k < old_out.len() ==> #[trigger] old_out[k].0 != item.0,
        forall|k: int| 0 <= k < p ==> #[trigger] old_out[k].1 >= item.1,
        forall|k: int| p <= k < old_out.len() ==> #[trigger] old_out[k].1 < item.1,
    ensures
        distinct_keys(old_out.insert(p, item)),
        counts_descending(old_out.insert(p, item)),
{
    let out = old_out.insert(p, item);
    assert forall|k: int, l: int| 0 <= k < l < out.len() implies out[k].0 != out[l].0 by {
        if k < p {
            assert(out[k] == old_out[k]);
        } else if k > p {
            assert(out[k] == old_out[k - 1]);
        }
        if l < p {
            assert(out[l] == old_out[l]);
        } else if l > p {
            assert(out[l] == old_out[l - 1]);
        }
    }
    assert forall|k: int, l: int| 0 <= k < l < out.len() implies out[k].1 >= out[l].1 by {
        if k < p {
            assert(out[k] == old_out[k]);
        } else if k > p {
            assert(out[k] == old_out[k - 1]);
        }
        if l < p {
            assert(out[l] == old_out[l]);
        } else if l > p {
            assert(out[l] == old_out[l - 1]);
        }
    }
}

/// A character of a later entry is not among the entries drawn from earlier
/// ones, when all characters of `pairs` are distinct.
proof fn lemma_fresh_key(out: Seq<(char, usize)>, pairs: Seq<(char, usize)>, i: int)
    requires
        0 <= i < pairs.len(),
        drawn_from(out, pairs, i),
        forall|a: int, b: int| 0 <= a < b < pairs.len() ==> pairs[a].0 != pairs[b].0,
    ensures
        forall|k: int| 0 <= k < out.len() ==> #[trigger] out[k].0 != pairs[i].0,
{
    assert forall|k: int| 0 <= k < out.len() implies #[trigger] out[k].0 != pairs[i].0 by {
        let l = choose|l: int| 0 <= l < i && out[k] == #[trigger] pairs[l];
    }
}

/// The position after every entry whose count is at least `count`.
fn insertion_point(out: &Vec<(char, usize)>, count: usize) -> (p: usize)
    requires
        counts_descending(out@),
    ensures
        p <= out@.len(),
        forall|k: int| 0 <= k < p ==> #[trigger] out@[k].1 >= count,
        forall|k: int| p <= k < out@.len() ==> #[trigger] out@[k].1 < count,
{
    let mut p: usize = 0;
    while p < out.len() && out[p].1 >= count
        invariant
            p <= out@.len(),
            forall|k: int| 0 <= k < p ==> #[trigger] out@[k].1 >= count,
        decreases out@.len() - p,
    {
        p = p + 1;
    }
    assert forall|k: int| p <= k < out@.len() implies #[trigger] out@[k].1 < count by {
        assert(out@[p as int].1 >= out@[k].1 || k == p);
    }
    p
}

/// Stable insertion sort of character counts, most frequent first.
fn sort_by_count_desc(pairs: Vec<(char, usize)>, Ghost(s): Ghost<Seq<char>>) -> (out: Vec<(char, usize)>)
    requires
        forall|i: int| 0 <= i < pairs@.len() ==> counted_char(#[trigger] pairs@[i].0)
            && pairs@[i].1 as nat == occurrences(s, pairs@[i].0) && s.contains(pairs@[i].0),
        forall|i: int, j: int| 0 <= i < j < pairs@.len() ==> pairs@[i].0 != pairs@[j].0,
        forall|c: char| #[trigger] s.contains(c) && counted_char(c) ==> exists|i: int|
            0 <= i < pairs@.len() && pairs@[i].0 == c,
    ensures
        is_char_frequency(s, out@),
{
    let mut out: Vec<(char, usize)> = Vec::new();
    let mut i: usize = 0;
    while i < pairs.len()
        invariant
            i <= pairs@.len(),
            out@.len() == i,
            drawn_from(out@, pairs@, i as int),
            covers(out@, pairs@, i as int),
            distinct_keys(out@),
            counts_descending(out@),
            forall|a: int, b: int| 0 <= a < b < pairs@.len() ==> pairs@[a].0 != pairs@[b].0,
        decreases pairs@.len() - i,
    {
        let item = pairs[i];
        let p = insertion_point(&out, item.1);
        let ghost old_out = out@;
        proof {
            lemma_fresh_key(old_out, pairs@, i as int);
            lemma_insert_membership(old_out, pairs@, i as int, p as int);
            lemma_insert_order(old_out, item, p as int);
        }
        out.insert(p, item);
        assert(out@ == old_out.insert(p as int, item));
        i = i + 1;
    }
    assert forall|k: int| 0 <= k < out@.len() implies counted_char(#[trigger] out@[k].0)
        && out@[k].1 as nat == occurrences(s, out@[k].0) && s.contains(out@[k].0) by {
        let l = choose|l: int| 0 <= l < pairs@.len() && out@[k] == #[trigger] pairs@[l];
    }
    assert forall|c: char| #[trigger] s.contains(c) && counted_char(c) implies exists|k: int|
        0 <= k < out@.len() && out@[k].0 == c by {
        let l = choose|l: int| 0 <= l < pairs@.len() && pairs@[l].0 == c;
        assert(pairs@[l] == pairs@[l]);
        let k = choose|k: int| 0 <= k < out@.len() && #[trigger] out@[k] == pairs@[l];
    }
    out
}

} // verus!
