//! Searching block titles and contents with a regular expression.
//!
//! The pattern is compiled and matched by the `regex` crate; what it
//! accepts and what it finds are named here ([`regex_build_error`],
//! [`regex_finds`]) and everything around them is verified: which blocks
//! are examined, where a match was found, the preview line, the order of
//! the results and the table they are shown in.

use vstd::prelude::*;
use crate::block::Block;
use crate::ids::{encode_ulid, ulid_encode};
use crate::ops::{pad_right, pad_to};
use crate::size::{decimal_digits, decimal_string};
use crate::store::{newest_blocks_where, same_blocks, BlockStore};
use crate::text::{chars_of, concat, first_chars, owned, push_str, split_chars, split_seq, string_from_chars};
use crate::toc::prefix_of;

verus! {

#[verifier::external_type_specification]
#[verifier::external_body]
pub struct ExRegex(regex::Regex);

/// What building `pattern` with the `regex` crate (with case-insensitive
/// matching when `case_insensitive`) gives: nothing when the crate accepts
/// it, else the crate's description of why it is refused.
pub uninterp spec fn regex_build_error(pattern: Seq<char>, case_insensitive: bool) -> Option<Seq<char>>;

/// Whether the `regex` crate accepts `pattern`.
pub open spec fn regex_compiles(pattern: Seq<char>, case_insensitive: bool) -> bool {
    regex_build_error(pattern, case_insensitive) is None
}

/// The `regex` crate's description of why `pattern` is refused.
pub open spec fn regex_error_text(pattern: Seq<char>, case_insensitive: bool) -> Seq<char> {
    regex_build_error(pattern, case_insensitive)->0
}

/// Whether the compiled `pattern` matches somewhere in `haystack`.
pub uninterp spec fn regex_finds(pattern: Seq<char>, case_insensitive: bool, haystack: Seq<char>) -> bool;

/// A compiled regular expression with the pattern it was compiled from.
pub struct Pattern {
    re: regex::Regex,
    source: String,
    case_insensitive: bool,
}

impl Pattern {
    /// The pattern the expression was compiled from.
    pub closed spec fn source(&self) -> Seq<char> {
        self.source@
    }

    /// Whether the expression ignores case.
    pub closed spec fn insensitive(&self) -> bool {
        self.case_insensitive
    }
}

/// `RegexBuilder::new(pattern).case_insensitive(..).build()`: the compiled
/// expression when the crate accepts the pattern, otherwise the crate's
/// error text. What the crate accepts is named, not stated.
#[verifier::external_body]
fn compile_pattern(pattern: &str, case_insensitive: bool) -> (r: Result<Pattern, String>)
    ensures
        match r {
            Ok(p) => regex_build_error(pattern@, case_insensitive) is None && p.source() == pattern@
                && p.insensitive() == case_insensitive,
            Err(m) => regex_build_error(pattern@, case_insensitive) == Some(m@),
        },
{
    match regex::RegexBuilder::new(pattern).case_insensitive(case_insensitive).build() {
        Ok(re) => Ok(Pattern { re, source: pattern.to_string(), case_insensitive }),
        Err(e) => Err(e.to_string()),
    }
}

/// `Regex::is_match`: whether the expression matches somewhere in
/// `haystack`. What it matches is named, not stated.
#[verifier::external_body]
fn pattern_finds(p: &Pattern, haystack: &str) -> (b: bool)
    ensures
        b == regex_finds(p.source(), p.insensitive(), haystack@),
{
    p.re.is_match(haystack)
}

// ---------------------------------------------------------------------------
// Lines of a text
// ---------------------------------------------------------------------------

/// A line without its carriage return.
pub open spec fn strip_cr(l: Seq<char>) -> Seq<char> {
    if l.len() > 0 && l.last() == '\r' {
        l.drop_last()
    } else {
        l
    }
}

/// The lines of a text (`str::lines`): the pieces between line feeds,
/// each without a final carriage return, and no empty last piece.
pub open spec fn lines_seq(s: Seq<char>) -> Seq<Seq<char>> {
    let ps = split_seq(s, '\n');
    let kept = if ps.last().len() == 0 {
        ps.drop_last()
    } else {
        ps
    };
    kept.map_values(|l: Seq<char>| strip_cr(l))
}

proof fn lemma_split_nonempty(s: Seq<char>)
    ensures
        split_seq(s, '\n').len() >= 1,
    decreases s.len(),
{
    if s.len() > 0 {
        lemma_split_nonempty(s.drop_last());
    }
}

/// The lines of a text (see [`lines_seq`]).
fn lines_of(s: &str) -> (out: Vec<String>)
    ensures
        out@.len() == lines_seq(s@).len(),
        forall|k: int| 0 <= k < out@.len() ==> #[trigger] out@[k]@ == lines_seq(s@)[k],
{
    let cs = chars_of(s);
    let ps = split_chars(&cs, '\n');
    proof {
        lemma_split_nonempty(s@);
    }
    let ghost all = split_seq(s@, '\n');
    let n = if ps[ps.len() - 1].len() == 0 {
        ps.len() - 1
    } else {
        ps.len()
    };
    let mut out: Vec<String> = Vec::new();
    let mut k: usize = 0;
    while k < n
        invariant
            k <= n,
            n <= ps@.len(),
            ps@.len() == all.len(),
            all == split_seq(s@, '\n'),
            n == (if all.last().len() == 0 { all.len() - 1 } else { all.len() as int }),
            forall|j: int| 0 <= j < ps@.len() ==> #[trigger] ps@[j]@ == all[j],
            out@.len() == k,
            forall|j: int| 0 <= j < k ==> #[trigger] out@[j]@ == strip_cr(all[j]),
        decreases n - k,
    {
        let p = &ps[k];
        assert(p@ == all[k as int]);
        let line = if p.len() > 0 && p[p.len() - 1] == '\r' {
            let mut q: Vec<char> = Vec::new();
            let mut i: usize = 0;
            while i < p.len() - 1
                invariant
                    p@.len() > 0,
                    i <= p@.len() - 1,
                    q@ == p@.subrange(0, i as int),
                decreases p@.len() - 1 - i,
            {
                q.push(p[i]);
                i = i + 1;
            }
            assert(q@ =~= p@.drop_last());
            string_from_chars(&q)
        } else {
            string_from_chars(p.as_slice())
        };
        out.push(line);
        k = k + 1;
    }
    out
}

// ---------------------------------------------------------------------------
// Searching
// ---------------------------------------------------------------------------

/// One block found by a search.
#[derive(Debug, Clone)]
pub struct GrepMatch {
    pub block_id: u128,
    pub title: String,
    pub matched_in: String,
    pub match_preview: String,
}

/// The pattern matches the title (titles are searched unless only contents
/// are).
pub open spec fn title_found(src: Seq<char>, ci: bool, content_only: bool, b: Block) -> bool {
    !content_only && regex_finds(src, ci, b.title@)
}

/// The pattern matches the content.
pub open spec fn content_found(src: Seq<char>, ci: bool, b: Block) -> bool {
    regex_finds(src, ci, b.content@)
}

/// The first of the lines that the pattern matches.
pub open spec fn first_line_found(src: Seq<char>, ci: bool, ls: Seq<Seq<char>>) -> Option<Seq<char>>
    decreases ls.len(),
{
    if ls.len() == 0 {
        None
    } else if regex_finds(src, ci, ls[0]) {
        Some(ls[0])
    } else {
        first_line_found(src, ci, ls.drop_first())
    }
}

/// The preview of a found block: the first matching line of its content (80
/// characters at most) when the content matches and such a line exists,
/// otherwise the title when it matches, otherwise nothing.
pub open spec fn preview_of(src: Seq<char>, ci: bool, content_only: bool, b: Block) -> Seq<char> {
    let t = if title_found(src, ci, content_only, b) {
        b.title@
    } else {
        Seq::<char>::empty()
    };
    if content_found(src, ci, b) {
        match first_line_found(src, ci, lines_seq(b.content@)) {
            Some(l) => prefix_of(l, 80),
            None => t,
        }
    } else {
        t
    }
}

/// Where a match was found.
pub open spec fn where_found(in_title: bool, in_content: bool) -> Seq<char> {
    if in_title && in_content {
        "title+content"@
    } else if in_title {
        "title"@
    } else {
        "content"@
    }
}

/// The pattern matches the block somewhere it is searched.
pub open spec fn is_hit(src: Seq<char>, ci: bool, content_only: bool, b: Block) -> bool {
    title_found(src, ci, content_only, b) || content_found(src, ci, b)
}

/// `m` describes the found block `b`.
pub open spec fn describes(m: GrepMatch, src: Seq<char>, ci: bool, content_only: bool, b: Block) -> bool {
    &&& m.block_id == b.id
    &&& m.title@ == b.title@
    &&& m.matched_in@ == where_found(title_found(src, ci, content_only, b), content_found(src, ci, b))
    &&& m.match_preview@ == preview_of(src, ci, content_only, b)
}

/// The hits among `bs`, in order.
pub open spec fn hits(src: Seq<char>, ci: bool, content_only: bool, bs: Seq<Block>) -> Seq<Block> {
    bs.filter(|b: Block| is_hit(src, ci, content_only, b))
}

/// How many blocks the search examines from position `k` on: it stops
/// after the first block at which `limit` hits have been collected.
pub open spec fn scanned(src: Seq<char>, ci: bool, content_only: bool, bs: Seq<Block>, limit: nat, k: int) -> int
    decreases bs.len() - k,
{
    if k < 0 || k >= bs.len() {
        bs.len() as int
    } else if hits(src, ci, content_only, bs.take(k + 1)).len() >= limit {
        k + 1
    } else {
        scanned(src, ci, content_only, bs, limit, k + 1)
    }
}

proof fn lemma_scanned_from(src: Seq<char>, ci: bool, co: bool, bs: Seq<Block>, limit: nat, k: int, stop: int)
    requires
        0 <= k <= stop <= bs.len(),
        forall|j: int| k <= j < stop ==> #[trigger] hits(src, ci, co, bs.take(j + 1)).len() < limit,
        stop == bs.len() || hits(src, ci, co, bs.take(stop + 1)).len() >= limit,
    ensures
        scanned(src, ci, co, bs, limit, k) == if stop == bs.len() { bs.len() as int } else { stop + 1 },
    decreases stop - k,
{
    if k < stop {
        assert(hits(src, ci, co, bs.take(k + 1)).len() < limit);
        lemma_scanned_from(src, ci, co, bs, limit, k + 1, stop);
    }
}

/// Describes one examined block.
fn describe(p: &Pattern, content_only: bool, b: &Block) -> (r: Option<GrepMatch>)
    ensures
        match r {
            Some(m) => is_hit(p.source(), p.insensitive(), content_only, *b) && describes(
                m,
                p.source(),
                p.insensitive(),
                content_only,
                *b,
            ),
            None => !is_hit(p.source(), p.insensitive(), content_only, *b),
        },
{
    let ghost src = p.source();
    let ghost ci = p.insensitive();
    let in_title = !content_only && pattern_finds(p, b.title.as_str());
    let mut preview = if in_title {
        owned(b.title.as_str())
    } else {
        String::new()
    };
    let in_content = pattern_finds(p, b.content.as_str());
    if in_content {
        let ls = lines_of(b.content.as_str());
        let ghost lv = lines_seq(b.content@);
        let mut k: usize = 0;
        let mut found = false;
        assert(lv.subrange(0, lv.len() as int) =~= lv);
        while k < ls.len() && !found
            invariant
                k <= ls@.len(),
                ls@.len() == lv.len(),
                forall|j: int| 0 <= j < ls@.len() ==> #[trigger] ls@[j]@ == lv[j],
                !found ==> first_line_found(src, ci, lv) == first_line_found(src, ci, lv.subrange(k as int, lv.len() as int)),
                found ==> k < lv.len() && first_line_found(src, ci, lv) == Some(lv[k as int]),
                src == p.source(),
                ci == p.insensitive(),
            decreases ls@.len() - k, if found { 0nat } else { 1nat },
        {
            let ghost rest = lv.subrange(k as int, lv.len() as int);
            assert(rest[0] == lv[k as int]);
            assert(ls@[k as int]@ == lv[k as int]);
            if pattern_finds(p, ls[k].as_str()) {
                found = true;
            } else {
                assert(rest.drop_first() =~= lv.subrange(k + 1, lv.len() as int));
                k = k + 1;
            }
        }
        if found {
            preview = first_chars(ls[k].as_str(), 80);
        } else {
            assert(lv.subrange(k as int, lv.len() as int) =~= Seq::<Seq<char>>::empty());
        }
    }
    if !in_title && !in_content {
        return None;
    }
    let matched_in = if in_title && in_content {
        owned("title+content")
    } else if in_title {
        owned("title")
    } else {
        owned("content")
    };
    Some(GrepMatch { block_id: b.id, title: owned(b.title.as_str()), matched_in, match_preview: preview })
}

/// All stored blocks, the last stored first.
pub open spec fn newest_first(bs: Seq<Block>) -> Seq<Block> {
    newest_blocks_where(bs, |b: Block| true)
}

/// The pattern searched: `(?i)` first unless the search is case-sensitive.
pub open spec fn full_pattern(pattern: Seq<char>, case_sensitive: bool) -> Seq<char> {
    (if case_sensitive {
        Seq::<char>::empty()
    } else {
        "(?i)"@
    }) + pattern
}

/// `idx` lists, once each, the positions of `found`, by identifier from
/// the largest down and, for equal identifiers, in their order in `found`.
pub open spec fn id_desc_order(found: Seq<Block>, idx: Seq<usize>) -> bool {
    &&& idx.len() == found.len()
    &&& forall|k: int| 0 <= k < idx.len() ==> (#[trigger] idx[k]) < found.len()
    &&& forall|k: int, l: int| 0 <= k < l < idx.len() ==> idx[k] != idx[l]
    &&& forall|k: int, l: int|
        0 <= k < l < idx.len() ==> found[#[trigger] idx[k] as int].id > found[#[trigger] idx[l] as int].id || (found[idx[k] as int].id
            == found[idx[l] as int].id && idx[k] < idx[l])
}

/// The results of a search over `list` (the stored blocks, the last stored
/// first): the blocks examined until `limit` hits are collected, their hits
/// described and ordered by identifier from the largest down.
pub open spec fn search_results(
    list: Seq<Block>,
    src: Seq<char>,
    ci: bool,
    content_only: bool,
    limit: nat,
    ms: Seq<GrepMatch>,
) -> bool {
    let found = hits(src, ci, content_only, list.take(scanned(src, ci, content_only, list, limit, 0)));
    exists|idx: Seq<usize>|
        id_desc_order(found, idx) && ms.len() == found.len() && forall|k: int|
            0 <= k < ms.len() ==> describes(#[trigger] ms[k], src, ci, content_only, found[idx[k] as int])
}

/// What a search answers: the refusal of a pattern the `regex` crate does
/// not accept, or the results (see [`search_results`]).
pub open spec fn grep_answer(
    bs: Seq<Block>,
    pattern: Seq<char>,
    content_only: bool,
    case_sensitive: bool,
    limit: nat,
    r: Result<Vec<GrepMatch>, String>,
) -> bool {
    let src = full_pattern(pattern, case_sensitive);
    if !regex_compiles(src, !case_sensitive) {
        r matches Err(m) && m@ == "Invalid regex pattern: "@ + regex_error_text(src, !case_sensitive)
    } else {
        exists|list: Seq<Block>|
            #[trigger] same_blocks(list, newest_first(bs)) && (r matches Ok(ms) && search_results(
                list,
                src,
                !case_sensitive,
                content_only,
                limit,
                ms@,
            ))
    }
}

fn copy_match(m: &GrepMatch) -> (c: GrepMatch)
    ensures
        c.block_id == m.block_id,
        c.title@ == m.title@,
        c.matched_in@ == m.matched_in@,
        c.match_preview@ == m.match_preview@,
{
    GrepMatch {
        block_id: m.block_id,
        title: m.title.clone(),
        matched_in: m.matched_in.clone(),
        match_preview: m.match_preview.clone(),
    }
}

/// Positions of `found` ordered by identifier, the largest first, equal
/// identifiers in order (see [`id_desc_order`]).
fn order_by_id(ids: &Vec<u128>, Ghost(found): Ghost<Seq<Block>>) -> (idx: Vec<usize>)
    requires
        ids@.len() == found.len(),
        forall|k: int| 0 <= k < ids@.len() ==> #[trigger] ids@[k] == found[k].id,
    ensures
        id_desc_order(found, idx@),
{
    let mut idx: Vec<usize> = Vec::new();
    let mut i: usize = 0;
    while i < ids.len()
        invariant
            i <= ids@.len(),
            ids@.len() == found.len(),
            forall|k: int| 0 <= k < ids@.len() ==> #[trigger] ids@[k] == found[k].id,
            idx@.len() == i,
            forall|k: int| 0 <= k < idx@.len() ==> (#[trigger] idx@[k]) < i,
            forall|k: int, l: int| 0 <= k < l < idx@.len() ==> idx@[k] != idx@[l],
            forall|k: int, l: int|
                0 <= k < l < idx@.len() ==> found[#[trigger] idx@[k] as int].id > found[#[trigger] idx@[l] as int].id || (
                found[idx@[k] as int].id == found[idx@[l] as int].id && idx@[k] < idx@[l]),
        decreases ids@.len() - i,
    {
        let key = ids[i];
        let mut pos: usize = 0;
        while pos < idx.len() && ids[idx[pos]] >= key
            invariant
                pos <= idx@.len(),
                i < ids@.len(),
                key == ids@[i as int],
                forall|k: int| 0 <= k < idx@.len() ==> (#[trigger] idx@[k]) < i,
                forall|k: int| 0 <= k < pos ==> ids@[(#[trigger] idx@[k]) as int] >= key,
            decreases idx@.len() - pos,
        {
            pos = pos + 1;
        }
        let ghost old_idx = idx@;
        proof {
            if pos < old_idx.len() {
                assert(ids@[old_idx[pos as int] as int] < key);
            }
        }
        idx.insert(pos, i);
        proof {
            old_idx.insert_ensures(pos as int, i);
            assert forall|k: int| 0 <= k < idx@.len() implies (#[trigger] idx@[k]) < i + 1 by {
                if k < pos {
                    assert(idx@[k] == old_idx[k]);
                } else if k > pos {
                    assert(idx@[k] == old_idx[k - 1]);
                }
            }
            assert forall|k: int, l: int| 0 <= k < l < idx@.len() implies idx@[k] != idx@[l] by {
                if k < pos {
                    assert(idx@[k] == old_idx[k]);
                } else if k > pos {
                    assert(idx@[k] == old_idx[k - 1]);
                }
                if l < pos {
                    assert(idx@[l] == old_idx[l]);
                } else if l > pos {
                    assert(idx@[l] == old_idx[l - 1]);
                }
            }
            assert forall|k: int, l: int| 0 <= k < l < idx@.len() implies found[#[trigger] idx@[k] as int].id > found[#[trigger] idx@[l] as int].id || (
                found[idx@[k] as int].id == found[idx@[l] as int].id && idx@[k] < idx@[l]) by {
                let kk = if k < pos { k } else { k - 1 };
                let ll = if l < pos { l } else { l - 1 };
                if k < pos {
                    assert(idx@[k] == old_idx[k]);
                } else if k > pos {
                    assert(idx@[k] == old_idx[k - 1]);
                }
                if l < pos {
                    assert(idx@[l] == old_idx[l]);
                } else if l > pos {
                    assert(idx@[l] == old_idx[l - 1]);
                }
                if k == pos {
                    assert(ids@[old_idx[pos as int] as int] < key);
                    if ll > pos {
                        assert(found[old_idx[pos as int] as int].id >= found[old_idx[ll] as int].id);
                    }
                } else if l == pos {
                    assert(ids@[old_idx[kk] as int] >= key);
                }
            }
        }
        i = i + 1;
    }
    idx
}

/// Searches the stored blocks (see [`grep_answer`]): titles and contents
/// unless `content_only`, ignoring case unless `case_sensitive`, stopping
/// once `limit` blocks are found.
pub fn grep_blocks(
    blocks: &BlockStore,
    pattern: &str,
    content_only: bool,
    case_sensitive: bool,
    limit: usize,
) -> (r: Result<Vec<GrepMatch>, String>)
    ensures
        grep_answer(blocks.blocks@, pattern@, content_only, case_sensitive, limit as nat, r),
{
    let full = if case_sensitive {
        owned(pattern)
    } else {
        concat("(?i)", pattern)
    };
    assert(full@ =~= full_pattern(pattern@, case_sensitive));
    let p = match compile_pattern(full.as_str(), !case_sensitive) {
        Ok(p) => p,
        Err(m) => {
            return Err(concat("Invalid regex pattern: ", m.as_str()));
        },
    };
    let ghost src = p.source();
    let ghost ci = p.insensitive();
    let all = blocks.list_all();
    let ghost list = all@;
    let mut found: Vec<GrepMatch> = Vec::new();
    let mut ids: Vec<u128> = Vec::new();
    let mut i: usize = 0;
    let mut stopped = false;
    while i < all.len() && !stopped
        invariant
            i <= list.len(),
            all@ == list,
            src == p.source(),
            ci == p.insensitive(),
            found@.len() == hits(src, ci, content_only, list.take(i as int)).len(),
            ids@.len() == found@.len(),
            forall|k: int| 0 <= k < found@.len() ==> describes(#[trigger] found@[k], src, ci, content_only, hits(src, ci, content_only, list.take(i as int))[k]),
            forall|k: int| 0 <= k < ids@.len() ==> #[trigger] ids@[k] == hits(src, ci, content_only, list.take(i as int))[k].id,
            !stopped ==> forall|j: int| 0 <= j < i ==> #[trigger] hits(src, ci, content_only, list.take(j + 1)).len() < limit,
            stopped ==> 0 < i && (forall|j: int| 0 <= j < i - 1 ==> #[trigger] hits(src, ci, content_only, list.take(j + 1)).len() < limit)
                && hits(src, ci, content_only, list.take(i as int)).len() >= limit,
        decreases list.len() - i, if stopped { 0nat } else { 1nat },
    {
        proof {
            reveal(Seq::filter);
            assert(list.take(i + 1).drop_last() =~= list.take(i as int));
        }
        let ghost prev = found@;
        let ghost prev_ids = ids@;
        match describe(&p, content_only, &all[i]) {
            Some(m) => {
                ids.push(m.block_id);
                found.push(m);
            },
            None => {},
        }
        i = i + 1;
        if found.len() >= limit {
            stopped = true;
        }
    }
    let ghost examined = list.take(scanned(src, ci, content_only, list, limit as nat, 0));
    proof {
        if stopped {
            lemma_scanned_from(src, ci, content_only, list, limit as nat, 0, i - 1);
        } else {
            lemma_scanned_from(src, ci, content_only, list, limit as nat, 0, list.len() as int);
            assert(list.take(list.len() as int) =~= list);
        }
        assert(examined == list.take(i as int));
    }
    let ghost hv = hits(src, ci, content_only, list.take(i as int));
    let idx = order_by_id(&ids, Ghost(hv));
    let mut ms: Vec<GrepMatch> = Vec::new();
    let mut k: usize = 0;
    while k < idx.len()
        invariant
            k <= idx@.len(),
            id_desc_order(hv, idx@),
            found@.len() == hv.len(),
            forall|q: int| 0 <= q < found@.len() ==> describes(#[trigger] found@[q], src, ci, content_only, hv[q]),
            ms@.len() == k,
            forall|q: int| 0 <= q < k ==> describes(#[trigger] ms@[q], src, ci, content_only, hv[idx@[q] as int]),
        decreases idx@.len() - k,
    {
        assert(idx@[k as int] < hv.len());
        let c = copy_match(&found[idx[k]]);
        ms.push(c);
        k = k + 1;
    }
    assert(search_results(list, src, ci, content_only, limit as nat, ms@));
    assert(src == full_pattern(pattern@, case_sensitive));
    assert(ci == !case_sensitive);
    assert(same_blocks(list, newest_first(blocks.blocks@)));
    Ok(ms)
}

/// The top border of the results table.
pub open spec fn grep_top() -> Seq<char> {
    "┌──────────────────────────┬─────────────┬─────────────────────────────────────────────────────────────┐"@
}

/// The header of the results table.
pub open spec fn grep_head() -> Seq<char> {
    "│ ULID                     │ Matched In │ Preview                                                         │"@
}

/// The rule under the header.
pub open spec fn grep_mid() -> Seq<char> {
    "├──────────────────────────┼─────────────┼─────────────────────────────────────────────────────────────┤"@
}

/// The bottom border of the results table.
pub open spec fn grep_bottom() -> Seq<char> {
    "└──────────────────────────┴─────────────┴─────────────────────────────────────────────────────────────┘"@
}

/// The row of one result: its identifier (24 characters at most), where
/// it matched, and its preview (60 characters at most), padded to the
/// columns.
pub open spec fn grep_row(m: GrepMatch) -> Seq<char> {
    "│ "@ + pad_right(prefix_of(ulid_encode(m.block_id), 24), 24) + " │ "@ + pad_right(m.matched_in@, 11) + " │ "@
        + pad_right(prefix_of(m.match_preview@, 60), 61) + " │\n"@
}

/// The rows of the results, in order.
pub open spec fn grep_rows(ms: Seq<GrepMatch>) -> Seq<char>
    decreases ms.len(),
{
    if ms.len() == 0 {
        Seq::<char>::empty()
    } else {
        grep_rows(ms.drop_last()) + grep_row(ms.last())
    }
}

/// The search report: a notice when nothing was found, otherwise the
/// number found and the table of the first `limit` results.
pub open spec fn grep_report_text(pattern: Seq<char>, ms: Seq<GrepMatch>, limit: nat) -> Seq<char> {
    if ms.len() == 0 {
        "No matches found for pattern: "@ + pattern + "\n"@
    } else {
        let shown = if limit < ms.len() { limit } else { ms.len() };
        "Found "@ + decimal_digits(ms.len()) + " matches for pattern: "@ + pattern + "\n\n"@ + grep_top() + "\n"@
            + grep_head() + "\n"@ + grep_mid() + "\n"@ + grep_rows(ms.take(shown as int)) + grep_bottom() + "\n"@
    }
}

fn push_grep_row(out: &mut String, m: &GrepMatch)
    ensures
        final(out)@ == old(out)@ + grep_row(*m),
{
    push_str(out, "│ ");
    let id = encode_ulid(m.block_id);
    let short = first_chars(id.as_str(), 24);
    let cell = pad_to(short.as_str(), 24);
    push_str(out, cell.as_str());
    push_str(out, " │ ");
    let cell = pad_to(m.matched_in.as_str(), 11);
    push_str(out, cell.as_str());
    push_str(out, " │ ");
    let preview = first_chars(m.match_preview.as_str(), 60);
    let cell = pad_to(preview.as_str(), 61);
    push_str(out, cell.as_str());
    push_str(out, " │\n");
    assert(out@ =~= old(out)@ + grep_row(*m));
}

/// The search report (see [`grep_report_text`]).
pub fn grep_report(pattern: &str, ms: &[GrepMatch], limit: usize) -> (t: String)
    ensures
        t@ == grep_report_text(pattern@, ms@, limit as nat),
{
    if ms.len() == 0 {
        let mut t = concat("No matches found for pattern: ", pattern);
        push_str(&mut t, "\n");
        return t;
    }
    let n = ms.len();
    let shown = if limit < n {
        limit
    } else {
        n
    };
    let mut t = owned("Found ");
    let d = decimal_string(n as u128);
    push_str(&mut t, d.as_str());
    push_str(&mut t, " matches for pattern: ");
    push_str(&mut t, pattern);
    push_str(&mut t, "\n\n");
    push_str(&mut t, "┌──────────────────────────┬─────────────┬─────────────────────────────────────────────────────────────┐");
    push_str(&mut t, "\n");
    push_str(&mut t, "│ ULID                     │ Matched In │ Preview                                                         │");
    push_str(&mut t, "\n");
    push_str(&mut t, "├──────────────────────────┼─────────────┼─────────────────────────────────────────────────────────────┤");
    push_str(&mut t, "\n");
    let ghost head = t@;
    let mut i: usize = 0;
    while i < shown
        invariant
            i <= shown,
            shown <= ms@.len(),
            t@ == head + grep_rows(ms@.take(i as int)),
        decreases shown - i,
    {
        assert(ms@.take(i + 1).drop_last() =~= ms@.take(i as int));
        push_grep_row(&mut t, &ms[i]);
        i = i + 1;
    }
    push_str(&mut t, "└──────────────────────────┴─────────────┴─────────────────────────────────────────────────────────────┘");
    push_str(&mut t, "\n");
    assert(t@ =~= grep_report_text(pattern@, ms@, limit as nat));
    t
}

} // verus!
