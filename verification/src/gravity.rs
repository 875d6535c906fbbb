//! Semantic gravity: how well a block fits the sections (structure notes) of
//! the knowledge base. A section's keywords are read from its text and tags;
//! a block scores points for keywords in its title, content and tags, and for
//! the section's boundary constraints it mentions. Scores and weights are
//! counted in halves, so that affinities are exact fractions.

use vstd::prelude::*;
use crate::block::Block;
use crate::keywords::{alnum_only, keep_alnum};
use crate::model::{BlockType, LinkType};
use crate::store::{first_block_with, newest_edges_where, same_edges, BlockStore, EdgeStore};
use crate::text::{byte_len, byte_length, chars_of, contains_chars, contains_seq, lowercase, string_from_chars, to_lowercase, words_of, words_seq};

verus! {

// ---------------------------------------------------------------------------
// Section keywords
// ---------------------------------------------------------------------------

/// The keywords taken from the first words of a section's text: each of the
/// first twenty words, lowercased and kept to its letters and digits, when
/// that leaves more than three bytes.
pub open spec fn content_keywords(ws: Seq<Seq<char>>) -> Seq<Seq<char>>
    decreases ws.len(),
{
    if ws.len() == 0 {
        seq![]
    } else {
        let k = alnum_only(lowercase(ws.last()));
        content_keywords(ws.drop_last()) + if byte_len(k) > 3 {
            seq![k]
        } else {
            Seq::<Seq<char>>::empty()
        }
    }
}

/// The tags, lowercased.
pub open spec fn lowered(ts: Seq<String>) -> Seq<Seq<char>> {
    ts.map_values(|t: String| lowercase(t@))
}

/// The keywords of a section: those of its first twenty words (none when its
/// content is empty), then its tags lowercased.
pub open spec fn section_keywords_spec(structure: Block) -> Seq<Seq<char>> {
    let ws = words_seq(structure.content@);
    (if structure.content@.len() == 0 {
        Seq::<Seq<char>>::empty()
    } else {
        content_keywords(if ws.len() > 20 { ws.take(20) } else { ws })
    }) + lowered(structure.tags@)
}

/// The text views of a list of strings.
pub open spec fn texts_of(v: Seq<String>) -> Seq<Seq<char>> {
    v.map_values(|t: String| t@)
}

/// The keywords of the section a structure note stands for (see
/// [`section_keywords_spec`]).
pub fn smart_section_keywords(structure: &Block) -> (k: Vec<String>)
    ensures
        texts_of(k@) == section_keywords_spec(*structure),
{
    let mut k: Vec<String> = Vec::new();
    let cs = chars_of(structure.content.as_str());
    let ghost ws = words_seq(structure.content@);
    let ghost first = if ws.len() > 20 { ws.take(20) } else { ws };
    if cs.len() > 0 {
        let words = words_of(&cs);
        let n: usize = if words.len() > 20 { 20 } else { words.len() };
        let mut i: usize = 0;
        assert(texts_of(k@) =~= content_keywords(first.take(0)));
        while i < n
            invariant
                i <= n,
                n == first.len(),
                words@.len() == ws.len(),
                forall|j: int| 0 <= j < words@.len() ==> #[trigger] words@[j]@ == ws[j],
                first == (if ws.len() > 20 { ws.take(20) } else { ws }),
                texts_of(k@) == content_keywords(first.take(i as int)),
            decreases n - i,
        {
            assert(first.take(i + 1).drop_last() =~= first.take(i as int));
            assert(first[i as int] == ws[i as int]);
            let w = string_from_chars(words[i].as_slice());
            let low = to_lowercase(w.as_str());
            let lc = chars_of(low.as_str());
            let kept = string_from_chars(keep_alnum(&lc).as_slice());
            if byte_length(kept.as_str()) > 3 {
                k.push(kept);
            }
            assert(texts_of(k@) =~= content_keywords(first.take(i + 1)));
            i = i + 1;
        }
        assert(first.take(n as int) =~= first);
    } else {
        assert(texts_of(k@) =~= Seq::<Seq<char>>::empty());
    }
    let ghost base = texts_of(k@);
    let mut j: usize = 0;
    while j < structure.tags.len()
        invariant
            j <= structure.tags@.len(),
            texts_of(k@) == base + lowered(structure.tags@.take(j as int)),
        decreases structure.tags@.len() - j,
    {
        let t = to_lowercase(structure.tags[j].as_str());
        let ghost before_push = k@;
        k.push(t);
        assert(texts_of(k@) =~= texts_of(before_push).push(lowercase(structure.tags@[j as int]@)));
        assert(lowered(structure.tags@.take(j + 1)) =~= lowered(structure.tags@.take(j as int)).push(lowercase(structure.tags@[j as int]@)));
        assert(texts_of(k@) =~= base + lowered(structure.tags@.take(j + 1)));
        j = j + 1;
    }
    assert(structure.tags@.take(structure.tags@.len() as int) =~= structure.tags@);
    k
}

// ---------------------------------------------------------------------------
// Affinity
// ---------------------------------------------------------------------------

/// Some word of `ws` contains `k`.
pub open spec fn some_word_has(ws: Seq<Seq<char>>, k: Seq<char>) -> bool {
    exists|i: int| 0 <= i < ws.len() && contains_seq(#[trigger] ws[i], k)
}

/// Some keyword of `ks`, lowercased, lies within `t`.
pub open spec fn tag_meets(t: Seq<char>, ks: Seq<Seq<char>>) -> bool {
    exists|i: int| 0 <= i < ks.len() && contains_seq(t, lowercase(#[trigger] ks[i]))
}

/// Points (in halves) for the keywords: two per keyword found in a title
/// word, one per keyword found in a content word.
pub open spec fn keyword_points(title_ws: Seq<Seq<char>>, content_ws: Seq<Seq<char>>, ks: Seq<Seq<char>>) -> nat
    decreases ks.len(),
{
    if ks.len() == 0 {
        0
    } else {
        let k = lowercase(ks.last());
        keyword_points(title_ws, content_ws, ks.drop_last()) + (if some_word_has(title_ws, k) { 2nat } else { 0nat })
            + (if some_word_has(content_ws, k) { 1nat } else { 0nat })
    }
}

/// The number of the block's tags that meet a keyword.
pub open spec fn tags_meeting(tags: Seq<String>, ks: Seq<Seq<char>>) -> nat
    decreases tags.len(),
{
    if tags.len() == 0 {
        0
    } else {
        tags_meeting(tags.drop_last(), ks) + if tag_meets(lowercase(tags.last()@), ks) { 1nat } else { 0nat }
    }
}

/// The number of constraints that the block's content or title mentions
/// (all lowercased).
pub open spec fn constraints_met(title: Seq<char>, content: Seq<char>, cs: Seq<String>) -> nat
    decreases cs.len(),
{
    if cs.len() == 0 {
        0
    } else {
        let c = lowercase(cs.last()@);
        constraints_met(title, content, cs.drop_last()) + if contains_seq(lowercase(content), c) || contains_seq(
            lowercase(title),
            c,
        ) {
            1nat
        } else {
            0nat
        }
    }
}

/// A boundary constraint the block's title or content mentions (ignoring
/// case) adds three halves to both the score and the weight of any section;
/// one it mentions nowhere changes neither.
pub proof fn lemma_constraint_counts(b: Block, ks: Seq<Seq<char>>, cs: Seq<String>, c: String)
    ensures
        contains_seq(lowercase(b.title@), lowercase(c@)) || contains_seq(lowercase(b.content@), lowercase(c@)) ==> {
            &&& score_halves(b, ks, cs.push(c)) == score_halves(b, ks, cs) + 3
            &&& weight_halves(b, ks, cs.push(c)) == weight_halves(b, ks, cs) + 3
        },
        !contains_seq(lowercase(b.title@), lowercase(c@)) && !contains_seq(lowercase(b.content@), lowercase(c@)) ==> {
            &&& score_halves(b, ks, cs.push(c)) == score_halves(b, ks, cs)
            &&& weight_halves(b, ks, cs.push(c)) == weight_halves(b, ks, cs)
        },
{
    assert(cs.push(c).drop_last() =~= cs);
    assert(cs.push(c).last() == c);
}

proof fn lemma_no_keywords_no_tag_points(tags: Seq<String>)
    ensures
        tags_meeting(tags, seq![]) == 0,
    decreases tags.len(),
{
    if tags.len() > 0 {
        lemma_no_keywords_no_tag_points(tags.drop_last());
    }
}

/// A section known only by boundary constraints that the block's title
/// mentions fits the block fully: score and weight are both three halves
/// per constraint.
pub proof fn lemma_title_constraints_fit(b: Block, cs: Seq<String>)
    requires
        forall|i: int| 0 <= i < cs.len() ==> contains_seq(lowercase(b.title@), lowercase((#[trigger] cs[i])@)),
    ensures
        constraints_met(b.title@, b.content@, cs) == cs.len(),
        score_halves(b, seq![], cs) == 3 * cs.len(),
        weight_halves(b, seq![], cs) == 3 * cs.len(),
    decreases cs.len(),
{
    if cs.len() > 0 {
        let d = cs.drop_last();
        assert forall|i: int| 0 <= i < d.len() implies contains_seq(lowercase(b.title@), lowercase((#[trigger] d[i])@)) by {
            assert(d[i] == cs[i]);
        }
        lemma_title_constraints_fit(b, d);
        assert(contains_seq(lowercase(b.title@), lowercase(cs[cs.len() - 1]@)));
    }
    lemma_no_keywords_no_tag_points(b.tags@);
    assert(keyword_points(words_seq(lowercase(b.title@)), words_seq(lowercase(b.content@)), seq![]) == 0);
}

/// The score of a block for a section, in halves: the keyword points, four
/// per tag meeting a keyword, three per constraint mentioned.
pub open spec fn score_halves(b: Block, ks: Seq<Seq<char>>, cs: Seq<String>) -> nat {
    keyword_points(words_seq(lowercase(b.title@)), words_seq(lowercase(b.content@)), ks) + 4 * tags_meeting(b.tags@, ks)
        + 3 * constraints_met(b.title@, b.content@, cs)
}

/// The weight of the criteria, in halves: two per keyword, four per tag
/// meeting a keyword, three per constraint mentioned.
pub open spec fn weight_halves(b: Block, ks: Seq<Seq<char>>, cs: Seq<String>) -> nat {
    2 * ks.len() + 4 * tags_meeting(b.tags@, ks) + 3 * constraints_met(b.title@, b.content@, cs)
}

/// A bound on the number of keywords, tags or constraints: a vector of
/// strings holds fewer (each string takes 24 bytes, and no allocation
/// exceeds `isize::MAX` bytes). Below it the scores are exact in 64 bits.
pub const MAX_CRITERIA: u64 = 0x800_0000_0000_0000;

fn any_word_has(ws: &Vec<Vec<char>>, k: &[char], Ghost(wv): Ghost<Seq<Seq<char>>>) -> (b: bool)
    requires
        ws@.len() == wv.len(),
        forall|j: int| 0 <= j < ws@.len() ==> #[trigger] ws@[j]@ == wv[j],
    ensures
        b == some_word_has(wv, k@),
{
    let mut i: usize = 0;
    while i < ws.len()
        invariant
            i <= ws@.len(),
            ws@.len() == wv.len(),
            forall|j: int| 0 <= j < ws@.len() ==> #[trigger] ws@[j]@ == wv[j],
            forall|j: int| 0 <= j < i ==> !contains_seq(#[trigger] wv[j], k@),
        decreases ws@.len() - i,
    {
        if contains_chars(ws[i].as_slice(), k) {
            return true;
        }
        i = i + 1;
    }
    false
}

fn tag_meets_any(t: &[char], ks: &Vec<String>) -> (b: bool)
    ensures
        b == tag_meets(t@, texts_of(ks@)),
{
    let mut i: usize = 0;
    while i < ks.len()
        invariant
            i <= ks@.len(),
            forall|j: int| 0 <= j < i ==> !contains_seq(t@, lowercase(#[trigger] texts_of(ks@)[j])),
        decreases ks@.len() - i,
    {
        let kl = to_lowercase(ks[i].as_str());
        if contains_chars(t, chars_of(kl.as_str()).as_slice()) {
            assert(contains_seq(t@, lowercase(texts_of(ks@)[i as int])));
            return true;
        }
        i = i + 1;
    }
    false
}

/// The score and weight, in halves, of a block for a section with the
/// keywords `keywords` and the boundary constraints `constraints` (see
/// [`score_halves`], [`weight_halves`]).
pub fn affinity_halves(block: &Block, keywords: &Vec<String>, constraints: &Vec<String>) -> (r: (u64, u64))
    requires
        keywords@.len() <= MAX_CRITERIA,
        block.tags@.len() <= MAX_CRITERIA,
        constraints@.len() <= MAX_CRITERIA,
    ensures
        r.0 == score_halves(*block, texts_of(keywords@), constraints@),
        r.1 == weight_halves(*block, texts_of(keywords@), constraints@),
        r.0 <= 10 * MAX_CRITERIA,
        r.1 <= 10 * MAX_CRITERIA,
{
    let ghost ks = texts_of(keywords@);
    let tl = to_lowercase(block.title.as_str());
    let cl = to_lowercase(block.content.as_str());
    let tcs = chars_of(tl.as_str());
    let ccs = chars_of(cl.as_str());
    let tws = words_of(&tcs);
    let cws = words_of(&ccs);
    let mut kp: u64 = 0;
    let mut i: usize = 0;
    while i < keywords.len()
        invariant
            i <= keywords@.len(),
            keywords@.len() <= MAX_CRITERIA,
            ks == texts_of(keywords@),
            tws@.len() == words_seq(tcs@).len(),
            forall|j: int| 0 <= j < tws@.len() ==> #[trigger] tws@[j]@ == words_seq(tcs@)[j],
            cws@.len() == words_seq(ccs@).len(),
            forall|j: int| 0 <= j < cws@.len() ==> #[trigger] cws@[j]@ == words_seq(ccs@)[j],
            tcs@ == lowercase(block.title@),
            ccs@ == lowercase(block.content@),
            kp == keyword_points(words_seq(tcs@), words_seq(ccs@), ks.take(i as int)),
            kp <= 3 * i,
        decreases keywords@.len() - i,
    {
        assert(ks.take(i + 1).drop_last() =~= ks.take(i as int));
        assert(ks.take(i + 1).last() == keywords@[i as int]@);
        let kl = to_lowercase(keywords[i].as_str());
        let kc = chars_of(kl.as_str());
        if any_word_has(&tws, &kc, Ghost(words_seq(tcs@))) {
            kp = kp + 2;
        }
        if any_word_has(&cws, &kc, Ghost(words_seq(ccs@))) {
            kp = kp + 1;
        }
        i = i + 1;
    }
    assert(ks.take(keywords@.len() as int) =~= ks);
    let mut tm: u64 = 0;
    let mut j: usize = 0;
    while j < block.tags.len()
        invariant
            j <= block.tags@.len(),
            block.tags@.len() <= MAX_CRITERIA,
            ks == texts_of(keywords@),
            tm == tags_meeting(block.tags@.take(j as int), ks),
            tm <= j,
        decreases block.tags@.len() - j,
    {
        assert(block.tags@.take(j + 1).drop_last() =~= block.tags@.take(j as int));
        let t = to_lowercase(block.tags[j].as_str());
        let tc = chars_of(t.as_str());
        if tag_meets_any(&tc, keywords) {
            tm = tm + 1;
        }
        j = j + 1;
    }
    assert(block.tags@.take(block.tags@.len() as int) =~= block.tags@);
    let mut cm: u64 = 0;
    let mut q: usize = 0;
    while q < constraints.len()
        invariant
            q <= constraints@.len(),
            constraints@.len() <= MAX_CRITERIA,
            tcs@ == lowercase(block.title@),
            ccs@ == lowercase(block.content@),
            cm == constraints_met(block.title@, block.content@, constraints@.take(q as int)),
            cm <= q,
        decreases constraints@.len() - q,
    {
        assert(constraints@.take(q + 1).drop_last() =~= constraints@.take(q as int));
        let c = to_lowercase(constraints[q].as_str());
        let cc = chars_of(c.as_str());
        if contains_chars(&ccs, &cc) || contains_chars(&tcs, &cc) {
            cm = cm + 1;
        }
        q = q + 1;
    }
    assert(constraints@.take(constraints@.len() as int) =~= constraints@);
    let score = kp + 4 * tm + 3 * cm;
    let weight = 2 * (keywords.len() as u64) + 4 * tm + 3 * cm;
    (score, weight)
}

// ---------------------------------------------------------------------------
// Ranking sections
// ---------------------------------------------------------------------------

/// An affinity as a fraction: `3/10` when nothing is weighed, otherwise the
/// score over the weight, capped at one.
pub open spec fn affinity_frac(score: nat, weight: nat) -> (nat, nat) {
    if weight == 0 {
        (3, 10)
    } else if score >= weight {
        (1, 1)
    } else {
        (score, weight)
    }
}

/// Affinity `a` is higher than affinity `b`.
pub open spec fn frac_gt(a: (nat, nat), b: (nat, nat)) -> bool {
    a.0 * b.1 > b.0 * a.1
}

/// Entry `x` comes before entry `y` in a ranking: a higher affinity, or the
/// same affinity and an earlier section.
pub open spec fn ranked_before(x: (usize, u64, u64), y: (usize, u64, u64)) -> bool {
    let a = affinity_frac(x.1 as nat, x.2 as nat);
    let b = affinity_frac(y.1 as nat, y.2 as nat);
    frac_gt(a, b) || (!frac_gt(b, a) && x.0 < y.0)
}

proof fn lemma_frac_order(a: (nat, nat), b: (nat, nat), c: (nat, nat))
    requires
        a.1 > 0,
        b.1 > 0,
        c.1 > 0,
    ensures
        frac_gt(a, b) && frac_gt(b, c) ==> frac_gt(a, c),
        !frac_gt(a, b) && !frac_gt(b, c) ==> !frac_gt(a, c),
        frac_gt(a, b) ==> !frac_gt(b, a),
{
    assert(a.0 * b.1 > b.0 * a.1 && b.0 * c.1 > c.0 * b.1 ==> a.0 * c.1 > c.0 * a.1) by (nonlinear_arith)
        requires
            a.1 > 0,
            b.1 > 0,
            c.1 > 0,
    ;
    assert(a.0 * b.1 <= b.0 * a.1 && b.0 * c.1 <= c.0 * b.1 ==> a.0 * c.1 <= c.0 * a.1) by (nonlinear_arith)
        requires
            a.1 > 0,
            b.1 > 0,
            c.1 > 0,
    ;
}

proof fn lemma_ranked_before_trans(x: (usize, u64, u64), y: (usize, u64, u64), z: (usize, u64, u64))
    requires
        ranked_before(x, y),
        ranked_before(y, z),
    ensures
        ranked_before(x, z),
{
    let a = affinity_frac(x.1 as nat, x.2 as nat);
    let b = affinity_frac(y.1 as nat, y.2 as nat);
    let c = affinity_frac(z.1 as nat, z.2 as nat);
    lemma_frac_order(a, b, c);
    lemma_frac_order(c, b, a);
    lemma_frac_order(b, a, c);
    lemma_frac_order(a, c, b);
    lemma_frac_order(b, c, a);
    lemma_frac_order(c, a, b);
}

/// The affinity `score / weight` as a fraction (see [`affinity_frac`]).
pub fn affinity_fraction(score: u64, weight: u64) -> (r: (u64, u64))
    requires
        score <= 10 * MAX_CRITERIA,
        weight <= 10 * MAX_CRITERIA,
    ensures
        (r.0 as nat, r.1 as nat) == affinity_frac(score as nat, weight as nat),
        r.0 <= 10 * MAX_CRITERIA,
        r.1 <= 10 * MAX_CRITERIA,
{
    if weight == 0 {
        (3, 10)
    } else if score >= weight {
        (1, 1)
    } else {
        (score, weight)
    }
}

fn before(x: (usize, u64, u64), y: (usize, u64, u64)) -> (b: bool)
    requires
        x.1 <= 10 * MAX_CRITERIA,
        x.2 <= 10 * MAX_CRITERIA,
        y.1 <= 10 * MAX_CRITERIA,
        y.2 <= 10 * MAX_CRITERIA,
    ensures
        b == ranked_before(x, y),
{
    let a = affinity_fraction(x.1, x.2);
    let c = affinity_fraction(y.1, y.2);
    let (an, ad, cn, cd) = (a.0 as u128, a.1 as u128, c.0 as u128, c.1 as u128);
    assert(an * cd <= 0x5000_0000_0000_0000 * 0x5000_0000_0000_0000) by (nonlinear_arith)
        requires
            an <= 0x5000_0000_0000_0000,
            cd <= 0x5000_0000_0000_0000,
    ;
    assert(cn * ad <= 0x5000_0000_0000_0000 * 0x5000_0000_0000_0000) by (nonlinear_arith)
        requires
            cn <= 0x5000_0000_0000_0000,
            ad <= 0x5000_0000_0000_0000,
    ;
    let gt = an * cd > cn * ad;
    let lt = cn * ad > an * cd;
    gt || (!lt && x.0 < y.0)
}

/// Every entry of `s` comes before the entries after it.
pub open spec fn is_ranked(s: Seq<(usize, u64, u64)>) -> bool {
    forall|k: int, l: int| 0 <= k < l < s.len() ==> ranked_before(#[trigger] s[k], #[trigger] s[l])
}

/// Every score and weight in `s` is within the bound that `affinity_halves` keeps.
pub open spec fn entries_bounded(s: Seq<(usize, u64, u64)>) -> bool {
    forall|k: int| 0 <= k < s.len() ==> (#[trigger] s[k]).1 <= 10 * MAX_CRITERIA && s[k].2 <= 10 * MAX_CRITERIA
}

/// Inserts `e` into the ranked list `out` where it belongs: after the
/// entries ranked before it, before the others. Returns the position.
fn insert_ranked(out: &mut Vec<(usize, u64, u64)>, e: (usize, u64, u64)) -> (p: usize)
    requires
        is_ranked(old(out)@),
        entries_bounded(old(out)@),
        e.1 <= 10 * MAX_CRITERIA,
        e.2 <= 10 * MAX_CRITERIA,
        forall|k: int| 0 <= k < old(out)@.len() ==> (#[trigger] old(out)@[k]).0 < e.0,
    ensures
        p <= old(out)@.len(),
        final(out)@ == old(out)@.insert(p as int, e),
        is_ranked(final(out)@),
        entries_bounded(final(out)@),
{
    let mut p: usize = 0;
    while p < out.len() && !before(e, out[p])
        invariant
            p <= out@.len(),
            e.1 <= 10 * MAX_CRITERIA,
            e.2 <= 10 * MAX_CRITERIA,
            entries_bounded(out@),
            forall|k: int| 0 <= k < p ==> !ranked_before(e, #[trigger] out@[k]),
        decreases out@.len() - p,
    {
        p = p + 1;
    }
    let ghost old_out = out@;
    proof {
        assert forall|k: int| 0 <= k < p implies ranked_before(#[trigger] old_out[k], e) by {
            let a = affinity_frac(old_out[k].1 as nat, old_out[k].2 as nat);
            let b = affinity_frac(e.1 as nat, e.2 as nat);
            lemma_frac_order(a, b, a);
            lemma_frac_order(b, a, b);
            assert(!ranked_before(e, old_out[k]));
            assert(old_out[k].0 < e.0);
        }
        assert forall|k: int| p <= k < old_out.len() implies ranked_before(e, #[trigger] old_out[k]) by {
            if k > p {
                lemma_ranked_before_trans(e, old_out[p as int], old_out[k]);
            }
        }
    }
    out.insert(p, e);
    proof {
        assert forall|k: int, l: int| 0 <= k < l < out@.len() implies ranked_before(#[trigger] out@[k], #[trigger] out@[l]) by {
            if k < p && l < p {
                assert(out@[k] == old_out[k] && out@[l] == old_out[l]);
            } else if k < p && l == p {
            } else if k < p && l > p {
                assert(out@[k] == old_out[k] && out@[l] == old_out[l - 1]);
                lemma_ranked_before_trans(old_out[k], e, old_out[l - 1]);
            } else if k == p {
                assert(out@[l] == old_out[l - 1]);
            } else {
                assert(out@[k] == old_out[k - 1] && out@[l] == old_out[l - 1]);
            }
        }
        assert forall|k: int| 0 <= k < out@.len() implies (#[trigger] out@[k]).1 <= 10 * MAX_CRITERIA && out@[k].2 <= 10
            * MAX_CRITERIA by {
            if k < p {
                assert(out@[k] == old_out[k]);
            } else if k > p {
                assert(out@[k] == old_out[k - 1]);
            }
        }
    }
    p
}

/// The boundary constraints given for section `i` (none when the list is
/// shorter).
pub open spec fn constraints_for(cs: Seq<Vec<String>>, i: int) -> Seq<String> {
    if 0 <= i < cs.len() {
        cs[i]@
    } else {
        Seq::<String>::empty()
    }
}

/// `r` ranks the sections: every section once, each with its score and
/// weight (see [`affinity_halves`]), the higher affinity first and, between
/// equal affinities, the earlier section first (the weight 0 counting as the
/// affinity 3/10).
pub open spec fn ranks_sections(r: Seq<(usize, u64, u64)>, b: Block, ss: Seq<Block>, cs: Seq<Vec<String>>) -> bool {
    &&& r.len() == ss.len()
    &&& forall|k: int| 0 <= k < r.len() ==> (#[trigger] r[k]).0 < ss.len()
    &&& forall|k: int, l: int| 0 <= k < l < r.len() ==> r[k].0 != r[l].0
    &&& forall|k: int|
        0 <= k < r.len() ==> (#[trigger] r[k]).1 == score_halves(b, section_keywords_spec(ss[r[k].0 as int]), constraints_for(cs, r[k].0 as int))
            && r[k].2 == weight_halves(b, section_keywords_spec(ss[r[k].0 as int]), constraints_for(cs, r[k].0 as int))
    &&& forall|k: int, l: int| 0 <= k < l < r.len() ==> ranked_before(#[trigger] r[k], #[trigger] r[l])
}

/// Each entry of `s` names a different section below `n`, with its score and
/// weight for `b`.
pub open spec fn entries_ok(s: Seq<(usize, u64, u64)>, b: Block, ss: Seq<Block>, cs: Seq<Vec<String>>, n: int) -> bool {
    &&& forall|k: int| 0 <= k < s.len() ==> (#[trigger] s[k]).0 < n
    &&& forall|k: int, l: int| 0 <= k < l < s.len() ==> s[k].0 != s[l].0
    &&& forall|k: int|
        0 <= k < s.len() ==> (#[trigger] s[k]).1 == score_halves(b, section_keywords_spec(ss[s[k].0 as int]), constraints_for(cs, s[k].0 as int))
            && s[k].2 == weight_halves(b, section_keywords_spec(ss[s[k].0 as int]), constraints_for(cs, s[k].0 as int))
}

proof fn lemma_insert_entry(
    old_out: Seq<(usize, u64, u64)>,
    out: Seq<(usize, u64, u64)>,
    e: (usize, u64, u64),
    p: int,
    b: Block,
    ss: Seq<Block>,
    cs: Seq<Vec<String>>,
    i: int,
)
    requires
        entries_ok(old_out, b, ss, cs, i),
        0 <= p <= old_out.len(),
        out == old_out.insert(p, e),
        e.0 == i,
        e.1 == score_halves(b, section_keywords_spec(ss[i]), constraints_for(cs, i)),
        e.2 == weight_halves(b, section_keywords_spec(ss[i]), constraints_for(cs, i)),
    ensures
        entries_ok(out, b, ss, cs, i + 1),
{
    assert forall|k: int| 0 <= k < out.len() implies (#[trigger] out[k]).0 < i + 1 by {
        if k < p {
            assert(out[k] == old_out[k]);
        } else if k > p {
            assert(out[k] == old_out[k - 1]);
        }
    }
    assert forall|k: int, l: int| 0 <= k < l < out.len() implies out[k].0 != out[l].0 by {
        if k < p && l < p {
            assert(out[k] == old_out[k] && out[l] == old_out[l]);
        } else if k < p && l > p {
            assert(out[k] == old_out[k] && out[l] == old_out[l - 1]);
        } else if k > p {
            assert(out[k] == old_out[k - 1] && out[l] == old_out[l - 1]);
        } else if k < p {
            assert(out[k] == old_out[k]);
        } else {
            assert(out[l] == old_out[l - 1]);
        }
    }
    assert forall|k: int| 0 <= k < out.len() implies (#[trigger] out[k]).1 == score_halves(b, section_keywords_spec(ss[out[k].0 as int]), constraints_for(cs, out[k].0 as int))
        && out[k].2 == weight_halves(b, section_keywords_spec(ss[out[k].0 as int]), constraints_for(cs, out[k].0 as int)) by {
        if k < p {
            assert(out[k] == old_out[k]);
        } else if k > p {
            assert(out[k] == old_out[k - 1]);
        }
    }
}

/// Ranks the sections `structures` for `block`, the boundary constraints of
/// section `i` being `constraints[i]` (see [`ranks_sections`]).
pub fn rank_sections(block: &Block, structures: &[Block], constraints: &[Vec<String>]) -> (r: Vec<(usize, u64, u64)>)
    requires
        block.tags@.len() <= MAX_CRITERIA,
        forall|i: int| 0 <= i < structures@.len() ==> (#[trigger] structures@[i]).tags@.len() + 20 <= MAX_CRITERIA,
        forall|i: int| 0 <= i < constraints@.len() ==> (#[trigger] constraints@[i])@.len() <= MAX_CRITERIA,
    ensures
        ranks_sections(r@, *block, structures@, constraints@),
{
    let mut out: Vec<(usize, u64, u64)> = Vec::new();
    let mut i: usize = 0;
    let none: Vec<String> = Vec::new();
    while i < structures.len()
        invariant
            i <= structures@.len(),
            block.tags@.len() <= MAX_CRITERIA,
            forall|q: int| 0 <= q < structures@.len() ==> (#[trigger] structures@[q]).tags@.len() + 20 <= MAX_CRITERIA,
            forall|q: int| 0 <= q < constraints@.len() ==> (#[trigger] constraints@[q])@.len() <= MAX_CRITERIA,
            none@.len() == 0,
            out@.len() == i,
            entries_ok(out@, *block, structures@, constraints@, i as int),
            is_ranked(out@),
            entries_bounded(out@),
        decreases structures@.len() - i,
    {
        let ks = smart_section_keywords(&structures[i]);
        proof {
            let s = structures@[i as int];
            let ws = words_seq(s.content@);
            lemma_content_keywords_len(if ws.len() > 20 { ws.take(20) } else { ws });
            assert(texts_of(ks@).len() == ks@.len());
        }
        let cs = if i < constraints.len() {
            &constraints[i]
        } else {
            &none
        };
        assert(cs@ == constraints_for(constraints@, i as int));
        let (sc, wt) = affinity_halves(block, &ks, cs);
        let e = (i, sc, wt);
        let ghost old_out = out@;
        let p = insert_ranked(&mut out, e);
        proof {
            lemma_insert_entry(old_out, out@, e, p as int, *block, structures@, constraints@, i as int);
        }
        i = i + 1;
    }
    out
}

proof fn lemma_content_keywords_len(ws: Seq<Seq<char>>)
    ensures
        content_keywords(ws).len() <= ws.len(),
    decreases ws.len(),
{
    if ws.len() > 0 {
        lemma_content_keywords_len(ws.drop_last());
    }
}

// ---------------------------------------------------------------------------
// The section a block is in
// ---------------------------------------------------------------------------

/// A section link: a section-of or contains link from a stored structure
/// note.
pub open spec fn is_section_link(bs: Seq<Block>, e: crate::block::Edge) -> bool {
    (e.link_type == LinkType::SectionOf || e.link_type == LinkType::Contains) && match first_block_with(bs, e.from) {
        Some(k) => bs[k].block_type == BlockType::Structure,
        None => false,
    }
}

/// The structure note of the first link of `inc` that is a section link
/// (see [`is_section_link`]); `None` when there is none.
pub open spec fn first_section_among(bs: Seq<Block>, inc: Seq<crate::block::Edge>) -> Option<int>
    decreases inc.len(),
{
    if inc.len() == 0 {
        None
    } else if is_section_link(bs, inc[0]) {
        first_block_with(bs, inc[0].from)
    } else {
        first_section_among(bs, inc.drop_first())
    }
}

proof fn lemma_section_step(bs: Seq<Block>, iv: Seq<crate::block::Edge>, i: int)
    requires
        0 <= i < iv.len(),
    ensures
        first_section_among(bs, iv.skip(i)) == if is_section_link(bs, iv[i]) {
            first_block_with(bs, iv[i].from)
        } else {
            first_section_among(bs, iv.skip(i + 1))
        },
{
    assert(iv.skip(i)[0] == iv[i]);
    assert(iv.skip(i).drop_first() =~= iv.skip(i + 1));
}

/// The section a block is currently in: the structure note of the first link
/// into it, newest first, that is a section-of or contains link from a
/// stored structure note; `None` when there is none.
pub open spec fn current_section_spec(bs: Seq<Block>, es: Seq<crate::block::Edge>, b: u128) -> Option<int> {
    first_section_among(bs, newest_edges_where(es, links_into(b)))
}

/// Whether a link leads into block `b`.
pub open spec fn links_into(b: u128) -> spec_fn(crate::block::Edge) -> bool {
    |e: crate::block::Edge| e.to == b
}

/// The position in the store of the section block `b` is in (see
/// [`current_section_spec`]).
pub fn current_section(blocks: &BlockStore, edges: &EdgeStore, b: u128) -> (r: Option<usize>)
    ensures
        match r {
            Some(k) => current_section_spec(blocks.blocks@, edges.edges@, b) == Some(k as int),
            None => current_section_spec(blocks.blocks@, edges.edges@, b) is None,
        },
{
    let inc = edges.incoming_to(b);
    let ghost iv = newest_edges_where(edges.edges@, links_into(b));
    let ghost bs = blocks.blocks@;
    let mut i: usize = 0;
    assert(links_into(b) =~= (|e: crate::block::Edge| e.to == b));
    assert(iv.skip(0) =~= iv);
    while i < inc.len()
        invariant
            i <= inc@.len(),
            bs == blocks.blocks@,
            iv == newest_edges_where(edges.edges@, links_into(b)),
            same_edges(inc@, iv),
            first_section_among(bs, iv) == first_section_among(bs, iv.skip(i as int)),
        decreases inc@.len() - i,
    {
        assert(crate::block::same_edge(inc@[i as int], iv[i as int]));
        proof {
            lemma_section_step(bs, iv, i as int);
        }
        let e = &inc[i];
        let kind_ok = e.link_type == LinkType::SectionOf || e.link_type == LinkType::Contains;
        if kind_ok {
            match blocks.position_of(e.from) {
                Some(k) => {
                    if blocks.blocks[k].block_type == BlockType::Structure {
                        assert(is_section_link(bs, iv[i as int]));
                        return Some(k);
                    }
                },
                None => {},
            }
        }
        assert(!is_section_link(bs, iv[i as int]));
        i = i + 1;
    }
    None
}

} // verus!
