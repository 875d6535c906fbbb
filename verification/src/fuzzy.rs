//! Fuzzy title matching for search.
//!
//! A query matches a title when it occurs in it, or when its characters occur
//! in the title in order and the match scores at least 60% of the best
//! possible score. Scores are kept in tenths of a point, so the arithmetic is
//! exact: each matched character is worth 10, each adjacent pair of matches 5,
//! each character skipped between two matches costs 1, a match at the very
//! start is worth 10, and each match at a word boundary 3.

use vstd::prelude::*;
use crate::text::{chars_of, contains_chars, contains_seq, lowercase, to_lowercase};

verus! {

/// Positions of the title matched by the query when scanning `t[0..k]`
/// greedily from the left: each title character that equals the next
/// unmatched query character is taken.
pub open spec fn greedy_positions(q: Seq<char>, t: Seq<char>, k: nat) -> Seq<int>
    decreases k,
{
    if k == 0 {
        seq![]
    } else {
        let ps = greedy_positions(q, t, (k - 1) as nat);
        if ps.len() < q.len() && t[k - 1] == q[ps.len() as int] {
            ps.push(k - 1)
        } else {
            ps
        }
    }
}

/// Points (in tenths) for the gaps between consecutive matched positions:
/// +5 for adjacent matches, minus the number of skipped characters otherwise.
pub open spec fn gap_points(ps: Seq<int>) -> int
    decreases ps.len(),
{
    if ps.len() < 2 {
        0
    } else {
        let a = ps[ps.len() - 2];
        let b = ps.last();
        gap_points(ps.drop_last()) + if b == a + 1 {
            5
        } else {
            -(b - a - 1)
        }
    }
}

/// Whether a matched title character sits at a word boundary (position 0, or
/// the character itself is a space, `-` or `_`).
pub open spec fn at_boundary(t: Seq<char>, p: int) -> bool {
    p == 0 || t[p] == ' ' || t[p] == '-' || t[p] == '_'
}

/// The number of matched positions at word boundaries.
pub open spec fn boundary_count(ps: Seq<int>, t: Seq<char>) -> int
    decreases ps.len(),
{
    if ps.len() == 0 {
        0
    } else {
        boundary_count(ps.drop_last(), t) + if at_boundary(t, ps.last()) {
            1int
        } else {
            0int
        }
    }
}

/// The raw score (in tenths) of a complete match at positions `ps`.
pub open spec fn match_points(q: Seq<char>, t: Seq<char>, ps: Seq<int>) -> int {
    10 * q.len() + gap_points(ps) + (if ps.len() > 0 && ps[0] == 0 {
        10int
    } else {
        0int
    }) + 3 * boundary_count(ps, t)
}

/// The best possible score (in tenths) for a query of `n` characters.
pub open spec fn max_points(n: nat) -> int {
    18 * (n as int) + 10
}

/// The similarity of a (lowercased) query and title as a fraction
/// `(points, out_of)`: 1 for an empty query, 0 for an empty title or when the
/// query's characters do not all occur in order, otherwise the match score
/// clamped to `[0, max]` out of the maximum.
pub open spec fn similarity_of(q: Seq<char>, t: Seq<char>) -> (int, int) {
    if q.len() == 0 {
        (1, 1)
    } else if t.len() == 0 {
        (0, 1)
    } else {
        let ps = greedy_positions(q, t, t.len());
        if ps.len() != q.len() {
            (0, 1)
        } else {
            let s = match_points(q, t, ps);
            let m = max_points(q.len());
            (if s < 0 {
                0
            } else if s > m {
                m
            } else {
                s
            }, m)
        }
    }
}

/// Whether a similarity reaches the matching threshold of 0.6.
pub open spec fn reaches_threshold(sim: (int, int)) -> bool {
    10 * sim.0 >= 6 * sim.1
}

/// Whether a lowercased query matches a lowercased title.
pub open spec fn fuzzy_matches(q: Seq<char>, t: Seq<char>) -> bool {
    contains_seq(t, q) || reaches_threshold(similarity_of(q, t))
}

/// A similarity expressed exactly as `points / out_of`.
#[derive(Debug, Clone, Copy, PartialEq, Eq, Structural)]
pub struct Similarity {
    pub points: u128,
    pub out_of: u128,
}

proof fn lemma_greedy_shape(q: Seq<char>, t: Seq<char>, k: nat)
    requires
        k <= t.len(),
    ensures
        greedy_positions(q, t, k).len() <= q.len(),
        greedy_positions(q, t, k).len() <= k,
        forall|i: int|
            0 <= i < greedy_positions(q, t, k).len() ==> 0 <= #[trigger] greedy_positions(
                q,
                t,
                k,
            )[i] < k,
        forall|i: int, j: int|
            0 <= i < j < greedy_positions(q, t, k).len() ==> greedy_positions(q, t, k)[i]
                < greedy_positions(q, t, k)[j],
    decreases k,
{
    if k > 0 {
        lemma_greedy_shape(q, t, (k - 1) as nat);
    }
}

proof fn lemma_gap_bounds(ps: Seq<int>)
    requires
        ps.len() >= 1,
        forall|i: int, j: int| 0 <= i < j < ps.len() ==> ps[i] < ps[j],
    ensures
        gap_points(ps) >= -(ps.last() - ps[0]),
        gap_points(ps) <= 5 * (ps.len() - 1),
    decreases ps.len(),
{
    if ps.len() >= 2 {
        let p = ps.drop_last();
        assert forall|i: int, j: int| 0 <= i < j < p.len() implies p[i] < p[j] by {
            assert(p[i] == ps[i] && p[j] == ps[j]);
        }
        lemma_gap_bounds(p);
        assert(p.last() == ps[ps.len() - 2]);
        assert(ps[ps.len() - 2] < ps.last());
    }
}

proof fn lemma_boundary_bounds(ps: Seq<int>, t: Seq<char>)
    ensures
        0 <= boundary_count(ps, t) <= ps.len(),
    decreases ps.len(),
{
    if ps.len() > 0 {
        lemma_boundary_bounds(ps.drop_last(), t);
    }
}

/// The similarity of a lowercased query and title (see [`similarity_of`]).
pub fn calculate_similarity(q: &[char], t: &[char]) -> (r: Similarity)
    ensures
        (r.points as int, r.out_of as int) == similarity_of(q@, t@),
        r.points <= r.out_of,
        1 <= r.out_of <= 18 * (q@.len() as int) + 10,
{
    if q.len() == 0 {
        return Similarity { points: 1, out_of: 1 };
    }
    if t.len() == 0 {
        return Similarity { points: 0, out_of: 1 };
    }
    let qn = q.len();
    let tn = t.len();
    // Greedy left-to-right matching.
    let mut ps: Vec<usize> = Vec::new();
    let mut k: usize = 0;
    while k < tn
        invariant
            tn == t@.len(),
            qn == q@.len(),
            k <= tn,
            ps@.len() == greedy_positions(q@, t@, k as nat).len(),
            forall|i: int|
                0 <= i < ps@.len() ==> #[trigger] ps@[i] as int == greedy_positions(
                    q@,
                    t@,
                    k as nat,
                )[i],
        decreases tn - k,
    {
        proof {
            lemma_greedy_shape(q@, t@, k as nat);
        }
        if ps.len() < qn && t[k] == q[ps.len()] {
            ps.push(k);
        }
        k = k + 1;
    }
    let ghost gp = greedy_positions(q@, t@, tn as nat);
    proof {
        lemma_greedy_shape(q@, t@, tn as nat);
    }
    assert(ps@.len() == gp.len());
    if ps.len() != qn {
        return Similarity { points: 0, out_of: 1 };
    }
    // Gap points, accumulated over the prefix of matched positions.
    let mut gaps: i128 = 0;
    let mut j: usize = 1;
    while j < ps.len()
        invariant
            qn == q@.len(),
            tn == t@.len(),
            ps@.len() == qn,
            gp == greedy_positions(q@, t@, tn as nat),
            gp.len() == qn,
            forall|i: int| 0 <= i < ps@.len() ==> #[trigger] ps@[i] as int == gp[i],
            forall|i: int| 0 <= i < gp.len() ==> 0 <= #[trigger] gp[i] < tn,
            forall|i: int, l: int| 0 <= i < l < gp.len() ==> gp[i] < gp[l],
            1 <= j <= ps@.len(),
            gaps == gap_points(gp.subrange(0, j as int)),
            -(tn as int) <= gaps <= 5 * (j as int),
        decreases ps@.len() - j,
    {
        let a = ps[j - 1];
        let b = ps[j];
        let ghost pre = gp.subrange(0, j as int);
        let ghost nxt = gp.subrange(0, j + 1);
        assert(nxt.drop_last() =~= pre);
        assert(nxt[nxt.len() - 2] == gp[j - 1]);
        assert(gp[j - 1] < gp[j as int]);
        if b == a + 1 {
            gaps = gaps + 5;
        } else {
            gaps = gaps - ((b - a - 1) as i128);
        }
        j = j + 1;
        proof {
            assert forall|i: int, l: int| 0 <= i < l < nxt.len() implies nxt[i] < nxt[l] by {
                assert(nxt[i] == gp[i] && nxt[l] == gp[l]);
            }
            lemma_gap_bounds(nxt);
            assert(nxt[0] == gp[0]);
            assert(nxt.last() == gp[j - 1]);
        }
    }
    assert(gp.subrange(0, qn as int) =~= gp);
    // Matches at word boundaries.
    let mut bounds: i128 = 0;
    let mut i: usize = 0;
    while i < ps.len()
        invariant
            qn == q@.len(),
            tn == t@.len(),
            ps@.len() == qn,
            gp.len() == qn,
            forall|l: int| 0 <= l < ps@.len() ==> #[trigger] ps@[l] as int == gp[l],
            forall|l: int| 0 <= l < gp.len() ==> 0 <= #[trigger] gp[l] < tn,
            i <= ps@.len(),
            bounds == boundary_count(gp.subrange(0, i as int), t@),
            0 <= bounds <= i,
        decreases ps@.len() - i,
    {
        let p = ps[i];
        let ghost nxt = gp.subrange(0, i + 1);
        assert(nxt.drop_last() =~= gp.subrange(0, i as int));
        if p == 0 || t[p] == ' ' || t[p] == '-' || t[p] == '_' {
            bounds = bounds + 1;
        }
        i = i + 1;
    }
    assert(gp.subrange(0, qn as int) =~= gp);
    let start: i128 = if ps[0] == 0 { 10 } else { 0 };
    let score: i128 = 10 * (qn as i128) + gaps + start + 3 * bounds;
    let max: i128 = 18 * (qn as i128) + 10;
    let points: i128 = if score < 0 { 0 } else if score > max { max } else { score };
    Similarity { points: points as u128, out_of: max as u128 }
}

/// A query found as it is inside a title always matches it, however low
/// its fuzzy similarity: a query occurring at position `i` of the title
/// matches.
pub proof fn lemma_substring_matches(q: Seq<char>, t: Seq<char>, i: int)
    requires
        0 <= i,
        i + q.len() <= t.len(),
        t.subrange(i, i + q.len()) == q,
    ensures
        fuzzy_matches(q, t),
{
    assert(crate::text::occurs_at(t, q, i));
}

/// A title matches every query it begins with, and every query equal to it.
pub proof fn lemma_prefix_matches(q: Seq<char>, t: Seq<char>)
    requires
        q.len() <= t.len(),
        t.subrange(0, q.len() as int) == q,
    ensures
        fuzzy_matches(q, t),
        fuzzy_matches(t, t),
{
    lemma_substring_matches(q, t, 0);
    assert(t.subrange(0, t.len() as int) =~= t);
    lemma_substring_matches(t, t, 0);
}

/// Fuzzy matching of an already lowercased query and title.
pub fn fuzzy_match_lowered(query_lower: &str, title_lower: &str) -> (b: bool)
    ensures
        b == fuzzy_matches(query_lower@, title_lower@),
{
    let q = chars_of(query_lower);
    let t = chars_of(title_lower);
    if contains_chars(&t, &q) {
        return true;
    }
    let qlen = q.len();
    let sim = calculate_similarity(&q, &t);
    assert(sim.out_of <= 18 * (qlen as int) + 10);
    10 * sim.points >= 6 * sim.out_of
}

/// Whether a search query matches a title, ignoring case: the query occurs
/// in the title, or matches it fuzzily (see [`fuzzy_matches`]).
pub fn fuzzy_match(query: &str, title: &str) -> (b: bool)
    ensures
        b == fuzzy_matches(lowercase(query@), lowercase(title@)),
{
    let q = to_lowercase(query);
    let t = to_lowercase(title);
    fuzzy_match_lowered(q.as_str(), t.as_str())
}

} // verus!
