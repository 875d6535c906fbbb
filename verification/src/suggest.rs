//! Link suggestions: which blocks are worth linking, and which kind of link
//! the wording of two blocks calls for.
//!
//! The similarity of two blocks is a floating-point score computed from
//! their embeddings; the rules here only need to know which of the rule
//! thresholds (0.5, 0.7 and 0.8) it passes, so they take that band.

use vstd::prelude::*;
use crate::block::{same_block, Block};
use crate::model::{BlockType, LinkType};
use crate::keywords::{contains_string, is_keyword_of, keywords_in, lists_keywords_of};
use crate::text::{
    chars_eq, chars_of, contains_seq, contains_str, join_seq, join_with, lowercase, owned, push_str, string_from_chars,
    strings_view, to_lowercase, words_of, words_seq,
};

verus! {

/// Where a similarity score lies relative to the rule thresholds.
#[derive(Debug, Clone, Copy, PartialEq, Eq, Structural)]
pub enum SimilarityBand {
    /// At most 0.5 (or no number at all).
    Low,
    /// Above 0.5 and below 0.7.
    Moderate,
    /// Exactly 0.7.
    AtThreshold,
    /// Above 0.7, at most 0.8.
    High,
    /// Above 0.8.
    VeryHigh,
}

/// The score is above 0.5.
pub open spec fn above_half(b: SimilarityBand) -> bool {
    !(b is Low)
}

/// The score is at least 0.7.
pub open spec fn at_least_seventy(b: SimilarityBand) -> bool {
    b is AtThreshold || b is High || b is VeryHigh
}

/// The score is above 0.7.
pub open spec fn above_seventy(b: SimilarityBand) -> bool {
    b is High || b is VeryHigh
}

/// Wording of a block that builds on another.
pub const EXTENSION_PATTERNS: [&'static str; 14] = [
    "builds on", "extends", "expands", "continues", "based on",
    "following", "after", "subsequent", "later", "next",
    "adds to", "develops", "improves", "enhances",
];

/// Wording of a block that makes another more precise.
pub const REFINEMENT_PATTERNS: [&'static str; 10] = [
    "specifically", "in particular", "more precisely",
    "refines", "clarifies", "specifies", "details",
    "elaborates", "expands on", "example",
];

/// Wording of a block that disagrees with another.
pub const CONTRADICTION_PATTERNS: [&'static str; 13] = [
    "however", "but", "although", "despite", "contrary",
    "instead", "rather", "whereas", "while", "unlike",
    "different from", "opposite", "contrast",
];

/// Wording of a block that asks something.
pub const QUESTION_PATTERNS: [&'static str; 5] = ["?", "why", "how", "what if", "wonder"];

/// Wording of a block that brings evidence.
pub const SUPPORT_PATTERNS: [&'static str; 12] = [
    "evidence", "study", "research", "shows", "demonstrates",
    "proves", "confirms", "supports", "according to",
    "data", "results", "findings",
];

/// Wording of a block that points elsewhere.
pub const REFERENCE_PATTERNS: [&'static str; 10] = [
    "according to", "cited", "reference", "see also",
    "related to", "mentioned in", "as described in",
    "quoted", "stated in", "from",
];

/// `text` contains one of the patterns.
pub open spec fn mentions_any(text: Seq<char>, pats: Seq<&'static str>) -> bool {
    exists|j: int| 0 <= j < pats.len() && contains_seq(text, (#[trigger] pats[j])@)
}

/// Whether `text` contains one of the patterns.
fn mentions(text: &str, pats: &[&'static str]) -> (b: bool)
    ensures
        b == mentions_any(text@, pats@),
{
    let mut j: usize = 0;
    while j < pats.len()
        invariant
            j <= pats@.len(),
            forall|q: int| 0 <= q < j ==> !contains_seq(text@, (#[trigger] pats@[q])@),
        decreases pats@.len() - j,
    {
        if contains_str(text, pats[j]) {
            return true;
        }
        j = j + 1;
    }
    false
}

/// The kind of link suggested from `source` to `target`, decided on their
/// lowercased contents, their kinds and the similarity band, by the first
/// rule that applies:
/// both build on something and the score is above 0.8: extends;
/// either refines and the score is at least 0.7: refines;
/// either disagrees: contradicts;
/// the source asks and the score is above 0.5: questions;
/// both bring evidence: supports;
/// either points elsewhere: references;
/// then by kinds: from a structure, a section of it; to a structure,
/// contains; from a hub, contains; to a hub, a section of it;
/// otherwise related above 0.7 and similar below.
pub open spec fn predicted_link_type(
    source_text: Seq<char>,
    target_text: Seq<char>,
    source_type: BlockType,
    target_type: BlockType,
    band: SimilarityBand,
) -> LinkType {
    let s = lowercase(source_text);
    let t = lowercase(target_text);
    if mentions_any(s, EXTENSION_PATTERNS@) && mentions_any(t, EXTENSION_PATTERNS@) && band is VeryHigh {
        LinkType::Extends
    } else if (mentions_any(s, REFINEMENT_PATTERNS@) || mentions_any(t, REFINEMENT_PATTERNS@)) && at_least_seventy(
        band,
    ) {
        LinkType::Refines
    } else if mentions_any(s, CONTRADICTION_PATTERNS@) || mentions_any(t, CONTRADICTION_PATTERNS@) {
        LinkType::Contradicts
    } else if mentions_any(s, QUESTION_PATTERNS@) && above_half(band) {
        LinkType::Questions
    } else if mentions_any(s, SUPPORT_PATTERNS@) && mentions_any(t, SUPPORT_PATTERNS@) {
        LinkType::Supports
    } else if mentions_any(s, REFERENCE_PATTERNS@) || mentions_any(t, REFERENCE_PATTERNS@) {
        LinkType::References
    } else if source_type == BlockType::Structure {
        LinkType::SectionOf
    } else if target_type == BlockType::Structure {
        LinkType::Contains
    } else if source_type == BlockType::Hub {
        LinkType::Contains
    } else if target_type == BlockType::Hub {
        LinkType::SectionOf
    } else if above_seventy(band) {
        LinkType::Related
    } else {
        LinkType::SimilarTo
    }
}

/// Disagreement is told from either side: when neither block builds on the
/// other (at a very high score) and neither refines the other (at a score
/// of at least 0.7), a target whose content uses contradiction wording gets
/// a contradiction link, whatever the source says.
pub proof fn lemma_target_disagreement(
    source_text: Seq<char>,
    target_text: Seq<char>,
    source_type: BlockType,
    target_type: BlockType,
    band: SimilarityBand,
    j: int,
)
    requires
        0 <= j < CONTRADICTION_PATTERNS@.len(),
        contains_seq(lowercase(target_text), CONTRADICTION_PATTERNS@[j]@),
        !(mentions_any(lowercase(source_text), EXTENSION_PATTERNS@) && mentions_any(lowercase(target_text), EXTENSION_PATTERNS@)
            && band is VeryHigh),
        !((mentions_any(lowercase(source_text), REFINEMENT_PATTERNS@) || mentions_any(lowercase(target_text), REFINEMENT_PATTERNS@))
            && at_least_seventy(band)),
    ensures
        predicted_link_type(source_text, target_text, source_type, target_type, band) == LinkType::Contradicts,
{
    assert(mentions_any(lowercase(target_text), CONTRADICTION_PATTERNS@));
}

/// Whether a link is a contradiction does not depend on which block is the
/// source: swapping the two blocks (and their kinds) keeps it.
pub proof fn lemma_contradiction_symmetric(
    source_text: Seq<char>,
    target_text: Seq<char>,
    source_type: BlockType,
    target_type: BlockType,
    band: SimilarityBand,
)
    ensures
        (predicted_link_type(source_text, target_text, source_type, target_type, band) == LinkType::Contradicts) == (
        predicted_link_type(target_text, source_text, target_type, source_type, band) == LinkType::Contradicts),
{
}

/// Predicts the kind of link from `source` to `target` (see
/// [`predicted_link_type`]).
pub fn predict_link_type(source: &Block, target: &Block, band: SimilarityBand) -> (t: LinkType)
    ensures
        t == predicted_link_type(source.content@, target.content@, source.block_type, target.block_type, band),
{
    let sl = to_lowercase(source.content.as_str());
    let tl = to_lowercase(target.content.as_str());
    let s = sl.as_str();
    let t = tl.as_str();
    let high = match band {
        SimilarityBand::VeryHigh => true,
        _ => false,
    };
    let at_seventy = match band {
        SimilarityBand::AtThreshold | SimilarityBand::High | SimilarityBand::VeryHigh => true,
        _ => false,
    };
    let above_seventy_now = match band {
        SimilarityBand::High | SimilarityBand::VeryHigh => true,
        _ => false,
    };
    let above_half_now = match band {
        SimilarityBand::Low => false,
        _ => true,
    };
    if mentions(s, &EXTENSION_PATTERNS) && mentions(t, &EXTENSION_PATTERNS) && high {
        return LinkType::Extends;
    }
    if (mentions(s, &REFINEMENT_PATTERNS) || mentions(t, &REFINEMENT_PATTERNS)) && at_seventy {
        return LinkType::Refines;
    }
    if mentions(s, &CONTRADICTION_PATTERNS) || mentions(t, &CONTRADICTION_PATTERNS) {
        return LinkType::Contradicts;
    }
    if mentions(s, &QUESTION_PATTERNS) && above_half_now {
        return LinkType::Questions;
    }
    if mentions(s, &SUPPORT_PATTERNS) && mentions(t, &SUPPORT_PATTERNS) {
        return LinkType::Supports;
    }
    if mentions(s, &REFERENCE_PATTERNS) || mentions(t, &REFERENCE_PATTERNS) {
        return LinkType::References;
    }
    match (source.block_type, target.block_type) {
        (BlockType::Structure, _) => LinkType::SectionOf,
        (_, BlockType::Structure) => LinkType::Contains,
        (BlockType::Hub, _) => LinkType::Contains,
        (_, BlockType::Hub) => LinkType::SectionOf,
        _ => {
            if above_seventy_now {
                LinkType::Related
            } else {
                LinkType::SimilarTo
            }
        },
    }
}

/// A block worth suggesting links for: a permanent, literature, reference
/// or structure block with content.
pub open spec fn is_link_candidate(b: Block) -> bool {
    (b.block_type == BlockType::Permanent || b.block_type == BlockType::Literature || b.block_type
        == BlockType::Reference || b.block_type == BlockType::Structure) && b.content@.len() > 0
}

/// The candidates among `bs`, in order.
pub open spec fn link_candidates(bs: Seq<Block>) -> Seq<Block> {
    bs.filter(|b: Block| is_link_candidate(b))
}

/// The blocks worth suggesting links for, in order (see [`is_link_candidate`]).
pub fn filter_candidates(blocks: &[Block]) -> (out: Vec<Block>)
    ensures
        out@.len() == link_candidates(blocks@).len(),
        forall|k: int| 0 <= k < out@.len() ==> same_block(#[trigger] out@[k], link_candidates(blocks@)[k]),
{
    let mut out: Vec<Block> = Vec::new();
    let mut i: usize = 0;
    while i < blocks.len()
        invariant
            i <= blocks@.len(),
            out@.len() == link_candidates(blocks@.subrange(0, i as int)).len(),
            forall|k: int| 0 <= k < out@.len() ==> same_block(#[trigger] out@[k], link_candidates(blocks@.subrange(0, i as int))[k]),
        decreases blocks@.len() - i,
    {
        proof {
            reveal(Seq::filter);
            assert(blocks@.subrange(0, i + 1).drop_last() =~= blocks@.subrange(0, i as int));
        }
        let b = &blocks[i];
        let kind_ok = match b.block_type {
            BlockType::Permanent | BlockType::Literature | BlockType::Reference | BlockType::Structure => true,
            _ => false,
        };
        if kind_ok && !b.content.as_str().is_empty() {
            out.push(b.copy_block());
        }
        i = i + 1;
    }
    assert(blocks@.subrange(0, blocks@.len() as int) =~= blocks@);
    out
}

/// Words left out of a text's keywords when suggesting links.
pub const LINK_STOP_WORDS: [&'static str; 77] = [
    "the", "a", "an", "and", "or", "but", "in", "on", "at", "to", "for",
    "of", "with", "by", "from", "as", "is", "was", "are", "were", "been",
    "be", "have", "has", "had", "do", "does", "did", "will", "would", "could",
    "should", "may", "might", "must", "can", "this", "that", "these", "those",
    "i", "you", "he", "she", "it", "we", "they", "what", "which", "who",
    "when", "where", "why", "how", "all", "each", "every", "both", "few",
    "more", "most", "other", "some", "such", "no", "nor", "not", "only",
    "own", "same", "so", "than", "too", "very", "just", "also", "now",
];

/// `ks` lists the keywords of a text for link suggestions: the words of its
/// lowercased form longer than 4 bytes that are no stop words, reduced to
/// their alphanumeric characters and kept when longer than 3 bytes.
pub open spec fn lists_link_keywords(text: Seq<char>, ks: Seq<String>) -> bool {
    lists_keywords_of(lowercase(text), LINK_STOP_WORDS@, 5, 4, ks)
}

/// The keywords of a text for link suggestions, each once, in order of
/// first appearance (see [`lists_link_keywords`]).
pub fn link_keywords(text: &str) -> (ks: Vec<String>)
    ensures
        lists_link_keywords(text@, ks@),
{
    let lower = to_lowercase(text);
    keywords_in(lower.as_str(), &LINK_STOP_WORDS, 5, 4)
}

// ---------------------------------------------------------------------------
// Why two blocks are suggested together
// ---------------------------------------------------------------------------

/// The first word of `os`, from position `k` on, whose lowercase form is
/// `lw`; `lw` itself when there is none.
pub open spec fn source_spelling(os: Seq<Seq<char>>, lw: Seq<char>, k: int) -> Seq<char>
    decreases os.len() - k,
{
    if k < 0 || k >= os.len() {
        lw
    } else if lowercase(os[k]) == lw {
        os[k]
    } else {
        source_spelling(os, lw, k + 1)
    }
}

/// The words of `sw` that occur in `tw`, in order and with repetitions, each
/// spelled as in `ow` (see [`source_spelling`]).
pub open spec fn shared_words(sw: Seq<Seq<char>>, tw: Seq<Seq<char>>, ow: Seq<Seq<char>>) -> Seq<Seq<char>>
    decreases sw.len(),
{
    if sw.len() == 0 {
        Seq::<Seq<char>>::empty()
    } else if tw.contains(sw.last()) {
        shared_words(sw.drop_last(), tw, ow).push(source_spelling(ow, sw.last(), 0))
    } else {
        shared_words(sw.drop_last(), tw, ow)
    }
}

/// The words of the lowercased source title that also occur in the
/// lowercased target title, spelled as in the source title.
pub open spec fn shared_title_words(source: Seq<char>, target: Seq<char>) -> Seq<Seq<char>> {
    shared_words(words_seq(lowercase(source)), words_seq(lowercase(target)), words_seq(source))
}

/// No text occurs twice.
pub open spec fn all_distinct(s: Seq<String>) -> bool {
    forall|i: int, j: int| 0 <= i < j < s.len() ==> s[i]@ != s[j]@
}

/// Some tag, lowercased, is `x`.
pub open spec fn has_lower_tag(tags: Seq<String>, x: Seq<char>) -> bool {
    exists|i: int| 0 <= i < tags.len() && lowercase((#[trigger] tags[i])@) == x
}

/// `out` lists, once each, the lowercased tags that both blocks carry.
pub open spec fn lists_shared_tags(source: Seq<String>, target: Seq<String>, out: Seq<String>) -> bool {
    &&& all_distinct(out)
    &&& forall|x: Seq<char>| (exists|j: int| 0 <= j < out.len() && #[trigger] out[j]@ == x) <==> (#[trigger] has_lower_tag(
        source,
        x,
    ) && has_lower_tag(target, x))
}

/// `k` is a keyword of `text` for link suggestions.
pub open spec fn is_link_keyword(text: Seq<char>, k: Seq<char>) -> bool {
    is_keyword_of(lowercase(text), LINK_STOP_WORDS@, 5, 4, k)
}

/// `out` lists at most five keywords common to both texts, each once; all
/// of them when there are fewer than five.
pub open spec fn lists_common_concepts(source: Seq<char>, target: Seq<char>, out: Seq<String>) -> bool {
    &&& out.len() <= 5
    &&& all_distinct(out)
    &&& forall|j: int| 0 <= j < out.len() ==> is_link_keyword(source, #[trigger] out[j]@) && is_link_keyword(target, out[j]@)
    &&& out.len() < 5 ==> forall|k: Seq<char>| #[trigger] is_link_keyword(source, k) && is_link_keyword(target, k) ==> exists|j: int|
        0 <= j < out.len() && out[j]@ == k
}

/// The reasons found: shared title words, shared tags and common concepts,
/// each present only when its list is not empty.
pub open spec fn reason_parts(titles: Seq<Seq<char>>, tags: Seq<Seq<char>>, concepts: Seq<Seq<char>>) -> Seq<Seq<char>> {
    (if titles.len() > 0 {
        seq!["Shared title words: "@ + join_seq(titles, ", "@)]
    } else {
        Seq::<Seq<char>>::empty()
    }) + (if tags.len() > 0 {
        seq!["Shared tags: "@ + join_seq(tags, ", "@)]
    } else {
        Seq::<Seq<char>>::empty()
    }) + (if concepts.len() > 0 {
        seq!["Common concepts: "@ + join_seq(concepts, ", "@)]
    } else {
        Seq::<Seq<char>>::empty()
    })
}

/// The sentence given for a suggestion, with the similarity `pct` already
/// written as a whole percentage.
pub open spec fn reason_text(pct: Seq<char>, parts: Seq<Seq<char>>) -> Seq<char> {
    if parts.len() == 0 {
        "Semantic similarity: "@ + pct + "%"@
    } else {
        pct + "% similar - "@ + join_seq(parts, "; "@)
    }
}

/// The words of a text.
fn words_in(s: &str) -> (out: Vec<Vec<char>>)
    ensures
        out@.len() == words_seq(s@).len(),
        forall|i: int| 0 <= i < out@.len() ==> #[trigger] out@[i]@ == words_seq(s@)[i],
{
    let cs = chars_of(s);
    words_of(&cs)
}

/// The word of `os` with lowercase form `lw`, spelled as in `os`.
fn find_source_spelling(os: &Vec<Vec<char>>, lw: &[char], Ghost(ws): Ghost<Seq<Seq<char>>>) -> (out: String)
    requires
        os@.len() == ws.len(),
        forall|i: int| 0 <= i < os@.len() ==> #[trigger] os@[i]@ == ws[i],
    ensures
        out@ == source_spelling(ws, lw@, 0),
{
    let mut k: usize = 0;
    while k < os.len()
        invariant
            k <= os@.len(),
            os@.len() == ws.len(),
            forall|i: int| 0 <= i < os@.len() ==> #[trigger] os@[i]@ == ws[i],
            source_spelling(ws, lw@, 0) == source_spelling(ws, lw@, k as int),
        decreases os@.len() - k,
    {
        let w = string_from_chars(os[k].as_slice());
        let l = to_lowercase(w.as_str());
        let lc = chars_of(l.as_str());
        assert(os@[k as int]@ == ws[k as int]);
        if chars_eq(&lc, lw) {
            return w;
        }
        k = k + 1;
    }
    string_from_chars(lw)
}

/// Whether `w` is among the words `ws`.
fn has_word(ws: &Vec<Vec<char>>, w: &[char], Ghost(v): Ghost<Seq<Seq<char>>>) -> (b: bool)
    requires
        ws@.len() == v.len(),
        forall|i: int| 0 <= i < ws@.len() ==> #[trigger] ws@[i]@ == v[i],
    ensures
        b == v.contains(w@),
{
    let mut k: usize = 0;
    while k < ws.len()
        invariant
            k <= ws@.len(),
            ws@.len() == v.len(),
            forall|i: int| 0 <= i < ws@.len() ==> #[trigger] ws@[i]@ == v[i],
            forall|i: int| 0 <= i < k ==> v[i] != w@,
        decreases ws@.len() - k,
    {
        if chars_eq(ws[k].as_slice(), w) {
            assert(v[k as int] == w@);
            return true;
        }
        k = k + 1;
    }
    false
}

/// The shared title words (see [`shared_title_words`]).
pub fn title_overlap(source: &str, target: &str) -> (out: Vec<String>)
    ensures
        strings_view(out@) == shared_title_words(source@, target@),
{
    let sl = to_lowercase(source);
    let tl = to_lowercase(target);
    let sw = words_in(sl.as_str());
    let tw = words_in(tl.as_str());
    let ow = words_in(source);
    let ghost gs = words_seq(lowercase(source@));
    let ghost gt = words_seq(lowercase(target@));
    let ghost go = words_seq(source@);
    let mut out: Vec<String> = Vec::new();
    let mut i: usize = 0;
    while i < sw.len()
        invariant
            i <= sw@.len(),
            sw@.len() == gs.len(),
            forall|j: int| 0 <= j < sw@.len() ==> #[trigger] sw@[j]@ == gs[j],
            tw@.len() == gt.len(),
            forall|j: int| 0 <= j < tw@.len() ==> #[trigger] tw@[j]@ == gt[j],
            ow@.len() == go.len(),
            forall|j: int| 0 <= j < ow@.len() ==> #[trigger] ow@[j]@ == go[j],
            strings_view(out@) == shared_words(gs.subrange(0, i as int), gt, go),
        decreases sw@.len() - i,
    {
        assert(gs.subrange(0, i + 1).drop_last() =~= gs.subrange(0, i as int));
        assert(sw@[i as int]@ == gs[i as int]);
        if has_word(&tw, sw[i].as_slice(), Ghost(gt)) {
            let w = find_source_spelling(&ow, sw[i].as_slice(), Ghost(go));
            let ghost before = out@;
            out.push(w);
            assert(strings_view(out@) =~= strings_view(before).push(w@));
        }
        i = i + 1;
    }
    assert(gs.subrange(0, gs.len() as int) =~= gs);
    out
}

/// The lowercased tags that both tag lists carry, once each, in the order
/// of the source tags (see [`lists_shared_tags`]).
pub fn tag_overlap(source: &Vec<String>, target: &Vec<String>) -> (out: Vec<String>)
    ensures
        lists_shared_tags(source@, target@, out@),
{
    let mut tl: Vec<String> = Vec::new();
    let mut j: usize = 0;
    while j < target.len()
        invariant
            j <= target@.len(),
            tl@.len() == j,
            forall|q: int| 0 <= q < j ==> #[trigger] tl@[q]@ == lowercase(target@[q]@),
        decreases target@.len() - j,
    {
        tl.push(to_lowercase(target[j].as_str()));
        j = j + 1;
    }
    let mut out: Vec<String> = Vec::new();
    let mut i: usize = 0;
    while i < source.len()
        invariant
            i <= source@.len(),
            tl@.len() == target@.len(),
            forall|q: int| 0 <= q < target@.len() ==> #[trigger] tl@[q]@ == lowercase(target@[q]@),
            all_distinct(out@),
            forall|k: int| 0 <= k < out@.len() ==> has_lower_tag(source@, #[trigger] out@[k]@) && has_lower_tag(target@, out@[k]@),
            forall|q: int| 0 <= q < i && has_lower_tag(target@, lowercase(#[trigger] source@[q]@)) ==> exists|k: int|
                0 <= k < out@.len() && out@[k]@ == lowercase(source@[q]@),
        decreases source@.len() - i,
    {
        let l = to_lowercase(source[i].as_str());
        let in_target = contains_string(&tl, l.as_str());
        proof {
            if in_target {
                let q = choose|q: int| 0 <= q < tl@.len() && #[trigger] tl@[q]@ == l@;
                assert(lowercase(target@[q]@) == l@);
            }
            if has_lower_tag(target@, l@) {
                let q = choose|q: int| 0 <= q < target@.len() && lowercase((#[trigger] target@[q])@) == l@;
                assert(tl@[q]@ == l@);
            }
            assert(lowercase(source@[i as int]@) == l@);
        }
        if in_target && !contains_string(&out, l.as_str()) {
            let ghost before = out@;
            out.push(l);
            proof {
                assert forall|q: int| 0 <= q < i + 1 && has_lower_tag(target@, lowercase(#[trigger] source@[q]@)) implies exists|k: int|
                    0 <= k < out@.len() && out@[k]@ == lowercase(source@[q]@) by {
                    if q < i {
                        let k = choose|k: int| 0 <= k < before.len() && before[k]@ == lowercase(source@[q]@);
                        assert(out@[k] == before[k]);
                    } else {
                        assert(out@[before.len() as int]@ == lowercase(source@[q]@));
                    }
                }
            }
        }
        i = i + 1;
    }
    proof {
        assert forall|x: Seq<char>| (exists|j: int| 0 <= j < out@.len() && #[trigger] out@[j]@ == x) <==> (#[trigger] has_lower_tag(
            source@,
            x,
        ) && has_lower_tag(target@, x)) by {
            if has_lower_tag(source@, x) && has_lower_tag(target@, x) {
                let q = choose|q: int| 0 <= q < source@.len() && lowercase((#[trigger] source@[q])@) == x;
                assert(has_lower_tag(target@, lowercase(source@[q]@)));
            }
        }
    }
    out
}

/// Up to five keywords common to both texts, in the order they first occur
/// in the source (see [`lists_common_concepts`]).
pub fn common_concepts(source: &str, target: &str) -> (out: Vec<String>)
    ensures
        lists_common_concepts(source@, target@, out@),
{
    let sk = link_keywords(source);
    let tk = link_keywords(target);
    let mut out: Vec<String> = Vec::new();
    let mut i: usize = 0;
    while i < sk.len() && out.len() < 5
        invariant
            i <= sk@.len(),
            out@.len() <= 5,
            lists_link_keywords(source@, sk@),
            lists_link_keywords(target@, tk@),
            all_distinct(out@),
            forall|k: int| 0 <= k < out@.len() ==> exists|q: int| 0 <= q < i && #[trigger] out@[k]@ == sk@[q]@,
            forall|k: int| 0 <= k < out@.len() ==> is_link_keyword(source@, #[trigger] out@[k]@) && is_link_keyword(target@, out@[k]@),
            forall|q: int| 0 <= q < i && (exists|t: int| 0 <= t < tk@.len() && tk@[t]@ == (#[trigger] sk@[q])@) ==> exists|k: int|
                0 <= k < out@.len() && out@[k]@ == sk@[q]@,
        decreases sk@.len() - i,
    {
        let found = contains_string(&tk, sk[i].as_str());
        if found {
            let ghost before = out@;
            proof {
                assert forall|k: int| 0 <= k < before.len() implies before[k]@ != sk@[i as int]@ by {
                    let q = choose|q: int| 0 <= q < i && #[trigger] before[k]@ == sk@[q]@;
                    assert(sk@[q]@ != sk@[i as int]@);
                }
                let t = choose|t: int| 0 <= t < tk@.len() && #[trigger] tk@[t]@ == sk@[i as int]@;
                assert(is_link_keyword(target@, tk@[t]@));
                assert(is_link_keyword(source@, sk@[i as int]@));
            }
            out.push(sk[i].clone());
            proof {
                assert forall|k: int| 0 <= k < out@.len() implies exists|q: int| 0 <= q < i + 1 && #[trigger] out@[k]@ == sk@[q]@ by {
                    if k < before.len() {
                        let q = choose|q: int| 0 <= q < i && #[trigger] before[k]@ == sk@[q]@;
                        assert(out@[k] == before[k]);
                    } else {
                        assert(out@[k]@ == sk@[i as int]@);
                    }
                }
                assert forall|q: int| 0 <= q < i + 1 && (exists|t: int| 0 <= t < tk@.len() && tk@[t]@ == (#[trigger] sk@[q])@) implies exists|k: int|
                    0 <= k < out@.len() && out@[k]@ == sk@[q]@ by {
                    if q < i {
                        let k = choose|k: int| 0 <= k < before.len() && before[k]@ == sk@[q]@;
                        assert(out@[k] == before[k]);
                    } else {
                        assert(out@[before.len() as int]@ == sk@[q]@);
                    }
                }
            }
        }
        i = i + 1;
    }
    proof {
        if out@.len() < 5 {
            assert(i == sk@.len());
            assert forall|k: Seq<char>| #[trigger] is_link_keyword(source@, k) && is_link_keyword(target@, k) implies exists|j: int|
                0 <= j < out@.len() && out@[j]@ == k by {
                let q = choose|q: int| 0 <= q < sk@.len() && sk@[q]@ == k;
                let t = choose|t: int| 0 <= t < tk@.len() && tk@[t]@ == k;
                assert(tk@[t]@ == sk@[q]@);
            }
        }
    }
    out
}

/// The sentence explaining why `target` is suggested for `source`: shared
/// title words, shared tags and common concepts, led by the similarity
/// `pct` (already written as a whole percentage). Tags and concepts are
/// listed in the order they first occur in the source.
pub fn generate_reason(source: &Block, target: &Block, pct: &str) -> (r: String)
    ensures
        exists|tags: Seq<String>, concepts: Seq<String>|
            lists_shared_tags(source.tags@, target.tags@, tags) && lists_common_concepts(
                source.content@,
                target.content@,
                concepts,
            ) && r@ == reason_text(
                pct@,
                reason_parts(
                    shared_title_words(source.title@, target.title@),
                    strings_view(tags),
                    strings_view(concepts),
                ),
            ),
{
    let titles = title_overlap(source.title.as_str(), target.title.as_str());
    let tags = tag_overlap(&source.tags, &target.tags);
    let concepts = common_concepts(source.content.as_str(), target.content.as_str());
    let mut parts: Vec<String> = Vec::new();
    if titles.len() > 0 {
        let mut p = owned("Shared title words: ");
        let j = join_with(&titles, ", ");
        push_str(&mut p, j.as_str());
        parts.push(p);
    }
    if tags.len() > 0 {
        let mut p = owned("Shared tags: ");
        let j = join_with(&tags, ", ");
        push_str(&mut p, j.as_str());
        parts.push(p);
    }
    if concepts.len() > 0 {
        let mut p = owned("Common concepts: ");
        let j = join_with(&concepts, ", ");
        push_str(&mut p, j.as_str());
        parts.push(p);
    }
    let ghost expected = reason_parts(strings_view(titles@), strings_view(tags@), strings_view(concepts@));
    assert(strings_view(parts@) =~= expected);
    let mut r = String::new();
    if parts.len() == 0 {
        push_str(&mut r, "Semantic similarity: ");
        push_str(&mut r, pct);
        push_str(&mut r, "%");
    } else {
        push_str(&mut r, pct);
        push_str(&mut r, "% similar - ");
        let j = join_with(&parts, "; ");
        push_str(&mut r, j.as_str());
    }
    assert(r@ =~= reason_text(pct@, expected));
    r
}

} // verus!
