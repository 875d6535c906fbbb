//! Ghost nodes: gaps in the knowledge structure that a detector reports as
//! content that should exist but does not yet.

use vstd::prelude::*;
use crate::block::{meta_get, meta_lookup, Block};
use crate::features::EmbeddingGenerator;
use crate::hierarchy::{
    find_structural_issues, last_index, structural_issues, StructuralIssue,
};
use crate::ids::{encode_ulid, new_ulid, ulid_encode};
use crate::keywords::{is_keyword_of, keywords_in, lists_keywords_of};
use crate::session::{now, Timestamp};
use crate::size::{decimal_digits, decimal_string};
use crate::text::{
    byte_len, byte_length, chars_of, lowercase, push_str, split_chars, split_seq, starts_with_chars, starts_with_seq,
    str_eq, to_lowercase,
};

verus! {

/// The state of a ghost node.
#[derive(Debug, Clone, Copy, PartialEq, Eq, Structural)]
pub enum GhostStatus {
    Detected,
}

/// Where a ghost's content would go. The sequence weight is held in
/// thousandths.
#[derive(Debug, Clone, Copy, PartialEq, Eq, Structural)]
pub struct PositionHint {
    pub after: Option<u128>,
    pub before: Option<u128>,
    pub parent_section: Option<u128>,
    pub sequence_weight_thousandths: i64,
}

/// A detected gap. The confidence is held in hundredths.
#[derive(Debug, Clone)]
pub struct GhostNode {
    pub id: u128,
    pub description: String,
    pub ai_rationale: String,
    pub confidence_pct: u32,
    pub position_hint: PositionHint,
    pub status: GhostStatus,
    pub trigger_blocks: Vec<u128>,
    pub expected_keywords: Vec<String>,
    /// When the gap was detected; `None` when the clock could not be read.
    pub created_at: Option<Timestamp>,
    pub filled_by: Option<u128>,
}

/// Detection settings. The sequence gap and the semantic threshold are held
/// in hundredths.
#[derive(Debug, Clone, Copy, PartialEq, Eq, Structural)]
pub struct GhostConfig {
    pub min_sequence_gap_pct: u32,
    pub max_expected_density: u32,
    pub semantic_threshold_pct: u32,
    pub min_content_length: usize,
}

/// The default settings: gap 1.0, density 10, threshold 0.6, content of at
/// least 50 bytes.
pub open spec fn default_ghost_config() -> GhostConfig {
    GhostConfig { min_sequence_gap_pct: 100, max_expected_density: 10, semantic_threshold_pct: 60, min_content_length: 50 }
}

impl Default for GhostConfig {
    fn default() -> (c: GhostConfig)
        ensures
            c == default_ghost_config(),
    {
        GhostConfig { min_sequence_gap_pct: 100, max_expected_density: 10, semantic_threshold_pct: 60, min_content_length: 50 }
    }
}

/// Finds gaps in a collection of blocks.
#[derive(Debug, Clone, Copy)]
pub struct GhostDetector {
    pub embeddings: EmbeddingGenerator,
    pub config: GhostConfig,
}

impl GhostDetector {
    /// A detector with the default settings.
    pub fn new() -> (d: GhostDetector)
        ensures
            d.config == default_ghost_config(),
    {
        GhostDetector { embeddings: EmbeddingGenerator::new(), config: GhostConfig::default() }
    }

    /// A detector with the given settings.
    pub fn with_config(config: GhostConfig) -> (d: GhostDetector)
        ensures
            d.config == config,
    {
        GhostDetector { embeddings: EmbeddingGenerator::new(), config }
    }
}

// ---------------------------------------------------------------------------
// Keywords of a block
// ---------------------------------------------------------------------------

/// Words left out of keywords.
pub const STOP_WORDS: [&'static str; 27] = [
    "the", "a", "an", "and", "or", "but", "in", "on", "at", "to", "for",
    "of", "with", "by", "from", "as", "is", "was", "are", "were", "been",
    "this", "that", "these", "those", "it", "its",
];

/// The lowercased title and content, joined by a space.
pub open spec fn keyword_text(b: Block) -> Seq<char> {
    lowercase(b.title@ + seq![' '] + b.content@)
}

/// `k` is a keyword of `b`: the alphanumeric part, of at least 3 bytes, of
/// a word of at least 4 bytes of its text that is no stop word.
pub open spec fn is_block_keyword(b: Block, k: Seq<char>) -> bool {
    is_keyword_of(keyword_text(b), STOP_WORDS@, 4, 3, k)
}

/// `ks` lists the keywords of `b`, each once.
pub open spec fn lists_keywords(b: Block, ks: Seq<String>) -> bool {
    lists_keywords_of(keyword_text(b), STOP_WORDS@, 4, 3, ks)
}

/// The keywords of a block: the words of its lowercased title and content
/// with at least 4 bytes that are no stop words, reduced to their
/// alphanumeric characters and kept when at least 3 bytes remain; each once,
/// in order of first appearance.
pub fn extract_keywords(b: &Block) -> (ks: Vec<String>)
    ensures
        lists_keywords(*b, ks@),
{
    let mut text = String::new();
    push_str(&mut text, b.title.as_str());
    push_str(&mut text, " ");
    push_str(&mut text, b.content.as_str());
    proof {
        reveal_strlit(" ");
    }
    assert(text@ =~= b.title@ + seq![' '] + b.content@);
    let lower = to_lowercase(text.as_str());
    keywords_in(lower.as_str(), &STOP_WORDS, 4, 3)
}

/// At most the first `n` entries of `ks`.
fn take_first(ks: Vec<String>, n: usize) -> (out: Vec<String>)
    ensures
        out@ == ks@.subrange(0, if ks@.len() < n { ks@.len() as int } else { n as int }),
{
    let mut out = ks;
    if out.len() > n {
        out.truncate(n);
    }
    proof {
        if ks@.len() <= n {
            assert(ks@.subrange(0, ks@.len() as int) =~= ks@);
        }
    }
    out
}

// ---------------------------------------------------------------------------
// Structural gaps
// ---------------------------------------------------------------------------

/// The title of the block an identifier resolves to (the last block with
/// that identifier); empty when no block has it.
pub open spec fn resolved_title(bs: Seq<Block>, id: u128) -> Seq<char> {
    let k = last_index(bs, id);
    if 0 <= k < bs.len() {
        bs[k].title@
    } else {
        seq![]
    }
}

/// How sure the detector is of an issue, in hundredths.
pub open spec fn issue_confidence(issue: StructuralIssue) -> u32 {
    match issue {
        StructuralIssue::SelfReference { .. } => 95,
        StructuralIssue::Cycle { .. } => 90,
        StructuralIssue::MissingParent { .. } => 85,
        StructuralIssue::ExpectedChildren { .. } => 70,
    }
}

/// The description of an issue.
pub open spec fn issue_description(bs: Seq<Block>, issue: StructuralIssue) -> Seq<char> {
    match issue {
        StructuralIssue::SelfReference { child } => "Self-reference detected: block '"@ + resolved_title(bs, child)
            + "' references itself as parent"@,
        StructuralIssue::Cycle { node, parent } => "Circular reference detected: '"@ + resolved_title(bs, node)
            + "' is part of a cycle in the hierarchy"@,
        StructuralIssue::MissingParent { child, parent } => "Missing parent block: '"@ + resolved_title(bs, child)
            + "' references non-existent parent"@,
        StructuralIssue::ExpectedChildren { block, parent } => "Expected child content missing: '"@
            + bs[block as int].title@ + "' indicates it should have child blocks"@,
    }
}

/// The explanation given with an issue.
pub open spec fn issue_rationale(issue: StructuralIssue) -> Seq<char> {
    match issue {
        StructuralIssue::SelfReference { child } => "Block's parent_section points to itself, creating a circular reference"@,
        StructuralIssue::Cycle { node, parent } => "Block "@ + ulid_encode(node) + " references "@ + ulid_encode(parent)
            + " which leads back to "@ + ulid_encode(node),
        StructuralIssue::MissingParent { child, parent } => "parent_section points to "@ + ulid_encode(parent)
            + " which doesn't exist in the block collection"@,
        StructuralIssue::ExpectedChildren { block, parent } => "Block has metadata indicating it should have children but none exist"@,
    }
}

/// The parent section hinted at for an issue.
pub open spec fn issue_parent(issue: StructuralIssue) -> u128 {
    match issue {
        StructuralIssue::SelfReference { child } => child,
        StructuralIssue::Cycle { node, parent } => parent,
        StructuralIssue::MissingParent { child, parent } => parent,
        StructuralIssue::ExpectedChildren { block, parent } => parent,
    }
}

/// The blocks an issue is about.
pub open spec fn issue_triggers(bs: Seq<Block>, issue: StructuralIssue) -> Seq<u128> {
    match issue {
        StructuralIssue::SelfReference { child } => seq![child],
        StructuralIssue::Cycle { node, parent } => seq![node, parent],
        StructuralIssue::MissingParent { child, parent } => seq![child],
        StructuralIssue::ExpectedChildren { block, parent } => seq![bs[block as int].id],
    }
}

/// `g` reports `issue`: its texts, confidence, hint and triggers are those of
/// the issue; an expected-children gap lists at most five of the block's
/// keywords, the others none.
pub open spec fn reports_issue(g: GhostNode, bs: Seq<Block>, issue: StructuralIssue) -> bool {
    &&& g.description@ == issue_description(bs, issue)
    &&& g.ai_rationale@ == issue_rationale(issue)
    &&& g.confidence_pct == issue_confidence(issue)
    &&& g.position_hint == (PositionHint {
        after: None,
        before: None,
        parent_section: Some(issue_parent(issue)),
        sequence_weight_thousandths: 0,
    })
    &&& g.status == GhostStatus::Detected
    &&& g.trigger_blocks@ == issue_triggers(bs, issue)
    &&& g.filled_by is None
    &&& match issue {
        StructuralIssue::ExpectedChildren { block, parent } => exists|ks: Seq<String>|
            lists_keywords(bs[block as int], ks) && #[trigger] g.expected_keywords@ == ks.subrange(
                0,
                if ks.len() < 5 {
                    ks.len() as int
                } else {
                    5
                },
            ),
        _ => g.expected_keywords@.len() == 0,
    }
}

proof fn lemma_last_index_at(bs: Seq<Block>, id: u128, k: int)
    requires
        0 <= k < bs.len(),
        bs[k].id == id,
        forall|j: int| k < j < bs.len() ==> #[trigger] bs[j].id != id,
    ensures
        last_index(bs, id) == k,
    decreases bs.len(),
{
    if k < bs.len() - 1 {
        assert(bs[bs.len() - 1].id != id);
        assert forall|j: int| k < j < bs.drop_last().len() implies #[trigger] bs.drop_last()[j].id != id by {
            assert(bs.drop_last()[j] == bs[j]);
        }
        lemma_last_index_at(bs.drop_last(), id, k);
    }
}

proof fn lemma_last_index_none(bs: Seq<Block>, id: u128)
    requires
        forall|j: int| 0 <= j < bs.len() ==> #[trigger] bs[j].id != id,
    ensures
        last_index(bs, id) == -1,
    decreases bs.len(),
{
    if bs.len() > 0 {
        assert(bs[bs.len() - 1].id != id);
        assert forall|j: int| 0 <= j < bs.drop_last().len() implies #[trigger] bs.drop_last()[j].id != id by {
            assert(bs.drop_last()[j] == bs[j]);
        }
        lemma_last_index_none(bs.drop_last(), id);
    }
}

/// The title of the block an identifier resolves to.
fn resolve_title(blocks: &[Block], id: u128) -> (t: String)
    ensures
        t@ == resolved_title(blocks@, id),
{
    let mut i: usize = blocks.len();
    while i > 0
        invariant
            i <= blocks@.len(),
            forall|j: int| i <= j < blocks@.len() ==> #[trigger] blocks@[j].id != id,
        decreases i,
    {
        if blocks[i - 1].id == id {
            proof {
                lemma_last_index_at(blocks@, id, i - 1);
            }
            return owned_string(&blocks[i - 1].title);
        }
        i = i - 1;
    }
    proof {
        lemma_last_index_none(blocks@, id);
    }
    String::new()
}

fn owned_string(s: &String) -> (out: String)
    ensures
        out@ == s@,
{
    let mut out = String::new();
    push_str(&mut out, s.as_str());
    out
}

fn quoted(prefix: &str, title: &str, suffix: &str) -> (out: String)
    ensures
        out@ == prefix@ + title@ + suffix@,
{
    let mut out = String::new();
    push_str(&mut out, prefix);
    push_str(&mut out, title);
    push_str(&mut out, suffix);
    out
}

/// The ghost node reporting one structural issue.
fn ghost_for_issue(blocks: &[Block], issue: StructuralIssue) -> (g: GhostNode)
    requires
        issue matches StructuralIssue::ExpectedChildren { block, parent } ==> block < blocks@.len(),
    ensures
        reports_issue(g, blocks@, issue),
{
    let empty: Vec<String> = Vec::new();
    let (description, rationale, confidence, parent, triggers, keywords) = match issue {
        StructuralIssue::SelfReference { child } => {
            let title = resolve_title(blocks, child);
            let mut t: Vec<u128> = Vec::new();
            t.push(child);
            (
                quoted("Self-reference detected: block '", title.as_str(), "' references itself as parent"),
                quoted("Block's parent_section points to itself, creating a circular reference", "", ""),
                95u32,
                child,
                t,
                empty,
            )
        },
        StructuralIssue::Cycle { node, parent } => {
            let title = resolve_title(blocks, node);
            let n = encode_ulid(node);
            let p = encode_ulid(parent);
            let mut r = quoted("Block ", n.as_str(), " references ");
            push_str(&mut r, p.as_str());
            push_str(&mut r, " which leads back to ");
            push_str(&mut r, n.as_str());
            let mut t: Vec<u128> = Vec::new();
            t.push(node);
            t.push(parent);
            (
                quoted("Circular reference detected: '", title.as_str(), "' is part of a cycle in the hierarchy"),
                r,
                90u32,
                parent,
                t,
                empty,
            )
        },
        StructuralIssue::MissingParent { child, parent } => {
            let title = resolve_title(blocks, child);
            let p = encode_ulid(parent);
            let mut t: Vec<u128> = Vec::new();
            t.push(child);
            (
                quoted("Missing parent block: '", title.as_str(), "' references non-existent parent"),
                quoted("parent_section points to ", p.as_str(), " which doesn't exist in the block collection"),
                85u32,
                parent,
                t,
                empty,
            )
        },
        StructuralIssue::ExpectedChildren { block, parent } => {
            let b = &blocks[block];
            let ks = extract_keywords(b);
            let ghost all = ks@;
            let kept = take_first(ks, 5);
            let mut t: Vec<u128> = Vec::new();
            t.push(b.id);
            assert(kept@ == all.subrange(0, if all.len() < 5 { all.len() as int } else { 5 }));
            (
                quoted("Expected child content missing: '", b.title.as_str(), "' indicates it should have child blocks"),
                quoted("Block has metadata indicating it should have children but none exist", "", ""),
                70u32,
                parent,
                t,
                kept,
            )
        },
    };
    proof {
        reveal_strlit("");
        assert(triggers@ =~= issue_triggers(blocks@, issue));
        assert(rationale@ =~= issue_rationale(issue));
        assert(description@ =~= issue_description(blocks@, issue));
    }
    GhostNode {
        id: new_ulid(),
        description,
        ai_rationale: rationale,
        confidence_pct: confidence,
        position_hint: PositionHint { after: None, before: None, parent_section: Some(parent), sequence_weight_thousandths: 0 },
        status: GhostStatus::Detected,
        trigger_blocks: triggers,
        expected_keywords: keywords,
        created_at: now(),
        filled_by: None,
    }
}

proof fn lemma_expected_in_range(bs: Seq<Block>, n: int)
    requires
        n <= bs.len(),
    ensures
        forall|j: int| 0 <= j < crate::hierarchy::expected_children_issues(bs, n).len() ==> (#[trigger] crate::hierarchy::expected_children_issues(bs, n)[j] matches
            StructuralIssue::ExpectedChildren { block, parent } ==> block < bs.len()),
    decreases n,
{
    if n > 0 {
        lemma_expected_in_range(bs, n - 1);
    }
}

proof fn lemma_issue_blocks_in_range(bs: Seq<Block>)
    ensures
        forall|j: int| 0 <= j < structural_issues(bs).len() ==> (#[trigger] structural_issues(bs)[j] matches
            StructuralIssue::ExpectedChildren { block, parent } ==> block < bs.len()),
{
    lemma_expected_in_range(bs, bs.len() as int);
    let ds = crate::hierarchy::distinct_ids(bs);
    let a = crate::hierarchy::self_reference_issues(bs, ds);
    let c = crate::hierarchy::cycle_issues(bs);
    let m = crate::hierarchy::missing_parent_issues(bs, ds);
    let e = crate::hierarchy::expected_children_issues(bs, bs.len() as int);
    lemma_self_refs_kind(bs, ds);
    lemma_missing_kind(bs, ds);
    assert forall|j: int| 0 <= j < structural_issues(bs).len() implies (#[trigger] structural_issues(bs)[j] matches
        StructuralIssue::ExpectedChildren { block, parent } ==> block < bs.len()) by {
        let all = structural_issues(bs);
        assert(all == a + c + m + e);
        if j >= a.len() + c.len() + m.len() {
            assert(all[j] == e[j - a.len() - c.len() - m.len()]);
        } else if j >= a.len() + c.len() {
            assert(all[j] == m[j - a.len() - c.len()]);
        } else if j >= a.len() {
            assert(all[j] == c[j - a.len()]);
        } else {
            assert(all[j] == a[j]);
        }
    }
}

proof fn lemma_self_refs_kind(bs: Seq<Block>, ds: Seq<u128>)
    ensures
        forall|j: int| 0 <= j < crate::hierarchy::self_reference_issues(bs, ds).len() ==> #[trigger] crate::hierarchy::self_reference_issues(bs, ds)[j] is SelfReference,
    decreases ds.len(),
{
    if ds.len() > 0 {
        lemma_self_refs_kind(bs, ds.drop_last());
    }
}

proof fn lemma_missing_kind(bs: Seq<Block>, ds: Seq<u128>)
    ensures
        forall|j: int| 0 <= j < crate::hierarchy::missing_parent_issues(bs, ds).len() ==> #[trigger] crate::hierarchy::missing_parent_issues(bs, ds)[j] is MissingParent,
    decreases ds.len(),
{
    if ds.len() > 0 {
        lemma_missing_kind(bs, ds.drop_last());
    }
}

proof fn lemma_expected_kind(bs: Seq<Block>, n: int)
    ensures
        forall|j: int| 0 <= j < crate::hierarchy::expected_children_issues(bs, n).len() ==> #[trigger] crate::hierarchy::expected_children_issues(bs, n)[j] is ExpectedChildren,
    decreases n,
{
    if n > 0 {
        lemma_expected_kind(bs, n - 1);
    }
}

impl GhostDetector {
    /// Structural gaps of the block hierarchy: one ghost per issue of
    /// [`structural_issues`], most serious first.
    pub fn detect_structural_gaps(&self, blocks: &[Block]) -> (ghosts: Vec<GhostNode>)
        ensures
            ghosts@.len() == structural_issues(blocks@).len(),
            forall|i: int| 0 <= i < ghosts@.len() ==> reports_issue(#[trigger] ghosts@[i], blocks@, structural_issues(blocks@)[i]),
    {
        let issues = find_structural_issues(blocks);
        proof {
            lemma_issue_blocks_in_range(blocks@);
        }
        let mut ghosts: Vec<GhostNode> = Vec::new();
        let mut i: usize = 0;
        while i < issues.len()
            invariant
                i <= issues@.len(),
                issues@ == structural_issues(blocks@),
                forall|j: int| 0 <= j < issues@.len() ==> (#[trigger] issues@[j] matches
                    StructuralIssue::ExpectedChildren { block, parent } ==> block < blocks@.len()),
                ghosts@.len() == i,
                forall|j: int| 0 <= j < i ==> reports_issue(#[trigger] ghosts@[j], blocks@, issues@[j]),
            decreases issues@.len() - i,
        {
            assert(issues@[i as int] matches StructuralIssue::ExpectedChildren { block, parent } ==> block < blocks@.len());
            let g = ghost_for_issue(blocks, issues[i]);
            ghosts.push(g);
            i = i + 1;
        }
        ghosts
    }
}

/// Structural ghosts come most confident first.
pub proof fn lemma_structural_issues_by_confidence(bs: Seq<Block>)
    ensures
        forall|i: int, j: int| 0 <= i < j < structural_issues(bs).len() ==> issue_confidence(
            #[trigger] structural_issues(bs)[i],
        ) >= issue_confidence(#[trigger] structural_issues(bs)[j]),
{
    let ds = crate::hierarchy::distinct_ids(bs);
    let a = crate::hierarchy::self_reference_issues(bs, ds);
    let c = crate::hierarchy::cycle_issues(bs);
    let m = crate::hierarchy::missing_parent_issues(bs, ds);
    let e = crate::hierarchy::expected_children_issues(bs, bs.len() as int);
    lemma_self_refs_kind(bs, ds);
    lemma_missing_kind(bs, ds);
    lemma_expected_kind(bs, bs.len() as int);
    let all = structural_issues(bs);
    assert(all == a + c + m + e);
    assert forall|j: int| 0 <= j < all.len() implies issue_confidence(#[trigger] all[j]) == (if j < a.len() {
        95u32
    } else if j < a.len() + c.len() {
        90u32
    } else if j < a.len() + c.len() + m.len() {
        85u32
    } else {
        70u32
    }) by {
        if j >= a.len() + c.len() + m.len() {
            assert(all[j] == e[j - a.len() - c.len() - m.len()]);
        } else if j >= a.len() + c.len() {
            assert(all[j] == m[j - a.len() - c.len()]);
        } else if j >= a.len() {
            assert(all[j] == c[j - a.len()]);
        } else {
            assert(all[j] == a[j]);
        }
    }
}

// ---------------------------------------------------------------------------
// Orphans
// ---------------------------------------------------------------------------

/// A block with content of at least `min_len` bytes, no sequence weight and
/// no tags: unconnected content.
pub open spec fn is_orphan(b: Block, min_len: usize) -> bool {
    &&& byte_len(b.content@) >= min_len
    &&& meta_get(b.metadata@, "sequence_weight"@) is None
    &&& b.tags@.len() == 0
}

/// The indices of the orphans among the first `n` blocks.
pub open spec fn orphan_indices(bs: Seq<Block>, n: int, min_len: usize) -> Seq<int>
    decreases n,
{
    if n <= 0 {
        seq![]
    } else if is_orphan(bs[n - 1], min_len) {
        orphan_indices(bs, n - 1, min_len).push(n - 1)
    } else {
        orphan_indices(bs, n - 1, min_len)
    }
}

proof fn lemma_orphan_indices_untagged(bs: Seq<Block>, n: int, min_len: usize)
    requires
        n <= bs.len(),
    ensures
        forall|k: int| 0 <= k < orphan_indices(bs, n, min_len).len() ==> {
            let j = #[trigger] orphan_indices(bs, n, min_len)[k];
            &&& 0 <= j < n
            &&& bs[j].tags@.len() == 0
            &&& meta_get(bs[j].metadata@, "sequence_weight"@) is None
        },
    decreases n,
{
    if n > 0 {
        lemma_orphan_indices_untagged(bs, n - 1, min_len);
    }
}

/// Orphans are untagged and unplaced: every block that a ghost found by
/// [`GhostDetector::detect_orphans`] is triggered by has no tags and no
/// sequence weight, so a block with a tag is never reported as an orphan.
pub proof fn lemma_tagged_blocks_are_not_orphans(bs: Seq<Block>, min_len: usize, ghosts: Seq<GhostNode>)
    requires
        ghosts.len() == orphan_indices(bs, bs.len() as int, min_len).len(),
        forall|k: int| 0 <= k < ghosts.len() ==> reports_orphan(#[trigger] ghosts[k], bs[orphan_indices(bs, bs.len() as int, min_len)[k]]),
    ensures
        forall|k: int| 0 <= k < ghosts.len() ==> exists|j: int|
            0 <= j < bs.len() && (#[trigger] ghosts[k]).trigger_blocks@ == seq![bs[j].id] && bs[j].tags@.len() == 0
                && meta_get(bs[j].metadata@, "sequence_weight"@) is None,
{
    lemma_orphan_indices_untagged(bs, bs.len() as int, min_len);
    assert forall|k: int| 0 <= k < ghosts.len() implies exists|j: int|
        0 <= j < bs.len() && (#[trigger] ghosts[k]).trigger_blocks@ == seq![bs[j].id] && bs[j].tags@.len() == 0
            && meta_get(bs[j].metadata@, "sequence_weight"@) is None by {
        let j = orphan_indices(bs, bs.len() as int, min_len)[k];
        assert(reports_orphan(ghosts[k], bs[j]));
    }
}

/// `g` reports block `b` as an orphan, listing all its keywords.
pub open spec fn reports_orphan(g: GhostNode, b: Block) -> bool {
    &&& g.description@ == "Orphan block '"@ + b.title@ + "' found - consider linking to related content or adding structure"@
    &&& g.ai_rationale@.len() == 0
    &&& g.confidence_pct == 50
    &&& g.position_hint == (PositionHint { after: None, before: None, parent_section: None, sequence_weight_thousandths: 0 })
    &&& g.status == GhostStatus::Detected
    &&& g.trigger_blocks@ == seq![b.id]
    &&& lists_keywords(b, g.expected_keywords@)
    &&& g.filled_by is None
}

impl GhostDetector {
    /// One ghost per orphan block, in block order.
    pub fn detect_orphans(&self, blocks: &[Block]) -> (ghosts: Vec<GhostNode>)
        ensures
            ghosts@.len() == orphan_indices(blocks@, blocks@.len() as int, self.config.min_content_length).len(),
            forall|k: int| 0 <= k < ghosts@.len() ==> reports_orphan(#[trigger] ghosts@[k], blocks@[orphan_indices(blocks@, blocks@.len() as int, self.config.min_content_length)[k]]),
    {
        let min_len = self.config.min_content_length;
        let mut ghosts: Vec<GhostNode> = Vec::new();
        let mut i: usize = 0;
        while i < blocks.len()
            invariant
                i <= blocks@.len(),
                min_len == self.config.min_content_length,
                ghosts@.len() == orphan_indices(blocks@, i as int, min_len).len(),
                forall|k: int| 0 <= k < ghosts@.len() ==> reports_orphan(#[trigger] ghosts@[k], blocks@[orphan_indices(blocks@, i as int, min_len)[k]]),
            decreases blocks@.len() - i,
        {
            let b = &blocks[i];
            let has_content = byte_length(b.content.as_str()) >= min_len;
            let has_sequence = meta_lookup(&b.metadata, "sequence_weight").is_some();
            let has_tags = b.tags.len() > 0;
            if has_content && !has_sequence && !has_tags {
                let mut t: Vec<u128> = Vec::new();
                t.push(b.id);
                let g = GhostNode {
                    id: new_ulid(),
                    description: quoted("Orphan block '", b.title.as_str(), "' found - consider linking to related content or adding structure"),
                    ai_rationale: String::new(),
                    confidence_pct: 50,
                    position_hint: PositionHint { after: None, before: None, parent_section: None, sequence_weight_thousandths: 0 },
                    status: GhostStatus::Detected,
                    trigger_blocks: t,
                    expected_keywords: extract_keywords(b),
                    created_at: now(),
                    filled_by: None,
                };
                assert(g.trigger_blocks@ =~= seq![b.id]);
                ghosts.push(g);
            }
            i = i + 1;
        }
        ghosts
    }
}

// ---------------------------------------------------------------------------
// Density gaps
// ---------------------------------------------------------------------------

/// The number of lines among `lines` that start with `##`.
pub open spec fn heading_count(lines: Seq<Seq<char>>) -> nat
    decreases lines.len(),
{
    if lines.len() == 0 {
        0
    } else {
        heading_count(lines.drop_last()) + if starts_with_seq(lines.last(), "##"@) {
            1nat
        } else {
            0nat
        }
    }
}

/// The number of section headings of a text: its lines that start with
/// `##`. (A text without `##` has none, so it is no structure.)
pub open spec fn section_count(content: Seq<char>) -> nat {
    heading_count(split_seq(content, '\n'))
}

/// Whether a block's `parent_section` text is the encoding of `id`.
pub open spec fn links_to_section(b: Block, id: u128) -> bool {
    meta_get(b.metadata@, "parent_section"@) == Some(Some(ulid_encode(id)))
}

/// The number of blocks whose `parent_section` text is the encoding of `id`.
pub open spec fn linked_count(bs: Seq<Block>, id: u128) -> nat
    decreases bs.len(),
{
    if bs.len() == 0 {
        0
    } else {
        linked_count(bs.drop_last(), id) + if links_to_section(bs.last(), id) {
            1nat
        } else {
            0nat
        }
    }
}

/// The confidence of a density gap in hundredths: the share of sections
/// without a linked block, at most 90 (rounded down).
pub open spec fn density_confidence(expected: nat, actual: nat) -> u32 {
    let p = (100 * (expected - actual)) / (expected as int);
    if p >= 90 {
        90
    } else {
        p as u32
    }
}

/// Whether block `b` of `bs` has more sections than linked blocks.
pub open spec fn has_density_gap(bs: Seq<Block>, b: Block) -> bool {
    section_count(b.content@) > linked_count(bs, b.id)
}

/// The indices, among the first `n` blocks, of the blocks with a density gap.
pub open spec fn density_indices(bs: Seq<Block>, n: int) -> Seq<int>
    decreases n,
{
    if n <= 0 {
        seq![]
    } else if has_density_gap(bs, bs[n - 1]) {
        density_indices(bs, n - 1).push(n - 1)
    } else {
        density_indices(bs, n - 1)
    }
}

/// `g` reports the density gap of structure block `b` among `bs`.
pub open spec fn reports_density_gap(g: GhostNode, bs: Seq<Block>, b: Block, density: u32) -> bool {
    let e = section_count(b.content@);
    let a = linked_count(bs, b.id);
    &&& g.description@ == "Structure '"@ + b.title@ + "' has "@ + decimal_digits(e) + " sections but only "@
        + decimal_digits(a) + " blocks linked"@
    &&& g.ai_rationale@ == "Density gap: expected ~"@ + decimal_digits(density as nat) + " blocks per section, found "@
        + decimal_digits(a)
    &&& g.confidence_pct == density_confidence(e, a)
    &&& g.position_hint == (PositionHint { after: None, before: None, parent_section: Some(b.id), sequence_weight_thousandths: 0 })
    &&& g.status == GhostStatus::Detected
    &&& g.trigger_blocks@ == seq![b.id]
    &&& lists_keywords(b, g.expected_keywords@)
    &&& g.filled_by is None
}

/// Counts the section headings of a text.
fn count_sections(content: &str) -> (n: usize)
    ensures
        n == section_count(content@),
{
    let cs = chars_of(content);
    let lines = split_chars(&cs, '\n');
    let hashes: [char; 2] = ['#', '#'];
    assert(hashes@ =~= "##"@) by {
        reveal_strlit("##");
    }
    let mut n: usize = 0;
    let mut i: usize = 0;
    while i < lines.len()
        invariant
            i <= lines@.len(),
            lines@.len() == split_seq(content@, '\n').len(),
            forall|j: int| 0 <= j < lines@.len() ==> #[trigger] lines@[j]@ == split_seq(content@, '\n')[j],
            hashes@ == "##"@,
            n == heading_count(split_seq(content@, '\n').subrange(0, i as int)),
            n <= i,
        decreases lines@.len() - i,
    {
        let ghost all = split_seq(content@, '\n');
        assert(all.subrange(0, i + 1).drop_last() =~= all.subrange(0, i as int));
        assert(lines@[i as int]@ == all[i as int]);
        if starts_with_chars(lines[i].as_slice(), &hashes) {
            n = n + 1;
        }
        i = i + 1;
    }
    assert(split_seq(content@, '\n').subrange(0, lines@.len() as int) =~= split_seq(content@, '\n'));
    n
}

/// Counts the blocks whose `parent_section` text is the encoding of `id`.
fn count_linked(blocks: &[Block], id: u128) -> (n: usize)
    ensures
        n == linked_count(blocks@, id),
{
    let key = encode_ulid(id);
    let mut n: usize = 0;
    let mut i: usize = 0;
    while i < blocks.len()
        invariant
            i <= blocks@.len(),
            key@ == ulid_encode(id),
            n == linked_count(blocks@.subrange(0, i as int), id),
            n <= i,
        decreases blocks@.len() - i,
    {
        assert(blocks@.subrange(0, i + 1).drop_last() =~= blocks@.subrange(0, i as int));
        let linked = match meta_lookup(&blocks[i].metadata, "parent_section") {
            Some(Some(t)) => str_eq(t.as_str(), key.as_str()),
            _ => false,
        };
        if linked {
            n = n + 1;
        }
        i = i + 1;
    }
    assert(blocks@.subrange(0, blocks@.len() as int) =~= blocks@);
    n
}

/// Appends a count in decimal.
fn push_number(out: &mut String, n: u128)
    ensures
        final(out)@ == old(out)@ + decimal_digits(n as nat),
{
    let digits = decimal_string(n);
    push_str(out, digits.as_str());
}

/// The ghost reporting the density gap of one structure block.
fn density_ghost(blocks: &[Block], b: &Block, expected: usize, actual: usize, density: u32) -> (g: GhostNode)
    requires
        expected == section_count(b.content@),
        actual == linked_count(blocks@, b.id),
        expected > actual,
    ensures
        reports_density_gap(g, blocks@, *b, density),
{
    let mut description = String::new();
    push_str(&mut description, "Structure '");
    push_str(&mut description, b.title.as_str());
    push_str(&mut description, "' has ");
    push_number(&mut description, expected as u128);
    push_str(&mut description, " sections but only ");
    push_number(&mut description, actual as u128);
    push_str(&mut description, " blocks linked");
    let mut rationale = String::new();
    push_str(&mut rationale, "Density gap: expected ~");
    push_number(&mut rationale, density as u128);
    push_str(&mut rationale, " blocks per section, found ");
    push_number(&mut rationale, actual as u128);
    let e = expected as u128;
    let p: u128 = (100 * (e - actual as u128)) / e;
    let confidence: u32 = if p >= 90 {
        90
    } else {
        p as u32
    };
    let mut t: Vec<u128> = Vec::new();
    t.push(b.id);
    let g = GhostNode {
        id: new_ulid(),
        description,
        ai_rationale: rationale,
        confidence_pct: confidence,
        position_hint: PositionHint { after: None, before: None, parent_section: Some(b.id), sequence_weight_thousandths: 0 },
        status: GhostStatus::Detected,
        trigger_blocks: t,
        expected_keywords: extract_keywords(b),
        created_at: now(),
        filled_by: None,
    };
    assert(g.trigger_blocks@ =~= seq![b.id]);
    assert(g.description@ =~= "Structure '"@ + b.title@ + "' has "@ + decimal_digits(expected as nat)
        + " sections but only "@ + decimal_digits(actual as nat) + " blocks linked"@);
    assert(g.ai_rationale@ =~= "Density gap: expected ~"@ + decimal_digits(density as nat)
        + " blocks per section, found "@ + decimal_digits(actual as nat));
    g
}

impl GhostDetector {
    /// One ghost per structure block with more section headings than blocks
    /// linked to it, in block order.
    pub fn detect_density_gaps(&self, blocks: &[Block]) -> (ghosts: Vec<GhostNode>)
        ensures
            ghosts@.len() == density_indices(blocks@, blocks@.len() as int).len(),
            forall|k: int| 0 <= k < ghosts@.len() ==> reports_density_gap(
                #[trigger] ghosts@[k],
                blocks@,
                blocks@[density_indices(blocks@, blocks@.len() as int)[k]],
                self.config.max_expected_density,
            ),
    {
        let density = self.config.max_expected_density;
        let mut ghosts: Vec<GhostNode> = Vec::new();
        let mut i: usize = 0;
        while i < blocks.len()
            invariant
                i <= blocks@.len(),
                density == self.config.max_expected_density,
                ghosts@.len() == density_indices(blocks@, i as int).len(),
                forall|k: int| 0 <= k < ghosts@.len() ==> reports_density_gap(
                    #[trigger] ghosts@[k],
                    blocks@,
                    blocks@[density_indices(blocks@, i as int)[k]],
                    density,
                ),
            decreases blocks@.len() - i,
        {
            let b = &blocks[i];
            let expected = count_sections(b.content.as_str());
            let actual = count_linked(blocks, b.id);
            if expected > actual {
                let g = density_ghost(blocks, b, expected, actual, density);
                ghosts.push(g);
            }
            i = i + 1;
        }
        ghosts
    }
}

} // verus!
