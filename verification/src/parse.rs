//! Parsers for the names users type: block kinds, link kinds, output
//! formats, tag lists and interactive answers.

use vstd::prelude::*;
use crate::error::NexusError;
use crate::model::{BlockType, LinkType};
use crate::text::{ascii_lower, ascii_upper, chars_of, is_ascii_text, lowercase, owned, split_chars, split_seq, str_eq, string_from_chars, to_lowercase, trim_chars, trim_seq};

verus! {

// ---------------------------------------------------------------------------
// Block kinds
// ---------------------------------------------------------------------------

/// The block kind named by an already lowercased name or alias.
pub open spec fn block_type_of_name(n: Seq<char>) -> Option<BlockType> {
    if n == "fleeting"@ || n == "f"@ {
        Some(BlockType::Fleeting)
    } else if n == "literature"@ || n == "l"@ {
        Some(BlockType::Literature)
    } else if n == "permanent"@ || n == "p"@ {
        Some(BlockType::Permanent)
    } else if n == "structure"@ || n == "s"@ || n == "index"@ || n == "moc"@ {
        Some(BlockType::Structure)
    } else if n == "hub"@ || n == "h"@ {
        Some(BlockType::Hub)
    } else if n == "task"@ || n == "t"@ {
        Some(BlockType::Task)
    } else if n == "reference"@ || n == "r"@ {
        Some(BlockType::Reference)
    } else if n == "outline"@ || n == "o"@ {
        Some(BlockType::Outline)
    } else if n == "ghost"@ || n == "g"@ {
        Some(BlockType::GhostNote)
    } else {
        None
    }
}

/// Looks up a lowercased block kind name or alias.
pub fn block_type_from_name(n: &str) -> (r: Option<BlockType>)
    ensures
        r == block_type_of_name(n@),
{
    if str_eq(n, "fleeting") || str_eq(n, "f") {
        Some(BlockType::Fleeting)
    } else if str_eq(n, "literature") || str_eq(n, "l") {
        Some(BlockType::Literature)
    } else if str_eq(n, "permanent") || str_eq(n, "p") {
        Some(BlockType::Permanent)
    } else if str_eq(n, "structure") || str_eq(n, "s") || str_eq(n, "index") || str_eq(n, "moc") {
        Some(BlockType::Structure)
    } else if str_eq(n, "hub") || str_eq(n, "h") {
        Some(BlockType::Hub)
    } else if str_eq(n, "task") || str_eq(n, "t") {
        Some(BlockType::Task)
    } else if str_eq(n, "reference") || str_eq(n, "r") {
        Some(BlockType::Reference)
    } else if str_eq(n, "outline") || str_eq(n, "o") {
        Some(BlockType::Outline)
    } else if str_eq(n, "ghost") || str_eq(n, "g") {
        Some(BlockType::GhostNote)
    } else {
        None
    }
}

/// Parses a block kind, ignoring case. Unknown names give
/// `InvalidBlockType` carrying the input as typed.
pub fn parse_block_type(s: &str) -> (r: Result<BlockType, NexusError>)
    ensures
        match r {
            Ok(t) => block_type_of_name(lowercase(s@)) == Some(t),
            Err(e) => block_type_of_name(lowercase(s@)) is None && (e matches NexusError::InvalidBlockType(m) && m@ == s@),
        },
{
    let lower = to_lowercase(s);
    match block_type_from_name(lower.as_str()) {
        Some(t) => Ok(t),
        None => Err(NexusError::InvalidBlockType(owned(s))),
    }
}

// ---------------------------------------------------------------------------
// Link kinds
// ---------------------------------------------------------------------------

/// The link kind named by a canonical (lowercase, snake_case) name.
pub open spec fn link_type_of_name(n: Seq<char>) -> Option<LinkType> {
    if n == "extends"@ {
        Some(LinkType::Extends)
    } else if n == "refines"@ {
        Some(LinkType::Refines)
    } else if n == "contradicts"@ {
        Some(LinkType::Contradicts)
    } else if n == "questions"@ {
        Some(LinkType::Questions)
    } else if n == "supports"@ {
        Some(LinkType::Supports)
    } else if n == "references"@ {
        Some(LinkType::References)
    } else if n == "related"@ {
        Some(LinkType::Related)
    } else if n == "similar_to"@ {
        Some(LinkType::SimilarTo)
    } else if n == "section_of"@ {
        Some(LinkType::SectionOf)
    } else if n == "subsection_of"@ {
        Some(LinkType::SubsectionOf)
    } else if n == "ordered_child"@ {
        Some(LinkType::OrderedChild)
    } else if n == "next"@ {
        Some(LinkType::Next)
    } else if n == "next_sibling"@ {
        Some(LinkType::NextSibling)
    } else if n == "first_child"@ {
        Some(LinkType::FirstChild)
    } else if n == "contains"@ {
        Some(LinkType::Contains)
    } else if n == "parent"@ {
        Some(LinkType::Parent)
    } else if n == "ai_suggested"@ {
        Some(LinkType::AiSuggested)
    } else {
        None
    }
}

/// The canonical name of a link kind; [`link_type_of_name`] inverts it.
pub open spec fn link_type_canonical_name(t: LinkType) -> Seq<char> {
    match t {
        LinkType::Extends => "extends"@,
        LinkType::Refines => "refines"@,
        LinkType::Contradicts => "contradicts"@,
        LinkType::Questions => "questions"@,
        LinkType::Supports => "supports"@,
        LinkType::References => "references"@,
        LinkType::Related => "related"@,
        LinkType::SimilarTo => "similar_to"@,
        LinkType::SectionOf => "section_of"@,
        LinkType::SubsectionOf => "subsection_of"@,
        LinkType::OrderedChild => "ordered_child"@,
        LinkType::Next => "next"@,
        LinkType::NextSibling => "next_sibling"@,
        LinkType::FirstChild => "first_child"@,
        LinkType::Contains => "contains"@,
        LinkType::Parent => "parent"@,
        LinkType::AiSuggested => "ai_suggested"@,
    }
}

/// The link kind named by a canonical name or by one of its aliases.
pub open spec fn link_type_of_alias(n: Seq<char>) -> Option<LinkType> {
    if link_type_of_name(n) is Some {
        link_type_of_name(n)
    } else if n == "elaborates"@ {
        Some(LinkType::Extends)
    } else if n == "improves"@ {
        Some(LinkType::Refines)
    } else if n == "opposes"@ {
        Some(LinkType::Contradicts)
    } else if n == "asks"@ {
        Some(LinkType::Questions)
    } else if n == "evidence"@ {
        Some(LinkType::Supports)
    } else if n == "cites"@ {
        Some(LinkType::References)
    } else if n == "see_also"@ {
        Some(LinkType::Related)
    } else if n == "similar"@ {
        Some(LinkType::SimilarTo)
    } else if n == "belongs_to"@ {
        Some(LinkType::SectionOf)
    } else if n == "child_of"@ {
        Some(LinkType::SubsectionOf)
    } else if n == "seq_child"@ {
        Some(LinkType::OrderedChild)
    } else if n == "seq_next"@ {
        Some(LinkType::Next)
    } else if n == "sibling_next"@ {
        Some(LinkType::NextSibling)
    } else if n == "first"@ {
        Some(LinkType::FirstChild)
    } else if n == "parent_of"@ {
        Some(LinkType::Contains)
    } else if n == "has_parent"@ {
        Some(LinkType::Parent)
    } else if n == "ai_link"@ {
        Some(LinkType::AiSuggested)
    } else {
        None
    }
}

/// Looks up a canonical link kind name.
pub fn link_type_from_name(n: &str) -> (r: Option<LinkType>)
    ensures
        r == link_type_of_name(n@),
{
    if str_eq(n, "extends") {
        Some(LinkType::Extends)
    } else if str_eq(n, "refines") {
        Some(LinkType::Refines)
    } else if str_eq(n, "contradicts") {
        Some(LinkType::Contradicts)
    } else if str_eq(n, "questions") {
        Some(LinkType::Questions)
    } else if str_eq(n, "supports") {
        Some(LinkType::Supports)
    } else if str_eq(n, "references") {
        Some(LinkType::References)
    } else if str_eq(n, "related") {
        Some(LinkType::Related)
    } else if str_eq(n, "similar_to") {
        Some(LinkType::SimilarTo)
    } else if str_eq(n, "section_of") {
        Some(LinkType::SectionOf)
    } else if str_eq(n, "subsection_of") {
        Some(LinkType::SubsectionOf)
    } else if str_eq(n, "ordered_child") {
        Some(LinkType::OrderedChild)
    } else if str_eq(n, "next") {
        Some(LinkType::Next)
    } else if str_eq(n, "next_sibling") {
        Some(LinkType::NextSibling)
    } else if str_eq(n, "first_child") {
        Some(LinkType::FirstChild)
    } else if str_eq(n, "contains") {
        Some(LinkType::Contains)
    } else if str_eq(n, "parent") {
        Some(LinkType::Parent)
    } else if str_eq(n, "ai_suggested") {
        Some(LinkType::AiSuggested)
    } else {
        None
    }
}

/// Looks up a link kind name or alias (already lowercased, with `_` for `-`).
pub fn link_type_from_alias(n: &str) -> (r: Option<LinkType>)
    ensures
        r == link_type_of_alias(n@),
{
    let canonical = link_type_from_name(n);
    if canonical.is_some() {
        canonical
    } else if str_eq(n, "elaborates") {
        Some(LinkType::Extends)
    } else if str_eq(n, "improves") {
        Some(LinkType::Refines)
    } else if str_eq(n, "opposes") {
        Some(LinkType::Contradicts)
    } else if str_eq(n, "asks") {
        Some(LinkType::Questions)
    } else if str_eq(n, "evidence") {
        Some(LinkType::Supports)
    } else if str_eq(n, "cites") {
        Some(LinkType::References)
    } else if str_eq(n, "see_also") {
        Some(LinkType::Related)
    } else if str_eq(n, "similar") {
        Some(LinkType::SimilarTo)
    } else if str_eq(n, "belongs_to") {
        Some(LinkType::SectionOf)
    } else if str_eq(n, "child_of") {
        Some(LinkType::SubsectionOf)
    } else if str_eq(n, "seq_child") {
        Some(LinkType::OrderedChild)
    } else if str_eq(n, "seq_next") {
        Some(LinkType::Next)
    } else if str_eq(n, "sibling_next") {
        Some(LinkType::NextSibling)
    } else if str_eq(n, "first") {
        Some(LinkType::FirstChild)
    } else if str_eq(n, "parent_of") {
        Some(LinkType::Contains)
    } else if str_eq(n, "has_parent") {
        Some(LinkType::Parent)
    } else if str_eq(n, "ai_link") {
        Some(LinkType::AiSuggested)
    } else {
        None
    }
}

/// Every `-` of `s` replaced by `_`.
pub open spec fn hyphens_to_underscores(s: Seq<char>) -> Seq<char> {
    s.map_values(|c: char| if c == '-' { '_' } else { c })
}

/// Replaces every `-` by `_` (`str::replace("-", "_")`).
pub fn replace_hyphens(s: &str) -> (out: String)
    ensures
        out@ == hyphens_to_underscores(s@),
{
    let cs = chars_of(s);
    let mut v: Vec<char> = Vec::new();
    let mut i: usize = 0;
    while i < cs.len()
        invariant
            i <= cs@.len(),
            cs@ == s@,
            v@ == hyphens_to_underscores(cs@.subrange(0, i as int)),
        decreases cs@.len() - i,
    {
        let c = cs[i];
        v.push(if c == '-' { '_' } else { c });
        i = i + 1;
        assert(hyphens_to_underscores(cs@.subrange(0, i as int)) =~= hyphens_to_underscores(
            cs@.subrange(0, i - 1),
        ).push(if c == '-' { '_' } else { c }));
    }
    assert(cs@.subrange(0, cs@.len() as int) =~= cs@);
    string_from_chars(&v)
}

/// The name a link kind is looked up by, for ASCII text: lowercase, with
/// `_` for `-`.
pub open spec fn link_name_key(s: Seq<char>) -> Seq<char> {
    hyphens_to_underscores(ascii_lower(s))
}

/// Every `_` replaced by `-` (`str::replace('_', "-")`).
pub open spec fn underscores_to_hyphens(s: Seq<char>) -> Seq<char> {
    s.map_values(|c: char| if c == '_' { '-' } else { c })
}

/// Link kind names ignore case and do not tell `_` from `-`: an ASCII name,
/// the same name in capitals, and the same name with `-` for `_` are all
/// ASCII and are looked up by the same key.
pub proof fn lemma_link_names_ignore_case_and_dashes(s: Seq<char>)
    requires
        is_ascii_text(s),
    ensures
        is_ascii_text(ascii_upper(s)),
        link_name_key(ascii_upper(s)) == link_name_key(s),
        is_ascii_text(underscores_to_hyphens(s)),
        link_name_key(underscores_to_hyphens(s)) == link_name_key(s),
{
    let up = ascii_upper(s);
    let dash = underscores_to_hyphens(s);
    assert forall|i: int| 0 <= i < up.len() implies (#[trigger] up[i] as u32) < 128 by {
        assert((s[i] as u32) < 128);
    }
    assert forall|i: int| 0 <= i < dash.len() implies (#[trigger] dash[i] as u32) < 128 by {
        assert((s[i] as u32) < 128);
    }
    assert forall|i: int| 0 <= i < s.len() implies #[trigger] link_name_key(up)[i] == link_name_key(s)[i] by {
        let c = s[i];
        if 'a' <= c && c <= 'z' {
            assert(up[i] == ((c as u32) - 32) as char);
            assert((((c as u32) - 32) as char as u32) + 32 == c as u32);
        }
    }
    assert(link_name_key(up) =~= link_name_key(s));
    assert(link_name_key(dash) =~= link_name_key(s));
}

/// Parses a link kind as the `link` command accepts it: case is ignored,
/// `-` counts as `_`, and aliases are accepted. Unknown names give
/// `InvalidEdgeType` carrying the input as typed.
pub fn parse_link_type(s: &str) -> (r: Result<LinkType, NexusError>)
    ensures
        match r {
            Ok(t) => link_type_of_alias(hyphens_to_underscores(lowercase(s@))) == Some(t),
            Err(e) => link_type_of_alias(hyphens_to_underscores(lowercase(s@))) is None && (e matches NexusError::InvalidEdgeType(m) && m@ == s@),
        },
        is_ascii_text(s@) ==> match r {
            Ok(t) => link_type_of_alias(link_name_key(s@)) == Some(t),
            Err(_) => link_type_of_alias(link_name_key(s@)) is None,
        },
{
    let lower = to_lowercase(s);
    let norm = replace_hyphens(lower.as_str());
    assert(is_ascii_text(s@) ==> norm@ == link_name_key(s@));
    match link_type_from_alias(norm.as_str()) {
        Some(t) => Ok(t),
        None => Err(NexusError::InvalidEdgeType(owned(s))),
    }
}

// ---------------------------------------------------------------------------
// Tag lists
// ---------------------------------------------------------------------------

/// The tags of a comma-separated list: pieces trimmed, empty ones dropped.
pub open spec fn tags_of(s: Seq<char>) -> Seq<Seq<char>> {
    split_seq(s, ',').map_values(|p: Seq<char>| trim_seq(p)).filter(|t: Seq<char>| t.len() > 0)
}

/// Splits `"a, b,,c"` into `["a", "b", "c"]`.
pub fn parse_tags(tags: &str) -> (out: Vec<String>)
    ensures
        out.deep_view() == tags_of(tags@),
{
    let cs = chars_of(tags);
    let pieces = split_chars(&cs, ',');
    let ghost all = split_seq(tags@, ',').map_values(|p: Seq<char>| trim_seq(p));
    let mut out: Vec<String> = Vec::new();
    let mut i: usize = 0;
    while i < pieces.len()
        invariant
            i <= pieces@.len(),
            cs@ == tags@,
            pieces@.len() == split_seq(cs@, ',').len(),
            forall|j: int| 0 <= j < pieces@.len() ==> #[trigger] pieces@[j]@ == split_seq(cs@, ',')[j],
            all == split_seq(tags@, ',').map_values(|p: Seq<char>| trim_seq(p)),
            out.deep_view() == all.subrange(0, i as int).filter(|t: Seq<char>| t.len() > 0),
        decreases pieces@.len() - i,
    {
        let t = trim_chars(pieces[i].as_slice());
        proof {
            assert(all.subrange(0, i + 1).drop_last() =~= all.subrange(0, i as int));
            assert(all[i as int] == t@);
            reveal(Seq::filter);
        }
        if t.len() > 0 {
            let s = string_from_chars(&t);
            out.push(s);
            assert(out.deep_view() =~= all.subrange(0, i as int).filter(|t: Seq<char>| t.len() > 0).push(t@));
        } else {
            assert(out.deep_view() =~= all.subrange(0, i as int).filter(|t: Seq<char>| t.len() > 0));
        }
        i = i + 1;
    }
    assert(all.subrange(0, pieces@.len() as int) =~= all);
    out
}

} // verus!
