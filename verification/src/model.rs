//! Vocabulary of the knowledge graph: block kinds and link kinds.

use vstd::prelude::*;

verus! {

/// The kind of a block in the Zettelkasten hierarchy.
#[derive(Debug, Clone, Copy, PartialEq, Eq, Structural, Hash)]
pub enum BlockType {
    Fleeting,
    Literature,
    Permanent,
    Structure,
    Hub,
    Task,
    Reference,
    Outline,
    GhostNote,
}

/// The kind of an edge between two blocks.
#[derive(Debug, Clone, Copy, PartialEq, Eq, Structural, Hash)]
pub enum LinkType {
    Extends,
    Refines,
    Contradicts,
    Questions,
    Supports,
    References,
    Related,
    SimilarTo,
    SectionOf,
    SubsectionOf,
    OrderedChild,
    Next,
    NextSibling,
    FirstChild,
    Contains,
    Parent,
    AiSuggested,
}

/// All block kinds, in declaration order.
pub open spec fn all_block_types() -> Seq<BlockType> {
    seq![
        BlockType::Fleeting,
        BlockType::Literature,
        BlockType::Permanent,
        BlockType::Structure,
        BlockType::Hub,
        BlockType::Task,
        BlockType::Reference,
        BlockType::Outline,
        BlockType::GhostNote,
    ]
}

/// The variant name of a block kind, as `{:?}` prints it.
pub open spec fn block_type_debug_name(t: BlockType) -> Seq<char> {
    match t {
        BlockType::Fleeting => "Fleeting"@,
        BlockType::Literature => "Literature"@,
        BlockType::Permanent => "Permanent"@,
        BlockType::Structure => "Structure"@,
        BlockType::Hub => "Hub"@,
        BlockType::Task => "Task"@,
        BlockType::Reference => "Reference"@,
        BlockType::Outline => "Outline"@,
        BlockType::GhostNote => "Ghost"@,
    }
}

/// The lowercase name of a block kind (`format!("{:?}", t).to_lowercase()`),
/// which is also its serialized name.
pub open spec fn block_type_lower_name(t: BlockType) -> Seq<char> {
    match t {
        BlockType::Fleeting => "fleeting"@,
        BlockType::Literature => "literature"@,
        BlockType::Permanent => "permanent"@,
        BlockType::Structure => "structure"@,
        BlockType::Hub => "hub"@,
        BlockType::Task => "task"@,
        BlockType::Reference => "reference"@,
        BlockType::Outline => "outline"@,
        BlockType::GhostNote => "ghost"@,
    }
}

/// The marker shown for a block kind in block listings.
pub open spec fn block_type_list_emoji(t: BlockType) -> Seq<char> {
    match t {
        BlockType::Fleeting => "⚡"@,
        BlockType::Literature => "📖"@,
        BlockType::Permanent => "💎"@,
        BlockType::Structure => "🗂️"@,
        BlockType::Hub => "🌐"@,
        BlockType::Task => "✅"@,
        BlockType::Reference => "📚"@,
        BlockType::Outline => "📝"@,
        BlockType::GhostNote => "👻"@,
    }
}

/// The marker shown for a block kind in tables of contents and spine trees.
pub open spec fn block_type_tree_marker(t: BlockType) -> Seq<char> {
    match t {
        BlockType::Structure => "📁"@,
        BlockType::Permanent => "📝"@,
        BlockType::GhostNote => "👻"@,
        BlockType::Fleeting => "💡"@,
        BlockType::Literature => "📚"@,
        BlockType::Hub => "🧭"@,
        BlockType::Task => "✅"@,
        BlockType::Reference => "🔗"@,
        BlockType::Outline => "📋"@,
    }
}

impl BlockType {
    /// The variant name, as `{:?}` prints it.
    pub fn debug_name(&self) -> (s: &'static str)
        ensures
            s@ == block_type_debug_name(*self),
    {
        match self {
            BlockType::Fleeting => "Fleeting",
            BlockType::Literature => "Literature",
            BlockType::Permanent => "Permanent",
            BlockType::Structure => "Structure",
            BlockType::Hub => "Hub",
            BlockType::Task => "Task",
            BlockType::Reference => "Reference",
            BlockType::Outline => "Outline",
            BlockType::GhostNote => "Ghost",
        }
    }

    /// The lowercase name (`format!("{:?}", t).to_lowercase()`).
    pub fn lower_name(&self) -> (s: &'static str)
        ensures
            s@ == block_type_lower_name(*self),
    {
        match self {
            BlockType::Fleeting => "fleeting",
            BlockType::Literature => "literature",
            BlockType::Permanent => "permanent",
            BlockType::Structure => "structure",
            BlockType::Hub => "hub",
            BlockType::Task => "task",
            BlockType::Reference => "reference",
            BlockType::Outline => "outline",
            BlockType::GhostNote => "ghost",
        }
    }

    /// The marker used when listing blocks.
    pub fn list_emoji(&self) -> (s: &'static str)
        ensures
            s@ == block_type_list_emoji(*self),
    {
        match self {
            BlockType::Fleeting => "⚡",
            BlockType::Literature => "📖",
            BlockType::Permanent => "💎",
            BlockType::Structure => "🗂️",
            BlockType::Hub => "🌐",
            BlockType::Task => "✅",
            BlockType::Reference => "📚",
            BlockType::Outline => "📝",
            BlockType::GhostNote => "👻",
        }
    }

    /// The marker used in tables of contents and spine trees.
    pub fn tree_marker(&self) -> (s: &'static str)
        ensures
            s@ == block_type_tree_marker(*self),
    {
        match self {
            BlockType::Structure => "📁",
            BlockType::Permanent => "📝",
            BlockType::GhostNote => "👻",
            BlockType::Fleeting => "💡",
            BlockType::Literature => "📚",
            BlockType::Hub => "🧭",
            BlockType::Task => "✅",
            BlockType::Reference => "🔗",
            BlockType::Outline => "📋",
        }
    }
}

/// The variant name of a link kind, as `{:?}` prints it.
pub open spec fn link_type_debug_name(t: LinkType) -> Seq<char> {
    match t {
        LinkType::Extends => "Extends"@,
        LinkType::Refines => "Refines"@,
        LinkType::Contradicts => "Contradicts"@,
        LinkType::Questions => "Questions"@,
        LinkType::Supports => "Supports"@,
        LinkType::References => "References"@,
        LinkType::Related => "Related"@,
        LinkType::SimilarTo => "SimilarTo"@,
        LinkType::SectionOf => "SectionOf"@,
        LinkType::SubsectionOf => "SubsectionOf"@,
        LinkType::OrderedChild => "OrderedChild"@,
        LinkType::Next => "Next"@,
        LinkType::NextSibling => "NextSibling"@,
        LinkType::FirstChild => "FirstChild"@,
        LinkType::Contains => "Contains"@,
        LinkType::Parent => "Parent"@,
        LinkType::AiSuggested => "AiSuggested"@,
    }
}

/// The lowercase name of a link kind (`format!("{:?}", t).to_lowercase()`).
pub open spec fn link_type_lower_name(t: LinkType) -> Seq<char> {
    match t {
        LinkType::Extends => "extends"@,
        LinkType::Refines => "refines"@,
        LinkType::Contradicts => "contradicts"@,
        LinkType::Questions => "questions"@,
        LinkType::Supports => "supports"@,
        LinkType::References => "references"@,
        LinkType::Related => "related"@,
        LinkType::SimilarTo => "similarto"@,
        LinkType::SectionOf => "sectionof"@,
        LinkType::SubsectionOf => "subsectionof"@,
        LinkType::OrderedChild => "orderedchild"@,
        LinkType::Next => "next"@,
        LinkType::NextSibling => "nextsibling"@,
        LinkType::FirstChild => "firstchild"@,
        LinkType::Contains => "contains"@,
        LinkType::Parent => "parent"@,
        LinkType::AiSuggested => "aisuggested"@,
    }
}

/// Links that make up a table of contents below a structure block.
pub open spec fn is_toc_link_spec(t: LinkType) -> bool {
    t == LinkType::Next || t == LinkType::SectionOf || t == LinkType::OrderedChild
}

/// Links that make up the reading sequence of the structural spine.
pub open spec fn is_sequence_link_spec(t: LinkType) -> bool {
    t == LinkType::Next || t == LinkType::NextSibling
}

/// Links that place a block inside a section.
pub open spec fn is_membership_link_spec(t: LinkType) -> bool {
    t == LinkType::SectionOf || t == LinkType::Contains
}

impl LinkType {
    /// The lowercase name (`format!("{:?}", t).to_lowercase()`).
    pub fn lower_name(&self) -> (s: &'static str)
        ensures
            s@ == link_type_lower_name(*self),
    {
        match self {
            LinkType::Extends => "extends",
            LinkType::Refines => "refines",
            LinkType::Contradicts => "contradicts",
            LinkType::Questions => "questions",
            LinkType::Supports => "supports",
            LinkType::References => "references",
            LinkType::Related => "related",
            LinkType::SimilarTo => "similarto",
            LinkType::SectionOf => "sectionof",
            LinkType::SubsectionOf => "subsectionof",
            LinkType::OrderedChild => "orderedchild",
            LinkType::Next => "next",
            LinkType::NextSibling => "nextsibling",
            LinkType::FirstChild => "firstchild",
            LinkType::Contains => "contains",
            LinkType::Parent => "parent",
            LinkType::AiSuggested => "aisuggested",
        }
    }

    /// The variant name, as `{:?}` prints it.
    pub fn debug_name(&self) -> (s: &'static str)
        ensures
            s@ == link_type_debug_name(*self),
    {
        match self {
            LinkType::Extends => "Extends",
            LinkType::Refines => "Refines",
            LinkType::Contradicts => "Contradicts",
            LinkType::Questions => "Questions",
            LinkType::Supports => "Supports",
            LinkType::References => "References",
            LinkType::Related => "Related",
            LinkType::SimilarTo => "SimilarTo",
            LinkType::SectionOf => "SectionOf",
            LinkType::SubsectionOf => "SubsectionOf",
            LinkType::OrderedChild => "OrderedChild",
            LinkType::Next => "Next",
            LinkType::NextSibling => "NextSibling",
            LinkType::FirstChild => "FirstChild",
            LinkType::Contains => "Contains",
            LinkType::Parent => "Parent",
            LinkType::AiSuggested => "AiSuggested",
        }
    }

    /// Whether this link is followed when building a table of contents.
    pub fn is_toc_link(&self) -> (b: bool)
        ensures
            b == is_toc_link_spec(*self),
    {
        match self {
            LinkType::Next | LinkType::SectionOf | LinkType::OrderedChild => true,
            _ => false,
        }
    }

    /// Whether this link is followed when walking the spine in order.
    pub fn is_sequence_link(&self) -> (b: bool)
        ensures
            b == is_sequence_link_spec(*self),
    {
        match self {
            LinkType::Next | LinkType::NextSibling => true,
            _ => false,
        }
    }

    /// Whether this link places its target inside a section.
    pub fn is_membership_link(&self) -> (b: bool)
        ensures
            b == is_membership_link_spec(*self),
    {
        match self {
            LinkType::SectionOf | LinkType::Contains => true,
            _ => false,
        }
    }
}

} // verus!
