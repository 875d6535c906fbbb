//! Quick capture: a note made from a line of text, titled and committed by
//! its first characters.

use vstd::prelude::*;
use crate::block::Block;
use crate::error::NexusError;
use crate::model::BlockType;
use crate::parse::{block_type_of_name, parse_block_type, parse_tags, tags_of};
use crate::text::{chars_of, first_chars, lowercase, owned, push_str};

verus! {

/// The title of a quick note: the text itself up to 50 characters, else its
/// first 47 characters and `...`.
pub open spec fn quick_title_of(s: Seq<char>) -> Seq<char> {
    if s.len() > 50 {
        s.take(47) + "..."@
    } else {
        s
    }
}

/// The commit message of a quick note: `Quick capture: ` and the text up to
/// 50 characters, else its first 47 characters.
pub open spec fn quick_message_of(s: Seq<char>) -> Seq<char> {
    "Quick capture: "@ + if s.len() > 50 {
        s.take(47)
    } else {
        s
    }
}

/// The title of a quick note (see [`quick_title_of`]).
pub fn quick_title(content: &str) -> (t: String)
    ensures
        t@ == quick_title_of(content@),
{
    if chars_of(content).len() > 50 {
        let mut t = first_chars(content, 47);
        push_str(&mut t, "...");
        t
    } else {
        owned(content)
    }
}

/// The commit message of a quick note (see [`quick_message_of`]).
pub fn quick_commit_message(content: &str) -> (m: String)
    ensures
        m@ == quick_message_of(content@),
{
    let mut m = owned("Quick capture: ");
    if chars_of(content).len() > 50 {
        let h = first_chars(content, 47);
        push_str(&mut m, h.as_str());
    } else {
        push_str(&mut m, content);
    }
    m
}

/// The note a quick capture creates: of the named kind (fleeting when none
/// is named), titled by [`quick_title_of`], holding the text, tagged with the
/// comma-separated tags. An unknown kind name is refused.
pub fn quick_block(content: &str, block_type: Option<&str>, tags: Option<&str>) -> (r: Result<Block, NexusError>)
    ensures
        match block_type {
            Some(n) => block_type_of_name(lowercase(n@)) is None ==> (r matches Err(e) && e matches NexusError::InvalidBlockType(m) && m@ == n@),
            None => true,
        },
        r matches Ok(b) ==> {
            &&& b.block_type == match block_type {
                Some(n) => block_type_of_name(lowercase(n@))->0,
                None => BlockType::Fleeting,
            }
            &&& b.title@ == quick_title_of(content@)
            &&& b.content@ == content@
            &&& b.tags.deep_view() == match tags {
                Some(t) => tags_of(t@),
                None => Seq::<Seq<char>>::empty(),
            }
            &&& b.metadata@.len() == 0
        },
        (match block_type {
            Some(n) => block_type_of_name(lowercase(n@)) is Some,
            None => true,
        }) ==> r is Ok,
{
    let kind = match block_type {
        Some(n) => match parse_block_type(n) {
            Ok(t) => t,
            Err(e) => {
                return Err(e);
            },
        },
        None => BlockType::Fleeting,
    };
    let title = quick_title(content);
    let mut block = Block::new(kind, title.as_str()).with_content(content);
    match tags {
        Some(t) => {
            let list = parse_tags(t);
            let ghost want = list.deep_view();
            let mut i: usize = 0;
            while i < list.len()
                invariant
                    i <= list@.len(),
                    want == list.deep_view(),
                    block.tags.deep_view() == want.subrange(0, i as int),
                    block.tags@.len() == i,
                    block.block_type == kind,
                    block.title@ == title@,
                    block.content@ == content@,
                    block.metadata@.len() == 0,
                decreases list@.len() - i,
            {
                let tag = owned(list[i].as_str());
                let ghost tv = tag@;
                let ghost old_tags = block.tags@;
                assert(tv == want[i as int]);
                block = block.with_tag(tag);
                assert(block.tags@ == old_tags.push(block.tags@.last()));
                assert forall|j: int| 0 <= j < i + 1 implies #[trigger] block.tags.deep_view()[j] == want.subrange(0, i + 1)[j] by {
                    if j < i {
                        assert(block.tags@[j] == old_tags[j]);
                    }
                }
                assert(block.tags.deep_view() =~= want.subrange(0, i + 1));
                i = i + 1;
            }
            assert(want.subrange(0, list@.len() as int) =~= want);
        },
        None => {
            assert(block.tags.deep_view() =~= Seq::<Seq<char>>::empty());
        },
    }
    Ok(block)
}

} // verus!
