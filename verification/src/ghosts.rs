//! Ghost notes in the store: filling a placeholder with content, which makes
//! it a permanent note, and dismissing it.

use vstd::prelude::*;
use crate::block::{meta_get, meta_lookup, same_block, Block};
use crate::ids::{encode_ulid, ghost_ref_value, parse_ghost_ulid, ulid_encode};
use crate::model::{block_type_debug_name, BlockType};
use crate::store::{blocks_without, first_block_with, BlockStore};
use crate::text::{concat, first_chars, owned, push_str};

verus! {

/// The title a filled ghost note takes: the text stored under
/// `original_title`, when there is one, else its own title.
pub open spec fn filled_title(orig: Block) -> Seq<char> {
    match meta_get(orig.metadata@, "original_title"@) {
        Some(Some(t)) => t,
        _ => orig.title@,
    }
}

/// `b` is the ghost note `orig` filled with `content`: a permanent note
/// with that content and the title of [`filled_title`], the rest kept.
pub open spec fn filled(b: Block, orig: Block, content: Seq<char>) -> bool {
    &&& b.id == orig.id
    &&& b.block_type == BlockType::Permanent
    &&& b.title@ == filled_title(orig)
    &&& b.content@ == content
    &&& b.tags@ == orig.tags@
    &&& b.metadata@ == orig.metadata@
}

/// The lines printed after filling a ghost note.
pub open spec fn filled_text(b: Block) -> Seq<char> {
    "✅ Ghost Node activated!\n\n   Old ID: ghost_"@ + ulid_encode(b.id).take(8) + "\n   New ID: "@ + ulid_encode(b.id)
        + "\n   Title: "@ + b.title@ + "\n   Type: Permanent\n   Status: stable\n\n📊 Section coverage increased!\n"@
}

/// The lines printed after dismissing a ghost note.
pub open spec fn dismissed_text(id: Seq<char>, b: Block) -> Seq<char> {
    "🗑️  Ghost Node dismissed!\n\n   ID: "@ + id + "\n   Title: "@ + b.title@
        + "\n\n💡 The placeholder has been removed from the structure.\n"@
}

/// The refusal for a reference to a ghost note that is not one: an invalid
/// reference, a block not stored, or a block of another kind; `None` when
/// the reference names a stored ghost note, at position `k` of `bs`.
pub open spec fn ghost_refusal(bs: Seq<Block>, id: Seq<char>) -> Option<Seq<char>> {
    match ghost_ref_value(id) {
        None => Some("Invalid ULID format: "@ + id),
        Some(v) => match first_block_with(bs, v) {
            None => Some("Ghost node not found: "@ + id),
            Some(k) => if bs[k].block_type != BlockType::GhostNote {
                Some("Block "@ + id + " is not a ghost node (type: "@ + block_type_debug_name(bs[k].block_type) + ")"@)
            } else {
                None
            },
        },
    }
}

/// Finds the ghost note that `id` refers to (see [`ghost_refusal`]).
fn find_ghost(blocks: &BlockStore, id: &str) -> (r: Result<usize, String>)
    ensures
        match ghost_refusal(blocks.blocks@, id@) {
            Some(m) => r matches Err(t) && t@ == m,
            None => r matches Ok(k) && ghost_ref_value(id@) matches Some(v) && first_block_with(blocks.blocks@, v)
                == Some(k as int) && k < blocks.blocks@.len() && blocks.blocks@[k as int].id == v,
        },
{
    let v = match parse_ghost_ulid(id) {
        Ok(v) => v,
        Err(e) => {
            return Err(e.message());
        },
    };
    let k = match blocks.position_of(v) {
        Some(k) => k,
        None => {
            return Err(concat("Ghost node not found: ", id));
        },
    };
    let kind = blocks.blocks[k].block_type;
    match kind {
        BlockType::GhostNote => Ok(k),
        _ => {
            let mut m = concat("Block ", id);
            push_str(&mut m, " is not a ghost node (type: ");
            push_str(&mut m, kind.debug_name());
            push_str(&mut m, ")");
            Err(m)
        },
    }
}

/// The ghost note `orig` filled with `content` (see [`filled`]).
fn filled_copy(orig: &Block, content: &str) -> (b: Block)
    ensures
        filled(b, *orig, content@),
{
    let mut b = orig.copy_block();
    b.block_type = BlockType::Permanent;
    b.content = owned(content);
    match meta_lookup(&b.metadata, "original_title") {
        Some(Some(t)) => {
            b.title = t;
        },
        _ => {},
    }
    proof {
        reveal_strlit("original_title");
    }
    b
}

/// The lines printed after filling (see [`filled_text`]).
fn filled_lines(b: &Block) -> (text: String)
    ensures
        text@ == filled_text(*b),
{
    let full = encode_ulid(b.id);
    let mut text = owned("✅ Ghost Node activated!\n\n   Old ID: ghost_");
    let short = first_chars(full.as_str(), 8);
    push_str(&mut text, short.as_str());
    push_str(&mut text, "\n   New ID: ");
    push_str(&mut text, full.as_str());
    push_str(&mut text, "\n   Title: ");
    push_str(&mut text, b.title.as_str());
    push_str(&mut text, "\n   Type: Permanent\n   Status: stable\n\n📊 Section coverage increased!\n");
    assert(text@ =~= filled_text(*b));
    text
}

/// Fills the ghost note that `id` refers to with `content`: every stored
/// block with its identifier becomes the filled note (see [`filled`]), and
/// the lines to print are answered. Refused, with nothing changed, as
/// [`ghost_refusal`] says.
pub fn fill_ghost(blocks: &mut BlockStore, id: &str, content: &str) -> (r: Result<String, String>)
    ensures
        match ghost_refusal(old(blocks).blocks@, id@) {
            Some(m) => r matches Err(t) && t@ == m && final(blocks).blocks@ == old(blocks).blocks@,
            None => {
                let v = ghost_ref_value(id@)->0;
                let k = first_block_with(old(blocks).blocks@, v)->0;
                let orig = old(blocks).blocks@[k];
                &&& r matches Ok(t) && exists|b: Block| filled(b, orig, content@) && t@ == filled_text(b)
                &&& final(blocks).blocks@.len() == old(blocks).blocks@.len()
                &&& forall|j: int|
                    0 <= j < old(blocks).blocks@.len() ==> if old(blocks).blocks@[j].id == v {
                        filled(#[trigger] final(blocks).blocks@[j], orig, content@)
                    } else {
                        final(blocks).blocks@[j] == old(blocks).blocks@[j]
                    }
            },
        },
{
    let k = match find_ghost(blocks, id) {
        Ok(k) => k,
        Err(m) => {
            return Err(m);
        },
    };
    let b = filled_copy(&blocks.blocks[k], content);
    let text = filled_lines(&b);
    blocks.update(b);
    Ok(text)
}

/// Dismisses the ghost note that `id` refers to: every stored block with
/// its identifier is removed, and the lines to print are answered.
/// Refused, with nothing changed, as [`ghost_refusal`] says.
pub fn dismiss_ghost(blocks: &mut BlockStore, id: &str) -> (r: Result<String, String>)
    ensures
        match ghost_refusal(old(blocks).blocks@, id@) {
            Some(m) => r matches Err(t) && t@ == m && final(blocks).blocks@ == old(blocks).blocks@,
            None => {
                let v = ghost_ref_value(id@)->0;
                let k = first_block_with(old(blocks).blocks@, v)->0;
                &&& r matches Ok(t) && t@ == dismissed_text(id@, old(blocks).blocks@[k])
                &&& final(blocks).blocks@ == blocks_without(old(blocks).blocks@, v)
            },
        },
{
    let k = match find_ghost(blocks, id) {
        Ok(k) => k,
        Err(m) => {
            return Err(m);
        },
    };
    let v = blocks.blocks[k].id;
    let mut text = owned("🗑️  Ghost Node dismissed!\n\n   ID: ");
    push_str(&mut text, id);
    push_str(&mut text, "\n   Title: ");
    push_str(&mut text, blocks.blocks[k].title.as_str());
    push_str(&mut text, "\n\n💡 The placeholder has been removed from the structure.\n");
    assert(text@ =~= dismissed_text(id@, blocks.blocks@[k as int]));
    blocks.delete(v);
    Ok(text)
}

} // verus!
