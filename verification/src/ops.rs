//! The store operations behind the command line: creating, promoting,
//! linking and listing blocks, with the text each command prints.

use vstd::prelude::*;
use crate::block::{meta_get, position_after_steps, same_block, Block, Edge};
use crate::detect::{detect_block_type, detected_type, detection_text};
use crate::error::NexusError;
use crate::fuzzy::{fuzzy_match, fuzzy_matches};
use crate::ids::{decode_ulid, encode_ulid, ulid_decode, ulid_encode};
use crate::model::{block_type_debug_name, block_type_list_emoji, link_type_debug_name, BlockType};
use crate::parse::{block_type_of_name, link_type_of_alias, hyphens_to_underscores, parse_block_type, parse_link_type, parse_tags, tags_of};
use crate::promotion::{promotion_allowed, promotion_error, promotion_error_message, validate_transition};
use crate::store::{first_block_with, newest_blocks_where, same_blocks, BlockStore, EdgeStore};
use crate::text::{
    concat, first_chars, join_seq, join_with, lowercase, owned, push_str, strings_view, to_lowercase,
};
use crate::toc::{key_text, repeat_seq, repeat_str};

verus! {

// ---------------------------------------------------------------------------
// Creating a block
// ---------------------------------------------------------------------------

/// The kind a new block gets: the detected kind when the kind asked for is
/// empty or `permanent` and detection finds one, otherwise the kind named.
pub open spec fn chosen_kind(asked: Seq<char>, title: Seq<char>, content: Option<Seq<char>>) -> Option<(Option<BlockType>, BlockType)> {
    let detected = if asked.len() == 0 || asked == "permanent"@ {
        detected_type(lowercase(title), lowercase(detection_text(title, content)))
    } else {
        None
    };
    match detected {
        Some(t) => Some((Some(t), t)),
        None => match block_type_of_name(lowercase(asked)) {
            Some(t) => Some((None, t)),
            None => None,
        },
    }
}

/// The lines printed for a created block.
pub open spec fn created_text(b: Block) -> Seq<char> {
    "Created block: "@ + ulid_encode(b.id) + "\n   Type: "@ + block_type_debug_name(b.block_type) + "\n   Title: "@
        + b.title@ + "\n"@ + (if b.tags@.len() > 0 {
        "   Tags: "@ + join_seq(strings_view(b.tags@), ", "@) + "\n"@
    } else {
        Seq::<char>::empty()
    }) + "   ULID: "@ + ulid_encode(b.id) + "\n"@
}

/// Creates and stores a block of the kind asked for (see [`chosen_kind`])
/// with the title, the content when given, and the comma-separated tags
/// when given; returns the detected kind, if detection chose it, and the
/// lines to print. An unknown kind name is refused and nothing is stored.
pub fn create_block(
    blocks: &mut BlockStore,
    block_type: &str,
    title: &str,
    content: &Option<String>,
    tags: &Option<String>,
) -> (r: Result<(Option<BlockType>, String), NexusError>)
    ensures
        match chosen_kind(block_type@, title@, match content { Some(c) => Some(c@), None => None }) {
            None => r matches Err(e) && e matches NexusError::InvalidBlockType(m) && m@ == block_type@
                && final(blocks).blocks@ == old(blocks).blocks@,
            Some((detected, kind)) => r matches Ok((d, t)) && d == detected && final(blocks).blocks@.len()
                == old(blocks).blocks@.len() + 1 && final(blocks).blocks@.drop_last() == old(blocks).blocks@ && {
                let b = final(blocks).blocks@.last();
                &&& b.block_type == kind
                &&& b.title@ == title@
                &&& b.content@ == match content {
                    Some(c) => c@,
                    None => Seq::<char>::empty(),
                }
                &&& strings_view(b.tags@) == match tags {
                    Some(s) => tags_of(s@),
                    None => Seq::<Seq<char>>::empty(),
                }
                &&& b.metadata@.len() == 0
                &&& t@ == created_text(b)
            },
        },
{
    let detect = block_type.is_empty() || crate::text::str_eq(block_type, "permanent");
    proof {
        reveal_strlit("permanent");
    }
    let detected = if detect {
        detect_block_type(title, content)
    } else {
        None
    };
    let kind = match detected {
        Some(t) => t,
        None => match parse_block_type(block_type) {
            Ok(t) => t,
            Err(e) => {
                return Err(e);
            },
        },
    };
    let mut b = Block::new(kind, title);
    match content {
        Some(c) => {
            b = b.with_content(c.as_str());
        },
        None => {},
    }
    let ghost before_tags = b.tags@;
    match tags {
        Some(s) => {
            let list = parse_tags(s.as_str());
            let mut i: usize = 0;
            while i < list.len()
                invariant
                    i <= list@.len(),
                    strings_view(list@) == tags_of(s@),
                    strings_view(b.tags@) == strings_view(list@.subrange(0, i as int)),
                    b.block_type == kind,
                    b.title@ == title@,
                    b.content@ == match content {
                        Some(c) => c@,
                        None => Seq::<char>::empty(),
                    },
                    b.metadata@.len() == 0,
                decreases list@.len() - i,
            {
                let ghost prev = b.tags@;
                let tag = list[i].clone();
                assert(tag == list@[i as int]);
                b = b.with_tag(tag);
                assert(b.tags@ == prev.push(list@[i as int]));
                assert(strings_view(prev) == strings_view(list@.subrange(0, i as int)));
                i = i + 1;
                assert(strings_view(b.tags@) =~= strings_view(list@.subrange(0, i as int))) by {
                    assert(strings_view(prev).len() == i - 1);
                    assert forall|k: int| 0 <= k < i implies #[trigger] strings_view(b.tags@)[k] == strings_view(list@.subrange(0, i as int))[k] by {
                        if k < i - 1 {
                            assert(strings_view(prev)[k] == strings_view(list@.subrange(0, i - 1))[k]);
                        }
                    }
                }
            }
            assert(list@.subrange(0, list@.len() as int) =~= list@);
        },
        None => {
            assert(strings_view(b.tags@) =~= Seq::<Seq<char>>::empty());
        },
    }
    let mut t = owned("Created block: ");
    let id = encode_ulid(b.id);
    push_str(&mut t, id.as_str());
    push_str(&mut t, "\n   Type: ");
    push_str(&mut t, b.block_type.debug_name());
    push_str(&mut t, "\n   Title: ");
    push_str(&mut t, b.title.as_str());
    push_str(&mut t, "\n");
    if b.tags.len() > 0 {
        push_str(&mut t, "   Tags: ");
        let j = join_with(&b.tags, ", ");
        push_str(&mut t, j.as_str());
        push_str(&mut t, "\n");
    }
    push_str(&mut t, "   ULID: ");
    push_str(&mut t, id.as_str());
    push_str(&mut t, "\n");
    assert(t@ =~= created_text(b));
    let ghost stored = b;
    blocks.create(b);
    assert(blocks.blocks@.drop_last() =~= old(blocks).blocks@);
    Ok((detected, t))
}

// ---------------------------------------------------------------------------
// Promoting a block
// ---------------------------------------------------------------------------

/// The block `b` promoted to `target`: its kind changed; a ghost filled as
/// a permanent note is marked `filled` (a value that is not text) with the
/// time `filled_at` under `ghost_filled_at`.
pub open spec fn promoted(b: Block, target: BlockType, filled_at: Seq<char>, p: Block) -> bool {
    &&& p.id == b.id
    &&& p.block_type == target
    &&& p.title == b.title
    &&& p.content == b.content
    &&& p.tags@ == b.tags@
    &&& if b.block_type == BlockType::GhostNote && target == BlockType::Permanent {
        &&& meta_get(p.metadata@, "filled"@) == Some(None::<Seq<char>>)
        &&& meta_get(p.metadata@, "ghost_filled_at"@) == Some(Some(filled_at))
        &&& forall|k: Seq<char>| k != "filled"@ && k != "ghost_filled_at"@ ==> #[trigger] meta_get(p.metadata@, k)
            == meta_get(b.metadata@, k)
    } else {
        p.metadata@ == b.metadata@
    }
}

/// The lines printed after a promotion.
pub open spec fn promoted_text(id: Seq<char>, b: Block, target: BlockType, stage: bool) -> Seq<char> {
    "✅ Block promoted!\n\n   ID: "@ + ulid_encode(b.id) + "\n   Title: "@ + b.title@ + "\n   "@ + lowercase(
        block_type_debug_name(b.block_type),
    ) + " → "@ + block_type_debug_name(target) + "\n"@ + (if stage {
        "\n   📦 Block staged for commit\n"@
    } else {
        Seq::<char>::empty()
    }) + "\n💡 Run `nexus show "@ + id + "` to view the promoted block\n"@
}

/// The promoted copy of a block (see [`promoted`]).
fn promoted_copy(b: &Block, t: BlockType, filled_at: &str) -> (p: Block)
    ensures
        promoted(*b, t, filled_at@, p),
{
    let old_type = b.block_type;
    let ghost orig = *b;
    let mut p = b.copy_block();
    p.block_type = t;
    let fill = match (old_type, t) {
        (BlockType::GhostNote, BlockType::Permanent) => true,
        _ => false,
    };
    assert(fill == (orig.block_type == BlockType::GhostNote && t == BlockType::Permanent));
    assert(p.metadata@ == orig.metadata@);
    if fill {
        let ghost m0 = p.metadata@;
        p.set_metadata("filled", None);
        let ghost m1 = p.metadata@;
        proof {
            reveal_strlit("filled");
            reveal_strlit("ghost_filled_at");
            assert("filled"@ != "ghost_filled_at"@) by {
                assert("filled"@.len() != "ghost_filled_at"@.len());
            }
        }
        p.set_metadata("ghost_filled_at", Some(filled_at));
        assert(meta_get(p.metadata@, "filled"@) == meta_get(m1, "filled"@));
        assert(meta_get(p.metadata@, "filled"@) == Some(None::<Seq<char>>));
        assert(meta_get(p.metadata@, "ghost_filled_at"@) == Some(Some(filled_at@)));
        assert forall|k: Seq<char>| k != "filled"@ && k != "ghost_filled_at"@ implies #[trigger] meta_get(p.metadata@, k)
            == meta_get(orig.metadata@, k) by {
            assert(meta_get(p.metadata@, k) == meta_get(m1, k));
            assert(meta_get(m1, k) == meta_get(m0, k));
        }
    }
    p
}

/// The lines printed after a promotion (see [`promoted_text`]).
fn promotion_text(id: &str, b: &Block, t: BlockType, stage: bool) -> (text: String)
    ensures
        text@ == promoted_text(id@, *b, t, stage),
{
    let mut text = owned("✅ Block promoted!\n\n   ID: ");
    let ids = encode_ulid(b.id);
    push_str(&mut text, ids.as_str());
    push_str(&mut text, "\n   Title: ");
    push_str(&mut text, b.title.as_str());
    push_str(&mut text, "\n   ");
    let lower = to_lowercase(b.block_type.debug_name());
    push_str(&mut text, lower.as_str());
    push_str(&mut text, " → ");
    push_str(&mut text, t.debug_name());
    push_str(&mut text, "\n");
    if stage {
        push_str(&mut text, "\n   📦 Block staged for commit\n");
    }
    push_str(&mut text, "\n💡 Run `nexus show ");
    push_str(&mut text, id);
    push_str(&mut text, "` to view the promoted block\n");
    assert(text@ =~= promoted_text(id@, *b, t, stage));
    text
}

/// Promotes the block that `id` names to the kind `target` names, when the
/// hierarchy allows it (see [`promotion_allowed`]): every stored block with
/// that identifier becomes the promoted first one (see [`promoted`]).
/// Refused, with nothing changed: an `id` that is no ULID or names no block
/// (block not found), an unknown kind, a transition the hierarchy forbids.
pub fn promote_block(
    blocks: &mut BlockStore,
    id: &str,
    target: &str,
    stage: bool,
    filled_at: &str,
) -> (r: Result<String, String>)
    ensures
        match ulid_decode(id@) {
            None => r matches Err(m) && m@ == "Block not found: "@ + id@ && final(blocks).blocks@ == old(blocks).blocks@,
            Some(v) => match block_type_of_name(lowercase(target@)) {
                None => r matches Err(m) && m@ == "Invalid block type: "@ + target@ && final(blocks).blocks@
                    == old(blocks).blocks@,
                Some(t) => match first_block_with(old(blocks).blocks@, v) {
                    None => r matches Err(m) && m@ == "Block not found: "@ + id@ && final(blocks).blocks@
                        == old(blocks).blocks@,
                    Some(bi) => {
                        let b = old(blocks).blocks@[bi];
                        if !promotion_allowed(b.block_type, t) {
                            r matches Err(m) && m@ == promotion_error_message(promotion_error(b.block_type, t))
                                && final(blocks).blocks@ == old(blocks).blocks@
                        } else {
                            &&& r matches Ok(s) && s@ == promoted_text(id@, b, t, stage)
                            &&& final(blocks).blocks@.len() == old(blocks).blocks@.len()
                            &&& forall|k: int|
                                0 <= k < old(blocks).blocks@.len() ==> if old(blocks).blocks@[k].id == v {
                                    promoted(b, t, filled_at@, #[trigger] final(blocks).blocks@[k])
                                } else {
                                    final(blocks).blocks@[k] == old(blocks).blocks@[k]
                                }
                        }
                    },
                },
            },
        },
{
    let v = match decode_ulid(id) {
        Some(v) => v,
        None => {
            return Err(concat("Block not found: ", id));
        },
    };
    let t = match parse_block_type(target) {
        Ok(t) => t,
        Err(e) => {
            return Err(e.message());
        },
    };
    let bi = match blocks.position_of(v) {
        Some(bi) => bi,
        None => {
            return Err(concat("Block not found: ", id));
        },
    };
    let old_type = blocks.blocks[bi].block_type;
    match validate_transition(&old_type, &t) {
        Ok(()) => {},
        Err(e) => {
            return Err(e.message());
        },
    }
    let ghost orig = blocks.blocks@[bi as int];
    let p = promoted_copy(&blocks.blocks[bi], t, filled_at);
    let text = promotion_text(id, &blocks.blocks[bi], t, stage);
    let ghost before = blocks.blocks@;
    let ghost pv = p;
    blocks.update(p);
    proof {
        assert forall|k: int| 0 <= k < before.len() implies if before[k].id == v {
            promoted(orig, t, filled_at@, #[trigger] blocks.blocks@[k])
        } else {
            blocks.blocks@[k] == before[k]
        } by {
            if before[k].id == v {
                assert(same_block(blocks.blocks@[k], pv));
                assert(pv.id == v);
            }
        }
    }
    Ok(text)
}

// ---------------------------------------------------------------------------
// Linking two blocks
// ---------------------------------------------------------------------------

/// The lines printed for a created link.
pub open spec fn linked_text(from: Seq<char>, to: Seq<char>, e: Edge) -> Seq<char> {
    "Created edge: "@ + from + " -> "@ + to + " ("@ + link_type_debug_name(e.link_type) + ")\n   ULID: "@
        + ulid_encode(e.id) + "\n   Weight: "@ + key_text(e.sequence_weight.key()) + "\n"@ + match e.context {
        Some(c) => "   Context: "@ + c@ + "\n"@,
        None => Seq::<char>::empty(),
    }
}

/// Creates and stores a link from the block `from` names to the block `to`
/// names, of the kind `link_type` names, at the position `steps` places
/// after the first one, with the context when given; returns the lines to
/// print. Refused, with nothing stored: an endpoint that is no ULID (block
/// not found) or an unknown kind.
pub fn link_blocks(
    edges: &mut EdgeStore,
    from: &str,
    to: &str,
    link_type: &str,
    steps: usize,
    context: &Option<String>,
) -> (r: Result<String, String>)
    ensures
        match (ulid_decode(from@), ulid_decode(to@)) {
            (None, _) => r matches Err(m) && m@ == "Block not found: "@ + from@ && final(edges).edges@ == old(edges).edges@,
            (Some(_), None) => r matches Err(m) && m@ == "Block not found: "@ + to@ && final(edges).edges@
                == old(edges).edges@,
            (Some(a), Some(b)) => match link_type_of_alias(hyphens_to_underscores(lowercase(link_type@))) {
                None => r matches Err(m) && m@ == "Invalid edge type: "@ + link_type@ && final(edges).edges@
                    == old(edges).edges@,
                Some(lt) => {
                    &&& final(edges).edges@.len() == old(edges).edges@.len() + 1
                    &&& final(edges).edges@.drop_last() == old(edges).edges@
                    &&& {
                        let e = final(edges).edges@.last();
                        &&& e.from == a
                        &&& e.to == b
                        &&& e.link_type == lt
                        &&& e.sequence_weight.wf()
                        &&& e.sequence_weight.key() == crate::block::key_after_steps(steps as nat)
                        &&& e.context == *context
                        &&& r matches Ok(s) && s@ == linked_text(from@, to@, e)
                    }
                },
            },
        },
{
    let a = match decode_ulid(from) {
        Some(a) => a,
        None => {
            return Err(concat("Block not found: ", from));
        },
    };
    let b = match decode_ulid(to) {
        Some(b) => b,
        None => {
            return Err(concat("Block not found: ", to));
        },
    };
    let lt = match parse_link_type(link_type) {
        Ok(lt) => lt,
        Err(e) => {
            return Err(e.message());
        },
    };
    let w = position_after_steps(steps);
    let mut e = Edge::new(a, b, lt).with_weight(w);
    e.context = match context {
        Some(c) => Some(c.clone()),
        None => None,
    };
    let mut text = owned("Created edge: ");
    push_str(&mut text, from);
    push_str(&mut text, " -> ");
    push_str(&mut text, to);
    push_str(&mut text, " (");
    push_str(&mut text, e.link_type.debug_name());
    push_str(&mut text, ")\n   ULID: ");
    let ids = encode_ulid(e.id);
    push_str(&mut text, ids.as_str());
    push_str(&mut text, "\n   Weight: ");
    let ws = e.sequence_weight.to_string();
    push_str(&mut text, ws.as_str());
    push_str(&mut text, "\n");
    match &e.context {
        Some(c) => {
            push_str(&mut text, "   Context: ");
            push_str(&mut text, c.as_str());
            push_str(&mut text, "\n");
        },
        None => {},
    }
    assert(text@ =~= linked_text(from@, to@, e));
    edges.create(e);
    assert(edges.edges@.drop_last() =~= old(edges).edges@);
    Ok(text)
}

// ---------------------------------------------------------------------------
// Listing blocks
// ---------------------------------------------------------------------------

/// Whether a block carries one of the tag names.
pub open spec fn carries_any(b: Block, names: Seq<Seq<char>>) -> bool {
    exists|i: int, j: int| 0 <= i < b.tags@.len() && 0 <= j < names.len() && (#[trigger] b.tags@[i])@ == #[trigger] names[j]
}

/// The blocks a listing starts from, the last stored first: of the kind
/// named (all kinds when none is named); when tags are named, instead every
/// block carrying one of them. `None` when the kind name is unknown.
pub open spec fn tagged_selection(bs: Seq<Block>, kind: Option<Seq<char>>, tags: Option<Seq<char>>) -> Option<Seq<Block>> {
    let base = match kind {
        Some(n) => match block_type_of_name(lowercase(n)) {
            Some(t) => Some(newest_blocks_where(bs, |b: Block| b.block_type == t)),
            None => None,
        },
        None => Some(newest_blocks_where(bs, |b: Block| true)),
    };
    match base {
        None => None,
        Some(base) => Some(
            match tags {
                Some(ts) => if tags_of(ts).len() == 0 {
                    base
                } else {
                    newest_blocks_where(bs, |b: Block| carries_any(b, tags_of(ts)))
                },
                None => base,
            },
        ),
    }
}

/// Whether a block's title matches a search (see [`fuzzy_matches`]).
pub open spec fn title_matches(q: Seq<char>, b: Block) -> bool {
    fuzzy_matches(lowercase(q), lowercase(b.title@))
}

/// The blocks a listing shows: those of [`tagged_selection`] and, for a
/// non-empty search, only those whose title matches it, in the same order.
pub open spec fn list_selection(
    bs: Seq<Block>,
    kind: Option<Seq<char>>,
    tags: Option<Seq<char>>,
    search: Option<Seq<char>>,
) -> Option<Seq<Block>> {
    match tagged_selection(bs, kind, tags) {
        None => None,
        Some(tagged) => Some(
            match search {
                Some(q) => if q.len() == 0 {
                    tagged
                } else {
                    tagged.filter(|b: Block| title_matches(q, b))
                },
                None => tagged,
            },
        ),
    }
}

proof fn lemma_same_blocks_filter(a: Seq<Block>, b: Seq<Block>, q: Seq<char>)
    requires
        same_blocks(a, b),
    ensures
        same_blocks(a.filter(|x: Block| title_matches(q, x)), b.filter(|x: Block| title_matches(q, x))),
    decreases a.len(),
{
    reveal(Seq::filter);
    if a.len() > 0 {
        assert(same_block(a.last(), b.last()));
        assert(same_blocks(a.drop_last(), b.drop_last())) by {
            assert forall|k: int| 0 <= k < a.drop_last().len() implies same_block(#[trigger] a.drop_last()[k], b.drop_last()[k]) by {
                assert(same_block(a[k], b[k]));
            }
        }
        lemma_same_blocks_filter(a.drop_last(), b.drop_last(), q);
        let fa = a.drop_last().filter(|x: Block| title_matches(q, x));
        let fb = b.drop_last().filter(|x: Block| title_matches(q, x));
        if title_matches(q, a.last()) {
            assert forall|k: int| 0 <= k < fa.push(a.last()).len() implies same_block(#[trigger] fa.push(a.last())[k], fb.push(b.last())[k]) by {
                if k < fa.len() {
                    assert(same_block(fa[k], fb[k]));
                }
            }
        }
    }
}

/// The blocks a listing shows (see [`list_selection`]); an unknown kind
/// name is refused.
pub fn select_blocks(
    blocks: &BlockStore,
    block_type: &Option<String>,
    tags: &Option<String>,
    search: &Option<String>,
) -> (r: Result<Vec<Block>, NexusError>)
    ensures
        match list_selection(
            blocks.blocks@,
            match block_type { Some(s) => Some(s@), None => None },
            match tags { Some(s) => Some(s@), None => None },
            match search { Some(s) => Some(s@), None => None },
        ) {
            None => r matches Err(e) && e matches NexusError::InvalidBlockType(m) && block_type matches Some(n) && m@
                == n@,
            Some(sel) => r matches Ok(out) && same_blocks(out@, sel),
        },
{
    let ghost bs = blocks.blocks@;
    let ghost kind_v = match block_type { Some(s) => Some(s@), None => None::<Seq<char>> };
    let ghost tags_v = match tags { Some(s) => Some(s@), None => None::<Seq<char>> };
    let tagged = select_tagged(blocks, block_type, tags)?;
    let ghost tv = tagged@;
    let ghost sel = tagged_selection(bs, kind_v, tags_v)->0;
    match search {
        Some(q) => {
            if q.as_str().is_empty() {
                return Ok(tagged);
            }
            let mut out: Vec<Block> = Vec::new();
            let mut i: usize = 0;
            while i < tagged.len()
                invariant
                    i <= tagged@.len(),
                    tagged@ == tv,
                    same_blocks(out@, tv.subrange(0, i as int).filter(|b: Block| title_matches(q@, b))),
                decreases tagged@.len() - i,
            {
                proof {
                    reveal(Seq::filter);
                    assert(tv.subrange(0, i + 1).drop_last() =~= tv.subrange(0, i as int));
                }
                let ghost prev = out@;
                if fuzzy_match(q.as_str(), tagged[i].title.as_str()) {
                    out.push(tagged[i].copy_block());
                    proof {
                        let f = tv.subrange(0, i as int).filter(|b: Block| title_matches(q@, b));
                        assert forall|k: int| 0 <= k < out@.len() implies same_block(#[trigger] out@[k], f.push(tv[i as int])[k]) by {
                            if k < prev.len() {
                                assert(same_block(prev[k], f[k]));
                            }
                        }
                    }
                }
                i = i + 1;
            }
            assert(tv.subrange(0, tv.len() as int) =~= tv);
            proof {
                lemma_same_blocks_filter(tv, sel, q@);
                lemma_same_blocks_transitive(out@, tv.filter(|b: Block| title_matches(q@, b)), sel.filter(|b: Block| title_matches(q@, b)));
            }
            Ok(out)
        },
        None => Ok(tagged),
    }
}

proof fn lemma_same_blocks_transitive(a: Seq<Block>, b: Seq<Block>, c: Seq<Block>)
    requires
        same_blocks(a, b),
        same_blocks(b, c),
    ensures
        same_blocks(a, c),
{
    assert forall|k: int| 0 <= k < a.len() implies same_block(#[trigger] a[k], c[k]) by {
        assert(same_block(a[k], b[k]));
        assert(same_block(b[k], c[k]));
    }
}

/// The blocks a listing starts from (see [`tagged_selection`]).
fn select_tagged(blocks: &BlockStore, block_type: &Option<String>, tags: &Option<String>) -> (r: Result<Vec<Block>, NexusError>)
    ensures
        match tagged_selection(
            blocks.blocks@,
            match block_type { Some(s) => Some(s@), None => None },
            match tags { Some(s) => Some(s@), None => None },
        ) {
            None => r matches Err(e) && e matches NexusError::InvalidBlockType(m) && block_type matches Some(n) && m@
                == n@,
            Some(sel) => r matches Ok(out) && same_blocks(out@, sel),
        },
{
    let base = match block_type {
        Some(n) => match parse_block_type(n.as_str()) {
            Ok(t) => blocks.list_by_type(t),
            Err(e) => {
                return Err(e);
            },
        },
        None => blocks.list_all(),
    };
    match tags {
        Some(ts) => {
            let list = parse_tags(ts.as_str());
            if list.len() == 0 {
                assert(tags_of(ts@).len() == 0) by {
                    assert(list.deep_view().len() == list@.len());
                }
                Ok(base)
            } else {
                let found = blocks.search_by_tags(list.as_slice());
                proof {
                    let names = tags_of(ts@);
                    assert(list.deep_view() == names);
                    assert forall|b: Block| #[trigger] crate::store::has_any_tag(b, list@) == carries_any(b, names) by {
                        if crate::store::has_any_tag(b, list@) {
                            let (i, j) = choose|i: int, j: int| 0 <= i < b.tags@.len() && 0 <= j < list@.len() && (#[trigger] b.tags@[i])@ == (#[trigger] list@[j])@;
                            assert(names[j] == list.deep_view()[j]);
                        }
                        if carries_any(b, names) {
                            let (i, j) = choose|i: int, j: int| 0 <= i < b.tags@.len() && 0 <= j < names.len() && (#[trigger] b.tags@[i])@ == #[trigger] names[j];
                            assert(names[j] == list.deep_view()[j]);
                            assert(list.deep_view()[j] == list@[j]@);
                        }
                    }
                    assert((|b: Block| crate::store::has_any_tag(b, list@)) =~= (|b: Block| carries_any(b, names)));
                }
                Ok(found)
            }
        },
        None => Ok(base),
    }
}

/// `s` padded with spaces on the right to `w` characters (`{:<w}`).
pub open spec fn pad_right(s: Seq<char>, w: nat) -> Seq<char> {
    if s.len() < w {
        s + repeat_seq(" "@, (w - s.len()) as nat)
    } else {
        s
    }
}

/// `s` padded with spaces on the right to `w` characters.
pub fn pad_to(s: &str, w: usize) -> (out: String)
    ensures
        out@ == pad_right(s@, w as nat),
{
    let cs = crate::text::chars_of(s);
    let mut out = owned(s);
    if cs.len() < w {
        let n = w - cs.len();
        let fill = if n <= 4294967295usize {
            repeat_str(" ", n as u32)
        } else {
            repeat_spaces(n)
        };
        push_str(&mut out, fill.as_str());
    }
    out
}

fn repeat_spaces(n: usize) -> (out: String)
    ensures
        out@ == repeat_seq(" "@, n as nat),
{
    let mut out = String::new();
    let mut i: usize = 0;
    while i < n
        invariant
            i <= n,
            out@ == repeat_seq(" "@, i as nat),
        decreases n - i,
    {
        push_str(&mut out, " ");
        i = i + 1;
    }
    out
}

/// The rule of the block table.
pub open spec fn table_rule() -> Seq<char> {
    "────────────────────────────────────────────────────────────"@
}

/// The row of one block in the table: its identifier (22 characters at
/// most), its kind with marker in lowercase, and its title (30 characters
/// at most).
pub open spec fn table_row(b: Block) -> Seq<char> {
    "  "@ + pad_right(crate::toc::prefix_of(ulid_encode(b.id), 22), 22) + " "@ + pad_right(
        lowercase(block_type_list_emoji(b.block_type) + " "@ + block_type_debug_name(b.block_type)),
        12,
    ) + " "@ + crate::toc::prefix_of(b.title@, 30) + "\n"@
}

/// The rows of the blocks, in order.
pub open spec fn table_rows(bs: Seq<Block>) -> Seq<char>
    decreases bs.len(),
{
    if bs.len() == 0 {
        Seq::<char>::empty()
    } else {
        table_rows(bs.drop_last()) + table_row(bs.last())
    }
}

/// The block table of a listing: a notice when there is no block,
/// otherwise the count, the header, the rows of the first `limit` blocks
/// and how many of them are shown.
pub open spec fn table_text(bs: Seq<Block>, limit: nat) -> Seq<char> {
    if bs.len() == 0 {
        "\n  ℹ️  No blocks found\n     Create your first block with: pkmai create --title \"Your Note\"\n\n"@
    } else {
        let shown = if limit < bs.len() { limit } else { bs.len() };
        "\n  📋 Found "@ + crate::size::decimal_digits(bs.len()) + " block(s)\n  "@ + table_rule() + "\n  "@ + pad_right(
            "ULID"@,
            22,
        ) + " "@ + pad_right("TYPE"@, 12) + " TITLE\n  "@ + table_rule() + "\n"@ + table_rows(bs.take(shown as int))
            + "  "@ + table_rule() + "\n  Showing "@ + crate::size::decimal_digits(shown) + " of "@
            + crate::size::decimal_digits(bs.len()) + " blocks\n\n"@
    }
}

fn push_table_row(out: &mut String, b: &Block)
    ensures
        final(out)@ == old(out)@ + table_row(*b),
{
    push_str(out, "  ");
    let id = encode_ulid(b.id);
    let short = first_chars(id.as_str(), 22);
    let cell = pad_to(short.as_str(), 22);
    push_str(out, cell.as_str());
    push_str(out, " ");
    let kind = concat(b.block_type.list_emoji(), " ");
    let kind = concat(kind.as_str(), b.block_type.debug_name());
    let kind = to_lowercase(kind.as_str());
    let cell = pad_to(kind.as_str(), 12);
    push_str(out, cell.as_str());
    push_str(out, " ");
    let title = first_chars(b.title.as_str(), 30);
    push_str(out, title.as_str());
    push_str(out, "\n");
    assert(out@ =~= old(out)@ + table_row(*b));
}

/// The block table of a listing (see [`table_text`]).
pub fn list_table(blocks: &[Block], limit: usize) -> (t: String)
    ensures
        t@ == table_text(blocks@, limit as nat),
{
    if blocks.len() == 0 {
        return owned("\n  ℹ️  No blocks found\n     Create your first block with: pkmai create --title \"Your Note\"\n\n");
    }
    let n = blocks.len();
    let shown = if limit < n {
        limit
    } else {
        n
    };
    let mut t = owned("\n  📋 Found ");
    let d = crate::size::decimal_string(n as u128);
    push_str(&mut t, d.as_str());
    push_str(&mut t, " block(s)\n  ");
    push_str(&mut t, "────────────────────────────────────────────────────────────");
    push_str(&mut t, "\n  ");
    let h = pad_to("ULID", 22);
    push_str(&mut t, h.as_str());
    push_str(&mut t, " ");
    let h = pad_to("TYPE", 12);
    push_str(&mut t, h.as_str());
    push_str(&mut t, " TITLE\n  ");
    push_str(&mut t, "────────────────────────────────────────────────────────────");
    push_str(&mut t, "\n");
    let ghost head = t@;
    let mut i: usize = 0;
    while i < shown
        invariant
            i <= shown,
            shown <= blocks@.len(),
            t@ == head + table_rows(blocks@.take(i as int)),
        decreases shown - i,
    {
        assert(blocks@.take(i + 1).drop_last() =~= blocks@.take(i as int));
        push_table_row(&mut t, &blocks[i]);
        i = i + 1;
    }
    push_str(&mut t, "  ");
    push_str(&mut t, "────────────────────────────────────────────────────────────");
    push_str(&mut t, "\n  Showing ");
    let d = crate::size::decimal_string(shown as u128);
    push_str(&mut t, d.as_str());
    push_str(&mut t, " of ");
    let d = crate::size::decimal_string(n as u128);
    push_str(&mut t, d.as_str());
    push_str(&mut t, " blocks\n\n");
    assert(t@ =~= table_text(blocks@, limit as nat));
    t
}

/// The plain listing: one line per block with its identifier, kind and
/// title.
pub open spec fn simple_text(bs: Seq<Block>) -> Seq<char>
    decreases bs.len(),
{
    if bs.len() == 0 {
        Seq::<char>::empty()
    } else {
        simple_text(bs.drop_last()) + ulid_encode(bs.last().id) + " | "@ + block_type_debug_name(bs.last().block_type)
            + " | "@ + bs.last().title@ + "\n"@
    }
}

/// The plain listing (see [`simple_text`]).
pub fn list_simple(blocks: &[Block]) -> (t: String)
    ensures
        t@ == simple_text(blocks@),
{
    let mut t = String::new();
    let mut i: usize = 0;
    while i < blocks.len()
        invariant
            i <= blocks@.len(),
            t@ == simple_text(blocks@.take(i as int)),
        decreases blocks@.len() - i,
    {
        assert(blocks@.take(i + 1).drop_last() =~= blocks@.take(i as int));
        let id = encode_ulid(blocks[i].id);
        push_str(&mut t, id.as_str());
        push_str(&mut t, " | ");
        push_str(&mut t, blocks[i].block_type.debug_name());
        push_str(&mut t, " | ");
        push_str(&mut t, blocks[i].title.as_str());
        push_str(&mut t, "\n");
        i = i + 1;
    }
    assert(blocks@.take(blocks@.len() as int) =~= blocks@);
    t
}

/// The blocks whose title matches a search, the last stored first (see
/// [`title_matches`]).
pub fn search_candidates(blocks: &BlockStore, query: &str) -> (out: Vec<Block>)
    ensures
        same_blocks(out@, newest_blocks_where(blocks.blocks@, |b: Block| true).filter(|b: Block| title_matches(query@, b))),
{
    let all = blocks.list_all();
    let ghost av = all@;
    let mut out: Vec<Block> = Vec::new();
    let mut i: usize = 0;
    while i < all.len()
        invariant
            i <= all@.len(),
            all@ == av,
            same_blocks(out@, av.subrange(0, i as int).filter(|b: Block| title_matches(query@, b))),
        decreases all@.len() - i,
    {
        proof {
            reveal(Seq::filter);
            assert(av.subrange(0, i + 1).drop_last() =~= av.subrange(0, i as int));
        }
        let ghost prev = out@;
        if fuzzy_match(query, all[i].title.as_str()) {
            out.push(all[i].copy_block());
            proof {
                let f = av.subrange(0, i as int).filter(|b: Block| title_matches(query@, b));
                assert forall|k: int| 0 <= k < out@.len() implies same_block(#[trigger] out@[k], f.push(av[i as int])[k]) by {
                    if k < prev.len() {
                        assert(same_block(prev[k], f[k]));
                    }
                }
            }
        }
        i = i + 1;
    }
    assert(av.subrange(0, av.len() as int) =~= av);
    proof {
        lemma_same_blocks_filter(av, newest_blocks_where(blocks.blocks@, |b: Block| true), query@);
        lemma_same_blocks_transitive(
            out@,
            av.filter(|b: Block| title_matches(query@, b)),
            newest_blocks_where(blocks.blocks@, |b: Block| true).filter(|b: Block| title_matches(query@, b)),
        );
    }
    out
}

} // verus!
