//! Walking the structural spine of a store: tables of contents below a
//! structure block, and traversals along next links.
//!
//! Links are followed in the order of their positions (see
//! [`spine_positions`]); a link whose target is not stored is passed over.
//! Only structure blocks are expanded below the top level. Each walk
//! carries a budget of levels: a table of contents, and a traversal without
//! a depth limit, get as many levels as there are blocks, which a walk
//! without a cycle of structures never needs; a traversal with a depth limit
//! gets exactly that many.

use vstd::prelude::*;
use crate::block::{same_block, Block, Edge, FractionalIndex};
use crate::ids::{block_ref_value, encode_ulid, parse_ulid, ulid_encode};
use crate::model::{block_type_debug_name, BlockType, LinkType};
use crate::store::{
    first_block_with, newest_blocks_where, same_blocks, spine_link_from, spine_positions,
    toc_link_from, BlockStore, EdgeStore,
};
use crate::text::{concat, owned, push_str, str_eq};
use crate::toc::{
    short_id, toc_report, toc_report_text, toc_size, toc_size_capped, traversal_report, traversal_report_text,
    traversal_size, traversal_size_capped, TocEntry, TraversalNode,
};

verus! {

/// The positions of the links among `idx` whose target block is stored.
pub open spec fn resolved(bs: Seq<Block>, es: Seq<Edge>, idx: Seq<usize>) -> Seq<usize> {
    idx.filter(|i: usize| first_block_with(bs, es[i as int].to) is Some)
}

/// The stored block a link points to.
pub open spec fn target_index(bs: Seq<Block>, es: Seq<Edge>, i: usize) -> int {
    first_block_with(bs, es[i as int].to).unwrap()
}

/// The level budget of a walk over `n` blocks.
pub open spec fn level_budget(n: nat) -> nat {
    if n < 4294967295 {
        n
    } else {
        4294967294
    }
}

/// `e` is the entry of block `bs[bi]`, placed at position key `wk` and
/// depth `depth`: its identifier, title and kind are the block's; when it is
/// expanded and levels remain, its children are the entries of the blocks
/// its table-of-contents links point to, in link order, one level deeper
/// and expanded when they are structures.
#[verifier::opaque]
pub open spec fn toc_entry_built(
    e: TocEntry,
    bs: Seq<Block>,
    es: Seq<Edge>,
    bi: int,
    wk: Seq<u8>,
    depth: nat,
    levels: nat,
    expand: bool,
) -> bool
    decreases levels, 0nat,
{
    let links = resolved(bs, es, spine_positions(es, |x: Edge| toc_link_from(bs[bi].id, x)));
    &&& e.id@ == ulid_encode(bs[bi].id)
    &&& e.title@ == bs[bi].title@
    &&& e.block_type == bs[bi].block_type
    &&& e.depth == depth
    &&& e.weight.key() == wk
    &&& if expand && levels > 0 {
        &&& e.children@.len() == links.len()
        &&& forall|k: int|
            0 <= k < links.len() ==> toc_child_built(
                #[trigger] e.children@[k],
                bs,
                es,
                links[k],
                depth + 1,
                (levels - 1) as nat,
            )
    } else {
        e.children@.len() == 0
    }
}

/// `e` is the entry reached through link `es[li]`: that of the stored
/// target block at the link's position, expanded when it is a structure.
pub open spec fn toc_child_built(e: TocEntry, bs: Seq<Block>, es: Seq<Edge>, li: usize, depth: nat, levels: nat) -> bool
    decreases levels, 1nat,
{
    let ci = target_index(bs, es, li);
    toc_entry_built(
        e,
        bs,
        es,
        ci,
        es[li as int].sequence_weight.key(),
        depth,
        levels,
        bs[ci].block_type == BlockType::Structure,
    )
}

proof fn lemma_resolved_step(bs: Seq<Block>, es: Seq<Edge>, idx: Seq<usize>, k: int)
    requires
        0 <= k < idx.len(),
    ensures
        resolved(bs, es, idx.subrange(0, k + 1)) == resolved(bs, es, idx.subrange(0, k)) + if first_block_with(
            bs,
            es[idx[k] as int].to,
        ) is Some {
            seq![idx[k]]
        } else {
            Seq::<usize>::empty()
        },
{
    reveal(Seq::filter);
    assert(idx.subrange(0, k + 1).drop_last() =~= idx.subrange(0, k));
}

/// Builds the entry of block `blocks[bi]` (see [`toc_entry_built`]).
#[verifier::rlimit(40)]
fn build_entry(
    blocks: &BlockStore,
    edges: &EdgeStore,
    bi: usize,
    weight: FractionalIndex,
    depth: u32,
    levels: u32,
    expand: bool,
) -> (e: TocEntry)
    requires
        bi < blocks.blocks@.len(),
        depth + levels <= u32::MAX,
    ensures
        toc_entry_built(e, blocks.blocks@, edges.edges@, bi as int, weight.key(), depth as nat, levels as nat, expand),
    decreases levels,
{
    let ghost bs = blocks.blocks@;
    let ghost es = edges.edges@;
    let b = &blocks.blocks[bi];
    let mut children: Vec<TocEntry> = Vec::new();
    if expand && levels > 0 {
        let links = edges.toc_positions(b.id);
        let ghost all = links@;
        let mut k: usize = 0;
        while k < links.len()
            invariant
                k <= all.len(),
                links@ == all,
                bs == blocks.blocks@,
                es == edges.edges@,
                bi < bs.len(),
                levels > 0,
                depth + levels <= u32::MAX,
                all == spine_positions(es, |x: Edge| toc_link_from(bs[bi as int].id, x)),
                forall|q: int| 0 <= q < all.len() ==> (#[trigger] all[q]) < es.len(),
                children@.len() == resolved(bs, es, all.subrange(0, k as int)).len(),
                forall|q: int|
                    0 <= q < children@.len() ==> toc_child_built(
                        #[trigger] children@[q],
                        bs,
                        es,
                        resolved(bs, es, all.subrange(0, k as int))[q],
                        (depth + 1) as nat,
                        (levels - 1) as nat,
                    ),
            decreases all.len() - k,
        {
            proof {
                lemma_resolved_step(bs, es, all, k as int);
            }
            let li = links[k];
            let e = &edges.edges[li];
            match blocks.position_of(e.to) {
                Some(ci) => {
                    let is_structure = match blocks.blocks[ci].block_type {
                        BlockType::Structure => true,
                        _ => false,
                    };
                    let w = e.sequence_weight.copy_index();
                    assert(w.key() == es[li as int].sequence_weight.key());
                    assert(is_structure == (bs[ci as int].block_type == BlockType::Structure));
                    let child = build_entry(blocks, edges, ci, w, depth + 1, levels - 1, is_structure);
                    assert(target_index(bs, es, li) == ci as int);
                    assert(toc_entry_built(child, bs, es, ci as int, w.key(), (depth + 1) as nat, (levels - 1) as nat, is_structure));
                    assert(toc_entry_built(child, bs, es, target_index(bs, es, li), es[li as int].sequence_weight.key(), (depth + 1) as nat, (levels - 1) as nat, bs[target_index(bs, es, li)].block_type == BlockType::Structure));
                    assert(toc_child_built(child, bs, es, li, (depth + 1) as nat, (levels - 1) as nat)) by {
                        reveal_with_fuel(toc_entry_built, 1);
                    }
                    children.push(child);
                },
                None => {},
            }
            k = k + 1;
        }
        assert(all.subrange(0, all.len() as int) =~= all);
    }
    let e = TocEntry {
        id: encode_ulid(b.id),
        title: b.title.clone(),
        block_type: b.block_type,
        depth,
        weight,
        children,
    };
    assert(toc_entry_built(e, bs, es, bi as int, weight.key(), depth as nat, levels as nat, expand)) by {
        reveal_with_fuel(toc_entry_built, 1);
    }
    e
}

/// The table of contents of block `blocks[bi]`: its entry at depth 0 and
/// the first position, always expanded, with as many levels as there are
/// blocks (see [`level_budget`]).
pub fn build_toc(blocks: &BlockStore, edges: &EdgeStore, bi: usize) -> (e: TocEntry)
    requires
        bi < blocks.blocks@.len(),
    ensures
        toc_entry_built(
            e,
            blocks.blocks@,
            edges.edges@,
            bi as int,
            seq![97u8],
            0,
            level_budget(blocks.blocks@.len()),
            true,
        ),
{
    let n = blocks.blocks.len();
    let levels: u32 = if n < 4294967295usize {
        n as u32
    } else {
        4294967294u32
    };
    build_entry(blocks, edges, bi, FractionalIndex::first(), 0, levels, true)
}

// ---------------------------------------------------------------------------
// Traversals
// ---------------------------------------------------------------------------

/// `ns` are the nodes reached from block `parent` at depth `depth`: nothing
/// when the depth limit (0 for none) is reached or no level remains;
/// otherwise the blocks its spine links point to, in link order, each at
/// this depth with the link's position, and below each structure the nodes
/// reached from it one level deeper.
#[verifier::opaque]
pub open spec fn traversal_built(
    ns: Seq<TraversalNode>,
    bs: Seq<Block>,
    es: Seq<Edge>,
    parent: u128,
    depth: nat,
    max_depth: nat,
    levels: nat,
) -> bool
    decreases levels, 1nat,
{
    let links = resolved(bs, es, spine_positions(es, |x: Edge| spine_link_from(parent, x)));
    if (depth >= max_depth && max_depth > 0) || levels == 0 {
        ns.len() == 0
    } else {
        &&& ns.len() == links.len()
        &&& forall|k: int|
            0 <= k < links.len() ==> node_built(#[trigger] ns[k], bs, es, links[k], depth, max_depth, levels)
    }
}

/// `n` is the node reached through link `es[li]` at depth `depth`: the
/// stored target block with the link's position, and below a structure the
/// nodes reached from it one level deeper.
pub open spec fn node_built(
    n: TraversalNode,
    bs: Seq<Block>,
    es: Seq<Edge>,
    li: usize,
    depth: nat,
    max_depth: nat,
    levels: nat,
) -> bool
    decreases levels, 0nat,
{
    let child = bs[target_index(bs, es, li)];
    &&& same_block(n.block, child)
    &&& n.depth == depth
    &&& n.sequence_weight.key() == es[li as int].sequence_weight.key()
    &&& if child.block_type == BlockType::Structure && levels > 0 {
        traversal_built(n.children@, bs, es, child.id, depth + 1, max_depth, (levels - 1) as nat)
    } else {
        n.children@.len() == 0
    }
}

fn make_node(
    blocks: &BlockStore,
    edges: &EdgeStore,
    li: usize,
    ci: usize,
    depth: u32,
    max_depth: u32,
    levels: u32,
) -> (n: TraversalNode)
    requires
        li < edges.edges@.len(),
        ci < blocks.blocks@.len(),
        first_block_with(blocks.blocks@, edges.edges@[li as int].to) == Some(ci as int),
        levels > 0,
        depth + levels <= u32::MAX,
    ensures
        node_built(n, blocks.blocks@, edges.edges@, li, depth as nat, max_depth as nat, levels as nat),
    decreases levels, 0nat,
{
    let child = blocks.blocks[ci].copy_block();
    let children = match child.block_type {
        BlockType::Structure => traverse_from(blocks, edges, child.id, depth + 1, max_depth, levels - 1),
        _ => Vec::new(),
    };
    let n = TraversalNode { block: child, depth, children, sequence_weight: edges.edges[li].sequence_weight.copy_index() };
    assert(node_built(n, blocks.blocks@, edges.edges@, li, depth as nat, max_depth as nat, levels as nat)) by {
        reveal_with_fuel(traversal_built, 1);
    }
    n
}

#[verifier::rlimit(40)]
fn traverse_from(
    blocks: &BlockStore,
    edges: &EdgeStore,
    parent: u128,
    depth: u32,
    max_depth: u32,
    levels: u32,
) -> (ns: Vec<TraversalNode>)
    requires
        depth + levels <= u32::MAX,
    ensures
        traversal_built(ns@, blocks.blocks@, edges.edges@, parent, depth as nat, max_depth as nat, levels as nat),
    decreases levels, 1nat,
{
    let ghost bs = blocks.blocks@;
    let ghost es = edges.edges@;
    let mut ns: Vec<TraversalNode> = Vec::new();
    if (depth >= max_depth && max_depth > 0) || levels == 0 {
        assert(traversal_built(ns@, bs, es, parent, depth as nat, max_depth as nat, levels as nat)) by {
            reveal_with_fuel(traversal_built, 1);
        }
        return ns;
    }
    let links = edges.spine_positions_from(parent);
    let ghost all = links@;
    let mut k: usize = 0;
    while k < links.len()
        invariant
            k <= all.len(),
            links@ == all,
            bs == blocks.blocks@,
            es == edges.edges@,
            levels > 0,
            depth + levels <= u32::MAX,
            all == spine_positions(es, |x: Edge| spine_link_from(parent, x)),
            forall|q: int| 0 <= q < all.len() ==> (#[trigger] all[q]) < es.len(),
            ns@.len() == resolved(bs, es, all.subrange(0, k as int)).len(),
            forall|q: int|
                0 <= q < ns@.len() ==> node_built(
                    #[trigger] ns@[q],
                    bs,
                    es,
                    resolved(bs, es, all.subrange(0, k as int))[q],
                    depth as nat,
                    max_depth as nat,
                    levels as nat,
                ),
        decreases all.len() - k,
    {
        proof {
            lemma_resolved_step(bs, es, all, k as int);
        }
        let li = links[k];
        match blocks.position_of(edges.edges[li].to) {
            Some(ci) => {
                let node = make_node(blocks, edges, li, ci, depth, max_depth, levels);
                ns.push(node);
            },
            None => {},
        }
        k = k + 1;
    }
    assert(all.subrange(0, all.len() as int) =~= all);
    assert(traversal_built(ns@, bs, es, parent, depth as nat, max_depth as nat, levels as nat)) by {
        reveal_with_fuel(traversal_built, 1);
    }
    ns
}

/// The level budget of a traversal: the depth limit when there is one,
/// otherwise as many levels as there are blocks.
pub open spec fn traversal_budget(n: nat, max_depth: nat) -> nat {
    if max_depth > 0 {
        max_depth
    } else {
        level_budget(n)
    }
}

/// The nodes reached from block `start` along the spine, starting at depth
/// 0 (see [`traversal_built`]); `max_depth` 0 means no limit.
pub fn traverse_from_block(blocks: &BlockStore, edges: &EdgeStore, start: u128, max_depth: u32) -> (ns: Vec<TraversalNode>)
    ensures
        traversal_built(
            ns@,
            blocks.blocks@,
            edges.edges@,
            start,
            0,
            max_depth as nat,
            traversal_budget(blocks.blocks@.len(), max_depth as nat),
        ),
{
    let n = blocks.blocks.len();
    let levels: u32 = if max_depth > 0 {
        max_depth
    } else if n < 4294967295usize {
        n as u32
    } else {
        4294967294u32
    };
    traverse_from(blocks, edges, start, 0, max_depth, levels)
}

// ---------------------------------------------------------------------------
// Commands
// ---------------------------------------------------------------------------

/// What the table-of-contents command answers for the reference `id`: the
/// report of the structure block it names (see [`toc_report_text`]), or why
/// there is none: the reference is no ULID, no block has it, or the block
/// is no structure. A table of contents with more entries than `u32::MAX`
/// is refused as too large to display.
pub open spec fn toc_answer(bs: Seq<Block>, es: Seq<Edge>, id: Seq<char>, r: Result<String, String>) -> bool {
    match block_ref_value(id) {
        None => r matches Err(m) && m@ == "Invalid ULID format: "@ + id,
        Some(v) => match first_block_with(bs, v) {
            None => r matches Err(m) && m@ == "Structure block not found: "@ + id,
            Some(bi) => if bs[bi].block_type != BlockType::Structure {
                r matches Err(m) && m@ == "Block "@ + id + " is not a Structure block (type: "@ + block_type_debug_name(
                    bs[bi].block_type,
                ) + ")"@
            } else {
                exists|root: TocEntry|
                    toc_entry_built(root, bs, es, bi, seq![97u8], 0, level_budget(bs.len()), true) && match r {
                        Ok(t) => toc_size(root.children@) <= u32::MAX && t@ == toc_report_text(root, id),
                        Err(m) => toc_size(root.children@) > u32::MAX && m@ == "Table of contents too large to display"@,
                    }
            },
        },
    }
}

/// The table-of-contents command (see [`toc_answer`]).
pub fn toc_command(blocks: &BlockStore, edges: &EdgeStore, id: &str) -> (r: Result<String, String>)
    ensures
        toc_answer(blocks.blocks@, edges.edges@, id@, r),
{
    let v = match parse_ulid(id) {
        Ok(v) => v,
        Err(e) => {
            return Err(e.message());
        },
    };
    let bi = match blocks.position_of(v) {
        Some(bi) => bi,
        None => {
            return Err(concat("Structure block not found: ", id));
        },
    };
    let kind = blocks.blocks[bi].block_type;
    match kind {
        BlockType::Structure => {},
        _ => {
            let mut m = concat("Block ", id);
            push_str(&mut m, " is not a Structure block (type: ");
            push_str(&mut m, kind.debug_name());
            push_str(&mut m, ")");
            return Err(m);
        },
    }
    let root = build_toc(blocks, edges, bi);
    let size = toc_size_capped(root.children.as_slice(), 4294967296u64);
    if size > 4294967295u64 {
        return Err(owned("Table of contents too large to display"));
    }
    Ok(toc_report(&root, id))
}

/// Whether a link of `es` leads into block `id` along the spine.
pub open spec fn has_spine_link_into(es: Seq<Edge>, id: u128) -> bool {
    exists|k: int|
        0 <= k < es.len() && es[k].to == id && (es[k].link_type == LinkType::Next || es[k].link_type
            == LinkType::NextSibling)
}

/// The candidates that no spine link leads into, in order.
pub open spec fn unlinked(cs: Seq<Block>, es: Seq<Edge>) -> Seq<Block> {
    cs.filter(|b: Block| !has_spine_link_into(es, b.id))
}

/// The lines of the `n`-th orphan (counting from 1).
pub open spec fn orphan_lines(n: nat, b: Block) -> Seq<char> {
    "  "@ + crate::size::decimal_digits(n) + ". ["@ + short_id(b.id) + "] "@ + b.title@ + "\n     Status: "@
        + block_type_debug_name(b.block_type) + "\n"@ + (if b.content@.len() == 0 {
        "     Content: empty ⚠️\n"@
    } else {
        Seq::<char>::empty()
    }) + "\n"@
}

/// The lines of the first orphans `os`, numbered from `start`.
pub open spec fn orphans_lines(os: Seq<Block>) -> Seq<char>
    decreases os.len(),
{
    if os.len() == 0 {
        Seq::<char>::empty()
    } else {
        orphans_lines(os.drop_last()) + orphan_lines(os.len(), os.last())
    }
}

/// The orphan report: the structure blocks then the permanent blocks (each
/// the last stored first) that no next link leads into, at most ten of
/// them, then a closing line.
pub open spec fn orphans_text(cs: Seq<Block>, es: Seq<Edge>) -> Seq<char> {
    let os = unlinked(cs, es);
    let shown = if os.len() <= 10 { os } else { os.take(10) };
    "\n⚠️  Orphan Blocks (no NEXT link):\n\n"@ + orphans_lines(shown) + if shown.len() == 0 {
        "   No orphan blocks found. All blocks are linked in the spine.\n"@
    } else {
        "💡 Run `nexus link --auto-locate` to fix automatically\n"@
    }
}

fn spine_link_into(edges: &EdgeStore, id: u128) -> (b: bool)
    ensures
        b == has_spine_link_into(edges.edges@, id),
{
    let mut k: usize = 0;
    while k < edges.edges.len()
        invariant
            k <= edges.edges@.len(),
            forall|q: int| 0 <= q < k ==> !(edges.edges@[q].to == id && (edges.edges@[q].link_type == LinkType::Next
                || edges.edges@[q].link_type == LinkType::NextSibling)),
        decreases edges.edges@.len() - k,
    {
        let e = &edges.edges[k];
        if e.to == id && e.link_type.is_sequence_link() {
            return true;
        }
        k = k + 1;
    }
    false
}

fn push_orphan(out: &mut String, n: usize, b: &Block)
    ensures
        final(out)@ == old(out)@ + orphan_lines(n as nat, *b),
{
    push_str(out, "  ");
    let d = crate::size::decimal_string(n as u128);
    push_str(out, d.as_str());
    push_str(out, ". [");
    let full = encode_ulid(b.id);
    let short = crate::text::first_chars(full.as_str(), 8);
    push_str(out, short.as_str());
    push_str(out, "] ");
    push_str(out, b.title.as_str());
    push_str(out, "\n     Status: ");
    push_str(out, b.block_type.debug_name());
    push_str(out, "\n");
    if b.content.as_str().is_empty() {
        push_str(out, "     Content: empty ⚠️\n");
    }
    push_str(out, "\n");
    assert(out@ =~= old(out)@ + orphan_lines(n as nat, *b));
}

/// The orphan report over the structure and permanent blocks (see
/// [`orphans_text`]).
pub fn orphans_report(blocks: &BlockStore, edges: &EdgeStore) -> (t: String)
    ensures
        exists|cs: Seq<Block>|
            same_blocks(
                cs,
                newest_blocks_where(blocks.blocks@, |b: Block| b.block_type == BlockType::Structure) + newest_blocks_where(
                    blocks.blocks@,
                    |b: Block| b.block_type == BlockType::Permanent,
                ),
            ) && t@ == orphans_text(cs, edges.edges@),
{
    let mut cs = blocks.list_by_type(BlockType::Structure);
    let mut more = blocks.list_by_type(BlockType::Permanent);
    let ghost a = cs@;
    let ghost b2 = more@;
    cs.append(&mut more);
    let ghost es = edges.edges@;
    let ghost all = cs@;
    proof {
        assert(all =~= a + b2);
    }
    let mut t = owned("\n⚠️  Orphan Blocks (no NEXT link):\n\n");
    let ghost head = t@;
    let mut count: usize = 0;
    let mut i: usize = 0;
    while i < cs.len()
        invariant
            i <= all.len(),
            cs@ == all,
            es == edges.edges@,
            count <= 10,
            count == if unlinked(all.subrange(0, i as int), es).len() <= 10 {
                unlinked(all.subrange(0, i as int), es).len()
            } else {
                10
            },
            t@ == head + orphans_lines(
                if unlinked(all.subrange(0, i as int), es).len() <= 10 {
                    unlinked(all.subrange(0, i as int), es)
                } else {
                    unlinked(all.subrange(0, i as int), es).take(10)
                },
            ),
        decreases all.len() - i,
    {
        let ghost pre = unlinked(all.subrange(0, i as int), es);
        proof {
            reveal(Seq::filter);
            assert(all.subrange(0, i + 1).drop_last() =~= all.subrange(0, i as int));
        }
        let ghost nxt = unlinked(all.subrange(0, i + 1), es);
        let linked = spine_link_into(edges, cs[i].id);
        if !linked && count < 10 {
            count = count + 1;
            push_orphan(&mut t, count, &cs[i]);
            proof {
                assert(nxt == pre.push(all[i as int]));
                assert(nxt.drop_last() =~= pre);
            }
        } else if !linked {
            proof {
                assert(nxt == pre.push(all[i as int]));
                assert(nxt.take(10) =~= pre.take(10));
                if pre.len() == 10 {
                    assert(pre.take(10) =~= pre);
                }
            }
        }
        i = i + 1;
    }
    assert(all.subrange(0, all.len() as int) =~= all);
    if count == 0 {
        push_str(&mut t, "   No orphan blocks found. All blocks are linked in the spine.\n");
    } else {
        push_str(&mut t, "💡 Run `nexus link --auto-locate` to fix automatically\n");
    }
    proof {
        lemma_same_blocks_append(a, newest_blocks_where(blocks.blocks@, |b: Block| b.block_type == BlockType::Structure), b2, newest_blocks_where(blocks.blocks@, |b: Block| b.block_type == BlockType::Permanent));
        assert(t@ =~= orphans_text(all, es));
    }
    t
}

proof fn lemma_same_blocks_append(a: Seq<Block>, x: Seq<Block>, b: Seq<Block>, y: Seq<Block>)
    requires
        same_blocks(a, x),
        same_blocks(b, y),
    ensures
        same_blocks(a + b, x + y),
{
    assert forall|k: int| 0 <= k < (a + b).len() implies same_block(#[trigger] (a + b)[k], (x + y)[k]) by {
        if k < a.len() {
            assert(same_block(a[k], x[k]));
        } else {
            assert(same_block(b[k - a.len()], y[k - a.len()]));
        }
    }
}

/// `ns` is the traversal from each of the `roots` in turn, concatenated.
pub open spec fn forest_built(
    ns: Seq<TraversalNode>,
    bs: Seq<Block>,
    es: Seq<Edge>,
    roots: Seq<Block>,
    max_depth: nat,
    levels: nat,
) -> bool
    decreases roots.len(),
{
    if roots.len() == 0 {
        ns.len() == 0
    } else {
        exists|cut: int|
            0 <= cut <= ns.len() && forest_built(ns.subrange(0, cut), bs, es, roots.drop_last(), max_depth, levels)
                && traversal_built(ns.subrange(cut, ns.len() as int), bs, es, roots.last().id, 0, max_depth, levels)
    }
}

/// The traversals from every structure block, the last stored first.
#[verifier::rlimit(40)]
fn traverse_from_roots(blocks: &BlockStore, edges: &EdgeStore, max_depth: u32) -> (ns: Vec<TraversalNode>)
    ensures
        exists|roots: Seq<Block>|
            same_blocks(roots, newest_blocks_where(blocks.blocks@, |b: Block| b.block_type == BlockType::Structure))
                && forest_built(
                ns@,
                blocks.blocks@,
                edges.edges@,
                roots,
                max_depth as nat,
                traversal_budget(blocks.blocks@.len(), max_depth as nat),
            ),
{
    let structures = blocks.list_by_type(BlockType::Structure);
    let ghost budget = traversal_budget(blocks.blocks@.len(), max_depth as nat);
    let mut ns: Vec<TraversalNode> = Vec::new();
    let mut k: usize = 0;
    while k < structures.len()
        invariant
            k <= structures@.len(),
            forest_built(ns@, blocks.blocks@, edges.edges@, structures@.subrange(0, k as int), max_depth as nat, budget),
            budget == traversal_budget(blocks.blocks@.len(), max_depth as nat),
        decreases structures@.len() - k,
    {
        let ghost before = ns@;
        let mut part = traverse_from_block(blocks, edges, structures[k].id, max_depth);
        let ghost part_view = part@;
        ns.append(&mut part);
        proof {
            let roots = structures@.subrange(0, k + 1);
            let cut = before.len() as int;
            assert(roots.drop_last() =~= structures@.subrange(0, k as int));
            assert(ns@.subrange(0, cut) =~= before);
            assert(ns@.subrange(cut, ns@.len() as int) =~= part_view);
            assert(roots.last() == structures@[k as int]);
            assert(0 <= cut <= ns@.len() && forest_built(ns@.subrange(0, cut), blocks.blocks@, edges.edges@, roots.drop_last(), max_depth as nat, budget)
                && traversal_built(ns@.subrange(cut, ns@.len() as int), blocks.blocks@, edges.edges@, roots.last().id, 0, max_depth as nat, budget));
        }
        k = k + 1;
    }
    assert(structures@.subrange(0, structures@.len() as int) =~= structures@);
    ns
}

/// What the traverse command shows for the nodes `ns`: the traversal
/// report (see [`traversal_report_text`]) and, when nodes were found and
/// `orphans` is asked for, the orphan report; a traversal with more nodes
/// than `u32::MAX` is refused as too large to display.
pub open spec fn traversal_answer(
    ns: Seq<TraversalNode>,
    bs: Seq<Block>,
    es: Seq<Edge>,
    orphans: bool,
    show_content: bool,
    r: Result<String, String>,
) -> bool {
    if traversal_size(ns) > u32::MAX {
        r matches Err(m) && m@ == "Traversal too large to display"@
    } else {
        r matches Ok(t) && if orphans && ns.len() > 0 {
            exists|cs: Seq<Block>|
                same_blocks(
                    cs,
                    newest_blocks_where(bs, |b: Block| b.block_type == BlockType::Structure) + newest_blocks_where(
                        bs,
                        |b: Block| b.block_type == BlockType::Permanent,
                    ),
                ) && t@ == traversal_report_text(ns, show_content) + orphans_text(cs, es)
        } else {
            t@ == traversal_report_text(ns, show_content)
        }
    }
}

/// What the traverse command answers: from the block a reference names
/// (an error when it is no ULID or names no block), or else from every
/// structure block, the last stored first; `max_depth` 0 means no limit.
pub open spec fn traverse_answer(
    bs: Seq<Block>,
    es: Seq<Edge>,
    from: Option<Seq<char>>,
    max_depth: nat,
    orphans: bool,
    show_content: bool,
    r: Result<String, String>,
) -> bool {
    let budget = traversal_budget(bs.len(), max_depth);
    match from {
        Some(s) => match block_ref_value(s) {
            None => r matches Err(m) && m@ == "Invalid ULID format: "@ + s,
            Some(v) => if first_block_with(bs, v) is None {
                r matches Err(m) && m@ == "Block not found: "@ + ulid_encode(v)
            } else {
                exists|ns: Seq<TraversalNode>|
                    traversal_built(ns, bs, es, v, 0, max_depth, budget) && traversal_answer(
                        ns,
                        bs,
                        es,
                        orphans,
                        show_content,
                        r,
                    )
            },
        },
        None => exists|roots: Seq<Block>, ns: Seq<TraversalNode>|
            same_blocks(roots, newest_blocks_where(bs, |b: Block| b.block_type == BlockType::Structure))
                && forest_built(ns, bs, es, roots, max_depth, budget) && traversal_answer(
                ns,
                bs,
                es,
                orphans,
                show_content,
                r,
            ),
    }
}

/// The answer for the nodes found (see [`traversal_answer`]).
fn answer_traversal(
    blocks: &BlockStore,
    edges: &EdgeStore,
    nodes: &Vec<TraversalNode>,
    orphans: bool,
    show_content: bool,
) -> (r: Result<String, String>)
    ensures
        traversal_answer(nodes@, blocks.blocks@, edges.edges@, orphans, show_content, r),
{
    let size = traversal_size_capped(nodes.as_slice(), 4294967296u64);
    if size > 4294967295u64 {
        return Err(owned("Traversal too large to display"));
    }
    let mut t = traversal_report(nodes.as_slice(), show_content);
    if orphans && nodes.len() > 0 {
        let o = orphans_report(blocks, edges);
        let ghost before = t@;
        push_str(&mut t, o.as_str());
        assert(t@ == before + o@);
    }
    Ok(t)
}

/// The traverse command (see [`traverse_answer`]); `link_type` `orphans`
/// adds the orphan report.
pub fn traverse_command(
    blocks: &BlockStore,
    edges: &EdgeStore,
    from: Option<&str>,
    max_depth: u32,
    link_type: Option<&str>,
    show_content: bool,
) -> (r: Result<String, String>)
    ensures
        traverse_answer(
            blocks.blocks@,
            edges.edges@,
            match from {
                Some(s) => Some(s@),
                None => None,
            },
            max_depth as nat,
            match link_type {
                Some(l) => l@ == "orphans"@,
                None => false,
            },
            show_content,
            r,
        ),
{
    let orphans = match link_type {
        Some(l) => str_eq(l, "orphans"),
        None => false,
    };
    match from {
        Some(s) => {
            let v = match parse_ulid(s) {
                Ok(v) => v,
                Err(e) => {
                    return Err(e.message());
                },
            };
            if blocks.position_of(v).is_none() {
                let id = encode_ulid(v);
                return Err(concat("Block not found: ", id.as_str()));
            }
            let nodes = traverse_from_block(blocks, edges, v, max_depth);
            answer_traversal(blocks, edges, &nodes, orphans, show_content)
        },
        None => {
            let nodes = traverse_from_roots(blocks, edges, max_depth);
            answer_traversal(blocks, edges, &nodes, orphans, show_content)
        },
    }
}

} // verus!
