//! Tables of contents and spine traversals as trees, and their statistics.

use vstd::prelude::*;
use crate::block::{Block, FractionalIndex};
use crate::ids::{encode_ulid, ulid_encode};
use crate::model::{block_type_debug_name, block_type_tree_marker, BlockType};
use crate::size::{decimal_digits, decimal_string};
use crate::text::{first_chars, lowercase, owned, push_str, str_eq, to_lowercase};

verus! {

/// An entry of a table of contents.
#[derive(Debug)]
pub struct TocEntry {
    pub id: String,
    pub title: String,
    pub block_type: BlockType,
    pub depth: u32,
    pub weight: FractionalIndex,
    pub children: Vec<TocEntry>,
}

/// The number of entries in a forest of table-of-contents entries.
pub open spec fn toc_size(es: Seq<TocEntry>) -> nat
    decreases es,
{
    if es.len() == 0 {
        0
    } else {
        toc_size(es.drop_last()) + 1 + toc_size(es.last().children@)
    }
}

/// The number of entries of kind `t` in a forest of table-of-contents entries.
pub open spec fn toc_count_of(es: Seq<TocEntry>, t: BlockType) -> nat
    decreases es,
{
    if es.len() == 0 {
        0
    } else {
        toc_count_of(es.drop_last(), t) + (if es.last().block_type == t {
            1nat
        } else {
            0nat
        }) + toc_count_of(es.last().children@, t)
    }
}

/// Counts all entries, at every depth.
pub fn count_entries(entries: &[TocEntry]) -> (n: usize)
    requires
        toc_size(entries@) <= usize::MAX,
    ensures
        n == toc_size(entries@),
    decreases entries@,
{
    let mut count: usize = 0;
    let mut i: usize = 0;
    while i < entries.len()
        invariant
            i <= entries@.len(),
            count == toc_size(entries@.subrange(0, i as int)),
            toc_size(entries@) <= usize::MAX,
        decreases entries@.len() - i,
    {
        let ghost pre = entries@.subrange(0, i as int);
        let ghost nxt = entries@.subrange(0, i + 1);
        assert(nxt.drop_last() =~= pre);
        proof {
            lemma_toc_size_prefix(entries@, i + 1);
        }
        assert(decreases_to!(entries@ => entries@[i as int]));
        let sub = count_entries(entries[i].children.as_slice());
        count = count + 1 + sub;
        i = i + 1;
    }
    assert(entries@.subrange(0, entries@.len() as int) =~= entries@);
    count
}

/// The number of entries, or `cap` when there are at least that many.
pub fn toc_size_capped(entries: &[TocEntry], cap: u64) -> (n: u64)
    ensures
        n == if toc_size(entries@) < cap { toc_size(entries@) } else { cap as nat },
    decreases entries@,
{
    if cap == 0 {
        return 0;
    }
    let mut total: u64 = 0;
    let mut i: usize = 0;
    while i < entries.len()
        invariant
            i <= entries@.len(),
            total < cap,
            total == toc_size(entries@.subrange(0, i as int)),
        decreases entries@.len() - i,
    {
        let ghost pre = entries@.subrange(0, i as int);
        let ghost nxt = entries@.subrange(0, i + 1);
        assert(nxt.drop_last() =~= pre);
        proof {
            lemma_toc_size_prefix(entries@, i + 1);
        }
        assert(decreases_to!(entries@ => entries@[i as int]));
        let sub = toc_size_capped(entries[i].children.as_slice(), cap);
        if sub >= cap - total - 1 {
            return cap;
        }
        total = total + 1 + sub;
        i = i + 1;
    }
    assert(entries@.subrange(0, entries@.len() as int) =~= entries@);
    total
}

proof fn lemma_toc_size_prefix(es: Seq<TocEntry>, k: int)
    requires
        0 <= k <= es.len(),
    ensures
        toc_size(es.subrange(0, k)) <= toc_size(es),
    decreases es.len() - k,
{
    if k < es.len() {
        lemma_toc_size_prefix(es, k + 1);
        assert(es.subrange(0, k + 1).drop_last() =~= es.subrange(0, k));
    } else {
        assert(es.subrange(0, k) =~= es);
    }
}

proof fn lemma_toc_count_prefix(es: Seq<TocEntry>, t: BlockType, k: int)
    requires
        0 <= k <= es.len(),
    ensures
        toc_count_of(es.subrange(0, k), t) <= toc_count_of(es, t),
    decreases es.len() - k,
{
    if k < es.len() {
        lemma_toc_count_prefix(es, t, k + 1);
        assert(es.subrange(0, k + 1).drop_last() =~= es.subrange(0, k));
    } else {
        assert(es.subrange(0, k) =~= es);
    }
}

/// Counts the entries of kind `target`, at every depth.
pub fn count_by_type(entries: &[TocEntry], target: &BlockType) -> (n: usize)
    requires
        toc_count_of(entries@, *target) <= usize::MAX,
    ensures
        n == toc_count_of(entries@, *target),
    decreases entries@,
{
    let mut count: usize = 0;
    let mut i: usize = 0;
    while i < entries.len()
        invariant
            i <= entries@.len(),
            count == toc_count_of(entries@.subrange(0, i as int), *target),
            toc_count_of(entries@, *target) <= usize::MAX,
        decreases entries@.len() - i,
    {
        let ghost pre = entries@.subrange(0, i as int);
        let ghost nxt = entries@.subrange(0, i + 1);
        assert(nxt.drop_last() =~= pre);
        proof {
            lemma_toc_count_prefix(entries@, *target, i + 1);
        }
        assert(decreases_to!(entries@ => entries@[i as int]));
        let sub = count_by_type(entries[i].children.as_slice(), target);
        if entries[i].block_type == *target {
            count = count + 1;
        }
        count = count + sub;
        i = i + 1;
    }
    assert(entries@.subrange(0, entries@.len() as int) =~= entries@);
    count
}

// ---------------------------------------------------------------------------
// Rendering a table of contents
// ---------------------------------------------------------------------------

/// `s` repeated `n` times.
pub open spec fn repeat_seq(s: Seq<char>, n: nat) -> Seq<char>
    decreases n,
{
    if n == 0 {
        Seq::<char>::empty()
    } else {
        repeat_seq(s, (n - 1) as nat) + s
    }
}

/// A key shown as text.
pub open spec fn key_text(k: Seq<u8>) -> Seq<char> {
    k.map_values(|b: u8| b as char)
}

/// Whether a position is the first one (key `a`).
pub open spec fn is_first_position(w: FractionalIndex) -> bool {
    w.key() == seq![97u8]
}

/// The position of the first entry with identifier `id` (the length when
/// there is none).
pub open spec fn id_position(es: Seq<TocEntry>, id: Seq<char>) -> nat
    decreases es.len(),
{
    if es.len() == 0 {
        0
    } else if es[0].id@ == id {
        0
    } else {
        1 + id_position(es.drop_first(), id)
    }
}

/// The line of one entry among its siblings `full`: indentation of three
/// spaces per level, a bullet below the top level and a number at the top
/// level, the kind's marker, the title, and the position unless it is the
/// first one.
pub open spec fn toc_entry_line(full: Seq<TocEntry>, e: TocEntry, depth: nat) -> Seq<char> {
    repeat_seq("   "@, depth) + (if depth == 0 {
        "  "@ + decimal_digits(id_position(full, e.id@) + 1) + ". "@
    } else {
        "└─ "@
    }) + block_type_tree_marker(e.block_type) + " "@ + e.title@ + (if is_first_position(e.weight) {
        Seq::<char>::empty()
    } else {
        " ["@ + key_text(e.weight.key()) + "]"@
    }) + "\n"@
}

/// The lines of the first `n` entries of `full` and, after each, those of
/// its children one level deeper.
pub open spec fn toc_lines(full: Seq<TocEntry>, n: int, depth: nat) -> Seq<char>
    decreases full, n,
{
    if n <= 0 || n > full.len() {
        Seq::<char>::empty()
    } else {
        toc_lines(full, n - 1, depth) + toc_entry_line(full, full[n - 1], depth) + toc_lines(
            full[n - 1].children@,
            full[n - 1].children@.len() as int,
            depth + 1,
        )
    }
}

/// `s` repeated `n` times.
pub fn repeat_str(s: &str, n: u32) -> (out: String)
    ensures
        out@ == repeat_seq(s@, n as nat),
{
    let mut out = String::new();
    let mut i: u32 = 0;
    while i < n
        invariant
            i <= n,
            out@ == repeat_seq(s@, i as nat),
        decreases n - i,
    {
        push_str(&mut out, s);
        i = i + 1;
    }
    out
}

/// The position of the first entry with identifier `id`.
fn find_id_position(entries: &[TocEntry], id: &str) -> (k: usize)
    ensures
        k == id_position(entries@, id@),
        k <= entries@.len(),
{
    let mut k: usize = 0;
    assert(entries@.subrange(0, entries@.len() as int) =~= entries@);
    while k < entries.len()
        invariant
            k <= entries@.len(),
            id_position(entries@, id@) == k + id_position(entries@.subrange(k as int, entries@.len() as int), id@),
        decreases entries@.len() - k,
    {
        let ghost rest = entries@.subrange(k as int, entries@.len() as int);
        assert(rest[0] == entries@[k as int]);
        if str_eq(entries[k].id.as_str(), id) {
            return k;
        }
        assert(rest.drop_first() =~= entries@.subrange(k + 1, entries@.len() as int));
        k = k + 1;
    }
    k
}

/// Appends the line of one entry (see [`toc_entry_line`]).
fn push_toc_line(out: &mut String, entries: &[TocEntry], i: usize, depth: u32)
    requires
        i < entries@.len(),
    ensures
        final(out)@ == old(out)@ + toc_entry_line(entries@, entries@[i as int], depth as nat),
{
    let e = &entries[i];
    let indent = repeat_str("   ", depth);
    push_str(out, indent.as_str());
    if depth == 0 {
        push_str(out, "  ");
        let k = find_id_position(entries, e.id.as_str());
        let digits = decimal_string(k as u128 + 1);
        push_str(out, digits.as_str());
        push_str(out, ". ");
    } else {
        push_str(out, "└─ ");
    }
    push_str(out, e.block_type.tree_marker());
    push_str(out, " ");
    push_str(out, e.title.as_str());
    let first = FractionalIndex::first();
    if !e.weight.same_as(&first) {
        push_str(out, " [");
        let w = e.weight.to_string();
        push_str(out, w.as_str());
        push_str(out, "]");
    }
    push_str(out, "\n");
    assert(out@ =~= old(out)@ + toc_entry_line(entries@, entries@[i as int], depth as nat));
}

/// Appends the lines of a table of contents (see [`toc_lines`]).
pub fn push_toc(out: &mut String, entries: &[TocEntry], depth: u32)
    requires
        depth + toc_size(entries@) <= u32::MAX,
    ensures
        final(out)@ == old(out)@ + toc_lines(entries@, entries@.len() as int, depth as nat),
    decreases entries@,
{
    let ghost head = out@;
    let mut i: usize = 0;
    while i < entries.len()
        invariant
            i <= entries@.len(),
            depth + toc_size(entries@) <= u32::MAX,
            out@ == head + toc_lines(entries@, i as int, depth as nat),
        decreases entries@.len() - i,
    {
        let ghost pre = entries@.subrange(0, i as int);
        assert(entries@.subrange(0, i + 1).drop_last() =~= pre);
        proof {
            lemma_toc_size_prefix(entries@, i + 1);
        }
        push_toc_line(out, entries, i, depth);
        assert(decreases_to!(entries@ => entries@[i as int]));
        push_toc(out, entries[i].children.as_slice(), depth + 1);
        i = i + 1;
        assert(out@ =~= head + toc_lines(entries@, i as int, depth as nat));
    }
}

/// The table of contents as printed, from the top level.
pub fn toc_text(entries: &[TocEntry]) -> (t: String)
    requires
        toc_size(entries@) <= u32::MAX,
    ensures
        t@ == toc_lines(entries@, entries@.len() as int, 0),
{
    let mut t = String::new();
    push_toc(&mut t, entries, 0);
    t
}

/// A node of a traversal of the structural spine.
#[derive(Debug)]
pub struct TraversalNode {
    pub block: Block,
    pub depth: u32,
    pub children: Vec<TraversalNode>,
    pub sequence_weight: FractionalIndex,
}

/// The number of nodes in a forest of traversal nodes.
pub open spec fn traversal_size(ns: Seq<TraversalNode>) -> nat
    decreases ns,
{
    if ns.len() == 0 {
        0
    } else {
        traversal_size(ns.drop_last()) + 1 + traversal_size(ns.last().children@)
    }
}

/// The number of nodes, or `cap` when there are at least that many.
pub fn traversal_size_capped(nodes: &[TraversalNode], cap: u64) -> (n: u64)
    ensures
        n == if traversal_size(nodes@) < cap { traversal_size(nodes@) } else { cap as nat },
    decreases nodes@,
{
    if cap == 0 {
        return 0;
    }
    let mut total: u64 = 0;
    let mut i: usize = 0;
    while i < nodes.len()
        invariant
            i <= nodes@.len(),
            total < cap,
            total == traversal_size(nodes@.subrange(0, i as int)),
        decreases nodes@.len() - i,
    {
        let ghost pre = nodes@.subrange(0, i as int);
        let ghost nxt = nodes@.subrange(0, i + 1);
        assert(nxt.drop_last() =~= pre);
        proof {
            lemma_traversal_size_prefix(nodes@, i + 1);
        }
        assert(decreases_to!(nodes@ => nodes@[i as int]));
        let sub = traversal_size_capped(nodes[i].children.as_slice(), cap);
        if sub >= cap - total - 1 {
            return cap;
        }
        total = total + 1 + sub;
        i = i + 1;
    }
    assert(nodes@.subrange(0, nodes@.len() as int) =~= nodes@);
    total
}

proof fn lemma_traversal_size_prefix(ns: Seq<TraversalNode>, k: int)
    requires
        0 <= k <= ns.len(),
    ensures
        traversal_size(ns.subrange(0, k)) <= traversal_size(ns),
    decreases ns.len() - k,
{
    if k < ns.len() {
        lemma_traversal_size_prefix(ns, k + 1);
        assert(ns.subrange(0, k + 1).drop_last() =~= ns.subrange(0, k));
    } else {
        assert(ns.subrange(0, k) =~= ns);
    }
}

/// Counts all nodes of a traversal, at every depth.
pub fn count_blocks(nodes: &[TraversalNode]) -> (n: usize)
    requires
        traversal_size(nodes@) <= usize::MAX,
    ensures
        n == traversal_size(nodes@),
    decreases nodes@,
{
    let mut count: usize = 0;
    let mut i: usize = 0;
    while i < nodes.len()
        invariant
            i <= nodes@.len(),
            count == traversal_size(nodes@.subrange(0, i as int)),
            traversal_size(nodes@) <= usize::MAX,
        decreases nodes@.len() - i,
    {
        let ghost pre = nodes@.subrange(0, i as int);
        let ghost nxt = nodes@.subrange(0, i + 1);
        assert(nxt.drop_last() =~= pre);
        proof {
            lemma_traversal_size_prefix(nodes@, i + 1);
        }
        assert(decreases_to!(nodes@ => nodes@[i as int]));
        let sub = count_blocks(nodes[i].children.as_slice());
        count = count + 1 + sub;
        i = i + 1;
    }
    assert(nodes@.subrange(0, nodes@.len() as int) =~= nodes@);
    count
}

// ---------------------------------------------------------------------------
// Rendering a traversal
// ---------------------------------------------------------------------------

/// At most the first `n` characters of `s`.
pub open spec fn prefix_of(s: Seq<char>, n: nat) -> Seq<char> {
    if n <= s.len() {
        s.take(n as int)
    } else {
        s
    }
}

/// The first eight characters of a block's identifier.
pub open spec fn short_id(id: u128) -> Seq<char> {
    ulid_encode(id).take(8)
}

/// The status shown for a block: whether it has content.
pub open spec fn content_status(b: Block) -> Seq<char> {
    if b.content@.len() == 0 {
        "empty ⚠️"@
    } else {
        "stable ✅"@
    }
}

/// The head line of a node in the tree view.
pub open spec fn tree_head_line(b: Block, prefix: Seq<char>) -> Seq<char> {
    prefix + block_type_tree_marker(b.block_type) + " ["@ + short_id(b.id) + "] "@ + b.title@ + " ("@
        + content_status(b) + ")\n"@
}

/// The line showing a position unless it is the first one.
pub open spec fn weight_line(w: FractionalIndex, lead: Seq<char>) -> Seq<char> {
    if is_first_position(w) {
        Seq::<char>::empty()
    } else {
        lead + key_text(w.key()) + "\n"@
    }
}

/// The line previewing content, when asked for and present.
pub open spec fn preview_line(b: Block, show_content: bool, lead: Seq<char>, n: nat) -> Seq<char> {
    if show_content && b.content@.len() > 0 {
        lead + prefix_of(b.content@, n) + "\"\n"@
    } else {
        Seq::<char>::empty()
    }
}

/// The lines of one node in the tree view, before its children.
pub open spec fn tree_node_lines(n: TraversalNode, indent: nat, show_content: bool) -> Seq<char> {
    let prefix = repeat_seq("  "@, indent);
    tree_head_line(n.block, prefix) + weight_line(n.sequence_weight, prefix + "   └─ Weight: "@) + preview_line(
        n.block,
        show_content,
        prefix + "   └─ \""@,
        100,
    )
}

/// The tree view of a forest: each node, then its children two spaces
/// further in.
pub open spec fn tree_lines(ns: Seq<TraversalNode>, indent: nat, show_content: bool) -> Seq<char>
    decreases ns,
{
    if ns.len() == 0 {
        Seq::<char>::empty()
    } else {
        tree_lines(ns.drop_last(), indent, show_content) + tree_node_lines(ns.last(), indent, show_content)
            + tree_lines(ns.last().children@, indent + 1, show_content)
    }
}

/// The heading marker of a depth in the Markdown view.
pub open spec fn heading_marker(indent: nat) -> Seq<char> {
    if indent == 0 {
        "#"@
    } else if indent == 1 {
        "##"@
    } else if indent == 2 {
        "###"@
    } else {
        "####"@
    }
}

/// The content shown in full in the Markdown view, when asked for and present.
pub open spec fn markdown_content(b: Block, show_content: bool) -> Seq<char> {
    if show_content && b.content@.len() > 0 {
        "\n"@ + b.content@ + "\n\n"@
    } else {
        Seq::<char>::empty()
    }
}

/// The lines of one node in the Markdown view, before its children.
pub open spec fn markdown_node_lines(n: TraversalNode, indent: nat, show_content: bool) -> Seq<char> {
    let prefix = repeat_seq("  "@, indent);
    prefix + " "@ + heading_marker(indent) + " "@ + n.block.title@ + "\n"@ + weight_line(
        n.sequence_weight,
        prefix + " - Weight: "@,
    ) + markdown_content(n.block, show_content)
}

/// The Markdown view of a forest.
pub open spec fn markdown_lines(ns: Seq<TraversalNode>, indent: nat, show_content: bool) -> Seq<char>
    decreases ns,
{
    if ns.len() == 0 {
        Seq::<char>::empty()
    } else {
        markdown_lines(ns.drop_last(), indent, show_content) + markdown_node_lines(ns.last(), indent, show_content)
            + markdown_lines(ns.last().children@, indent + 1, show_content)
    }
}

/// The lines of one node in the plain list view, before its children.
pub open spec fn simple_node_lines(n: TraversalNode, show_content: bool) -> Seq<char> {
    let b = n.block;
    "["@ + short_id(b.id) + "] "@ + b.title@ + " | "@ + block_type_debug_name(b.block_type) + "\n"@ + preview_line(
        b,
        show_content,
        "       \""@,
        60,
    )
}

/// The plain list view of a forest, children right after their parent.
pub open spec fn simple_lines(ns: Seq<TraversalNode>, show_content: bool) -> Seq<char>
    decreases ns,
{
    if ns.len() == 0 {
        Seq::<char>::empty()
    } else {
        simple_lines(ns.drop_last(), show_content) + simple_node_lines(ns.last(), show_content) + simple_lines(
            ns.last().children@,
            show_content,
        )
    }
}

/// The first eight characters of a block's identifier.
fn push_short_id(out: &mut String, id: u128)
    ensures
        final(out)@ == old(out)@ + short_id(id),
{
    let full = encode_ulid(id);
    let short = first_chars(full.as_str(), 8);
    push_str(out, short.as_str());
}

/// Appends a position line (see [`weight_line`]).
fn push_weight_line(out: &mut String, w: &FractionalIndex, lead: &str)
    ensures
        final(out)@ == old(out)@ + weight_line(*w, lead@),
{
    let first = FractionalIndex::first();
    if !w.same_as(&first) {
        push_str(out, lead);
        let t = w.to_string();
        push_str(out, t.as_str());
        push_str(out, "\n");
    }
    assert(out@ =~= old(out)@ + weight_line(*w, lead@));
}

/// Appends a content preview line (see [`preview_line`]).
fn push_preview_line(out: &mut String, b: &Block, show_content: bool, lead: &str, n: usize)
    ensures
        final(out)@ == old(out)@ + preview_line(*b, show_content, lead@, n as nat),
{
    if show_content && !b.content.as_str().is_empty() {
        push_str(out, lead);
        let preview = first_chars(b.content.as_str(), n);
        push_str(out, preview.as_str());
        push_str(out, "\"\n");
    }
    assert(out@ =~= old(out)@ + preview_line(*b, show_content, lead@, n as nat));
}

/// Appends the head line of a node in the tree view.
fn push_tree_head(out: &mut String, b: &Block, prefix: &str)
    ensures
        final(out)@ == old(out)@ + tree_head_line(*b, prefix@),
{
    push_str(out, prefix);
    push_str(out, b.block_type.tree_marker());
    push_str(out, " [");
    push_short_id(out, b.id);
    push_str(out, "] ");
    push_str(out, b.title.as_str());
    push_str(out, " (");
    if b.content.as_str().is_empty() {
        push_str(out, "empty ⚠️");
    } else {
        push_str(out, "stable ✅");
    }
    push_str(out, ")\n");
    assert(out@ =~= old(out)@ + tree_head_line(*b, prefix@));
}

/// Appends the lines of one node in the tree view.
fn push_tree_node(out: &mut String, n: &TraversalNode, indent: u32, show_content: bool)
    ensures
        final(out)@ == old(out)@ + tree_node_lines(*n, indent as nat, show_content),
{
    let prefix = repeat_str("  ", indent);
    push_tree_head(out, &n.block, prefix.as_str());
    let lead = crate::text::concat(prefix.as_str(), "   └─ Weight: ");
    push_weight_line(out, &n.sequence_weight, lead.as_str());
    let lead = crate::text::concat(prefix.as_str(), "   └─ \"");
    push_preview_line(out, &n.block, show_content, lead.as_str(), 100);
    assert(out@ =~= old(out)@ + tree_node_lines(*n, indent as nat, show_content));
}

/// Appends the tree view of a forest (see [`tree_lines`]).
pub fn push_tree(out: &mut String, nodes: &[TraversalNode], indent: u32, show_content: bool)
    requires
        indent + traversal_size(nodes@) <= u32::MAX,
    ensures
        final(out)@ == old(out)@ + tree_lines(nodes@, indent as nat, show_content),
    decreases nodes@,
{
    let ghost head = out@;
    let mut i: usize = 0;
    while i < nodes.len()
        invariant
            i <= nodes@.len(),
            indent + traversal_size(nodes@) <= u32::MAX,
            out@ == head + tree_lines(nodes@.subrange(0, i as int), indent as nat, show_content),
        decreases nodes@.len() - i,
    {
        let ghost pre = nodes@.subrange(0, i as int);
        assert(nodes@.subrange(0, i + 1).drop_last() =~= pre);
        proof {
            lemma_traversal_size_prefix(nodes@, i + 1);
        }
        push_tree_node(out, &nodes[i], indent, show_content);
        assert(decreases_to!(nodes@ => nodes@[i as int]));
        push_tree(out, nodes[i].children.as_slice(), indent + 1, show_content);
        i = i + 1;
        assert(out@ =~= head + tree_lines(nodes@.subrange(0, i as int), indent as nat, show_content));
    }
    assert(nodes@.subrange(0, nodes@.len() as int) =~= nodes@);
}

/// Appends the lines of one node in the Markdown view.
fn push_markdown_node(out: &mut String, n: &TraversalNode, indent: u32, show_content: bool)
    ensures
        final(out)@ == old(out)@ + markdown_node_lines(*n, indent as nat, show_content),
{
    let prefix = repeat_str("  ", indent);
    let b = &n.block;
    push_str(out, prefix.as_str());
    push_str(out, " ");
    let heading = if indent == 0 {
        "#"
    } else if indent == 1 {
        "##"
    } else if indent == 2 {
        "###"
    } else {
        "####"
    };
    push_str(out, heading);
    push_str(out, " ");
    push_str(out, b.title.as_str());
    push_str(out, "\n");
    let lead = crate::text::concat(prefix.as_str(), " - Weight: ");
    push_weight_line(out, &n.sequence_weight, lead.as_str());
    let ghost mid = out@;
    if show_content && !b.content.as_str().is_empty() {
        push_str(out, "\n");
        push_str(out, b.content.as_str());
        push_str(out, "\n\n");
    }
    assert(out@ =~= mid + markdown_content(*b, show_content));
    assert(out@ =~= old(out)@ + markdown_node_lines(*n, indent as nat, show_content));
}

/// Appends the Markdown view of a forest (see [`markdown_lines`]).
pub fn push_markdown(out: &mut String, nodes: &[TraversalNode], indent: u32, show_content: bool)
    requires
        indent + traversal_size(nodes@) <= u32::MAX,
    ensures
        final(out)@ == old(out)@ + markdown_lines(nodes@, indent as nat, show_content),
    decreases nodes@,
{
    let ghost head = out@;
    let mut i: usize = 0;
    while i < nodes.len()
        invariant
            i <= nodes@.len(),
            indent + traversal_size(nodes@) <= u32::MAX,
            out@ == head + markdown_lines(nodes@.subrange(0, i as int), indent as nat, show_content),
        decreases nodes@.len() - i,
    {
        let ghost pre = nodes@.subrange(0, i as int);
        assert(nodes@.subrange(0, i + 1).drop_last() =~= pre);
        proof {
            lemma_traversal_size_prefix(nodes@, i + 1);
        }
        push_markdown_node(out, &nodes[i], indent, show_content);
        assert(decreases_to!(nodes@ => nodes@[i as int]));
        push_markdown(out, nodes[i].children.as_slice(), indent + 1, show_content);
        i = i + 1;
        assert(out@ =~= head + markdown_lines(nodes@.subrange(0, i as int), indent as nat, show_content));
    }
    assert(nodes@.subrange(0, nodes@.len() as int) =~= nodes@);
}

/// Appends the lines of one node in the plain list view.
fn push_simple_node(out: &mut String, n: &TraversalNode, show_content: bool)
    ensures
        final(out)@ == old(out)@ + simple_node_lines(*n, show_content),
{
    let b = &n.block;
    push_str(out, "[");
    push_short_id(out, b.id);
    push_str(out, "] ");
    push_str(out, b.title.as_str());
    push_str(out, " | ");
    push_str(out, b.block_type.debug_name());
    push_str(out, "\n");
    push_preview_line(out, b, show_content, "       \"", 60);
    assert(out@ =~= old(out)@ + simple_node_lines(*n, show_content));
}

/// Appends the plain list view of a forest (see [`simple_lines`]).
pub fn push_simple(out: &mut String, nodes: &[TraversalNode], show_content: bool)
    ensures
        final(out)@ == old(out)@ + simple_lines(nodes@, show_content),
    decreases nodes@,
{
    let ghost head = out@;
    let mut i: usize = 0;
    while i < nodes.len()
        invariant
            i <= nodes@.len(),
            out@ == head + simple_lines(nodes@.subrange(0, i as int), show_content),
        decreases nodes@.len() - i,
    {
        let ghost pre = nodes@.subrange(0, i as int);
        assert(nodes@.subrange(0, i + 1).drop_last() =~= pre);
        push_simple_node(out, &nodes[i], show_content);
        assert(decreases_to!(nodes@ => nodes@[i as int]));
        push_simple(out, nodes[i].children.as_slice(), show_content);
        i = i + 1;
        assert(out@ =~= head + simple_lines(nodes@.subrange(0, i as int), show_content));
    }
    assert(nodes@.subrange(0, nodes@.len() as int) =~= nodes@);
}

// ---------------------------------------------------------------------------
// Reports
// ---------------------------------------------------------------------------

/// Each count of one kind is at most the number of entries.
pub proof fn lemma_toc_count_le_size(es: Seq<TocEntry>, t: BlockType)
    ensures
        toc_count_of(es, t) <= toc_size(es),
    decreases es,
{
    if es.len() > 0 {
        lemma_toc_count_le_size(es.drop_last(), t);
        lemma_toc_count_le_size(es.last().children@, t);
    }
}

/// The rule drawn across the table-of-contents report.
pub open spec fn toc_rule() -> Seq<char> {
    "────────────────────────────────────────────────────────────"@
}

/// The table-of-contents report of a structure: its title and identifier,
/// the entries (or a hint for linking blocks to it, naming `id_arg`), and
/// the counts of all entries and of sections, notes and ghosts.
pub open spec fn toc_report_text(root: TocEntry, id_arg: Seq<char>) -> Seq<char> {
    let es = root.children@;
    "📖 Table of Contents: "@ + root.title@ + "\n\n   ID: "@ + root.id@ + "\n\n"@ + toc_rule() + "\n\n"@ + (if es.len()
        == 0 {
        "   (empty - no linked blocks)\n\n💡 Link blocks to this structure using:\n   nexus link --from <block_id> --to "@
            + id_arg + " --link-type section_of\n"@
    } else {
        toc_lines(es, es.len() as int, 0)
    }) + "\n"@ + toc_rule() + "\n\n📊 Statistics:\n   Total entries: "@ + decimal_digits(toc_size(es))
        + "\n   Sections: "@ + decimal_digits(toc_count_of(es, BlockType::Structure)) + "\n   Zettels: "@
        + decimal_digits(toc_count_of(es, BlockType::Permanent)) + "\n   Ghosts: "@ + decimal_digits(
        toc_count_of(es, BlockType::GhostNote),
    ) + "\n"@
}

fn push_decimal(out: &mut String, n: usize)
    ensures
        final(out)@ == old(out)@ + decimal_digits(n as nat),
{
    let d = decimal_string(n as u128);
    push_str(out, d.as_str());
}

/// The table-of-contents report (see [`toc_report_text`]).
pub fn toc_report(root: &TocEntry, id_arg: &str) -> (t: String)
    requires
        toc_size(root.children@) <= u32::MAX,
    ensures
        t@ == toc_report_text(*root, id_arg@),
{
    let es = root.children.as_slice();
    proof {
        lemma_toc_count_le_size(es@, BlockType::Structure);
        lemma_toc_count_le_size(es@, BlockType::Permanent);
        lemma_toc_count_le_size(es@, BlockType::GhostNote);
    }
    let mut t = owned("📖 Table of Contents: ");
    push_str(&mut t, root.title.as_str());
    push_str(&mut t, "\n\n   ID: ");
    push_str(&mut t, root.id.as_str());
    push_str(&mut t, "\n\n");
    push_str(&mut t, "────────────────────────────────────────────────────────────");
    push_str(&mut t, "\n\n");
    let ghost head = t@;
    if es.len() == 0 {
        push_str(&mut t, "   (empty - no linked blocks)\n\n💡 Link blocks to this structure using:\n   nexus link --from <block_id> --to ");
        push_str(&mut t, id_arg);
        push_str(&mut t, " --link-type section_of\n");
    } else {
        push_toc(&mut t, es, 0);
    }
    let ghost body = t@;
    push_str(&mut t, "\n");
    push_str(&mut t, "────────────────────────────────────────────────────────────");
    push_str(&mut t, "\n\n📊 Statistics:\n   Total entries: ");
    push_decimal(&mut t, count_entries(es));
    push_str(&mut t, "\n   Sections: ");
    push_decimal(&mut t, count_by_type(es, &BlockType::Structure));
    push_str(&mut t, "\n   Zettels: ");
    push_decimal(&mut t, count_by_type(es, &BlockType::Permanent));
    push_str(&mut t, "\n   Ghosts: ");
    push_decimal(&mut t, count_by_type(es, &BlockType::GhostNote));
    push_str(&mut t, "\n");
    assert(t@ =~= toc_report_text(*root, id_arg@));
    t
}

/// The number of top-level nodes of kind `t`.
pub open spec fn top_kind_count(ns: Seq<TraversalNode>, t: BlockType) -> nat
    decreases ns.len(),
{
    if ns.len() == 0 {
        0
    } else {
        top_kind_count(ns.drop_last(), t) + if ns.last().block.block_type == t {
            1nat
        } else {
            0nat
        }
    }
}

/// The traversal report: a notice when nothing was found; otherwise the tree
/// view, then the number of nodes at every depth, the top-level sections,
/// notes and ghosts, and the ghosts' share of all nodes in whole percent.
pub open spec fn traversal_report_text(ns: Seq<TraversalNode>, show_content: bool) -> Seq<char> {
    if ns.len() == 0 {
        "📭 No blocks found in the structural spine.\n   Create a Structure block and link blocks with 'nexus link --link-type next'\n"@
    } else {
        let total = traversal_size(ns);
        let ghosts = top_kind_count(ns, BlockType::GhostNote);
        tree_lines(ns, 0, show_content) + "\n📊 Statistics:\n   Total blocks: "@ + decimal_digits(total)
            + "\n   Sections: "@ + decimal_digits(top_kind_count(ns, BlockType::Structure)) + "\n   Zettels: "@
            + decimal_digits(top_kind_count(ns, BlockType::Permanent)) + "\n   Ghosts: "@ + decimal_digits(ghosts)
            + " ("@ + decimal_digits(ghosts * 100 / total) + "% of content)\n"@
    }
}

proof fn lemma_top_kind_le(ns: Seq<TraversalNode>, t: BlockType)
    ensures
        top_kind_count(ns, t) <= ns.len(),
        top_kind_count(ns, t) <= traversal_size(ns),
    decreases ns.len(),
{
    if ns.len() > 0 {
        lemma_top_kind_le(ns.drop_last(), t);
    }
}

fn count_top_kind(nodes: &[TraversalNode], t: BlockType) -> (n: usize)
    ensures
        n == top_kind_count(nodes@, t),
{
    let mut n: usize = 0;
    let mut i: usize = 0;
    while i < nodes.len()
        invariant
            i <= nodes@.len(),
            n == top_kind_count(nodes@.subrange(0, i as int), t),
            n <= i,
        decreases nodes@.len() - i,
    {
        assert(nodes@.subrange(0, i + 1).drop_last() =~= nodes@.subrange(0, i as int));
        if nodes[i].block.block_type == t {
            n = n + 1;
        }
        i = i + 1;
    }
    assert(nodes@.subrange(0, nodes@.len() as int) =~= nodes@);
    n
}

/// The traversal report (see [`traversal_report_text`]).
pub fn traversal_report(nodes: &[TraversalNode], show_content: bool) -> (t: String)
    requires
        traversal_size(nodes@) <= u32::MAX,
    ensures
        t@ == traversal_report_text(nodes@, show_content),
{
    if nodes.len() == 0 {
        return owned("📭 No blocks found in the structural spine.\n   Create a Structure block and link blocks with 'nexus link --link-type next'\n");
    }
    proof {
        lemma_top_kind_le(nodes@, BlockType::GhostNote);
    }
    let mut t = String::new();
    push_tree(&mut t, nodes, 0, show_content);
    let total = count_blocks(nodes);
    let sections = count_top_kind(nodes, BlockType::Structure);
    let zettels = count_top_kind(nodes, BlockType::Permanent);
    let ghosts = count_top_kind(nodes, BlockType::GhostNote);
    let ghost tree = t@;
    push_str(&mut t, "\n📊 Statistics:\n   Total blocks: ");
    push_decimal(&mut t, total);
    push_str(&mut t, "\n   Sections: ");
    push_decimal(&mut t, sections);
    push_str(&mut t, "\n   Zettels: ");
    push_decimal(&mut t, zettels);
    push_str(&mut t, "\n   Ghosts: ");
    push_decimal(&mut t, ghosts);
    push_str(&mut t, " (");
    let share: u128 = (ghosts as u128 * 100) / (total as u128);
    let d = decimal_string(share);
    push_str(&mut t, d.as_str());
    push_str(&mut t, "% of content)\n");
    assert(t@ =~= traversal_report_text(nodes@, show_content));
    t
}

/// How a traversal is printed.
#[derive(Debug, Clone, Copy, PartialEq, Eq, Structural)]
pub enum TraverseFormat {
    Tree,
    Json,
    Markdown,
    Simple,
}

impl Default for TraverseFormat {
    /// The default format, a tree.
    fn default() -> (f: TraverseFormat)
        ensures
            f == TraverseFormat::Tree,
    {
        TraverseFormat::Tree
    }
}

impl std::str::FromStr for TraverseFormat {
    type Err = String;

    /// Parses a traversal format (see [`parse_traverse_format`]).
    fn from_str(s: &str) -> (r: Result<TraverseFormat, String>)
        ensures
            match r {
                Ok(f) => traverse_format_of_name(lowercase(s@)) == Some(f),
                Err(m) => traverse_format_of_name(lowercase(s@)) is None && m@ == "Unknown format: "@
                    + s@ + ". Use tree, json, markdown, or simple"@,
            },
    {
        parse_traverse_format(s)
    }
}

/// The format named by a lowercased name.
pub open spec fn traverse_format_of_name(n: Seq<char>) -> Option<TraverseFormat> {
    if n == "tree"@ {
        Some(TraverseFormat::Tree)
    } else if n == "json"@ {
        Some(TraverseFormat::Json)
    } else if n == "markdown"@ || n == "md"@ {
        Some(TraverseFormat::Markdown)
    } else if n == "simple"@ {
        Some(TraverseFormat::Simple)
    } else {
        None
    }
}

/// Parses a traversal format, ignoring case. An unknown name gives the
/// message `"Unknown format: <s>. Use tree, json, markdown, or simple"`.
pub fn parse_traverse_format(s: &str) -> (r: Result<TraverseFormat, String>)
    ensures
        match r {
            Ok(f) => traverse_format_of_name(lowercase(s@)) == Some(f),
            Err(m) => traverse_format_of_name(lowercase(s@)) is None && m@ == "Unknown format: "@
                + s@ + ". Use tree, json, markdown, or simple"@,
        },
{
    let l = to_lowercase(s);
    let n = l.as_str();
    if str_eq(n, "tree") {
        Ok(TraverseFormat::Tree)
    } else if str_eq(n, "json") {
        Ok(TraverseFormat::Json)
    } else if str_eq(n, "markdown") || str_eq(n, "md") {
        Ok(TraverseFormat::Markdown)
    } else if str_eq(n, "simple") {
        Ok(TraverseFormat::Simple)
    } else {
        let a = crate::text::concat("Unknown format: ", s);
        Err(crate::text::concat(a.as_str(), ". Use tree, json, markdown, or simple"))
    }
}

} // verus!
