//! Database statistics and the export format.

use vstd::prelude::*;
use crate::block::{Block, Edge};
use crate::ghost::GhostNode;
use crate::model::block_type_lower_name;
use crate::size::{decimal_digits, decimal_string, format_size, size_text};
use crate::text::{owned, push_str, str_eq};

verus! {

/// Everything in a database, as exported.
#[derive(Debug, Clone)]
pub struct DbExport {
    pub blocks: Vec<Block>,
    pub edges: Vec<Edge>,
    pub ghost_nodes: Option<Vec<GhostNode>>,
}

/// Counts describing a database. `blocks_by_type` pairs a block kind's name
/// with the number of blocks of that kind.
#[derive(Debug, Clone)]
pub struct DbStats {
    pub total_blocks: usize,
    pub total_edges: usize,
    pub total_ghost_nodes: usize,
    pub blocks_by_type: Vec<(String, usize)>,
    pub db_size_bytes: u64,
}

impl Default for DbStats {
    fn default() -> (s: DbStats)
        ensures
            s.total_blocks == 0,
            s.total_edges == 0,
            s.total_ghost_nodes == 0,
            s.blocks_by_type@.len() == 0,
            s.db_size_bytes == 0,
    {
        DbStats { total_blocks: 0, total_edges: 0, total_ghost_nodes: 0, blocks_by_type: Vec::new(), db_size_bytes: 0 }
    }
}

/// The number of blocks whose kind is named `name`.
pub open spec fn kind_count(bs: Seq<Block>, name: Seq<char>) -> nat
    decreases bs.len(),
{
    if bs.len() == 0 {
        0
    } else {
        kind_count(bs.drop_last(), name) + if block_type_lower_name(bs.last().block_type) == name {
            1nat
        } else {
            0nat
        }
    }
}

/// `counts` names each kind present in `bs` once, with its number of blocks.
pub open spec fn counts_kinds(bs: Seq<Block>, counts: Seq<(String, usize)>) -> bool {
    &&& forall|k: int| 0 <= k < counts.len() ==> #[trigger] counts[k].1 as nat == kind_count(bs, counts[k].0@)
        && counts[k].1 > 0
    &&& forall|k: int, l: int| 0 <= k < l < counts.len() ==> counts[k].0@ != counts[l].0@
    &&& forall|j: int| 0 <= j < bs.len() ==> exists|k: int| 0 <= k < counts.len() && counts[k].0@ == block_type_lower_name(#[trigger] bs[j].block_type)
}

proof fn lemma_kind_count_bound(bs: Seq<Block>, name: Seq<char>)
    ensures
        kind_count(bs, name) <= bs.len(),
    decreases bs.len(),
{
    if bs.len() > 0 {
        lemma_kind_count_bound(bs.drop_last(), name);
    }
}

proof fn lemma_kind_count_zero(bs: Seq<Block>, name: Seq<char>)
    requires
        forall|j: int| 0 <= j < bs.len() ==> block_type_lower_name(#[trigger] bs[j].block_type) != name,
    ensures
        kind_count(bs, name) == 0,
    decreases bs.len(),
{
    if bs.len() > 0 {
        assert(block_type_lower_name(bs[bs.len() - 1].block_type) != name);
        assert forall|j: int| 0 <= j < bs.drop_last().len() implies block_type_lower_name(#[trigger] bs.drop_last()[j].block_type) != name by {
            assert(bs.drop_last()[j] == bs[j]);
        }
        lemma_kind_count_zero(bs.drop_last(), name);
    }
}

fn find_name(counts: &Vec<(String, usize)>, name: &str) -> (r: Option<usize>)
    ensures
        match r {
            Some(k) => k < counts@.len() && counts@[k as int].0@ == name@,
            None => forall|l: int| 0 <= l < counts@.len() ==> #[trigger] counts@[l].0@ != name@,
        },
{
    let mut k: usize = 0;
    while k < counts.len()
        invariant
            k <= counts@.len(),
            forall|l: int| 0 <= l < k ==> #[trigger] counts@[l].0@ != name@,
        decreases counts@.len() - k,
    {
        if str_eq(counts[k].0.as_str(), name) {
            return Some(k);
        }
        k = k + 1;
    }
    None
}

/// Counts the blocks of each kind, kinds in order of first appearance.
pub fn count_blocks_by_type(blocks: &[Block]) -> (counts: Vec<(String, usize)>)
    ensures
        counts_kinds(blocks@, counts@),
{
    let mut counts: Vec<(String, usize)> = Vec::new();
    let mut i: usize = 0;
    while i < blocks.len()
        invariant
            i <= blocks@.len(),
            counts_kinds(blocks@.subrange(0, i as int), counts@),
        decreases blocks@.len() - i,
    {
        let ghost pre = blocks@.subrange(0, i as int);
        let ghost nxt = blocks@.subrange(0, i + 1);
        assert(nxt.drop_last() =~= pre);
        let name = blocks[i].block_type.lower_name();
        let ghost old_counts = counts@;
        let found = find_name(&counts, name);
        proof {
            lemma_kind_count_bound(pre, name@);
        }
        if let Some(k) = found {
            let n = counts[k].1;
            assert(n as nat == kind_count(pre, name@));
            let key = owned(counts[k].0.as_str());
            counts.set(k, (key, n + 1));
            proof {
                assert forall|l: int| 0 <= l < counts@.len() implies #[trigger] counts@[l].1 as nat == kind_count(nxt, counts@[l].0@)
                    && counts@[l].1 > 0 by {
                    if l != k {
                        assert(counts@[l] == old_counts[l]);
                    }
                }
                assert forall|l: int, m: int| 0 <= l < m < counts@.len() implies counts@[l].0@ != counts@[m].0@ by {
                    assert(counts@[l].0@ == old_counts[l].0@);
                    assert(counts@[m].0@ == old_counts[m].0@);
                }
                assert forall|j: int| 0 <= j < nxt.len() implies exists|q: int| 0 <= q < counts@.len() && counts@[q].0@ == block_type_lower_name(#[trigger] nxt[j].block_type) by {
                    if j < pre.len() {
                        assert(pre[j] == nxt[j]);
                        let q = choose|q: int| 0 <= q < old_counts.len() && old_counts[q].0@ == block_type_lower_name(#[trigger] pre[j].block_type);
                        assert(counts@[q].0@ == old_counts[q].0@);
                    } else {
                        assert(counts@[k as int].0@ == name@);
                    }
                }
            }
        } else {
            let key = owned(name);
            counts.push((key, 1));
            proof {
                assert forall|j: int| 0 <= j < pre.len() implies block_type_lower_name(#[trigger] pre[j].block_type) != name@ by {
                    if block_type_lower_name(pre[j].block_type) == name@ {
                        let q = choose|q: int| 0 <= q < old_counts.len() && old_counts[q].0@ == block_type_lower_name(#[trigger] pre[j].block_type);
                        assert(old_counts[q].0@ != name@);
                    }
                }
                lemma_kind_count_zero(pre, name@);
                assert forall|l: int| 0 <= l < counts@.len() implies #[trigger] counts@[l].1 as nat == kind_count(nxt, counts@[l].0@)
                    && counts@[l].1 > 0 by {
                    if l < old_counts.len() {
                        assert(counts@[l] == old_counts[l]);
                    }
                }
                assert forall|j: int| 0 <= j < nxt.len() implies exists|q: int| 0 <= q < counts@.len() && counts@[q].0@ == block_type_lower_name(#[trigger] nxt[j].block_type) by {
                    if j < pre.len() {
                        assert(pre[j] == nxt[j]);
                        let q = choose|q: int| 0 <= q < old_counts.len() && old_counts[q].0@ == block_type_lower_name(#[trigger] pre[j].block_type);
                        assert(counts@[q] == old_counts[q]);
                    } else {
                        assert(counts@[old_counts.len() as int].0@ == name@);
                    }
                }
            }
        }
        i = i + 1;
    }
    assert(blocks@.subrange(0, blocks@.len() as int) =~= blocks@);
    counts
}

/// The lines listing the kinds.
pub open spec fn kind_lines(counts: Seq<(String, usize)>) -> Seq<char>
    decreases counts.len(),
{
    if counts.len() == 0 {
        seq![]
    } else {
        kind_lines(counts.drop_last()) + "    - "@ + counts.last().0@ + ": "@ + decimal_digits(counts.last().1 as nat) + "\n"@
    }
}

/// The statistics as displayed.
pub open spec fn stats_text(s: DbStats) -> Seq<char> {
    "📊 Database Statistics:\n  Blocks: "@ + decimal_digits(s.total_blocks as nat) + "\n  Edges: "@ + decimal_digits(
        s.total_edges as nat,
    ) + "\n  Ghost nodes: "@ + decimal_digits(s.total_ghost_nodes as nat) + "\n  Block types:\n"@ + kind_lines(
        s.blocks_by_type@,
    ) + "  Database size: "@ + size_text(s.db_size_bytes as nat) + "\n"@
}

impl DbStats {
    /// The statistics as displayed (see [`stats_text`]).
    pub fn display_text(&self) -> (t: String)
        ensures
            t@ == stats_text(*self),
    {
        let mut t = owned("📊 Database Statistics:\n  Blocks: ");
        let n = decimal_string(self.total_blocks as u128);
        push_str(&mut t, n.as_str());
        push_str(&mut t, "\n  Edges: ");
        let n = decimal_string(self.total_edges as u128);
        push_str(&mut t, n.as_str());
        push_str(&mut t, "\n  Ghost nodes: ");
        let n = decimal_string(self.total_ghost_nodes as u128);
        push_str(&mut t, n.as_str());
        push_str(&mut t, "\n  Block types:\n");
        let ghost head = t@;
        let mut i: usize = 0;
        while i < self.blocks_by_type.len()
            invariant
                i <= self.blocks_by_type@.len(),
                t@ == head + kind_lines(self.blocks_by_type@.subrange(0, i as int)),
            decreases self.blocks_by_type@.len() - i,
        {
            assert(self.blocks_by_type@.subrange(0, i + 1).drop_last() =~= self.blocks_by_type@.subrange(0, i as int));
            push_str(&mut t, "    - ");
            push_str(&mut t, self.blocks_by_type[i].0.as_str());
            push_str(&mut t, ": ");
            let n = decimal_string(self.blocks_by_type[i].1 as u128);
            push_str(&mut t, n.as_str());
            push_str(&mut t, "\n");
            i = i + 1;
            assert(t@ =~= head + kind_lines(self.blocks_by_type@.subrange(0, i as int)));
        }
        assert(self.blocks_by_type@.subrange(0, self.blocks_by_type@.len() as int) =~= self.blocks_by_type@);
        push_str(&mut t, "  Database size: ");
        let sz = format_size(self.db_size_bytes);
        push_str(&mut t, sz.as_str());
        push_str(&mut t, "\n");
        assert(t@ =~= stats_text(*self));
        t
    }
}

/// The statistics of a store: the numbers of blocks, links and ghost
/// nodes, the blocks counted by kind, and a size of 0 (the storage engine
/// reports none).
pub fn collect_stats(blocks: &crate::store::BlockStore, edges: &crate::store::EdgeStore, ghost_count: usize) -> (s: DbStats)
    ensures
        s.total_blocks == blocks.blocks@.len(),
        s.total_edges == edges.edges@.len(),
        s.total_ghost_nodes == ghost_count,
        counts_kinds(blocks.blocks@, s.blocks_by_type@),
        s.db_size_bytes == 0,
{
    DbStats {
        total_blocks: blocks.blocks.len(),
        total_edges: edges.edges.len(),
        total_ghost_nodes: ghost_count,
        blocks_by_type: count_blocks_by_type(blocks.blocks.as_slice()),
        db_size_bytes: 0,
    }
}

} // verus!
