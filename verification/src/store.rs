//! In-memory stores of blocks and links, answering the queries that the
//! commands make: by identifier, by kind, by tag, by endpoint.
//!
//! Entries are kept in the order they were stored; listings that the
//! commands show newest first come out in reverse storing order, and the
//! links of a spine come out in the order of their positions.

use vstd::prelude::*;
use crate::block::{
    key_lt, lemma_key_lt_irreflexive, lemma_key_lt_total, lemma_key_lt_transitive, same_block, same_edge, Block, Edge,
};
use crate::model::{BlockType, LinkType};
use crate::text::str_eq;

verus! {

// ---------------------------------------------------------------------------
// Blocks
// ---------------------------------------------------------------------------

/// The blocks of a knowledge base, in the order they were stored.
pub struct BlockStore {
    pub blocks: Vec<Block>,
}

/// Two sequences of blocks agree entry by entry.
pub open spec fn same_blocks(a: Seq<Block>, b: Seq<Block>) -> bool {
    a.len() == b.len() && forall|k: int| 0 <= k < a.len() ==> same_block(#[trigger] a[k], b[k])
}

/// The blocks of `bs` that satisfy `p`, the last stored first.
pub open spec fn newest_blocks_where(bs: Seq<Block>, p: spec_fn(Block) -> bool) -> Seq<Block>
    decreases bs.len(),
{
    if bs.len() == 0 {
        Seq::<Block>::empty()
    } else {
        newest_blocks_where(bs.drop_first(), p) + if p(bs[0]) {
            seq![bs[0]]
        } else {
            Seq::<Block>::empty()
        }
    }
}

/// The blocks of `bs` without identifier `id`, in order.
pub open spec fn blocks_without(bs: Seq<Block>, id: u128) -> Seq<Block>
    decreases bs.len(),
{
    if bs.len() == 0 {
        Seq::<Block>::empty()
    } else {
        (if bs[0].id != id {
            seq![bs[0]]
        } else {
            Seq::<Block>::empty()
        }) + blocks_without(bs.drop_first(), id)
    }
}

/// Whether a block carries one of `tags`.
pub open spec fn has_any_tag(b: Block, tags: Seq<String>) -> bool {
    exists|i: int, j: int| 0 <= i < b.tags@.len() && 0 <= j < tags.len() && (#[trigger] b.tags@[i])@ == (#[trigger] tags[j])@
}

/// The position of the first block with identifier `id`, if any.
pub open spec fn first_block_with(bs: Seq<Block>, id: u128) -> Option<int> {
    if exists|k: int| 0 <= k < bs.len() && bs[k].id == id {
        Some(choose|k: int| 0 <= k < bs.len() && bs[k].id == id && forall|q: int| 0 <= q < k ==> bs[q].id != id)
    } else {
        None
    }
}

/// Reading back what was written: after storing a block whose identifier
/// was not stored yet, looking the identifier up finds that block.
pub proof fn lemma_created_block_found(bs: Seq<Block>, b: Block)
    requires
        !holds_block(bs, b.id),
    ensures
        first_block_with(bs.push(b), b.id) == Some(bs.len() as int),
{
    let s = bs.push(b);
    assert(s[bs.len() as int].id == b.id);
    let k = choose|k: int| 0 <= k < s.len() && s[k].id == b.id && forall|q: int| 0 <= q < k ==> s[q].id != b.id;
    if k < bs.len() {
        assert(bs[k].id == b.id);
    }
}

/// After deleting an identifier, no block with it is left.
pub proof fn lemma_deleted_block_gone(bs: Seq<Block>, id: u128)
    ensures
        first_block_with(blocks_without(bs, id), id) is None,
        forall|k: int| 0 <= k < blocks_without(bs, id).len() ==> (#[trigger] blocks_without(bs, id)[k]).id != id,
    decreases bs.len(),
{
    if bs.len() > 0 {
        lemma_deleted_block_gone(bs.drop_first(), id);
        let rest = blocks_without(bs.drop_first(), id);
        let head = if bs[0].id != id { seq![bs[0]] } else { Seq::<Block>::empty() };
        assert forall|k: int| 0 <= k < (head + rest).len() implies (#[trigger] (head + rest)[k]).id != id by {
            if k >= head.len() {
                assert((head + rest)[k] == rest[k - head.len()]);
            }
        }
        assert(blocks_without(bs, id) == head + rest);
    }
}

proof fn lemma_blocks_suffix_step(bs: Seq<Block>, i: int)
    requires
        0 <= i < bs.len(),
    ensures
        bs.subrange(i, bs.len() as int).drop_first() == bs.subrange(i + 1, bs.len() as int),
        bs.subrange(i, bs.len() as int)[0] == bs[i],
{
    assert(bs.subrange(i, bs.len() as int).drop_first() =~= bs.subrange(i + 1, bs.len() as int));
}

fn tag_listed(b: &Block, tags: &[String]) -> (r: bool)
    ensures
        r == has_any_tag(*b, tags@),
{
    let mut i: usize = 0;
    while i < b.tags.len()
        invariant
            i <= b.tags@.len(),
            forall|p: int, j: int| 0 <= p < i && 0 <= j < tags@.len() ==> (#[trigger] b.tags@[p])@ != (#[trigger] tags@[j])@,
        decreases b.tags@.len() - i,
    {
        let mut j: usize = 0;
        while j < tags.len()
            invariant
                i < b.tags@.len(),
                j <= tags@.len(),
                forall|q: int| 0 <= q < j ==> b.tags@[i as int]@ != (#[trigger] tags@[q])@,
            decreases tags@.len() - j,
        {
            if str_eq(b.tags[i].as_str(), tags[j].as_str()) {
                return true;
            }
            j = j + 1;
        }
        i = i + 1;
    }
    false
}

/// Which blocks a listing shows.
enum BlockQuery {
    All,
    OfType(BlockType),
    Tagged,
}

spec fn block_query_holds(q: BlockQuery, tags: Seq<String>, b: Block) -> bool {
    match q {
        BlockQuery::All => true,
        BlockQuery::OfType(t) => b.block_type == t,
        BlockQuery::Tagged => has_any_tag(b, tags),
    }
}

/// Whether some block of `bs` has identifier `id`.
pub open spec fn holds_block(bs: Seq<Block>, id: u128) -> bool {
    exists|k: int| 0 <= k < bs.len() && bs[k].id == id
}

/// The store and the counts of imported and skipped blocks after importing
/// the first `n` blocks of `incoming` into `existing`: a block whose
/// identifier is already stored is skipped, any other is stored.
pub open spec fn block_import(existing: Seq<Block>, incoming: Seq<Block>, n: nat) -> (Seq<Block>, nat, nat)
    decreases n,
{
    if n == 0 {
        (existing, 0, 0)
    } else {
        let (s, imported, skipped) = block_import(existing, incoming, (n - 1) as nat);
        let b = incoming[n - 1];
        if holds_block(s, b.id) {
            (s, imported, skipped + 1)
        } else {
            (s.push(b), imported + 1, skipped)
        }
    }
}

/// Every block is either imported or skipped, and afterwards every imported
/// identifier is stored.
pub proof fn lemma_block_import_accounts(existing: Seq<Block>, incoming: Seq<Block>, n: nat)
    requires
        n <= incoming.len(),
    ensures
        block_import(existing, incoming, n).1 + block_import(existing, incoming, n).2 == n,
        block_import(existing, incoming, n).0.len() == existing.len() + block_import(existing, incoming, n).1,
        forall|j: int| 0 <= j < n ==> holds_block(block_import(existing, incoming, n).0, #[trigger] incoming[j].id),
    decreases n,
{
    if n > 0 {
        lemma_block_import_accounts(existing, incoming, (n - 1) as nat);
        let s = block_import(existing, incoming, (n - 1) as nat).0;
        let b = incoming[n - 1];
        if !holds_block(s, b.id) {
            assert forall|j: int| 0 <= j < n implies holds_block(s.push(b), #[trigger] incoming[j].id) by {
                if j < n - 1 {
                    let k = choose|k: int| 0 <= k < s.len() && s[k].id == incoming[j].id;
                    assert(s.push(b)[k] == s[k]);
                } else {
                    assert(s.push(b)[s.len() as int] == b);
                }
            }
        }
    }
}

impl BlockStore {
    /// An empty store.
    pub fn new() -> (s: BlockStore)
        ensures
            s.blocks@.len() == 0,
    {
        BlockStore { blocks: Vec::new() }
    }

    /// Stores a block.
    pub fn create(&mut self, block: Block)
        ensures
            final(self).blocks@ == old(self).blocks@.push(block),
    {
        self.blocks.push(block);
    }

    /// The first stored block with identifier `id`.
    pub fn get(&self, id: u128) -> (r: Option<Block>)
        ensures
            match r {
                Some(b) => first_block_with(self.blocks@, id) matches Some(k) && same_block(b, self.blocks@[k]),
                None => first_block_with(self.blocks@, id) is None,
            },
    {
        let mut k: usize = 0;
        while k < self.blocks.len()
            invariant
                k <= self.blocks@.len(),
                forall|q: int| 0 <= q < k ==> self.blocks@[q].id != id,
            decreases self.blocks@.len() - k,
        {
            if self.blocks[k].id == id {
                let ghost bs = self.blocks@;
                proof {
                    let f = choose|f: int| 0 <= f < bs.len() && bs[f].id == id && forall|q: int| 0 <= q < f ==> bs[q].id != id;
                    if f < k {
                    } else if f > k {
                        assert(bs[k as int].id == id);
                    }
                }
                return Some(self.blocks[k].copy_block());
            }
            k = k + 1;
        }
        None
    }

    /// The position of the first stored block with identifier `id`.
    pub fn position_of(&self, id: u128) -> (r: Option<usize>)
        ensures
            match r {
                Some(k) => first_block_with(self.blocks@, id) == Some(k as int) && k < self.blocks@.len()
                    && self.blocks@[k as int].id == id,
                None => first_block_with(self.blocks@, id) is None,
            },
    {
        let mut k: usize = 0;
        while k < self.blocks.len()
            invariant
                k <= self.blocks@.len(),
                forall|q: int| 0 <= q < k ==> self.blocks@[q].id != id,
            decreases self.blocks@.len() - k,
        {
            if self.blocks[k].id == id {
                let ghost bs = self.blocks@;
                proof {
                    let f = choose|f: int| 0 <= f < bs.len() && bs[f].id == id && forall|q: int| 0 <= q < f ==> bs[q].id != id;
                    if f > k {
                        assert(bs[k as int].id == id);
                    }
                }
                return Some(k);
            }
            k = k + 1;
        }
        None
    }

    /// Whether a block with identifier `id` is stored.
    pub fn contains(&self, id: u128) -> (b: bool)
        ensures
            b == holds_block(self.blocks@, id),
    {
        let mut k: usize = 0;
        while k < self.blocks.len()
            invariant
                k <= self.blocks@.len(),
                forall|q: int| 0 <= q < k ==> self.blocks@[q].id != id,
            decreases self.blocks@.len() - k,
        {
            if self.blocks[k].id == id {
                return true;
            }
            k = k + 1;
        }
        false
    }

    /// Imports blocks, skipping those whose identifier is already stored
    /// (see [`block_import`]); returns the numbers imported and skipped.
    pub fn import_blocks(&mut self, incoming: Vec<Block>) -> (counts: (usize, usize))
        ensures
            final(self).blocks@ == block_import(old(self).blocks@, incoming@, incoming@.len()).0,
            counts.0 == block_import(old(self).blocks@, incoming@, incoming@.len()).1,
            counts.1 == block_import(old(self).blocks@, incoming@, incoming@.len()).2,
    {
        let ghost start = self.blocks@;
        let ghost all = incoming@;
        let mut rest = incoming;
        let total = rest.len();
        let mut imported: usize = 0;
        let mut skipped: usize = 0;
        let mut n: usize = 0;
        assert(all.subrange(0, all.len() as int) =~= all);
        while rest.len() > 0
            invariant
                n <= all.len(),
                all.len() == total,
                rest@ == all.subrange(n as int, all.len() as int),
                self.blocks@ == block_import(start, all, n as nat).0,
                imported == block_import(start, all, n as nat).1,
                skipped == block_import(start, all, n as nat).2,
                imported + skipped == n,
            decreases rest@.len(),
        {
            proof {
                lemma_block_import_accounts(start, all, n as nat);
            }
            let b = rest.remove(0);
            assert(b == all[n as int]);
            if self.contains(b.id) {
                skipped = skipped + 1;
            } else {
                self.blocks.push(b);
                imported = imported + 1;
            }
            n = n + 1;
            assert(rest@ =~= all.subrange(n as int, all.len() as int));
        }
        (imported, skipped)
    }

    /// Rewrites every block with the identifier of `block` to its kind,
    /// title, content, tags and metadata.
    pub fn update(&mut self, block: Block)
        ensures
            final(self).blocks@.len() == old(self).blocks@.len(),
            forall|k: int| 0 <= k < old(self).blocks@.len() ==> if old(self).blocks@[k].id == block.id {
                same_block(#[trigger] final(self).blocks@[k], block)
            } else {
                final(self).blocks@[k] == old(self).blocks@[k]
            },
    {
        let ghost before = self.blocks@;
        let mut k: usize = 0;
        while k < self.blocks.len()
            invariant
                k <= self.blocks@.len(),
                self.blocks@.len() == before.len(),
                forall|q: int| 0 <= q < before.len() ==> if before[q].id == block.id && q < k {
                    same_block(#[trigger] self.blocks@[q], block)
                } else {
                    self.blocks@[q] == before[q]
                },
            decreases self.blocks@.len() - k,
        {
            if self.blocks[k].id == block.id {
                let c = block.copy_block();
                self.blocks.set(k, c);
            }
            k = k + 1;
        }
    }

    /// Removes every block with identifier `id`.
    pub fn delete(&mut self, id: u128)
        ensures
            final(self).blocks@ == blocks_without(old(self).blocks@, id),
    {
        let ghost before = self.blocks@;
        let mut i: usize = self.blocks.len();
        assert(before.subrange(i as int, before.len() as int) =~= Seq::<Block>::empty());
        assert(before.subrange(0, i as int) =~= before);
        while i > 0
            invariant
                i <= before.len(),
                self.blocks@ == before.subrange(0, i as int) + blocks_without(before.subrange(i as int, before.len() as int), id),
            decreases i,
        {
            proof {
                lemma_blocks_suffix_step(before, i - 1);
            }
            let ghost tail = blocks_without(before.subrange(i as int, before.len() as int), id);
            if self.blocks[i - 1].id == id {
                self.blocks.remove(i - 1);
                assert(self.blocks@ =~= before.subrange(0, i - 1) + tail);
            } else {
                assert(before.subrange(0, i as int) =~= before.subrange(0, i - 1) + seq![before[i - 1]]);
                assert(self.blocks@ =~= before.subrange(0, i - 1) + (seq![before[i - 1]] + tail));
            }
            i = i - 1;
        }
        assert(before.subrange(0, before.len() as int) =~= before);
    }

    fn list_where(&self, q: BlockQuery, tags: &[String]) -> (out: Vec<Block>)
        ensures
            same_blocks(out@, newest_blocks_where(self.blocks@, |b: Block| block_query_holds(q, tags@, b))),
    {
        let ghost p = |b: Block| block_query_holds(q, tags@, b);
        let ghost bs = self.blocks@;
        let mut out: Vec<Block> = Vec::new();
        let mut i: usize = self.blocks.len();
        while i > 0
            invariant
                i <= bs.len(),
                bs == self.blocks@,
                p == (|b: Block| block_query_holds(q, tags@, b)),
                same_blocks(out@, newest_blocks_where(bs.subrange(i as int, bs.len() as int), p)),
            decreases i,
        {
            proof {
                lemma_blocks_suffix_step(bs, i - 1);
            }
            let ghost prev = newest_blocks_where(bs.subrange(i as int, bs.len() as int), p);
            let b = &self.blocks[i - 1];
            let keep = match q {
                BlockQuery::All => true,
                BlockQuery::OfType(t) => b.block_type == t,
                BlockQuery::Tagged => tag_listed(b, tags),
            };
            if keep {
                out.push(b.copy_block());
            }
            i = i - 1;
            assert(newest_blocks_where(bs.subrange(i as int, bs.len() as int), p) == prev + if p(bs[i as int]) {
                seq![bs[i as int]]
            } else {
                Seq::<Block>::empty()
            });
        }
        assert(bs.subrange(0, bs.len() as int) =~= bs);
        out
    }

    /// The blocks of kind `t`, the last stored first.
    pub fn list_by_type(&self, t: BlockType) -> (out: Vec<Block>)
        ensures
            same_blocks(out@, newest_blocks_where(self.blocks@, |b: Block| b.block_type == t)),
    {
        let none: Vec<String> = Vec::new();
        let out = self.list_where(BlockQuery::OfType(t), none.as_slice());
        assert((|b: Block| block_query_holds(BlockQuery::OfType(t), Seq::<String>::empty(), b)) =~= (|b: Block| b.block_type == t));
        out
    }

    /// The blocks carrying at least one of `tags`, the last stored first.
    pub fn search_by_tags(&self, tags: &[String]) -> (out: Vec<Block>)
        ensures
            same_blocks(out@, newest_blocks_where(self.blocks@, |b: Block| has_any_tag(b, tags@))),
    {
        let out = self.list_where(BlockQuery::Tagged, tags);
        assert((|b: Block| block_query_holds(BlockQuery::Tagged, tags@, b)) =~= (|b: Block| has_any_tag(b, tags@)));
        out
    }

    /// All blocks, the last stored first.
    pub fn list_all(&self) -> (out: Vec<Block>)
        ensures
            same_blocks(out@, newest_blocks_where(self.blocks@, |b: Block| true)),
    {
        let none: Vec<String> = Vec::new();
        let out = self.list_where(BlockQuery::All, none.as_slice());
        assert((|b: Block| block_query_holds(BlockQuery::All, Seq::<String>::empty(), b)) =~= (|b: Block| true));
        out
    }
}

// ---------------------------------------------------------------------------
// Links
// ---------------------------------------------------------------------------

/// The links of a knowledge base, in the order they were stored.
pub struct EdgeStore {
    pub edges: Vec<Edge>,
}

/// Two sequences of links agree entry by entry.
pub open spec fn same_edges(a: Seq<Edge>, b: Seq<Edge>) -> bool {
    a.len() == b.len() && forall|k: int| 0 <= k < a.len() ==> same_edge(#[trigger] a[k], b[k])
}

/// The links of `es` that satisfy `p`, the last stored first.
pub open spec fn newest_edges_where(es: Seq<Edge>, p: spec_fn(Edge) -> bool) -> Seq<Edge>
    decreases es.len(),
{
    if es.len() == 0 {
        Seq::<Edge>::empty()
    } else {
        newest_edges_where(es.drop_first(), p) + if p(es[0]) {
            seq![es[0]]
        } else {
            Seq::<Edge>::empty()
        }
    }
}

/// The links of `es` that do not satisfy `p`, in order.
pub open spec fn edges_except(es: Seq<Edge>, p: spec_fn(Edge) -> bool) -> Seq<Edge>
    decreases es.len(),
{
    if es.len() == 0 {
        Seq::<Edge>::empty()
    } else {
        (if !p(es[0]) {
            seq![es[0]]
        } else {
            Seq::<Edge>::empty()
        }) + edges_except(es.drop_first(), p)
    }
}

/// The position of the first link with identifier `id`, if any.
pub open spec fn first_edge_with(es: Seq<Edge>, id: u128) -> Option<int> {
    if exists|k: int| 0 <= k < es.len() && es[k].id == id {
        Some(choose|k: int| 0 <= k < es.len() && es[k].id == id && forall|q: int| 0 <= q < k ==> es[q].id != id)
    } else {
        None
    }
}

/// Link `i` of `es` is listed before link `j`: its position comes first, or
/// both have the same position and it was stored first.
pub open spec fn listed_before(es: Seq<Edge>, i: int, j: int) -> bool {
    key_lt(es[i].sequence_weight.key(), es[j].sequence_weight.key()) || (es[i].sequence_weight.key()
        == es[j].sequence_weight.key() && i < j)
}

/// `idx` lists, once each, the positions in `es` of the links that satisfy
/// `p`, ordered by the links' sequence positions and then by storing order.
pub open spec fn weight_order(es: Seq<Edge>, p: spec_fn(Edge) -> bool, idx: Seq<usize>) -> bool {
    &&& forall|k: int| 0 <= k < idx.len() ==> (#[trigger] idx[k]) < es.len() && p(es[idx[k] as int])
    &&& forall|k: int, l: int| 0 <= k < l < idx.len() ==> idx[k] != idx[l]
    &&& forall|j: int| 0 <= j < es.len() && #[trigger] p(es[j]) ==> exists|k: int| 0 <= k < idx.len() && idx[k] == j
    &&& forall|k: int, l: int| 0 <= k < l < idx.len() ==> listed_before(es, #[trigger] idx[k] as int, #[trigger] idx[l] as int)
}

/// The positions of the links of `es` that satisfy `p`, in listing order.
pub open spec fn spine_positions(es: Seq<Edge>, p: spec_fn(Edge) -> bool) -> Seq<usize> {
    choose|idx: Seq<usize>| weight_order(es, p, idx)
}

proof fn lemma_listed_before_asymmetric(es: Seq<Edge>, i: int, j: int)
    requires
        listed_before(es, i, j),
    ensures
        !listed_before(es, j, i),
{
    let ki = es[i].sequence_weight.key();
    let kj = es[j].sequence_weight.key();
    if key_lt(ki, kj) && key_lt(kj, ki) {
        lemma_key_lt_transitive(ki, kj, ki);
        lemma_key_lt_irreflexive(ki);
    }
    if ki == kj {
        lemma_key_lt_irreflexive(ki);
    }
}

proof fn lemma_listing_unique(es: Seq<Edge>, x: Seq<usize>, y: Seq<usize>)
    requires
        forall|k: int, l: int| 0 <= k < l < x.len() ==> listed_before(es, #[trigger] x[k] as int, #[trigger] x[l] as int),
        forall|k: int, l: int| 0 <= k < l < y.len() ==> listed_before(es, #[trigger] y[k] as int, #[trigger] y[l] as int),
        forall|k: int, l: int| 0 <= k < l < x.len() ==> x[k] != x[l],
        forall|k: int, l: int| 0 <= k < l < y.len() ==> y[k] != y[l],
        forall|v: usize| x.contains(v) <==> y.contains(v),
    ensures
        x == y,
    decreases x.len(),
{
    if x.len() == 0 {
        if y.len() > 0 {
            assert(y.contains(y[0]));
        }
        assert(x =~= y);
    } else {
        if y.len() == 0 {
            assert(x.contains(x[0]));
        }
        assert(y.len() > 0);
        if x[0] != y[0] {
            assert(x.contains(y[0])) by {
                assert(y.contains(y[0]));
            }
            assert(y.contains(x[0])) by {
                assert(x.contains(x[0]));
            }
            let i = choose|i: int| 0 <= i < x.len() && x[i] == y[0];
            let j = choose|j: int| 0 <= j < y.len() && y[j] == x[0];
            assert(i > 0);
            assert(j > 0);
            assert(listed_before(es, x[0] as int, x[i] as int));
            assert(listed_before(es, y[0] as int, y[j] as int));
            lemma_listed_before_asymmetric(es, x[0] as int, y[0] as int);
        }
        let x1 = x.drop_first();
        let y1 = y.drop_first();
        assert forall|v: usize| x1.contains(v) <==> y1.contains(v) by {
            if x1.contains(v) {
                let k = choose|k: int| 0 <= k < x1.len() && x1[k] == v;
                assert(x[k + 1] == v);
                assert(x.contains(v));
                assert(v != x[0]);
                let m = choose|m: int| 0 <= m < y.len() && y[m] == v;
                assert(m != 0);
                assert(y1[m - 1] == v);
            }
            if y1.contains(v) {
                let k = choose|k: int| 0 <= k < y1.len() && y1[k] == v;
                assert(y[k + 1] == v);
                assert(y.contains(v));
                assert(v != y[0]);
                let m = choose|m: int| 0 <= m < x.len() && x[m] == v;
                assert(m != 0);
                assert(x1[m - 1] == v);
            }
        }
        assert forall|k: int, l: int| 0 <= k < l < x1.len() implies listed_before(es, #[trigger] x1[k] as int, #[trigger] x1[l] as int) by {
            assert(x1[k] == x[k + 1] && x1[l] == x[l + 1]);
        }
        assert forall|k: int, l: int| 0 <= k < l < y1.len() implies listed_before(es, #[trigger] y1[k] as int, #[trigger] y1[l] as int) by {
            assert(y1[k] == y[k + 1] && y1[l] == y[l + 1]);
        }
        lemma_listing_unique(es, x1, y1);
        assert(x =~= y) by {
            assert forall|k: int| 0 <= k < x.len() implies x[k] == y[k] by {
                if k > 0 {
                    assert(x[k] == x1[k - 1]);
                    assert(y[k] == y1[k - 1]);
                }
            }
        }
    }
}

/// The listing order is unique: any listing of the links satisfying `p` in
/// that order is the one [`spine_positions`] names.
pub proof fn lemma_weight_order_unique(es: Seq<Edge>, p: spec_fn(Edge) -> bool, idx: Seq<usize>)
    requires
        weight_order(es, p, idx),
    ensures
        idx == spine_positions(es, p),
{
    let other = spine_positions(es, p);
    assert(weight_order(es, p, other));
    assert forall|v: usize| idx.contains(v) <==> other.contains(v) by {
        if idx.contains(v) {
            let k = choose|k: int| 0 <= k < idx.len() && idx[k] == v;
            assert(v < es.len() && p(es[v as int]));
        }
        if other.contains(v) {
            let k = choose|k: int| 0 <= k < other.len() && other[k] == v;
            assert(v < es.len() && p(es[v as int]));
        }
    }
    lemma_listing_unique(es, idx, other);
}

/// `out` holds copies of the links of `es` at positions `idx`, in order.
pub open spec fn links_at(out: Seq<Edge>, es: Seq<Edge>, idx: Seq<usize>) -> bool {
    idx.len() == out.len() && forall|k: int| 0 <= k < out.len() ==> same_edge(#[trigger] out[k], es[idx[k] as int])
}

/// A link from `parent` that places a block in a table of contents: next,
/// section-of or ordered-child.
pub open spec fn toc_link_from(parent: u128, e: Edge) -> bool {
    e.from == parent && (e.link_type == LinkType::Next || e.link_type == LinkType::SectionOf || e.link_type
        == LinkType::OrderedChild)
}

/// A link from `parent` along the structural spine: next or next-sibling.
pub open spec fn spine_link_from(parent: u128, e: Edge) -> bool {
    e.from == parent && (e.link_type == LinkType::Next || e.link_type == LinkType::NextSibling)
}

/// Which links a removal or a listing concerns.
enum EdgeSelector {
    Id(u128),
    Between(u128, u128),
    From(u128),
    To(u128),
    Touching(u128),
    OfType(LinkType),
    TocFrom(u128),
    SpineFrom(u128),
    Every,
}

spec fn selects(s: EdgeSelector, e: Edge) -> bool {
    match s {
        EdgeSelector::Id(id) => e.id == id,
        EdgeSelector::Between(a, b) => e.from == a && e.to == b,
        EdgeSelector::From(a) => e.from == a,
        EdgeSelector::To(b) => e.to == b,
        EdgeSelector::Touching(x) => e.from == x || e.to == x,
        EdgeSelector::OfType(t) => e.link_type == t,
        EdgeSelector::TocFrom(a) => toc_link_from(a, e),
        EdgeSelector::SpineFrom(a) => spine_link_from(a, e),
        EdgeSelector::Every => true,
    }
}

fn selected(s: &EdgeSelector, e: &Edge) -> (r: bool)
    ensures
        r == selects(*s, *e),
{
    match s {
        EdgeSelector::Id(id) => e.id == *id,
        EdgeSelector::Between(a, b) => e.from == *a && e.to == *b,
        EdgeSelector::From(a) => e.from == *a,
        EdgeSelector::To(b) => e.to == *b,
        EdgeSelector::Touching(x) => e.from == *x || e.to == *x,
        EdgeSelector::OfType(t) => e.link_type == *t,
        EdgeSelector::TocFrom(a) => e.from == *a && (e.link_type.is_toc_link()),
        EdgeSelector::SpineFrom(a) => e.from == *a && (e.link_type.is_sequence_link()),
        EdgeSelector::Every => true,
    }
}

proof fn lemma_edges_suffix_step(es: Seq<Edge>, i: int)
    requires
        0 <= i < es.len(),
    ensures
        es.subrange(i, es.len() as int).drop_first() == es.subrange(i + 1, es.len() as int),
        es.subrange(i, es.len() as int)[0] == es[i],
{
    assert(es.subrange(i, es.len() as int).drop_first() =~= es.subrange(i + 1, es.len() as int));
}

/// Whether some link of `es` has identifier `id`.
pub open spec fn holds_edge(es: Seq<Edge>, id: u128) -> bool {
    exists|k: int| 0 <= k < es.len() && es[k].id == id
}

/// The store and the counts of imported and skipped links after importing
/// the first `n` links of `incoming` into `existing`, skipping links whose
/// identifier is already stored.
pub open spec fn edge_import(existing: Seq<Edge>, incoming: Seq<Edge>, n: nat) -> (Seq<Edge>, nat, nat)
    decreases n,
{
    if n == 0 {
        (existing, 0, 0)
    } else {
        let (s, imported, skipped) = edge_import(existing, incoming, (n - 1) as nat);
        let e = incoming[n - 1];
        if holds_edge(s, e.id) {
            (s, imported, skipped + 1)
        } else {
            (s.push(e), imported + 1, skipped)
        }
    }
}

/// Every link is either imported or skipped.
pub proof fn lemma_edge_import_accounts(existing: Seq<Edge>, incoming: Seq<Edge>, n: nat)
    requires
        n <= incoming.len(),
    ensures
        edge_import(existing, incoming, n).1 + edge_import(existing, incoming, n).2 == n,
        edge_import(existing, incoming, n).0.len() == existing.len() + edge_import(existing, incoming, n).1,
    decreases n,
{
    if n > 0 {
        lemma_edge_import_accounts(existing, incoming, (n - 1) as nat);
    }
}

impl EdgeStore {
    /// An empty store.
    pub fn new() -> (s: EdgeStore)
        ensures
            s.edges@.len() == 0,
    {
        EdgeStore { edges: Vec::new() }
    }

    /// Stores a link.
    pub fn create(&mut self, edge: Edge)
        ensures
            final(self).edges@ == old(self).edges@.push(edge),
    {
        self.edges.push(edge);
    }

    /// The first stored link with identifier `id`.
    pub fn get(&self, id: u128) -> (r: Option<Edge>)
        ensures
            match r {
                Some(e) => first_edge_with(self.edges@, id) matches Some(k) && same_edge(e, self.edges@[k]),
                None => first_edge_with(self.edges@, id) is None,
            },
    {
        let mut k: usize = 0;
        while k < self.edges.len()
            invariant
                k <= self.edges@.len(),
                forall|q: int| 0 <= q < k ==> self.edges@[q].id != id,
            decreases self.edges@.len() - k,
        {
            if self.edges[k].id == id {
                let ghost es = self.edges@;
                proof {
                    let f = choose|f: int| 0 <= f < es.len() && es[f].id == id && forall|q: int| 0 <= q < f ==> es[q].id != id;
                    if f > k {
                        assert(es[k as int].id == id);
                    }
                }
                return Some(self.edges[k].copy_edge());
            }
            k = k + 1;
        }
        None
    }

    /// Whether a link with identifier `id` is stored.
    pub fn contains(&self, id: u128) -> (b: bool)
        ensures
            b == holds_edge(self.edges@, id),
    {
        let mut k: usize = 0;
        while k < self.edges.len()
            invariant
                k <= self.edges@.len(),
                forall|q: int| 0 <= q < k ==> self.edges@[q].id != id,
            decreases self.edges@.len() - k,
        {
            if self.edges[k].id == id {
                return true;
            }
            k = k + 1;
        }
        false
    }

    /// Imports links, skipping those whose identifier is already stored
    /// (see [`edge_import`]); returns the numbers imported and skipped.
    pub fn import_edges(&mut self, incoming: Vec<Edge>) -> (counts: (usize, usize))
        ensures
            final(self).edges@ == edge_import(old(self).edges@, incoming@, incoming@.len()).0,
            counts.0 == edge_import(old(self).edges@, incoming@, incoming@.len()).1,
            counts.1 == edge_import(old(self).edges@, incoming@, incoming@.len()).2,
    {
        let ghost start = self.edges@;
        let ghost all = incoming@;
        let mut rest = incoming;
        let total = rest.len();
        let mut imported: usize = 0;
        let mut skipped: usize = 0;
        let mut n: usize = 0;
        assert(all.subrange(0, all.len() as int) =~= all);
        while rest.len() > 0
            invariant
                n <= all.len(),
                all.len() == total,
                rest@ == all.subrange(n as int, all.len() as int),
                self.edges@ == edge_import(start, all, n as nat).0,
                imported == edge_import(start, all, n as nat).1,
                skipped == edge_import(start, all, n as nat).2,
                imported + skipped == n,
            decreases rest@.len(),
        {
            proof {
                lemma_edge_import_accounts(start, all, n as nat);
            }
            let e = rest.remove(0);
            assert(e == all[n as int]);
            if self.contains(e.id) {
                skipped = skipped + 1;
            } else {
                self.edges.push(e);
                imported = imported + 1;
            }
            n = n + 1;
            assert(rest@ =~= all.subrange(n as int, all.len() as int));
        }
        (imported, skipped)
    }

    /// Rewrites every link with the identifier of `edge` to its endpoints,
    /// kind, position and context.
    pub fn update(&mut self, edge: Edge)
        ensures
            final(self).edges@.len() == old(self).edges@.len(),
            forall|k: int| 0 <= k < old(self).edges@.len() ==> if old(self).edges@[k].id == edge.id {
                same_edge(#[trigger] final(self).edges@[k], edge)
            } else {
                final(self).edges@[k] == old(self).edges@[k]
            },
    {
        let ghost before = self.edges@;
        let mut k: usize = 0;
        while k < self.edges.len()
            invariant
                k <= self.edges@.len(),
                self.edges@.len() == before.len(),
                forall|q: int| 0 <= q < before.len() ==> if before[q].id == edge.id && q < k {
                    same_edge(#[trigger] self.edges@[q], edge)
                } else {
                    self.edges@[q] == before[q]
                },
            decreases self.edges@.len() - k,
        {
            if self.edges[k].id == edge.id {
                let c = edge.copy_edge();
                self.edges.set(k, c);
            }
            k = k + 1;
        }
    }

    fn remove_where(&mut self, sel: EdgeSelector)
        ensures
            final(self).edges@ == edges_except(old(self).edges@, |e: Edge| selects(sel, e)),
    {
        let ghost p = |e: Edge| selects(sel, e);
        let ghost before = self.edges@;
        let mut i: usize = self.edges.len();
        assert(before.subrange(i as int, before.len() as int) =~= Seq::<Edge>::empty());
        assert(before.subrange(0, i as int) =~= before);
        while i > 0
            invariant
                i <= before.len(),
                p == (|e: Edge| selects(sel, e)),
                self.edges@ == before.subrange(0, i as int) + edges_except(before.subrange(i as int, before.len() as int), p),
            decreases i,
        {
            proof {
                lemma_edges_suffix_step(before, i - 1);
            }
            let ghost tail = edges_except(before.subrange(i as int, before.len() as int), p);
            if selected(&sel, &self.edges[i - 1]) {
                self.edges.remove(i - 1);
                assert(self.edges@ =~= before.subrange(0, i - 1) + tail);
            } else {
                assert(before.subrange(0, i as int) =~= before.subrange(0, i - 1) + seq![before[i - 1]]);
                assert(self.edges@ =~= before.subrange(0, i - 1) + (seq![before[i - 1]] + tail));
            }
            i = i - 1;
        }
        assert(before.subrange(0, before.len() as int) =~= before);
    }

    /// Removes the links with identifier `id`.
    pub fn delete(&mut self, id: u128)
        ensures
            final(self).edges@ == edges_except(old(self).edges@, |e: Edge| e.id == id),
    {
        self.remove_where(EdgeSelector::Id(id));
        assert((|e: Edge| selects(EdgeSelector::Id(id), e)) =~= (|e: Edge| e.id == id));
    }

    /// Removes the links from `source` to `target`.
    pub fn delete_by_source_target(&mut self, source: u128, target: u128)
        ensures
            final(self).edges@ == edges_except(old(self).edges@, |e: Edge| e.from == source && e.to == target),
    {
        self.remove_where(EdgeSelector::Between(source, target));
        assert((|e: Edge| selects(EdgeSelector::Between(source, target), e)) =~= (|e: Edge| e.from == source && e.to
            == target));
    }

    /// Removes the links from `source`.
    pub fn delete_all_from(&mut self, source: u128)
        ensures
            final(self).edges@ == edges_except(old(self).edges@, |e: Edge| e.from == source),
    {
        self.remove_where(EdgeSelector::From(source));
        assert((|e: Edge| selects(EdgeSelector::From(source), e)) =~= (|e: Edge| e.from == source));
    }

    /// Removes the links to `target`.
    pub fn delete_all_to(&mut self, target: u128)
        ensures
            final(self).edges@ == edges_except(old(self).edges@, |e: Edge| e.to == target),
    {
        self.remove_where(EdgeSelector::To(target));
        assert((|e: Edge| selects(EdgeSelector::To(target), e)) =~= (|e: Edge| e.to == target));
    }

    /// Removes the links from or to `block_id`.
    pub fn delete_for_block(&mut self, block_id: u128)
        ensures
            final(self).edges@ == edges_except(old(self).edges@, |e: Edge| e.from == block_id || e.to == block_id),
    {
        self.remove_where(EdgeSelector::Touching(block_id));
        assert((|e: Edge| selects(EdgeSelector::Touching(block_id), e)) =~= (|e: Edge| e.from == block_id || e.to
            == block_id));
    }

    fn newest_where(&self, sel: EdgeSelector) -> (out: Vec<Edge>)
        ensures
            same_edges(out@, newest_edges_where(self.edges@, |e: Edge| selects(sel, e))),
    {
        let ghost p = |e: Edge| selects(sel, e);
        let ghost es = self.edges@;
        let mut out: Vec<Edge> = Vec::new();
        let mut i: usize = self.edges.len();
        while i > 0
            invariant
                i <= es.len(),
                es == self.edges@,
                p == (|e: Edge| selects(sel, e)),
                same_edges(out@, newest_edges_where(es.subrange(i as int, es.len() as int), p)),
            decreases i,
        {
            proof {
                lemma_edges_suffix_step(es, i - 1);
            }
            let ghost prev = newest_edges_where(es.subrange(i as int, es.len() as int), p);
            if selected(&sel, &self.edges[i - 1]) {
                out.push(self.edges[i - 1].copy_edge());
            }
            i = i - 1;
            assert(newest_edges_where(es.subrange(i as int, es.len() as int), p) == prev + if p(es[i as int]) {
                seq![es[i as int]]
            } else {
                Seq::<Edge>::empty()
            });
        }
        assert(es.subrange(0, es.len() as int) =~= es);
        out
    }

    /// The links to `block_id`, the last stored first.
    pub fn incoming_to(&self, block_id: u128) -> (out: Vec<Edge>)
        ensures
            same_edges(out@, newest_edges_where(self.edges@, |e: Edge| e.to == block_id)),
    {
        let out = self.newest_where(EdgeSelector::To(block_id));
        assert((|e: Edge| selects(EdgeSelector::To(block_id), e)) =~= (|e: Edge| e.to == block_id));
        out
    }

    /// All links, the last stored first.
    pub fn list_all(&self) -> (out: Vec<Edge>)
        ensures
            same_edges(out@, newest_edges_where(self.edges@, |e: Edge| true)),
    {
        let out = self.newest_where(EdgeSelector::Every);
        assert((|e: Edge| selects(EdgeSelector::Every, e)) =~= (|e: Edge| true));
        out
    }

    fn positions_by_weight(&self, sel: EdgeSelector) -> (idx: Vec<usize>)
        ensures
            weight_order(self.edges@, |e: Edge| selects(sel, e), idx@),
    {
        let ghost p = |e: Edge| selects(sel, e);
        let ghost es = self.edges@;
        let mut idx: Vec<usize> = Vec::new();
        let mut i: usize = 0;
        while i < self.edges.len()
            invariant
                i <= es.len(),
                es == self.edges@,
                p == (|e: Edge| selects(sel, e)),
                forall|k: int| 0 <= k < idx@.len() ==> (#[trigger] idx@[k]) < i && p(es[idx@[k] as int]),
                forall|k: int, l: int| 0 <= k < l < idx@.len() ==> idx@[k] != idx@[l],
                forall|j: int| 0 <= j < i && #[trigger] p(es[j]) ==> exists|k: int| 0 <= k < idx@.len() && idx@[k] == j,
                forall|k: int, l: int| 0 <= k < l < idx@.len() ==> listed_before(es, #[trigger] idx@[k] as int, #[trigger] idx@[l] as int),
            decreases es.len() - i,
        {
            if selected(&sel, &self.edges[i]) {
                let w = &self.edges[i].sequence_weight;
                let mut pos: usize = 0;
                while pos < idx.len() && !w.precedes(&self.edges[idx[pos]].sequence_weight)
                    invariant
                        pos <= idx@.len(),
                        i < es.len(),
                        es == self.edges@,
                        *w == es[i as int].sequence_weight,
                        forall|k: int| 0 <= k < idx@.len() ==> (#[trigger] idx@[k]) < i,
                        forall|k: int| 0 <= k < pos ==> !key_lt(
                            w.key(),
                            es[(#[trigger] idx@[k]) as int].sequence_weight.key(),
                        ),
                    decreases idx@.len() - pos,
                {
                    pos = pos + 1;
                }
                let ghost old_idx = idx@;
                let ghost wk = es[i as int].sequence_weight.key();
                proof {
                    if pos < old_idx.len() {
                        assert(key_lt(wk, es[old_idx[pos as int] as int].sequence_weight.key()));
                    }
                }
                idx.insert(pos, i);
                proof {
                    old_idx.insert_ensures(pos as int, i);
                    assert forall|k: int| 0 <= k < idx@.len() implies (#[trigger] idx@[k]) < i + 1 && p(es[idx@[k] as int]) by {
                        if k < pos {
                            assert(idx@[k] == old_idx[k]);
                        } else if k > pos {
                            assert(idx@[k] == old_idx[k - 1]);
                        }
                    }
                    assert forall|k: int, l: int| 0 <= k < l < idx@.len() implies idx@[k] != idx@[l] by {
                        if k < pos {
                            assert(idx@[k] == old_idx[k]);
                        } else if k > pos {
                            assert(idx@[k] == old_idx[k - 1]);
                        }
                        if l < pos {
                            assert(idx@[l] == old_idx[l]);
                        } else if l > pos {
                            assert(idx@[l] == old_idx[l - 1]);
                        }
                    }
                    assert forall|j: int| 0 <= j < i + 1 && #[trigger] p(es[j]) implies exists|k: int|
                        0 <= k < idx@.len() && idx@[k] == j by {
                        if j < i {
                            let k = choose|k: int| 0 <= k < old_idx.len() && old_idx[k] == j;
                            if k < pos {
                                assert(idx@[k] == j);
                            } else {
                                assert(idx@[k + 1] == j);
                            }
                        } else {
                            assert(idx@[pos as int] == j);
                        }
                    }
                    assert forall|k: int, l: int| 0 <= k < l < idx@.len() implies listed_before(es, #[trigger] idx@[k] as int, #[trigger] idx@[l] as int) by {
                        let kk = if k < pos { k } else { k - 1 };
                        let ll = if l < pos { l } else { l - 1 };
                        if k < pos {
                            assert(idx@[k] == old_idx[k]);
                        } else if k > pos {
                            assert(idx@[k] == old_idx[k - 1]);
                        }
                        if l < pos {
                            assert(idx@[l] == old_idx[l]);
                        } else if l > pos {
                            assert(idx@[l] == old_idx[l - 1]);
                        }
                        if k == pos {
                            // the new link comes before every later one
                            let later = es[old_idx[ll] as int].sequence_weight.key();
                            let first_after = es[old_idx[pos as int] as int].sequence_weight.key();
                            assert(key_lt(wk, first_after));
                            if ll > pos {
                                assert(listed_before(es, old_idx[pos as int] as int, old_idx[ll] as int));
                                if key_lt(first_after, later) {
                                    lemma_key_lt_transitive(wk, first_after, later);
                                }
                            }
                            assert(key_lt(wk, later));
                        } else if l == pos {
                            let earlier = es[old_idx[kk] as int].sequence_weight.key();
                            assert(!key_lt(wk, earlier));
                            if earlier != wk {
                                lemma_key_lt_total(earlier, wk);
                            }
                        } else {
                            assert(listed_before(es, old_idx[kk] as int, old_idx[ll] as int));
                        }
                    }
                }
            }
            i = i + 1;
        }
        idx
    }

    /// The positions of the table-of-contents links from `parent`, in
    /// listing order.
    pub fn toc_positions(&self, parent: u128) -> (idx: Vec<usize>)
        ensures
            idx@ == spine_positions(self.edges@, |e: Edge| toc_link_from(parent, e)),
            weight_order(self.edges@, |e: Edge| toc_link_from(parent, e), idx@),
    {
        let idx = self.positions_by_weight(EdgeSelector::TocFrom(parent));
        assert((|e: Edge| selects(EdgeSelector::TocFrom(parent), e)) =~= (|e: Edge| toc_link_from(parent, e)));
        proof {
            lemma_weight_order_unique(self.edges@, |e: Edge| toc_link_from(parent, e), idx@);
        }
        idx
    }

    /// The positions of the spine links from `parent`, in listing order.
    pub fn spine_positions_from(&self, parent: u128) -> (idx: Vec<usize>)
        ensures
            idx@ == spine_positions(self.edges@, |e: Edge| spine_link_from(parent, e)),
            weight_order(self.edges@, |e: Edge| spine_link_from(parent, e), idx@),
    {
        let idx = self.positions_by_weight(EdgeSelector::SpineFrom(parent));
        assert((|e: Edge| selects(EdgeSelector::SpineFrom(parent), e)) =~= (|e: Edge| spine_link_from(parent, e)));
        proof {
            lemma_weight_order_unique(self.edges@, |e: Edge| spine_link_from(parent, e), idx@);
        }
        idx
    }

    fn weight_ordered(&self, sel: EdgeSelector) -> (out: Vec<Edge>)
        ensures
            links_at(out@, self.edges@, spine_positions(self.edges@, |e: Edge| selects(sel, e))),
    {
        let idx = self.positions_by_weight(sel);
        proof {
            lemma_weight_order_unique(self.edges@, |e: Edge| selects(sel, e), idx@);
        }
        let mut out: Vec<Edge> = Vec::new();
        let mut k: usize = 0;
        while k < idx.len()
            invariant
                k <= idx@.len(),
                weight_order(self.edges@, |e: Edge| selects(sel, e), idx@),
                out@.len() == k,
                forall|q: int| 0 <= q < k ==> same_edge(#[trigger] out@[q], self.edges@[idx@[q] as int]),
            decreases idx@.len() - k,
        {
            assert(idx@[k as int] < self.edges@.len());
            out.push(self.edges[idx[k]].copy_edge());
            k = k + 1;
        }
        out
    }

    /// The links from `block_id`, in the order of their positions.
    pub fn outgoing_from(&self, block_id: u128) -> (out: Vec<Edge>)
        ensures
            links_at(out@, self.edges@, spine_positions(self.edges@, |e: Edge| e.from == block_id)),
    {
        let out = self.weight_ordered(EdgeSelector::From(block_id));
        assert((|e: Edge| selects(EdgeSelector::From(block_id), e)) =~= (|e: Edge| e.from == block_id));
        out
    }

    /// The links of kind `link_type`, in the order of their positions.
    pub fn list_by_type(&self, link_type: LinkType) -> (out: Vec<Edge>)
        ensures
            links_at(out@, self.edges@, spine_positions(self.edges@, |e: Edge| e.link_type == link_type)),
    {
        let out = self.weight_ordered(EdgeSelector::OfType(link_type));
        assert((|e: Edge| selects(EdgeSelector::OfType(link_type), e)) =~= (|e: Edge| e.link_type == link_type));
        out
    }
}

} // verus!
