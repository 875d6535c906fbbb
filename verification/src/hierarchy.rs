//! The block hierarchy named by `parent_section` metadata, and the walk that
//! finds circular references in it.
//!
//! Every block may name a parent. Following parents from a block gives a path
//! that either stops (no parent, a parent that is the block itself, or a
//! parent that is not a block) or runs into a cycle. Blocks are indexed by
//! their distinct identifiers in order of first appearance.

use vstd::prelude::*;
use crate::block::{meta_get, meta_lookup, Block};
use crate::ids::{decode_ulid, ulid_decode};
use crate::text::{byte_len, byte_length};

verus! {

/// The parent a block names: the text under `parent_section`, when it
/// decodes as a ULID.
pub open spec fn block_parent(b: Block) -> Option<u128> {
    match meta_get(b.metadata@, "parent_section"@) {
        Some(Some(t)) => ulid_decode(t),
        _ => None,
    }
}

/// The parent recorded for identifier `id`: that of the last block with this
/// identifier that names one.
pub open spec fn parent_of(bs: Seq<Block>, id: u128) -> Option<u128>
    decreases bs.len(),
{
    if bs.len() == 0 {
        None
    } else if bs.last().id == id && block_parent(bs.last()) is Some {
        block_parent(bs.last())
    } else {
        parent_of(bs.drop_last(), id)
    }
}

/// Whether some block has identifier `id`.
pub open spec fn has_block(bs: Seq<Block>, id: u128) -> bool {
    exists|j: int| 0 <= j < bs.len() && #[trigger] bs[j].id == id
}

/// The distinct identifiers of the blocks, in order of first appearance.
pub open spec fn distinct_ids(bs: Seq<Block>) -> Seq<u128>
    decreases bs.len(),
{
    if bs.len() == 0 {
        seq![]
    } else {
        let d = distinct_ids(bs.drop_last());
        if d.contains(bs.last().id) {
            d
        } else {
            d.push(bs.last().id)
        }
    }
}

/// The position of the first occurrence of `x` in `ds` (`ds.len()` when
/// there is none).
pub open spec fn index_in(ds: Seq<u128>, x: u128) -> int
    decreases ds.len(),
{
    if ds.len() == 0 {
        0
    } else if ds[0] == x {
        0
    } else {
        1 + index_in(ds.drop_first(), x)
    }
}

/// The index of the block that identifier `id` resolves to: the last one
/// with that identifier.
pub open spec fn last_index(bs: Seq<Block>, id: u128) -> int
    decreases bs.len(),
{
    if bs.len() == 0 {
        -1
    } else if bs.last().id == id {
        bs.len() - 1
    } else {
        last_index(bs.drop_last(), id)
    }
}

/// The step of the walk from distinct identifier number `k`: the number of
/// its parent, unless it has none, names itself, or names no block.
pub open spec fn next_of(bs: Seq<Block>, ds: Seq<u128>, k: int) -> Option<usize> {
    match parent_of(bs, ds[k]) {
        Some(p) => if p != ds[k] && index_in(ds, p) < ds.len() {
            Some(index_in(ds, p) as usize)
        } else {
            None
        },
        None => None,
    }
}

/// The steps of the walk, one per distinct identifier.
pub open spec fn next_table(bs: Seq<Block>) -> Seq<Option<usize>> {
    let ds = distinct_ids(bs);
    Seq::new(ds.len(), |k: int| next_of(bs, ds, k))
}

/// For each block, the number of its identifier.
pub open spec fn root_table(bs: Seq<Block>) -> Seq<usize> {
    let ds = distinct_ids(bs);
    Seq::new(bs.len(), |i: int| index_in(ds, bs[i].id) as usize)
}

/// The node reached after `k` steps from `x`.
pub open spec fn iter_next(nxt: Seq<Option<usize>>, x: int, k: nat) -> Option<int>
    decreases k,
{
    if k == 0 {
        Some(x)
    } else {
        match iter_next(nxt, x, (k - 1) as nat) {
            Some(z) => if 0 <= z < nxt.len() {
                match nxt[z] {
                    Some(y) => Some(y as int),
                    None => None,
                }
            } else {
                None
            },
            None => None,
        }
    }
}

/// The number of unmarked nodes.
pub open spec fn unmarked(mark: Seq<int>) -> nat
    decreases mark.len(),
{
    if mark.len() == 0 {
        0
    } else {
        unmarked(mark.drop_last()) + if mark.last() == 0 {
            1nat
        } else {
            0nat
        }
    }
}

/// Marking an unmarked node leaves one fewer unmarked.
pub proof fn lemma_unmarked_update(mark: Seq<int>, y: int, tag: int)
    requires
        0 <= y < mark.len(),
        mark[y] == 0,
        tag != 0,
    ensures
        unmarked(mark.update(y, tag)) + 1 == unmarked(mark),
    decreases mark.len(),
{
    let m2 = mark.update(y, tag);
    if y == mark.len() - 1 {
        assert(m2.drop_last() =~= mark.drop_last());
    } else {
        assert(m2.drop_last() =~= mark.drop_last().update(y, tag));
        lemma_unmarked_update(mark.drop_last(), y, tag);
    }
}

/// One walk from node `x`, marking the nodes it reaches with `tag`. It stops
/// at a node without a step, or at the first step to a marked node; that
/// step, when the marked node carries `tag` (it was reached by this very
/// walk), closes a cycle and is returned. Also returned are the new marks.
pub open spec fn walk(nxt: Seq<Option<usize>>, mark: Seq<int>, tag: int, x: int) -> (Seq<int>, Option<(usize, usize)>)
    decreases unmarked(mark),
{
    if 0 <= x < nxt.len() && tag != 0 {
        match nxt[x] {
            Some(y) => if y < mark.len() {
                if mark[y as int] == 0 {
                    proof {
                        lemma_unmarked_update(mark, y as int, tag);
                    }
                    walk(nxt, mark.update(y as int, tag), tag, y as int)
                } else if mark[y as int] == tag {
                    (mark, Some((x as usize, y)))
                } else {
                    (mark, None)
                }
            } else {
                (mark, None)
            },
            None => (mark, None),
        }
    } else {
        (mark, None)
    }
}

/// Walks from each root in turn that no earlier walk has marked, tagging
/// the walk from root number `i` with `i + 1`; the cycle-closing steps found,
/// in order.
pub open spec fn scan(nxt: Seq<Option<usize>>, roots: Seq<usize>, i: int, mark: Seq<int>) -> Seq<(usize, usize)>
    decreases roots.len() - i,
{
    if i < 0 || i >= roots.len() {
        seq![]
    } else {
        let r = roots[i] as int;
        if r >= mark.len() || mark[r] != 0 {
            scan(nxt, roots, i + 1, mark)
        } else {
            let (m2, found) = walk(nxt, mark.update(r, i + 1), i + 1, r);
            let rest = scan(nxt, roots, i + 1, m2);
            match found {
                Some(e) => seq![e] + rest,
                None => rest,
            }
        }
    }
}

/// All nodes unmarked.
pub open spec fn no_marks(n: nat) -> Seq<int> {
    Seq::new(n, |k: int| 0int)
}

/// The cycle-closing steps of the hierarchy, as pairs of identifier numbers.
pub open spec fn cycle_steps(bs: Seq<Block>) -> Seq<(usize, usize)> {
    scan(next_table(bs), root_table(bs), 0, no_marks(distinct_ids(bs).len()))
}

// ---------------------------------------------------------------------------
// Facts about the identifier table
// ---------------------------------------------------------------------------

proof fn lemma_distinct_ids(bs: Seq<Block>)
    ensures
        forall|a: int, b: int| 0 <= a < b < distinct_ids(bs).len() ==> distinct_ids(bs)[a] != distinct_ids(bs)[b],
        forall|j: int| 0 <= j < bs.len() ==> distinct_ids(bs).contains(#[trigger] bs[j].id),
        forall|k: int| 0 <= k < distinct_ids(bs).len() ==> has_block(bs, #[trigger] distinct_ids(bs)[k]),
        distinct_ids(bs).len() <= bs.len(),
    decreases bs.len(),
{
    if bs.len() > 0 {
        let pre = bs.drop_last();
        lemma_distinct_ids(pre);
        let d = distinct_ids(pre);
        let ds = distinct_ids(bs);
        assert forall|j: int| 0 <= j < bs.len() implies ds.contains(#[trigger] bs[j].id) by {
            if j < bs.len() - 1 {
                assert(pre[j] == bs[j]);
                assert(d.contains(pre[j].id));
                if !d.contains(bs.last().id) {
                    let w = choose|w: int| 0 <= w < d.len() && d[w] == pre[j].id;
                    assert(ds[w] == d[w]);
                }
            } else {
                if !d.contains(bs.last().id) {
                    assert(ds[d.len() as int] == bs.last().id);
                }
            }
        }
        assert forall|k: int| 0 <= k < ds.len() implies has_block(bs, #[trigger] ds[k]) by {
            if k < d.len() {
                assert(ds[k] == d[k]);
                assert(has_block(pre, d[k]));
                let j = choose|j: int| 0 <= j < pre.len() && #[trigger] pre[j].id == d[k];
                assert(bs[j] == pre[j]);
            } else {
                assert(bs[bs.len() - 1].id == ds[k]);
            }
        }
    }
}

proof fn lemma_index_in(ds: Seq<u128>, x: u128)
    ensures
        0 <= index_in(ds, x) <= ds.len(),
        index_in(ds, x) < ds.len() <==> ds.contains(x),
        index_in(ds, x) < ds.len() ==> ds[index_in(ds, x)] == x,
        forall|j: int| 0 <= j < index_in(ds, x) ==> ds[j] != x,
    decreases ds.len(),
{
    if ds.len() > 0 {
        lemma_index_in(ds.drop_first(), x);
        if ds[0] != x {
            assert forall|j: int| 0 <= j < index_in(ds, x) implies ds[j] != x by {
                if j > 0 {
                    assert(ds[j] == ds.drop_first()[j - 1]);
                }
            }
            if ds.contains(x) {
                let w = choose|w: int| 0 <= w < ds.len() && ds[w] == x;
                assert(ds.drop_first()[w - 1] == x);
            }
            if ds.drop_first().contains(x) {
                let w = choose|w: int| 0 <= w < ds.drop_first().len() && ds.drop_first()[w] == x;
                assert(ds[w + 1] == x);
            }
        }
    }
}

proof fn lemma_has_block_contains(bs: Seq<Block>, x: u128)
    ensures
        has_block(bs, x) <==> distinct_ids(bs).contains(x),
{
    lemma_distinct_ids(bs);
    if has_block(bs, x) {
        let j = choose|j: int| 0 <= j < bs.len() && #[trigger] bs[j].id == x;
        assert(distinct_ids(bs).contains(bs[j].id));
    }
    if distinct_ids(bs).contains(x) {
        let k = choose|k: int| 0 <= k < distinct_ids(bs).len() && distinct_ids(bs)[k] == x;
        assert(has_block(bs, distinct_ids(bs)[k]));
    }
}

// ---------------------------------------------------------------------------
// Building the table
// ---------------------------------------------------------------------------

/// Reads the parent a block names.
pub fn read_parent(b: &Block) -> (r: Option<u128>)
    ensures
        r == block_parent(*b),
{
    match meta_lookup(&b.metadata, "parent_section") {
        Some(Some(t)) => decode_ulid(t.as_str()),
        _ => None,
    }
}

/// The position of `x` in `ids`, if it occurs.
pub fn position_of(ids: &Vec<u128>, x: u128) -> (r: Option<usize>)
    ensures
        r == (if index_in(ids@, x) < ids@.len() {
            Some(index_in(ids@, x) as usize)
        } else {
            None::<usize>
        }),
{
    proof {
        lemma_index_in(ids@, x);
    }
    let mut k: usize = 0;
    while k < ids.len()
        invariant
            k <= ids@.len(),
            forall|j: int| 0 <= j < k ==> ids@[j] != x,
            0 <= index_in(ids@, x) <= ids@.len(),
            index_in(ids@, x) < ids@.len() ==> ids@[index_in(ids@, x)] == x,
            forall|j: int| 0 <= j < index_in(ids@, x) ==> ids@[j] != x,
        decreases ids@.len() - k,
    {
        if ids[k] == x {
            return Some(k);
        }
        k = k + 1;
    }
    None
}

/// The identifier table of a list of blocks.
pub struct ParentTable {
    /// The distinct identifiers, in order of first appearance.
    pub ids: Vec<u128>,
    /// The parent recorded for each identifier.
    pub parents: Vec<Option<u128>>,
    /// For each identifier, the index of the last block that has it.
    pub last: Vec<usize>,
}

/// Whether `t` is the identifier table of `bs`.
pub open spec fn table_of(t: ParentTable, bs: Seq<Block>) -> bool {
    &&& t.ids@ == distinct_ids(bs)
    &&& t.parents@.len() == t.ids@.len()
    &&& t.last@.len() == t.ids@.len()
    &&& forall|k: int| 0 <= k < t.ids@.len() ==> #[trigger] t.parents@[k] == parent_of(bs, t.ids@[k])
    &&& forall|k: int| 0 <= k < t.ids@.len() ==> #[trigger] t.last@[k] as int == last_index(bs, t.ids@[k])
}

proof fn lemma_last_index(bs: Seq<Block>, id: u128)
    requires
        has_block(bs, id),
    ensures
        0 <= last_index(bs, id) < bs.len(),
        bs[last_index(bs, id)].id == id,
    decreases bs.len(),
{
    if bs.last().id != id {
        let j = choose|j: int| 0 <= j < bs.len() && #[trigger] bs[j].id == id;
        assert(bs.drop_last()[j] == bs[j]);
        lemma_last_index(bs.drop_last(), id);
    }
}

proof fn lemma_push_facts(pre: Seq<Block>, b: Block)
    ensures
        forall|d: u128| #[trigger] parent_of(pre.push(b), d) == (if b.id == d && block_parent(b) is Some {
            block_parent(b)
        } else {
            parent_of(pre, d)
        }),
        forall|d: u128| #[trigger] last_index(pre.push(b), d) == (if b.id == d {
            pre.len() as int
        } else {
            last_index(pre, d)
        }),
        distinct_ids(pre.push(b)) == (if distinct_ids(pre).contains(b.id) {
            distinct_ids(pre)
        } else {
            distinct_ids(pre).push(b.id)
        }),
{
    assert(pre.push(b).drop_last() =~= pre);
}

proof fn lemma_parent_of_absent(bs: Seq<Block>, id: u128)
    requires
        !has_block(bs, id),
    ensures
        parent_of(bs, id) is None,
        last_index(bs, id) == -1,
    decreases bs.len(),
{
    if bs.len() > 0 {
        assert(bs[bs.len() - 1].id != id);
        assert(!has_block(bs.drop_last(), id)) by {
            if has_block(bs.drop_last(), id) {
                let j = choose|j: int| 0 <= j < bs.drop_last().len() && #[trigger] bs.drop_last()[j].id == id;
                assert(bs[j] == bs.drop_last()[j]);
            }
        }
        lemma_parent_of_absent(bs.drop_last(), id);
    }
}

/// Builds the identifier table.
pub fn parent_table(blocks: &[Block]) -> (t: ParentTable)
    ensures
        table_of(t, blocks@),
{
    let mut ids: Vec<u128> = Vec::new();
    let mut parents: Vec<Option<u128>> = Vec::new();
    let mut last: Vec<usize> = Vec::new();
    let mut i: usize = 0;
    while i < blocks.len()
        invariant
            i <= blocks@.len(),
            table_of(ParentTable { ids, parents, last }, blocks@.subrange(0, i as int)),
        decreases blocks@.len() - i,
    {
        let ghost pre = blocks@.subrange(0, i as int);
        let b = &blocks[i];
        let ghost nxt = pre.push(*b);
        assert(blocks@.subrange(0, i + 1) =~= nxt);
        proof {
            lemma_push_facts(pre, *b);
            lemma_distinct_ids(pre);
            lemma_index_in(ids@, b.id);
            lemma_has_block_contains(pre, b.id);
        }
        let p = read_parent(b);
        let ghost old_ids = ids@;
        let ghost old_parents = parents@;
        let ghost old_last = last@;
        match position_of(&ids, b.id) {
            Some(k) => {
                if p.is_some() {
                    parents.set(k, p);
                }
                last.set(k, i);
                proof {
                    assert forall|j: int| 0 <= j < ids@.len() implies #[trigger] parents@[j] == parent_of(nxt, ids@[j]) by {
                        if j != k {
                            assert(old_ids[j] != old_ids[k as int]);
                        }
                    }
                    assert forall|j: int| 0 <= j < ids@.len() implies #[trigger] last@[j] as int == last_index(nxt, ids@[j]) by {
                        if j != k {
                            assert(old_ids[j] != old_ids[k as int]);
                        }
                    }
                }
            },
            None => {
                proof {
                    lemma_parent_of_absent(pre, b.id);
                }
                ids.push(b.id);
                parents.push(p);
                last.push(i);
                proof {
                    assert forall|j: int| 0 <= j < ids@.len() implies #[trigger] parents@[j] == parent_of(nxt, ids@[j]) by {
                        if j < old_ids.len() {
                            assert(ids@[j] == old_ids[j]);
                            assert(old_ids[j] != b.id);
                        }
                    }
                    assert forall|j: int| 0 <= j < ids@.len() implies #[trigger] last@[j] as int == last_index(nxt, ids@[j]) by {
                        if j < old_ids.len() {
                            assert(ids@[j] == old_ids[j]);
                            assert(old_ids[j] != b.id);
                        }
                    }
                }
            },
        }
        i = i + 1;
    }
    assert(blocks@.subrange(0, blocks@.len() as int) =~= blocks@);
    ParentTable { ids, parents, last }
}

/// The walk's steps, from the identifier table.
pub fn build_next(t: &ParentTable, Ghost(bs): Ghost<Seq<Block>>) -> (nxt: Vec<Option<usize>>)
    requires
        table_of(*t, bs),
    ensures
        nxt@ == next_table(bs),
{
    let mut nxt: Vec<Option<usize>> = Vec::new();
    let mut k: usize = 0;
    while k < t.ids.len()
        invariant
            k <= t.ids@.len(),
            table_of(*t, bs),
            nxt@.len() == k,
            forall|j: int| 0 <= j < k ==> #[trigger] nxt@[j] == next_of(bs, t.ids@, j),
        decreases t.ids@.len() - k,
    {
        let step = match t.parents[k] {
            Some(p) => if p != t.ids[k] {
                position_of(&t.ids, p)
            } else {
                None
            },
            None => None,
        };
        nxt.push(step);
        k = k + 1;
    }
    assert(nxt@ =~= next_table(bs));
    nxt
}

/// For each block, the number of its identifier.
pub fn build_roots(blocks: &[Block], t: &ParentTable) -> (roots: Vec<usize>)
    requires
        table_of(*t, blocks@),
    ensures
        roots@ == root_table(blocks@),
        forall|i: int| 0 <= i < roots@.len() ==> #[trigger] roots@[i] < t.ids@.len(),
{
    proof {
        lemma_distinct_ids(blocks@);
    }
    let mut roots: Vec<usize> = Vec::new();
    let mut i: usize = 0;
    while i < blocks.len()
        invariant
            i <= blocks@.len(),
            table_of(*t, blocks@),
            roots@.len() == i,
            forall|j: int| 0 <= j < i ==> #[trigger] roots@[j] == index_in(t.ids@, blocks@[j].id) as usize,
            forall|j: int| 0 <= j < i ==> #[trigger] roots@[j] < t.ids@.len(),
            forall|j: int| 0 <= j < blocks@.len() ==> distinct_ids(blocks@).contains(#[trigger] blocks@[j].id),
        decreases blocks@.len() - i,
    {
        proof {
            lemma_index_in(t.ids@, blocks@[i as int].id);
        }
        let r = position_of(&t.ids, blocks[i].id);
        match r {
            Some(k) => roots.push(k),
            None => roots.push(0),
        }
        i = i + 1;
    }
    assert(roots@ =~= root_table(blocks@));
    roots
}

// ---------------------------------------------------------------------------
// The walk
// ---------------------------------------------------------------------------

/// Whether every step leads to a node of the table.
pub open spec fn steps_in_range(nxt: Seq<Option<usize>>) -> bool {
    forall|k: int| 0 <= k < nxt.len() && (#[trigger] nxt[k]) is Some ==> nxt[k]->0 < nxt.len()
}

/// Walks from `r`, already marked with `tag`; returns the cycle-closing step
/// found, if any.
fn walk_from(nxt: &Vec<Option<usize>>, mark: &mut Vec<usize>, tag: usize, r: usize, Ghost(gm): Ghost<Seq<int>>) -> (found: Option<(usize, usize)>)
    requires
        steps_in_range(nxt@),
        old(mark)@.len() == nxt@.len(),
        gm.len() == nxt@.len(),
        r < nxt@.len(),
        tag != 0,
        forall|k: int| 0 <= k < gm.len() ==> #[trigger] old(mark)@[k] as int == gm[k],
    ensures
        final(mark)@.len() == nxt@.len(),
        forall|k: int| 0 <= k < gm.len() ==> #[trigger] final(mark)@[k] as int == walk(nxt@, gm, tag as int, r as int).0[k],
        walk(nxt@, gm, tag as int, r as int).0.len() == gm.len(),
        found == walk(nxt@, gm, tag as int, r as int).1,
{
    let ghost g0 = gm;
    let ghost mut g = gm;
    let mut x = r;
    proof {
        lemma_walk_len(nxt@, g, tag as int, x as int);
    }
    loop
        invariant
            steps_in_range(nxt@),
            mark@.len() == nxt@.len(),
            g.len() == nxt@.len(),
            x < nxt@.len(),
            tag != 0,
            forall|k: int| 0 <= k < g.len() ==> #[trigger] mark@[k] as int == g[k],
            walk(nxt@, g0, tag as int, r as int) == walk(nxt@, g, tag as int, x as int),
            walk(nxt@, g0, tag as int, r as int).0.len() == g0.len(),
            g0 == gm,
        decreases unmarked(g),
    {
        match nxt[x] {
            None => {
                assert(walk(nxt@, g, tag as int, x as int) == (g, None::<(usize, usize)>));
                return None;
            },
            Some(y) => {
                if mark[y] == 0 {
                    proof {
                        lemma_unmarked_update(g, y as int, tag as int);
                        g = g.update(y as int, tag as int);
                    }
                    mark.set(y, tag);
                    x = y;
                } else if mark[y] == tag {
                    assert(walk(nxt@, g, tag as int, x as int) == (g, Some((x, y))));
                    return Some((x, y));
                } else {
                    assert(walk(nxt@, g, tag as int, x as int) == (g, None::<(usize, usize)>));
                    return None;
                }
            },
        }
    }
}

proof fn lemma_walk_len(nxt: Seq<Option<usize>>, mark: Seq<int>, tag: int, x: int)
    ensures
        walk(nxt, mark, tag, x).0.len() == mark.len(),
    decreases unmarked(mark),
{
    if 0 <= x < nxt.len() && tag != 0 {
        match nxt[x] {
            Some(y) => {
                if y < mark.len() && mark[y as int] == 0 {
                    lemma_unmarked_update(mark, y as int, tag);
                    lemma_walk_len(nxt, mark.update(y as int, tag), tag, y as int);
                }
            },
            None => {},
        }
    }
}

/// Runs the walks from every root; the cycle-closing steps found, in order.
pub fn find_cycle_steps(nxt: &Vec<Option<usize>>, roots: &Vec<usize>) -> (found: Vec<(usize, usize)>)
    requires
        steps_in_range(nxt@),
        forall|i: int| 0 <= i < roots@.len() ==> #[trigger] roots@[i] < nxt@.len(),
    ensures
        found@ == scan(nxt@, roots@, 0, no_marks(nxt@.len())),
{
    let n = nxt.len();
    let mut mark: Vec<usize> = Vec::new();
    let mut k: usize = 0;
    while k < n
        invariant
            k <= n,
            n == nxt@.len(),
            mark@.len() == k,
            forall|j: int| 0 <= j < k ==> #[trigger] mark@[j] == 0,
        decreases n - k,
    {
        mark.push(0);
        k = k + 1;
    }
    let ghost mut g: Seq<int> = no_marks(n as nat);
    let mut found: Vec<(usize, usize)> = Vec::new();
    let mut i: usize = 0;
    while i < roots.len()
        invariant
            i <= roots@.len(),
            n == nxt@.len(),
            steps_in_range(nxt@),
            forall|j: int| 0 <= j < roots@.len() ==> #[trigger] roots@[j] < nxt@.len(),
            mark@.len() == n,
            g.len() == n,
            forall|j: int| 0 <= j < n ==> #[trigger] mark@[j] as int == g[j],
            found@ + scan(nxt@, roots@, i as int, g) == scan(nxt@, roots@, 0, no_marks(n as nat)),
        decreases roots@.len() - i,
    {
        let r = roots[i];
        if mark[r] == 0 {
            let tag = i + 1;
            mark.set(r, tag);
            let ghost g1 = g.update(r as int, tag as int);
            let e = walk_from(nxt, &mut mark, tag, r, Ghost(g1));
            proof {
                let rest = scan(nxt@, roots@, i + 1, walk(nxt@, g1, tag as int, r as int).0);
                assert(scan(nxt@, roots@, i as int, g) == match e {
                    Some(v) => seq![v] + rest,
                    None => rest,
                });
                g = walk(nxt@, g1, tag as int, r as int).0;
            }
            match e {
                Some(v) => {
                    let ghost before = found@;
                    found.push(v);
                    assert(found@ + scan(nxt@, roots@, i + 1, g) =~= before + (seq![v] + scan(nxt@, roots@, i + 1, g)));
                },
                None => {},
            }
        }
        i = i + 1;
    }
    assert(found@ + scan(nxt@, roots@, i as int, g) =~= found@);
    found
}

// ---------------------------------------------------------------------------
// Every step the walk reports closes a cycle
// ---------------------------------------------------------------------------

/// The step `e` leads from `e.0` to `e.1`, and steps from `e.1` lead back
/// to `e.0`.
pub open spec fn closes_cycle(nxt: Seq<Option<usize>>, e: (usize, usize)) -> bool {
    &&& e.0 < nxt.len()
    &&& nxt[e.0 as int] == Some(e.1)
    &&& exists|k: nat| #[trigger] iter_next(nxt, e.1 as int, k) == Some(e.0 as int)
}

proof fn lemma_iter_compose(nxt: Seq<Option<usize>>, r: int, y: int, a: nat, b: nat)
    requires
        iter_next(nxt, r, a) == Some(y),
    ensures
        iter_next(nxt, y, b) == iter_next(nxt, r, a + b),
    decreases b,
{
    if b > 0 {
        lemma_iter_compose(nxt, r, y, a, (b - 1) as nat);
        assert((a + b - 1) as nat == a + (b - 1) as nat);
    }
}

proof fn lemma_walk_marks(nxt: Seq<Option<usize>>, mark: Seq<int>, tag: int, x: int)
    ensures
        walk(nxt, mark, tag, x).0.len() == mark.len(),
        forall|z: int| 0 <= z < mark.len() ==> #[trigger] walk(nxt, mark, tag, x).0[z] == mark[z]
            || walk(nxt, mark, tag, x).0[z] == tag,
    decreases unmarked(mark),
{
    if 0 <= x < nxt.len() && tag != 0 {
        match nxt[x] {
            Some(y) => {
                if y < mark.len() && mark[y as int] == 0 {
                    lemma_unmarked_update(mark, y as int, tag);
                    let m1 = mark.update(y as int, tag);
                    lemma_walk_marks(nxt, m1, tag, y as int);
                    assert forall|z: int| 0 <= z < mark.len() implies #[trigger] walk(nxt, mark, tag, x).0[z] == mark[z]
                        || walk(nxt, mark, tag, x).0[z] == tag by {
                        assert(walk(nxt, m1, tag, y as int).0[z] == m1[z] || walk(nxt, m1, tag, y as int).0[z] == tag);
                    }
                }
            },
            None => {},
        }
    }
}

proof fn lemma_walk_sound(nxt: Seq<Option<usize>>, mark: Seq<int>, tag: int, x: int, r: int, s: nat)
    requires
        0 <= x < nxt.len(),
        mark.len() == nxt.len(),
        tag != 0,
        iter_next(nxt, r, s) == Some(x),
        forall|z: int| 0 <= z < mark.len() && #[trigger] mark[z] == tag ==> exists|k: nat| k <= s && #[trigger] iter_next(nxt, r, k) == Some(z),
    ensures
        walk(nxt, mark, tag, x).1 matches Some(e) ==> closes_cycle(nxt, e),
    decreases unmarked(mark),
{
    match nxt[x] {
        Some(y) => {
            if y < mark.len() {
                if mark[y as int] == 0 {
                    lemma_unmarked_update(mark, y as int, tag);
                    let m1 = mark.update(y as int, tag);
                    assert(iter_next(nxt, r, s + 1) == Some(y as int));
                    assert forall|z: int| 0 <= z < m1.len() && #[trigger] m1[z] == tag implies exists|k: nat|
                        k <= s + 1 && #[trigger] iter_next(nxt, r, k) == Some(z) by {
                        if z == y {
                            assert(iter_next(nxt, r, s + 1) == Some(z));
                        } else {
                            assert(mark[z] == tag);
                        }
                    }
                    lemma_walk_sound(nxt, m1, tag, y as int, r, s + 1);
                } else if mark[y as int] == tag {
                    let k1 = choose|k: nat| k <= s && #[trigger] iter_next(nxt, r, k) == Some(y as int);
                    lemma_iter_compose(nxt, r, y as int, k1, (s - k1) as nat);
                    assert(k1 + (s - k1) as nat == s);
                    assert(iter_next(nxt, y as int, (s - k1) as nat) == Some(x));
                }
            }
        },
        None => {},
    }
}

proof fn lemma_scan_sound(nxt: Seq<Option<usize>>, roots: Seq<usize>, i: int, mark: Seq<int>)
    requires
        0 <= i,
        mark.len() == nxt.len(),
        forall|z: int| 0 <= z < mark.len() ==> 0 <= #[trigger] mark[z] <= i,
    ensures
        forall|j: int| 0 <= j < scan(nxt, roots, i, mark).len() ==> closes_cycle(nxt, #[trigger] scan(nxt, roots, i, mark)[j]),
    decreases roots.len() - i,
{
    if i < roots.len() {
        let r = roots[i] as int;
        if r >= mark.len() || mark[r] != 0 {
            lemma_scan_sound(nxt, roots, i + 1, mark);
            assert(scan(nxt, roots, i, mark) == scan(nxt, roots, i + 1, mark));
        } else {
            let tag = i + 1;
            let m1 = mark.update(r, tag);
            if r < nxt.len() {
                assert forall|z: int| 0 <= z < m1.len() && #[trigger] m1[z] == tag implies exists|k: nat|
                    k <= 0 && #[trigger] iter_next(nxt, r, k) == Some(z) by {
                    assert(z == r);
                    assert(iter_next(nxt, r, 0) == Some(r));
                }
                lemma_walk_sound(nxt, m1, tag, r, r, 0);
            }
            lemma_walk_marks(nxt, m1, tag, r);
            let (m2, found) = walk(nxt, m1, tag, r);
            assert forall|z: int| 0 <= z < m2.len() implies 0 <= #[trigger] m2[z] <= i + 1 by {
                assert(m2[z] == m1[z] || m2[z] == tag);
            }
            lemma_scan_sound(nxt, roots, i + 1, m2);
            let rest = scan(nxt, roots, i + 1, m2);
            assert(scan(nxt, roots, i, mark) == match found {
                Some(e) => seq![e] + rest,
                None => rest,
            });
            match found {
                Some(e) => {
                    assert forall|j: int| 0 <= j < (seq![e] + rest).len() implies closes_cycle(nxt, #[trigger] (seq![e] + rest)[j]) by {
                        if j > 0 {
                            assert((seq![e] + rest)[j] == rest[j - 1]);
                        }
                    }
                },
                None => {},
            }
        }
    }
}

/// Every step the walk reports closes a cycle.
pub proof fn lemma_cycle_steps_close_cycles(bs: Seq<Block>)
    ensures
        forall|j: int| 0 <= j < cycle_steps(bs).len() ==> closes_cycle(next_table(bs), #[trigger] cycle_steps(bs)[j]),
{
    let n = distinct_ids(bs).len();
    lemma_scan_sound(next_table(bs), root_table(bs), 0, no_marks(n));
}

// ---------------------------------------------------------------------------
// Structural issues
// ---------------------------------------------------------------------------

/// A problem of the hierarchy.
#[derive(Debug, Clone, Copy, PartialEq, Eq, Structural)]
pub enum StructuralIssue {
    /// The block names itself as its parent.
    SelfReference { child: u128 },
    /// Following parents from `parent` leads back to `node`, whose parent it is.
    Cycle { node: u128, parent: u128 },
    /// The block names a parent that is no block.
    MissingParent { child: u128, parent: u128 },
    /// The block (by index) expects children, has a long body, has a parent
    /// and is nobody's parent.
    ExpectedChildren { block: usize, parent: u128 },
}

/// Self-references, one per distinct identifier in `ds` that names itself.
pub open spec fn self_reference_issues(bs: Seq<Block>, ds: Seq<u128>) -> Seq<StructuralIssue>
    decreases ds.len(),
{
    if ds.len() == 0 {
        seq![]
    } else {
        let rest = self_reference_issues(bs, ds.drop_last());
        let d = ds.last();
        if parent_of(bs, d) == Some(d) {
            rest.push(StructuralIssue::SelfReference { child: d })
        } else {
            rest
        }
    }
}

/// Missing parents, one per distinct identifier in `ds` whose parent is
/// another identifier that no block has.
pub open spec fn missing_parent_issues(bs: Seq<Block>, ds: Seq<u128>) -> Seq<StructuralIssue>
    decreases ds.len(),
{
    if ds.len() == 0 {
        seq![]
    } else {
        let rest = missing_parent_issues(bs, ds.drop_last());
        let d = ds.last();
        match parent_of(bs, d) {
            Some(p) => if p != d && !has_block(bs, p) {
                rest.push(StructuralIssue::MissingParent { child: d, parent: p })
            } else {
                rest
            },
            None => rest,
        }
    }
}

/// Whether some block names `id` as its parent.
pub open spec fn is_named_parent(bs: Seq<Block>, id: u128) -> bool {
    exists|j: int| 0 <= j < bs.len() && parent_of(bs, #[trigger] bs[j].id) == Some(id)
}

/// Block `i` has a parent, is nobody's parent, carries `expected_children`
/// metadata and a body of more than 200 bytes.
pub open spec fn expects_children_gap(bs: Seq<Block>, i: int) -> bool {
    &&& parent_of(bs, bs[i].id) is Some
    &&& !is_named_parent(bs, bs[i].id)
    &&& meta_get(bs[i].metadata@, "expected_children"@) is Some
    &&& byte_len(bs[i].content@) > 200
}

/// The expected-children gaps among the first `n` blocks, in block order.
pub open spec fn expected_children_issues(bs: Seq<Block>, n: int) -> Seq<StructuralIssue>
    decreases n,
{
    if n <= 0 {
        seq![]
    } else {
        let rest = expected_children_issues(bs, n - 1);
        if expects_children_gap(bs, n - 1) {
            rest.push(StructuralIssue::ExpectedChildren { block: (n - 1) as usize, parent: parent_of(bs, bs[n - 1].id)->0 })
        } else {
            rest
        }
    }
}

/// The circular references, in the order the walk finds them.
pub open spec fn cycle_issues(bs: Seq<Block>) -> Seq<StructuralIssue> {
    let ds = distinct_ids(bs);
    cycle_steps(bs).map_values(|e: (usize, usize)| StructuralIssue::Cycle { node: ds[e.0 as int], parent: ds[e.1 as int] })
}

/// All issues, most serious first: self-references, circular references,
/// missing parents, expected children.
pub open spec fn structural_issues(bs: Seq<Block>) -> Seq<StructuralIssue> {
    let ds = distinct_ids(bs);
    self_reference_issues(bs, ds) + cycle_issues(bs) + missing_parent_issues(bs, ds) + expected_children_issues(bs, bs.len() as int)
}

/// The node reached by following parents `k` times from `x`.
pub open spec fn follow(bs: Seq<Block>, x: u128, k: nat) -> Option<u128>
    decreases k,
{
    if k == 0 {
        Some(x)
    } else {
        match follow(bs, x, (k - 1) as nat) {
            Some(z) => parent_of(bs, z),
            None => None,
        }
    }
}

proof fn lemma_iter_follow(bs: Seq<Block>, a: int, b: int, k: nat)
    requires
        0 <= a < distinct_ids(bs).len(),
        distinct_ids(bs).len() <= usize::MAX,
        iter_next(next_table(bs), a, k) == Some(b),
    ensures
        0 <= b < distinct_ids(bs).len(),
        follow(bs, distinct_ids(bs)[a], k) == Some(distinct_ids(bs)[b]),
    decreases k,
{
    let ds = distinct_ids(bs);
    let nxt = next_table(bs);
    if k > 0 {
        let prev = iter_next(nxt, a, (k - 1) as nat);
        assert(prev is Some);
        let z = prev->0;
        lemma_iter_follow(bs, a, z, (k - 1) as nat);
        assert(nxt[z] == next_of(bs, ds, z));
        let p = parent_of(bs, ds[z])->0;
        lemma_index_in(ds, p);
        assert(follow(bs, ds[a], k) == parent_of(bs, ds[z]));
    }
}

/// Every reported circular reference is one: the block names the reported
/// parent, which is another block, and following parents from that parent
/// leads back to the block.
pub proof fn lemma_cycle_issues_are_cycles(bs: Seq<Block>)
    requires
        bs.len() <= usize::MAX,
    ensures
        forall|j: int| 0 <= j < cycle_issues(bs).len() ==> (#[trigger] cycle_issues(bs)[j] matches
            StructuralIssue::Cycle { node, parent } && parent_of(bs, node) == Some(parent) && parent != node
            && has_block(bs, parent) && exists|k: nat| #[trigger] follow(bs, parent, k) == Some(node)),
{
    let ds = distinct_ids(bs);
    let nxt = next_table(bs);
    lemma_cycle_steps_close_cycles(bs);
    lemma_distinct_ids(bs);
    assert forall|j: int| 0 <= j < cycle_issues(bs).len() implies (#[trigger] cycle_issues(bs)[j] matches
        StructuralIssue::Cycle { node, parent } && parent_of(bs, node) == Some(parent) && parent != node
        && has_block(bs, parent) && exists|k: nat| #[trigger] follow(bs, parent, k) == Some(node)) by {
        let e = cycle_steps(bs)[j];
        assert(closes_cycle(nxt, e));
        let a = e.0 as int;
        let b = e.1 as int;
        assert(nxt[a] == next_of(bs, ds, a));
        let p = parent_of(bs, ds[a])->0;
        lemma_index_in(ds, p);
        assert(b < ds.len());
        assert(ds[b] == p);
        assert(cycle_issues(bs)[j] == StructuralIssue::Cycle { node: ds[a], parent: ds[b] });
        assert(has_block(bs, ds[b]));
        let k = choose|k: nat| #[trigger] iter_next(nxt, b, k) == Some(a);
        lemma_iter_follow(bs, b, a, k);
        assert(follow(bs, ds[b], k) == Some(ds[a]));
    }
}

// ---------------------------------------------------------------------------
// Finding the issues
// ---------------------------------------------------------------------------

proof fn lemma_steps_in_range(bs: Seq<Block>)
    ensures
        steps_in_range(next_table(bs)),
{
    let ds = distinct_ids(bs);
    let nxt = next_table(bs);
    assert forall|k: int| 0 <= k < nxt.len() && (#[trigger] nxt[k]) is Some implies nxt[k]->0 < nxt.len() by {
        let p = parent_of(bs, ds[k])->0;
        lemma_index_in(ds, p);
    }
}

fn self_references(t: &ParentTable, Ghost(bs): Ghost<Seq<Block>>) -> (out: Vec<StructuralIssue>)
    requires
        table_of(*t, bs),
    ensures
        out@ == self_reference_issues(bs, distinct_ids(bs)),
{
    let mut out: Vec<StructuralIssue> = Vec::new();
    let mut k: usize = 0;
    while k < t.ids.len()
        invariant
            k <= t.ids@.len(),
            table_of(*t, bs),
            out@ == self_reference_issues(bs, t.ids@.subrange(0, k as int)),
        decreases t.ids@.len() - k,
    {
        assert(t.ids@.subrange(0, k + 1).drop_last() =~= t.ids@.subrange(0, k as int));
        let d = t.ids[k];
        if t.parents[k] == Some(d) {
            out.push(StructuralIssue::SelfReference { child: d });
        }
        k = k + 1;
    }
    assert(t.ids@.subrange(0, t.ids@.len() as int) =~= t.ids@);
    out
}

fn missing_parents(t: &ParentTable, Ghost(bs): Ghost<Seq<Block>>) -> (out: Vec<StructuralIssue>)
    requires
        table_of(*t, bs),
    ensures
        out@ == missing_parent_issues(bs, distinct_ids(bs)),
{
    let mut out: Vec<StructuralIssue> = Vec::new();
    let mut k: usize = 0;
    while k < t.ids.len()
        invariant
            k <= t.ids@.len(),
            table_of(*t, bs),
            out@ == missing_parent_issues(bs, t.ids@.subrange(0, k as int)),
        decreases t.ids@.len() - k,
    {
        assert(t.ids@.subrange(0, k + 1).drop_last() =~= t.ids@.subrange(0, k as int));
        let d = t.ids[k];
        match t.parents[k] {
            Some(p) => {
                if p != d {
                    proof {
                        lemma_index_in(t.ids@, p);
                        lemma_has_block_contains(bs, p);
                    }
                    if position_of(&t.ids, p).is_none() {
                        out.push(StructuralIssue::MissingParent { child: d, parent: p });
                    }
                }
            },
            None => {},
        }
        k = k + 1;
    }
    assert(t.ids@.subrange(0, t.ids@.len() as int) =~= t.ids@);
    out
}

fn cycle_list(t: &ParentTable, steps: &Vec<(usize, usize)>, Ghost(bs): Ghost<Seq<Block>>) -> (out: Vec<StructuralIssue>)
    requires
        table_of(*t, bs),
        steps@ == cycle_steps(bs),
        forall|j: int| 0 <= j < steps@.len() ==> closes_cycle(next_table(bs), #[trigger] steps@[j]),
    ensures
        out@ == cycle_issues(bs),
{
    let mut out: Vec<StructuralIssue> = Vec::new();
    let mut j: usize = 0;
    while j < steps.len()
        invariant
            j <= steps@.len(),
            table_of(*t, bs),
            steps@ == cycle_steps(bs),
            forall|q: int| 0 <= q < steps@.len() ==> closes_cycle(next_table(bs), #[trigger] steps@[q]),
            out@ == cycle_issues(bs).subrange(0, j as int),
        decreases steps@.len() - j,
    {
        let e = steps[j];
        assert(closes_cycle(next_table(bs), steps@[j as int]));
        proof {
            lemma_steps_in_range(bs);
        }
        out.push(StructuralIssue::Cycle { node: t.ids[e.0], parent: t.ids[e.1] });
        assert(out@ =~= cycle_issues(bs).subrange(0, j + 1));
        j = j + 1;
    }
    assert(cycle_issues(bs).subrange(0, steps@.len() as int) =~= cycle_issues(bs));
    out
}

/// Whether some identifier of the table has `id` as its parent.
fn names_parent(t: &ParentTable, id: u128, Ghost(bs): Ghost<Seq<Block>>) -> (r: bool)
    requires
        table_of(*t, bs),
    ensures
        r == is_named_parent(bs, id),
{
    proof {
        lemma_distinct_ids(bs);
    }
    let mut k: usize = 0;
    while k < t.parents.len()
        invariant
            k <= t.parents@.len(),
            table_of(*t, bs),
            forall|j: int| 0 <= j < k ==> #[trigger] t.parents@[j] != Some(id),
            forall|q: int| 0 <= q < distinct_ids(bs).len() ==> has_block(bs, #[trigger] distinct_ids(bs)[q]),
        decreases t.parents@.len() - k,
    {
        if t.parents[k] == Some(id) {
            proof {
                assert(has_block(bs, distinct_ids(bs)[k as int]));
                let j = choose|j: int| 0 <= j < bs.len() && #[trigger] bs[j].id == t.ids@[k as int];
                assert(parent_of(bs, bs[j].id) == Some(id));
            }
            return true;
        }
        k = k + 1;
    }
    proof {
        if is_named_parent(bs, id) {
            let j = choose|j: int| 0 <= j < bs.len() && parent_of(bs, #[trigger] bs[j].id) == Some(id);
            assert(distinct_ids(bs).contains(bs[j].id));
            let q = choose|q: int| 0 <= q < distinct_ids(bs).len() && distinct_ids(bs)[q] == bs[j].id;
            assert(t.parents@[q] == Some(id));
        }
    }
    false
}

fn expected_children(blocks: &[Block], t: &ParentTable, roots: &Vec<usize>) -> (out: Vec<StructuralIssue>)
    requires
        table_of(*t, blocks@),
        roots@ == root_table(blocks@),
        forall|i: int| 0 <= i < roots@.len() ==> #[trigger] roots@[i] < t.ids@.len(),
    ensures
        out@ == expected_children_issues(blocks@, blocks@.len() as int),
{
    let ghost bs = blocks@;
    proof {
        lemma_distinct_ids(bs);
    }
    let mut out: Vec<StructuralIssue> = Vec::new();
    let mut i: usize = 0;
    while i < blocks.len()
        invariant
            i <= blocks@.len(),
            bs == blocks@,
            table_of(*t, bs),
            roots@ == root_table(bs),
            forall|q: int| 0 <= q < roots@.len() ==> #[trigger] roots@[q] < t.ids@.len(),
            forall|j: int| 0 <= j < bs.len() ==> distinct_ids(bs).contains(#[trigger] bs[j].id),
            distinct_ids(bs).len() <= bs.len(),
            out@ == expected_children_issues(bs, i as int),
        decreases blocks@.len() - i,
    {
        let b = &blocks[i];
        let k = roots[i];
        proof {
            lemma_index_in(t.ids@, b.id);
            assert(roots@[i as int] == index_in(t.ids@, bs[i as int].id) as usize);
            assert(distinct_ids(bs).contains(bs[i as int].id));
            assert(t.ids@[k as int] == b.id);
        }
        let parent = t.parents[k];
        if parent.is_some() {
            if !names_parent(t, b.id, Ghost(bs)) {
                if meta_lookup(&b.metadata, "expected_children").is_some() {
                    if byte_length(b.content.as_str()) > 200 {
                        out.push(StructuralIssue::ExpectedChildren { block: i, parent: parent.unwrap() });
                    }
                }
            }
        }
        i = i + 1;
    }
    out
}

/// All structural issues of a list of blocks (see [`structural_issues`]).
pub fn find_structural_issues(blocks: &[Block]) -> (issues: Vec<StructuralIssue>)
    ensures
        issues@ == structural_issues(blocks@),
{
    let ghost bs = blocks@;
    let t = parent_table(blocks);
    let nxt = build_next(&t, Ghost(bs));
    let roots = build_roots(blocks, &t);
    proof {
        lemma_steps_in_range(bs);
        lemma_cycle_steps_close_cycles(bs);
    }
    let steps = find_cycle_steps(&nxt, &roots);
    let mut issues = self_references(&t, Ghost(bs));
    let mut cycles = cycle_list(&t, &steps, Ghost(bs));
    let mut missing = missing_parents(&t, Ghost(bs));
    let mut expected = expected_children(blocks, &t, &roots);
    issues.append(&mut cycles);
    issues.append(&mut missing);
    issues.append(&mut expected);
    issues
}

} // verus!
