//! The link listings the commands read: the links leaving a block in
//! position order, the links entering it newest first, and the first link
//! of a listing that satisfies a condition.

use vstd::prelude::*;
use crate::block::{same_edge, Edge};
use crate::model::LinkType;
use crate::store::{links_at, spine_positions};

verus! {

/// The links from `from`, in the order of their positions.
pub open spec fn out_order(es: Seq<Edge>, from: u128) -> Seq<Edge> {
    let idx = spine_positions(es, |e: Edge| e.from == from);
    Seq::new(idx.len(), |k: int| es[idx[k] as int])
}

/// The links to `to`, the last stored first.
pub open spec fn in_order(es: Seq<Edge>, to: u128) -> Seq<Edge> {
    crate::store::newest_edges_where(es, |e: Edge| e.to == to)
}

/// Whether a link is a next-link.
pub open spec fn next_link() -> spec_fn(Edge) -> bool {
    |e: Edge| e.link_type == LinkType::Next
}

/// Whether a link points at `to`.
pub open spec fn link_to(to: u128) -> spec_fn(Edge) -> bool {
    |e: Edge| e.to == to
}

/// Link `k` of `s` is the first that satisfies `p`.
pub open spec fn is_first_where(s: Seq<Edge>, p: spec_fn(Edge) -> bool, k: int) -> bool {
    0 <= k < s.len() && p(s[k]) && forall|j: int| 0 <= j < k ==> !p(#[trigger] s[j])
}

/// Whether a link of `s` satisfies `p`.
pub open spec fn has_where(s: Seq<Edge>, p: spec_fn(Edge) -> bool) -> bool {
    exists|k: int| 0 <= k < s.len() && #[trigger] p(s[k])
}

/// The index of the first link of `s` that satisfies `p`, if any does.
pub open spec fn first_where(s: Seq<Edge>, p: spec_fn(Edge) -> bool) -> Option<int> {
    if has_where(s, p) {
        Some(choose|k: int| is_first_where(s, p, k))
    } else {
        None
    }
}

/// A sequence with a link that satisfies `p` has a first one.
proof fn lemma_least_where(s: Seq<Edge>, p: spec_fn(Edge) -> bool, w: int)
    requires
        0 <= w < s.len(),
        p(s[w]),
    ensures
        exists|k: int| is_first_where(s, p, k),
    decreases w,
{
    if exists|j: int| 0 <= j < w && #[trigger] p(s[j]) {
        let j = choose|j: int| 0 <= j < w && #[trigger] p(s[j]);
        lemma_least_where(s, p, j);
    } else {
        assert(is_first_where(s, p, w));
    }
}

/// What [`first_where`] gives: the first link that satisfies `p`, or, when
/// there is none, no link satisfies it.
pub proof fn lemma_first_where(s: Seq<Edge>, p: spec_fn(Edge) -> bool)
    ensures
        match first_where(s, p) {
            Some(k) => is_first_where(s, p, k),
            None => forall|j: int| 0 <= j < s.len() ==> !p(#[trigger] s[j]),
        },
{
    if has_where(s, p) {
        let w = choose|k: int| 0 <= k < s.len() && #[trigger] p(s[k]);
        lemma_least_where(s, p, w);
    }
}

/// The first link that satisfies `p` is the one [`first_where`] names.
pub proof fn lemma_first_where_unique(s: Seq<Edge>, p: spec_fn(Edge) -> bool, k: int)
    requires
        is_first_where(s, p, k),
    ensures
        first_where(s, p) == Some(k),
{
    assert(has_where(s, p));
    lemma_first_where(s, p);
    let c = first_where(s, p)->0;
    if c < k {
        assert(!p(s[c]));
    } else if c > k {
        assert(!p(s[k]));
    }
}

/// Listings on which `p` agrees link by link have their first such link at
/// the same index.
pub proof fn lemma_first_where_agree(a: Seq<Edge>, b: Seq<Edge>, p: spec_fn(Edge) -> bool)
    requires
        a.len() == b.len(),
        forall|k: int| 0 <= k < a.len() ==> p(#[trigger] a[k]) == p(b[k]),
    ensures
        first_where(a, p) == first_where(b, p),
{
    lemma_first_where(a, p);
    lemma_first_where(b, p);
    match first_where(a, p) {
        Some(k) => {
            assert forall|j: int| 0 <= j < k implies !p(#[trigger] b[j]) by {
                assert(p(a[j]) == p(b[j]));
            }
            assert(p(a[k]) == p(b[k]));
            assert(is_first_where(b, p, k));
            lemma_first_where_unique(b, p, k);
        },
        None => {
            match first_where(b, p) {
                Some(k) => {
                    assert(p(a[k]) == p(b[k]));
                },
                None => {},
            }
        },
    }
}

/// Listings that agree link by link have their first next-link, and their
/// first link to any block, at the same index.
pub proof fn lemma_same_listing(a: Seq<Edge>, b: Seq<Edge>)
    requires
        a.len() == b.len(),
        forall|k: int| 0 <= k < a.len() ==> same_edge(#[trigger] a[k], b[k]),
    ensures
        first_where(a, next_link()) == first_where(b, next_link()),
        forall|to: u128| #[trigger] first_where(a, link_to(to)) == first_where(b, link_to(to)),
{
    assert forall|k: int| 0 <= k < a.len() implies next_link()(#[trigger] a[k]) == next_link()(b[k]) by {
        assert(same_edge(a[k], b[k]));
    }
    lemma_first_where_agree(a, b, next_link());
    assert forall|to: u128| #[trigger] first_where(a, link_to(to)) == first_where(b, link_to(to)) by {
        assert forall|k: int| 0 <= k < a.len() implies link_to(to)(#[trigger] a[k]) == link_to(to)(b[k]) by {
            assert(same_edge(a[k], b[k]));
        }
        lemma_first_where_agree(a, b, link_to(to));
    }
}

/// The links from `from` as the store lists them agree with [`out_order`].
pub proof fn lemma_out_listing(out: Seq<Edge>, es: Seq<Edge>, from: u128)
    requires
        links_at(out, es, spine_positions(es, |e: Edge| e.from == from)),
    ensures
        out.len() == out_order(es, from).len(),
        forall|k: int| 0 <= k < out.len() ==> same_edge(#[trigger] out[k], out_order(es, from)[k]),
{
    let o = out_order(es, from);
    assert forall|k: int| 0 <= k < out.len() implies same_edge(#[trigger] out[k], o[k]) by {}
}

/// Reading back a link: once a link is stored, the links into its target,
/// newest first, start with it, followed by those listed before.
pub proof fn lemma_created_link_listed_first(es: Seq<Edge>, e: Edge)
    ensures
        in_order(es.push(e), e.to) == seq![e] + in_order(es, e.to),
    decreases es.len(),
{
    if es.len() == 0 {
        assert(es.push(e).drop_first() =~= Seq::<Edge>::empty());
        assert(in_order(Seq::<Edge>::empty(), e.to) =~= Seq::<Edge>::empty());
        assert(in_order(es.push(e), e.to) =~= seq![e]);
    } else {
        lemma_created_link_listed_first(es.drop_first(), e);
        assert(es.push(e).drop_first() =~= es.drop_first().push(e));
        assert(es.push(e)[0] == es[0]);
        assert(in_order(es.push(e), e.to) =~= seq![e] + in_order(es, e.to));
    }
}

/// The index of the first next-link of `out`.
pub fn find_next(out: &Vec<Edge>) -> (r: Option<usize>)
    ensures
        match r {
            Some(k) => k < out@.len() && first_where(out@, next_link()) == Some(k as int),
            None => first_where(out@, next_link()) is None,
        },
{
    let mut k: usize = 0;
    while k < out.len()
        invariant
            k <= out@.len(),
            forall|j: int| 0 <= j < k ==> !next_link()(#[trigger] out@[j]),
        decreases out@.len() - k,
    {
        if out[k].link_type == LinkType::Next {
            proof {
                assert(is_first_where(out@, next_link(), k as int));
                lemma_first_where_unique(out@, next_link(), k as int);
            }
            return Some(k);
        }
        k = k + 1;
    }
    proof {
        lemma_first_where(out@, next_link());
    }
    None
}

/// The index of the first link of `out` that points at `to`.
pub fn find_to(out: &Vec<Edge>, to: u128) -> (r: Option<usize>)
    ensures
        match r {
            Some(k) => k < out@.len() && first_where(out@, link_to(to)) == Some(k as int),
            None => first_where(out@, link_to(to)) is None,
        },
{
    let mut k: usize = 0;
    while k < out.len()
        invariant
            k <= out@.len(),
            forall|j: int| 0 <= j < k ==> !link_to(to)(#[trigger] out@[j]),
        decreases out@.len() - k,
    {
        if out[k].to == to {
            proof {
                assert(is_first_where(out@, link_to(to), k as int));
                lemma_first_where_unique(out@, link_to(to), k as int);
            }
            return Some(k);
        }
        k = k + 1;
    }
    proof {
        lemma_first_where(out@, link_to(to));
    }
    None
}

} // verus!
