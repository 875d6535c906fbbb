//! Moving a block along the spine: checking the request, finding the
//! positions around the new place, and relinking the next-links.
//!
//! The new position itself comes from the position model: right after a
//! position, or between two. A request is planned first ([`plan_reorder`]),
//! which names the rule for the new position; once the position is chosen,
//! [`apply_reorder`] relinks the spine.

use vstd::prelude::*;
use crate::block::{key_after, key_lt, same_edge, Edge, FractionalIndex};
use crate::ids::{encode_ulid, ulid_decode, ulid_encode, ulid_error_text, ulid_from_string};
use crate::mcp::{invalid_params, ErrorData, INVALID_PARAMS};
use crate::model::LinkType;
use crate::listing::{
    find_next, first_where, in_order, lemma_first_where, lemma_out_listing, lemma_same_listing, next_link, out_order,
};
use crate::store::{holds_block, BlockStore, EdgeStore};
use crate::text::{concat, owned};

verus! {

/// The index in `s` of its first next-link, if it has one.
pub open spec fn first_next_at(s: Seq<Edge>) -> Option<int> {
    first_where(s, next_link())
}

/// The position of the first next-link of `s`, if it has one.
pub open spec fn next_weight(s: Seq<Edge>) -> Option<FractionalIndex> {
    match first_next_at(s) {
        Some(k) => Some(s[k].sequence_weight),
        None => None,
    }
}

/// Two positions with the same key and the same well-formedness.
pub open spec fn same_index(x: FractionalIndex, y: FractionalIndex) -> bool {
    x.key() == y.key() && x.wf() == y.wf()
}

/// How the new position of a moved block is made.
#[derive(Debug, Clone)]
pub enum WeightRule {
    /// The first position.
    First,
    /// The position right after the given one.
    AfterLast(FractionalIndex),
    /// A position between the two given ones.
    Between(FractionalIndex, FractionalIndex),
}

/// The rule for the new position, from the position of the next-link that
/// leaves the block to move after and that of the next-link that enters the
/// block to move before: between both; right after the first; between the
/// first position and the second; or the first position.
pub open spec fn rule_for(rule: WeightRule, after: Option<FractionalIndex>, before: Option<FractionalIndex>) -> bool {
    match (after, before) {
        (Some(a), Some(b)) => rule matches WeightRule::Between(x, y) && same_index(x, a) && same_index(y, b),
        (Some(a), None) => rule matches WeightRule::AfterLast(x) && same_index(x, a),
        (None, Some(b)) => rule matches WeightRule::Between(x, y) && x.wf() && x.key() == seq![97u8]
            && same_index(y, b),
        (None, None) => rule is First,
    }
}

/// A checked request to move a block.
#[derive(Debug, Clone)]
pub struct ReorderPlan {
    pub block_id: u128,
    pub after_id: Option<u128>,
    pub before_id: Option<u128>,
    pub weight: WeightRule,
}

/// An optional identifier argument: `Some(None)` when absent, `Some(Some(v))`
/// for a ULID, `None` for text that is no ULID.
pub open spec fn id_arg(a: Option<Seq<char>>) -> Option<Option<u128>> {
    match a {
        None => Some(None),
        Some(s) => match ulid_decode(s) {
            Some(v) => Some(Some(v)),
            None => None,
        },
    }
}

/// The error for text that is no ULID.
pub open spec fn bad_ulid(e: ErrorData, s: Seq<char>) -> bool {
    e.code == INVALID_PARAMS && e.message@ == "Invalid ULID: "@ + ulid_error_text(s)
}

/// The answer to a request to move the block `block_id` after `after` and
/// before `before`: the identifiers are checked in that order, one
/// neighbour at least must be named, and the block must be stored; then the
/// plan names the identifiers and the rule for the new position (see
/// [`rule_for`]), read from the first next-link leaving `after` in position
/// order and the newest next-link entering `before`.
pub open spec fn reorder_answer(
    bs: Seq<crate::block::Block>,
    es: Seq<Edge>,
    block_id: Seq<char>,
    after: Option<Seq<char>>,
    before: Option<Seq<char>>,
    r: Result<ReorderPlan, ErrorData>,
) -> bool {
    match ulid_decode(block_id) {
        None => r matches Err(e) && bad_ulid(e, block_id),
        Some(bv) => match id_arg(after) {
            None => r matches Err(e) && bad_ulid(e, after->0),
            Some(av) => match id_arg(before) {
                None => r matches Err(e) && bad_ulid(e, before->0),
                Some(cv) => if av is None && cv is None {
                    r matches Err(e) && e.code == INVALID_PARAMS && e.message@
                        == "Either 'after_id' or 'before_id' must be provided"@
                } else if !holds_block(bs, bv) {
                    r matches Err(e) && e.code == INVALID_PARAMS && e.message@ == "Block not found: "@ + ulid_encode(bv)
                } else {
                    r matches Ok(p) && p.block_id == bv && p.after_id == av && p.before_id == cv && rule_for(
                        p.weight,
                        match av {
                            Some(a) => next_weight(out_order(es, a)),
                            None => None,
                        },
                        match cv {
                            Some(c) => next_weight(in_order(es, c)),
                            None => None,
                        },
                    )
                },
            },
        },
    }
}

/// The link `e` pointed at `to`.
pub open spec fn redirected(e: Edge, to: u128) -> Edge {
    Edge { id: e.id, from: e.from, to, link_type: e.link_type, sequence_weight: e.sequence_weight, context: e.context }
}

/// `new` is `old` after making `from` lead to `to`: the first next-link
/// from `from` (in position order) is pointed at `to`, every stored link
/// with its identifier becoming that link; without such a link, a new
/// next-link from `from` to `to` at position `w` is stored.
pub open spec fn relinked(old: Seq<Edge>, new: Seq<Edge>, from: u128, to: u128, w: FractionalIndex) -> bool {
    let out = out_order(old, from);
    match first_next_at(out) {
        Some(k) => new.len() == old.len() && forall|j: int|
            0 <= j < old.len() ==> if old[j].id == out[k].id {
                same_edge(#[trigger] new[j], redirected(out[k], to))
            } else {
                new[j] == old[j]
            },
        None => new.len() == old.len() + 1 && new.drop_last() == old && new.last().from == from && new.last().to
            == to && new.last().link_type == LinkType::Next && same_index(new.last().sequence_weight, w)
            && new.last().context is None,
    }
}

/// The position of the first next-link of a listing, copied.
fn next_weight_of(out: &Vec<Edge>) -> (r: Option<FractionalIndex>)
    ensures
        copied(r, next_weight(out@)),
{
    match find_next(out) {
        Some(k) => Some(out[k].sequence_weight.copy_index()),
        None => None,
    }
}

fn parse_id(s: &str) -> (r: Result<u128, ErrorData>)
    ensures
        match ulid_decode(s@) {
            Some(v) => r == Ok::<u128, ErrorData>(v),
            None => r matches Err(e) && bad_ulid(e, s@),
        },
{
    match ulid_from_string(s) {
        Ok(v) => Ok(v),
        Err(m) => Err(invalid_params(concat("Invalid ULID: ", m.as_str()))),
    }
}

fn parse_opt_id(s: Option<&str>) -> (r: Result<Option<u128>, ErrorData>)
    ensures
        match id_arg(
            match s {
                Some(t) => Some(t@),
                None => None,
            },
        ) {
            Some(v) => r == Ok::<Option<u128>, ErrorData>(v),
            None => s is Some && (r matches Err(e) && bad_ulid(e, s->0@)),
        },
{
    match s {
        Some(t) => match parse_id(t) {
            Ok(v) => Ok(Some(v)),
            Err(e) => Err(e),
        },
        None => Ok(None),
    }
}

/// `r` is a copy of `w`, when there is one.
pub open spec fn copied(r: Option<FractionalIndex>, w: Option<FractionalIndex>) -> bool {
    match w {
        Some(x) => r matches Some(y) && same_index(y, x),
        None => r is None,
    }
}

/// Listings that agree link by link have first next-links at the same
/// position.
proof fn lemma_next_weight_agree(a: Seq<Edge>, b: Seq<Edge>, r: Option<FractionalIndex>)
    requires
        a.len() == b.len(),
        forall|k: int| 0 <= k < a.len() ==> same_edge(#[trigger] a[k], b[k]),
        copied(r, next_weight(a)),
    ensures
        copied(r, next_weight(b)),
{
    lemma_same_listing(a, b);
    lemma_first_where(a, next_link());
    match first_next_at(a) {
        Some(k) => {
            assert(same_edge(a[k], b[k]));
        },
        None => {},
    }
}

/// The position of the first next-link leaving `from`, in position order.
fn weight_leaving(edges: &EdgeStore, from: u128) -> (r: Option<FractionalIndex>)
    ensures
        copied(r, next_weight(out_order(edges.edges@, from))),
{
    let out = edges.outgoing_from(from);
    let r = next_weight_of(&out);
    proof {
        lemma_out_listing(out@, edges.edges@, from);
        lemma_next_weight_agree(out@, out_order(edges.edges@, from), r);
    }
    r
}

/// The position of the newest next-link entering `to`.
fn weight_entering(edges: &EdgeStore, to: u128) -> (r: Option<FractionalIndex>)
    ensures
        copied(r, next_weight(in_order(edges.edges@, to))),
{
    let inc = edges.incoming_to(to);
    let r = next_weight_of(&inc);
    proof {
        lemma_next_weight_agree(inc@, in_order(edges.edges@, to), r);
    }
    r
}

/// The rule for the positions found (see [`rule_for`]).
fn rule_from(after: Option<FractionalIndex>, before: Option<FractionalIndex>) -> (r: WeightRule)
    ensures
        forall|a: Option<FractionalIndex>, b: Option<FractionalIndex>|
            copied(after, a) && copied(before, b) ==> #[trigger] rule_for(r, a, b),
{
    match (after, before) {
        (Some(x), Some(y)) => WeightRule::Between(x, y),
        (Some(x), None) => WeightRule::AfterLast(x),
        (None, Some(y)) => WeightRule::Between(FractionalIndex::first(), y),
        (None, None) => WeightRule::First,
    }
}

/// Checks a request to move the block `block_id` after `after_id` and
/// before `before_id`, and finds the rule for its new position (see
/// [`reorder_answer`]).
pub fn plan_reorder(
    blocks: &BlockStore,
    edges: &EdgeStore,
    block_id: &str,
    after_id: Option<&str>,
    before_id: Option<&str>,
) -> (r: Result<ReorderPlan, ErrorData>)
    ensures
        reorder_answer(
            blocks.blocks@,
            edges.edges@,
            block_id@,
            match after_id {
                Some(t) => Some(t@),
                None => None,
            },
            match before_id {
                Some(t) => Some(t@),
                None => None,
            },
            r,
        ),
{
    let bv = match parse_id(block_id) {
        Ok(v) => v,
        Err(e) => {
            return Err(e);
        },
    };
    let av = match parse_opt_id(after_id) {
        Ok(v) => v,
        Err(e) => {
            return Err(e);
        },
    };
    let cv = match parse_opt_id(before_id) {
        Ok(v) => v,
        Err(e) => {
            return Err(e);
        },
    };
    if av.is_none() && cv.is_none() {
        return Err(invalid_params(owned("Either 'after_id' or 'before_id' must be provided")));
    }
    if !blocks.contains(bv) {
        let id = encode_ulid(bv);
        return Err(invalid_params(concat("Block not found: ", id.as_str())));
    }
    let after_w = match av {
        Some(a) => weight_leaving(edges, a),
        None => None,
    };
    let before_w = match cv {
        Some(c) => weight_entering(edges, c),
        None => None,
    };
    let weight = rule_from(after_w, before_w);
    Ok(ReorderPlan { block_id: bv, after_id: av, before_id: cv, weight })
}

/// Makes `from` lead to `to` (see [`relinked`]).
fn relink(edges: &mut EdgeStore, from: u128, to: u128, weight: &FractionalIndex)
    ensures
        relinked(old(edges).edges@, final(edges).edges@, from, to, *weight),
{
    let ghost before = edges.edges@;
    let out = edges.outgoing_from(from);
    proof {
        lemma_out_listing(out@, before, from);
        lemma_same_listing(out@, out_order(before, from));
    }
    match find_next(&out) {
        Some(k) => {
            let mut e = out[k].copy_edge();
            e.to = to;
            proof {
                let o = out_order(before, from);
                assert(same_edge(out@[k as int], o[k as int]));
                assert(same_edge(e, redirected(o[k as int], to)));
            }
            edges.update(e);
        },
        None => {
            let e = Edge::new(from, to, LinkType::Next).with_weight(weight.copy_index());
            edges.create(e);
            assert(edges.edges@.drop_last() =~= before);
        },
    }
}

/// `new` is `old` after the moves of `plan` through the intermediate links
/// `mid`: first the block to move after is made to lead to the moved block,
/// then the moved block to the block to move before (see [`relinked`]).
pub open spec fn reordered_via(old: Seq<Edge>, mid: Seq<Edge>, new: Seq<Edge>, plan: ReorderPlan, w: FractionalIndex) -> bool {
    &&& match plan.after_id {
        Some(a) => relinked(old, mid, a, plan.block_id, w),
        None => mid == old,
    }
    &&& match plan.before_id {
        Some(b) => relinked(mid, new, plan.block_id, b, w),
        None => new == mid,
    }
}

/// `r` is the new position that `rule` makes: the first position; the
/// position right after the given one; a position strictly between the two
/// given ones, or, when they are not in order (so that none lies between
/// them), the position right after the first. `None` when a position it
/// would start from is not well formed.
pub open spec fn made_by(rule: WeightRule, r: Option<FractionalIndex>) -> bool {
    match rule {
        WeightRule::First => r is Some && r->0.wf() && r->0.key() == seq![97u8],
        WeightRule::AfterLast(x) => if x.wf() {
            r matches Some(p) && p.wf() && p.key() == key_after(x.key())
        } else {
            r is None
        },
        WeightRule::Between(x, y) => if x.wf() && y.wf() && key_lt(x.key(), y.key()) {
            r matches Some(p) && p.wf() && key_lt(x.key(), p.key()) && key_lt(p.key(), y.key())
        } else if x.wf() && y.wf() {
            r matches Some(p) && p.wf() && p.key() == key_after(x.key())
        } else {
            r is None
        },
    }
}

/// The new position a rule makes (see [`made_by`]).
pub fn position_for(rule: &WeightRule) -> (r: Option<FractionalIndex>)
    ensures
        made_by(*rule, r),
{
    match rule {
        WeightRule::First => Some(FractionalIndex::first()),
        WeightRule::AfterLast(x) => {
            if x.is_well_formed() {
                let p = FractionalIndex::after_last(x);
                assert(p.key() == key_after(x.key()));
                Some(p)
            } else {
                None
            }
        },
        WeightRule::Between(x, y) => {
            if x.is_well_formed() && y.is_well_formed() {
                if x.precedes(y) {
                    Some(x.between(y))
                } else {
                    Some(FractionalIndex::after_last(x))
                }
            } else {
                None
            }
        },
    }
}

/// Relinks the spine for a planned move, the new position being `weight`:
/// the block to move after now leads to the moved block, then the moved
/// block leads to the block to move before (see [`relinked`]).
pub fn apply_reorder(edges: &mut EdgeStore, plan: &ReorderPlan, weight: &FractionalIndex)
    ensures
        exists|mid: Seq<Edge>| #[trigger] reordered_via(old(edges).edges@, mid, final(edges).edges@, *plan, *weight),
{
    match plan.after_id {
        Some(a) => {
            relink(edges, a, plan.block_id, weight);
        },
        None => {},
    }
    let ghost mid = edges.edges@;
    match plan.before_id {
        Some(b) => {
            relink(edges, plan.block_id, b, weight);
        },
        None => {},
    }
    assert(reordered_via(old(edges).edges@, mid, edges.edges@, *plan, *weight));
}

/// The text of an optional argument.
pub open spec fn arg_text(a: Option<&str>) -> Option<Seq<char>> {
    match a {
        Some(t) => Some(t@),
        None => None,
    }
}

/// The refusal when a neighbour's position is not well formed.
pub open spec fn no_place(e: ErrorData) -> bool {
    e.code == INVALID_PARAMS && e.message@ == "Cannot place the block between its neighbours"@
}

/// Moves a block along the spine: checks the request and finds the rule
/// for the new position (see [`plan_reorder`]), makes that position (see
/// [`position_for`]) and relinks the spine (see [`apply_reorder`]).
/// Refused, with nothing changed: what [`plan_reorder`] refuses; a
/// neighbour whose position is not well formed (`Cannot place the block
/// between its neighbours`).
pub fn reorder_block(
    blocks: &BlockStore,
    edges: &mut EdgeStore,
    block_id: &str,
    after_id: Option<&str>,
    before_id: Option<&str>,
) -> (r: Result<(ReorderPlan, FractionalIndex), ErrorData>)
    ensures
        match r {
            Ok((p, w)) => {
                &&& reorder_answer(blocks.blocks@, old(edges).edges@, block_id@, arg_text(after_id), arg_text(before_id), Ok(p))
                &&& made_by(p.weight, Some(w))
                &&& exists|mid: Seq<Edge>| #[trigger] reordered_via(old(edges).edges@, mid, final(edges).edges@, p, w)
            },
            Err(e) => {
                &&& final(edges).edges@ == old(edges).edges@
                &&& reorder_answer(blocks.blocks@, old(edges).edges@, block_id@, arg_text(after_id), arg_text(before_id), Err(e))
                    || (no_place(e) && exists|p: ReorderPlan|
                    #[trigger] reorder_answer(
                        blocks.blocks@,
                        old(edges).edges@,
                        block_id@,
                        arg_text(after_id),
                        arg_text(before_id),
                        Ok(p),
                    ) && made_by(p.weight, None))
            },
        },
{
    let plan = match plan_reorder(blocks, edges, block_id, after_id, before_id) {
        Ok(p) => p,
        Err(e) => {
            return Err(e);
        },
    };
    match position_for(&plan.weight) {
        Some(w) => {
            apply_reorder(edges, &plan, &w);
            Ok((plan, w))
        },
        None => {
            let e = invalid_params(owned("Cannot place the block between its neighbours"));
            Err(e)
        },
    }
}

} // verus!
