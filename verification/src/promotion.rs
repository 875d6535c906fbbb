//! Promotion of blocks up the Zettelkasten hierarchy.
//!
//! Fleeting notes become literature, permanent notes or ghosts; literature
//! becomes permanent or a ghost; a ghost is filled into a permanent note;
//! structure, hub, task, reference and outline blocks may become permanent;
//! a permanent note is never promoted further.

use vstd::prelude::*;
use crate::model::{BlockType, block_type_debug_name};
use crate::text::{concat, owned};

verus! {

/// Whether a block of kind `from` may be promoted to kind `to`.
pub open spec fn promotion_allowed(from: BlockType, to: BlockType) -> bool {
    match (from, to) {
        (BlockType::Fleeting, BlockType::Literature) => true,
        (BlockType::Fleeting, BlockType::Permanent) => true,
        (BlockType::Fleeting, BlockType::GhostNote) => true,
        (BlockType::Literature, BlockType::Permanent) => true,
        (BlockType::Literature, BlockType::GhostNote) => true,
        (BlockType::GhostNote, BlockType::Permanent) => true,
        (BlockType::Structure, BlockType::Permanent) => true,
        (BlockType::Hub, BlockType::Permanent) => true,
        (BlockType::Task, BlockType::Permanent) => true,
        (BlockType::Reference, BlockType::Permanent) => true,
        (BlockType::Outline, BlockType::Permanent) => true,
        _ => false,
    }
}

/// Why a promotion was refused.
#[derive(Debug, Clone, Copy, PartialEq, Eq, Structural)]
pub enum PromotionError {
    /// The block already has the requested kind.
    AlreadyType(BlockType),
    /// Permanent notes are not promoted.
    AlreadyPermanent,
    /// The hierarchy has no such step.
    NotAllowed(BlockType, BlockType),
}

/// The error `validate_transition` gives for a refused promotion.
pub open spec fn promotion_error(from: BlockType, to: BlockType) -> PromotionError {
    if from == to {
        PromotionError::AlreadyType(from)
    } else if from == BlockType::Permanent {
        PromotionError::AlreadyPermanent
    } else {
        PromotionError::NotAllowed(from, to)
    }
}

/// Checks a promotion from `from` to `to`: `Ok` exactly when the hierarchy
/// allows the step, otherwise the reason, checked in this order: same kind,
/// already permanent, step not allowed.
pub fn validate_transition(from: &BlockType, to: &BlockType) -> (r: Result<(), PromotionError>)
    ensures
        r is Ok <==> promotion_allowed(*from, *to),
        r is Err ==> r == Err::<(), PromotionError>(promotion_error(*from, *to)),
{
    if *from == *to {
        return Err(PromotionError::AlreadyType(*from));
    }
    match (*from, *to) {
        (BlockType::Fleeting, BlockType::Literature) => Ok(()),
        (BlockType::Fleeting, BlockType::Permanent) => Ok(()),
        (BlockType::Fleeting, BlockType::GhostNote) => Ok(()),
        (BlockType::Literature, BlockType::Permanent) => Ok(()),
        (BlockType::Literature, BlockType::GhostNote) => Ok(()),
        (BlockType::GhostNote, BlockType::Permanent) => Ok(()),
        (BlockType::Structure, BlockType::Permanent) => Ok(()),
        (BlockType::Hub, BlockType::Permanent) => Ok(()),
        (BlockType::Task, BlockType::Permanent) => Ok(()),
        (BlockType::Reference, BlockType::Permanent) => Ok(()),
        (BlockType::Outline, BlockType::Permanent) => Ok(()),
        (BlockType::Permanent, _) => Err(PromotionError::AlreadyPermanent),
        _ => Err(PromotionError::NotAllowed(*from, *to)),
    }
}

/// The displayed message of a refused promotion.
pub open spec fn promotion_error_message(e: PromotionError) -> Seq<char> {
    match e {
        PromotionError::AlreadyType(t) => "Block is already "@ + block_type_debug_name(t),
        PromotionError::AlreadyPermanent => "Block is already permanent - no promotion needed"@,
        PromotionError::NotAllowed(a, b) => "Invalid promotion: "@ + block_type_debug_name(a)
            + " → "@ + block_type_debug_name(b) + " is not allowed"@,
    }
}

impl PromotionError {
    /// The displayed message of the error.
    pub fn message(&self) -> (s: String)
        ensures
            s@ == promotion_error_message(*self),
    {
        match self {
            PromotionError::AlreadyType(t) => concat("Block is already ", t.debug_name()),
            PromotionError::AlreadyPermanent => owned("Block is already permanent - no promotion needed"),
            PromotionError::NotAllowed(a, b) => {
                let x = concat("Invalid promotion: ", a.debug_name());
                let y = concat(x.as_str(), " → ");
                let z = concat(y.as_str(), b.debug_name());
                concat(z.as_str(), " is not allowed")
            },
        }
    }
}

// ---------------------------------------------------------------------------
// Laws of the hierarchy
// ---------------------------------------------------------------------------

/// The level of a block kind in the hierarchy.
pub open spec fn promotion_level(t: BlockType) -> int {
    match t {
        BlockType::Fleeting => 0,
        BlockType::Literature => 1,
        BlockType::Permanent => 3,
        _ => 2,
    }
}

/// Every allowed promotion moves strictly up the hierarchy, so no chain of
/// promotions returns to a kind it has left.
pub proof fn lemma_promotion_moves_up(from: BlockType, to: BlockType)
    requires
        promotion_allowed(from, to),
    ensures
        promotion_level(from) < promotion_level(to),
{
}

/// Whether `chain` is a sequence of allowed promotions.
pub open spec fn is_promotion_chain(chain: Seq<BlockType>) -> bool {
    forall|i: int| 0 <= i < chain.len() - 1 ==> #[trigger] promotion_allowed(chain[i], chain[i + 1])
}

/// Along a chain of promotions the level only grows.
pub proof fn lemma_promotion_chain_levels(chain: Seq<BlockType>, i: int, j: int)
    requires
        is_promotion_chain(chain),
        0 <= i < j < chain.len(),
    ensures
        promotion_level(chain[i]) < promotion_level(chain[j]),
    decreases j - i,
{
    let k = j - 1;
    assert(promotion_allowed(chain[k], chain[k + 1]));
    if i < j - 1 {
        lemma_promotion_chain_levels(chain, i, j - 1);
    }
}

/// No chain of promotions returns to where it started, and a block can be
/// promoted at most three times in a row.
pub proof fn lemma_promotion_chains_are_short(chain: Seq<BlockType>)
    requires
        is_promotion_chain(chain),
        chain.len() >= 2,
    ensures
        chain[0] != chain.last(),
        chain.len() <= 4,
{
    lemma_promotion_chain_levels(chain, 0, chain.len() - 1);
    if chain.len() > 4 {
        lemma_promotion_chain_levels(chain, 0, 1);
        lemma_promotion_chain_levels(chain, 1, 2);
        lemma_promotion_chain_levels(chain, 2, 3);
        lemma_promotion_chain_levels(chain, 3, 4);
    }
}

/// A permanent note is final: nothing is reachable from it.
pub proof fn lemma_permanent_is_final(to: BlockType)
    ensures
        !promotion_allowed(BlockType::Permanent, to),
{
}

/// Every kind other than permanent can be promoted to permanent in one step.
pub proof fn lemma_everything_reaches_permanent(from: BlockType)
    requires
        from != BlockType::Permanent,
    ensures
        promotion_allowed(from, BlockType::Permanent),
{
}

/// A block is never promoted to its own kind, nor down to a fleeting note.
pub proof fn lemma_no_self_or_fleeting_target(from: BlockType, to: BlockType)
    requires
        promotion_allowed(from, to),
    ensures
        from != to,
        to != BlockType::Fleeting,
{
}

} // verus!
