use pkm_ai::model::BlockType;
use pkm_ai::promotion::{validate_transition, PromotionError};

#[test]
fn test_valid_transition_fleeting_to_literature() {
    assert!(validate_transition(&BlockType::Fleeting, &BlockType::Literature).is_ok());
}

#[test]
fn test_valid_transition_fleeting_to_permanent() {
    assert!(validate_transition(&BlockType::Fleeting, &BlockType::Permanent).is_ok());
}

#[test]
fn test_valid_transition_fleeting_to_ghost() {
    assert!(validate_transition(&BlockType::Fleeting, &BlockType::GhostNote).is_ok());
}

#[test]
fn test_valid_transition_literature_to_permanent() {
    assert!(validate_transition(&BlockType::Literature, &BlockType::Permanent).is_ok());
}

#[test]
fn test_valid_transition_literature_to_ghost() {
    assert!(validate_transition(&BlockType::Literature, &BlockType::GhostNote).is_ok());
}

#[test]
fn test_valid_transition_ghost_to_permanent() {
    assert!(validate_transition(&BlockType::GhostNote, &BlockType::Permanent).is_ok());
}

#[test]
fn test_valid_transition_structure_to_permanent() {
    assert!(validate_transition(&BlockType::Structure, &BlockType::Permanent).is_ok());
}

#[test]
fn test_valid_transition_hub_to_permanent() {
    assert!(validate_transition(&BlockType::Hub, &BlockType::Permanent).is_ok());
}

#[test]
fn test_valid_transition_task_to_permanent() {
    assert!(validate_transition(&BlockType::Task, &BlockType::Permanent).is_ok());
}

#[test]
fn test_valid_transition_reference_to_permanent() {
    assert!(validate_transition(&BlockType::Reference, &BlockType::Permanent).is_ok());
}

#[test]
fn test_valid_transition_outline_to_permanent() {
    assert!(validate_transition(&BlockType::Outline, &BlockType::Permanent).is_ok());
}

#[test]
fn test_invalid_transition_same_type() {
    let result = validate_transition(&BlockType::Fleeting, &BlockType::Fleeting);
    assert!(result.is_err());
    assert!(result.unwrap_err().message().contains("already"));
}

#[test]
fn test_invalid_transition_permanent_to_anything() {
    let result = validate_transition(&BlockType::Permanent, &BlockType::Literature);
    assert!(result.is_err());
    assert!(result.unwrap_err().message().contains("already permanent"));
}

#[test]
fn test_invalid_transition_literature_to_fleeting() {
    let result = validate_transition(&BlockType::Literature, &BlockType::Fleeting);
    assert!(result.is_err());
}

#[test]
fn test_invalid_transition_permanent_to_literature() {
    let result = validate_transition(&BlockType::Permanent, &BlockType::Literature);
    assert!(result.is_err());
}

#[test]
fn test_invalid_transition_ghost_to_literature() {
    let result = validate_transition(&BlockType::GhostNote, &BlockType::Literature);
    assert!(result.is_err());
}

#[test]
fn refused_promotion_messages() {
    assert_eq!(
        validate_transition(&BlockType::Hub, &BlockType::Hub).unwrap_err().message(),
        "Block is already Hub"
    );
    let e = validate_transition(&BlockType::Literature, &BlockType::Fleeting).unwrap_err();
    assert_eq!(e, PromotionError::NotAllowed(BlockType::Literature, BlockType::Fleeting));
    assert_eq!(e.message(), "Invalid promotion: Literature → Fleeting is not allowed");
    assert_eq!(
        validate_transition(&BlockType::Permanent, &BlockType::Task).unwrap_err(),
        PromotionError::AlreadyPermanent
    );
}

#[test]
fn promotion_chain_ends_at_permanent() {
    // Every kind can reach permanent, and no step leaves it.
    let kinds = [
        BlockType::Fleeting,
        BlockType::Literature,
        BlockType::Structure,
        BlockType::Hub,
        BlockType::Task,
        BlockType::Reference,
        BlockType::Outline,
        BlockType::GhostNote,
    ];
    for k in kinds {
        assert!(validate_transition(&k, &BlockType::Permanent).is_ok());
        assert!(validate_transition(&BlockType::Permanent, &k).is_err());
    }
}
