use pkm_ai::block::Block;
use pkm_ai::ghosts::{dismiss_ghost, fill_ghost};
use pkm_ai::model::BlockType;
use pkm_ai::store::BlockStore;

/// The ULID text of an identifier, as the `ulid` crate writes it.
fn encode_ulid(v: u128) -> String {
    ulid::Ulid(v).to_string()
}

#[test]
fn fill_ghost_makes_a_permanent_note() {
    let mut ghost = Block::new(BlockType::GhostNote, "Placeholder");
    ghost.set_metadata("original_title", Some("Real Title"));
    let id = encode_ulid(ghost.id);
    let mut blocks = BlockStore::new();
    blocks.create(ghost);
    let text = fill_ghost(&mut blocks, &id, "Now written").unwrap();
    let b = &blocks.blocks[0];
    assert_eq!(b.block_type, BlockType::Permanent);
    assert_eq!(b.content, "Now written");
    assert_eq!(b.title, "Real Title");
    assert_eq!(
        text,
        format!(
            "✅ Ghost Node activated!\n\n   Old ID: ghost_{}\n   New ID: {}\n   Title: Real Title\n   Type: Permanent\n   Status: stable\n\n📊 Section coverage increased!\n",
            &id[..8],
            id
        )
    );
}

#[test]
fn fill_ghost_keeps_its_title_without_a_stored_one() {
    let ghost = Block::new(BlockType::GhostNote, "Placeholder");
    let id = encode_ulid(ghost.id);
    let mut blocks = BlockStore::new();
    blocks.create(ghost);
    fill_ghost(&mut blocks, &format!("block:{}", id), "x").unwrap();
    assert_eq!(blocks.blocks[0].title, "Placeholder");
}

#[test]
fn fill_ghost_refusals() {
    let note = Block::new(BlockType::Permanent, "Note");
    let id = encode_ulid(note.id);
    let mut blocks = BlockStore::new();
    blocks.create(note);
    assert_eq!(fill_ghost(&mut blocks, "nope", "x").unwrap_err(), "Invalid ULID format: nope");
    let missing = encode_ulid(3);
    assert_eq!(fill_ghost(&mut blocks, &missing, "x").unwrap_err(), format!("Ghost node not found: {}", missing));
    assert_eq!(
        fill_ghost(&mut blocks, &id, "x").unwrap_err(),
        format!("Block {} is not a ghost node (type: Permanent)", id)
    );
    assert_eq!(blocks.blocks[0].content, "");
}

#[test]
fn dismiss_ghost_removes_it() {
    let ghost = Block::new(BlockType::GhostNote, "Gap");
    let id = encode_ulid(ghost.id);
    let mut blocks = BlockStore::new();
    blocks.create(ghost);
    blocks.create(Block::new(BlockType::Permanent, "Other"));
    let text = dismiss_ghost(&mut blocks, &id).unwrap();
    assert_eq!(
        text,
        format!("🗑️  Ghost Node dismissed!\n\n   ID: {}\n   Title: Gap\n\n💡 The placeholder has been removed from the structure.\n", id)
    );
    assert_eq!(blocks.blocks.len(), 1);
    assert_eq!(blocks.blocks[0].title, "Other");
    assert!(dismiss_ghost(&mut blocks, &id).is_err());
}
