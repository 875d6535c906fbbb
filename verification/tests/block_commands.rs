use pkm_ai::block::{meta_lookup, Block};
use pkm_ai::database::collect_stats;
use pkm_ai::model::{BlockType, LinkType};
use pkm_ai::ops::{create_block, link_blocks, list_simple, list_table, pad_to, promote_block, search_candidates, select_blocks};
use pkm_ai::store::{BlockStore, EdgeStore};

/// The ULID text of an identifier, as the `ulid` crate writes it.
fn encode_ulid(v: u128) -> String {
    ulid::Ulid(v).to_string()
}

#[test]
fn create_block_reports_and_stores() {
    let mut store = BlockStore::new();
    let (detected, text) = create_block(
        &mut store,
        "literature",
        "Deep Work",
        &Some("Notes on focus".to_string()),
        &Some("focus, books".to_string()),
    )
    .unwrap();
    assert_eq!(detected, None);
    let b = &store.blocks[0];
    assert_eq!(b.block_type, BlockType::Literature);
    assert_eq!(b.tags, vec!["focus", "books"]);
    let id = encode_ulid(b.id);
    assert_eq!(
        text,
        format!("Created block: {id}\n   Type: Literature\n   Title: Deep Work\n   Tags: focus, books\n   ULID: {id}\n")
    );
}

#[test]
fn create_block_detects_tasks_and_refuses_unknown_kinds() {
    let mut store = BlockStore::new();
    let (detected, _) = create_block(&mut store, "", "TODO: fix the build", &None, &None).unwrap();
    assert_eq!(detected, Some(BlockType::Task));
    assert_eq!(store.blocks[0].block_type, BlockType::Task);
    let err = create_block(&mut store, "poem", "x", &None, &None).unwrap_err();
    assert_eq!(err.message(), "Invalid block type: poem");
    assert_eq!(store.blocks.len(), 1);
}

#[test]
fn promote_block_changes_kind_and_marks_filled_ghosts() {
    let mut store = BlockStore::new();
    let ghost = Block::new(BlockType::GhostNote, "Missing piece");
    let gid = ghost.id;
    store.create(ghost);
    let id = encode_ulid(gid);
    let text = promote_block(&mut store, &id, "permanent", true, "2024-01-01T00:00:00+00:00").unwrap();
    assert_eq!(
        text,
        format!(
            "✅ Block promoted!\n\n   ID: {id}\n   Title: Missing piece\n   ghost → Permanent\n\n   📦 Block staged for commit\n\n💡 Run `nexus show {id}` to view the promoted block\n"
        )
    );
    let b = &store.blocks[0];
    assert_eq!(b.block_type, BlockType::Permanent);
    assert_eq!(meta_lookup(&b.metadata, "filled"), Some(None));
    assert_eq!(meta_lookup(&b.metadata, "ghost_filled_at"), Some(Some("2024-01-01T00:00:00+00:00".to_string())));
    let again = promote_block(&mut store, &id, "permanent", false, "t").unwrap_err();
    assert_eq!(again, "Block is already Permanent");
    assert_eq!(promote_block(&mut store, "zzz", "permanent", false, "t").unwrap_err(), "Block not found: zzz");
    assert_eq!(promote_block(&mut store, &id, "poem", false, "t").unwrap_err(), "Invalid block type: poem");
}

#[test]
fn link_blocks_creates_positioned_edges() {
    let mut edges = EdgeStore::new();
    let (a, b) = (encode_ulid(1), encode_ulid(2));
    let text = link_blocks(&mut edges, &a, &b, "see-also", 2, &Some("why".to_string())).unwrap();
    let e = &edges.edges[0];
    assert_eq!(e.link_type, LinkType::Related);
    assert_eq!(e.sequence_weight.to_string(), "c");
    assert_eq!(
        text,
        format!("Created edge: {a} -> {b} (Related)\n   ULID: {}\n   Weight: c\n   Context: why\n", encode_ulid(e.id))
    );
    assert_eq!(link_blocks(&mut edges, "bad", &b, "next", 0, &None).unwrap_err(), "Block not found: bad");
    assert_eq!(link_blocks(&mut edges, &a, &b, "nope", 0, &None).unwrap_err(), "Invalid edge type: nope");
    assert_eq!(edges.edges.len(), 1);
}

fn sample_store() -> BlockStore {
    let mut store = BlockStore::new();
    store.create(Block::permanent("Rust ownership", "a").with_tag("rust".to_string()));
    store.create(Block::fleeting("quick thought"));
    store.create(Block::permanent("Python typing", "b").with_tag("python".to_string()));
    store
}

#[test]
fn select_blocks_filters_by_kind_tags_and_search() {
    let store = sample_store();
    let titles = |v: Vec<Block>| v.into_iter().map(|b| b.title).collect::<Vec<_>>();
    assert_eq!(titles(select_blocks(&store, &None, &None, &None).unwrap()), vec!["Python typing", "Fleeting Note", "Rust ownership"]);
    assert_eq!(titles(select_blocks(&store, &Some("p".to_string()), &None, &None).unwrap()), vec!["Python typing", "Rust ownership"]);
    assert_eq!(titles(select_blocks(&store, &None, &Some("rust, go".to_string()), &None).unwrap()), vec!["Rust ownership"]);
    assert_eq!(titles(select_blocks(&store, &None, &None, &Some("owner".to_string())).unwrap()), vec!["Rust ownership"]);
    assert_eq!(select_blocks(&store, &Some("zzz".to_string()), &None, &None).unwrap_err().message(), "Invalid block type: zzz");
    assert_eq!(search_candidates(&store, "typing").len(), 1);
}

#[test]
fn list_table_and_simple_formats() {
    let store = sample_store();
    let blocks = select_blocks(&store, &None, &None, &None).unwrap();
    let table = list_table(&blocks, 2);
    let rule = "─".repeat(60);
    assert!(table.starts_with(&format!("\n  📋 Found 3 block(s)\n  {rule}\n  ULID                   TYPE         TITLE\n  {rule}\n")));
    let first_id: String = encode_ulid(blocks[0].id).chars().take(22).collect();
    assert!(table.contains(&format!("  {first_id} 💎 permanent  Python typing\n")));
    assert!(table.ends_with(&format!("  {rule}\n  Showing 2 of 3 blocks\n\n")));
    assert_eq!(list_table(&[], 5), "\n  ℹ️  No blocks found\n     Create your first block with: pkmai create --title \"Your Note\"\n\n");
    let simple = list_simple(&blocks[..1]);
    assert_eq!(simple, format!("{} | Permanent | Python typing\n", encode_ulid(blocks[0].id)));
    assert_eq!(pad_to("ab", 4), "ab  ");
    assert_eq!(pad_to("abcdef", 4), "abcdef");
}

#[test]
fn stats_of_a_store() {
    let store = sample_store();
    let edges = EdgeStore::new();
    let stats = collect_stats(&store, &edges, 2);
    assert_eq!(stats.total_blocks, 3);
    assert_eq!(stats.total_edges, 0);
    assert_eq!(stats.total_ghost_nodes, 2);
    assert_eq!(stats.blocks_by_type, vec![("permanent".to_string(), 2), ("fleeting".to_string(), 1)]);
}
