use pkm_ai::block::{Block, Edge};
use pkm_ai::database::collect_stats;
use pkm_ai::model::LinkType;
use pkm_ai::store::{BlockStore, EdgeStore};

#[test]
fn test_stats_empty_database() {
    let blocks = BlockStore::new();
    let edges = EdgeStore::new();
    assert_eq!(blocks.list_all().len(), 0);
    assert_eq!(edges.list_all().len(), 0);
    let stats = collect_stats(&blocks, &edges, 0);
    assert_eq!((stats.total_blocks, stats.total_edges, stats.total_ghost_nodes), (0, 0, 0));
}

#[test]
fn test_stats_with_data() {
    let mut blocks = BlockStore::new();
    blocks.create(Block::permanent("Block 1", "Content 1"));
    blocks.create(Block::fleeting("Fleeting note"));
    blocks.create(Block::structure("Structure note"));

    // The listing puts the last stored block first.
    let block1_id = blocks.list_all()[2].id;
    let block2_id = blocks.list_all()[1].id;
    let mut edges = EdgeStore::new();
    edges.create(Edge::new(block1_id, block2_id, LinkType::Extends));

    assert_eq!(blocks.list_all().len(), 3);
    assert_eq!(edges.list_all().len(), 1);
    let stats = collect_stats(&blocks, &edges, 0);
    assert_eq!(stats.total_blocks, 3);
    assert_eq!(stats.total_edges, 1);
}

#[test]
fn test_import_skips_existing_blocks() {
    let block = Block::permanent("Original", "Original content");
    let mut blocks = BlockStore::new();
    blocks.create(block.clone());

    let (imported, skipped) = blocks.import_blocks(vec![block.clone()]);
    assert_eq!((imported, skipped), (0, 1));
    assert_eq!(blocks.list_all().len(), 1);
}

#[test]
fn test_import_new_blocks() {
    let block1 = Block::permanent("New Block 1", "Content 1");
    let block2 = Block::permanent("New Block 2", "Content 2");
    let mut blocks = BlockStore::new();
    let (imported, skipped) = blocks.import_blocks(vec![block1, block2]);
    assert_eq!((imported, skipped), (2, 0));
    assert_eq!(blocks.list_all().len(), 2);
}

#[test]
fn import_skips_links_already_stored() {
    let e = Edge::new(1, 2, LinkType::Next);
    let mut edges = EdgeStore::new();
    edges.create(e.clone());
    let (imported, skipped) = edges.import_edges(vec![e.clone(), Edge::new(2, 3, LinkType::Next)]);
    assert_eq!((imported, skipped), (1, 1));
    assert_eq!(edges.edges.len(), 2);
}

#[test]
fn created_link_is_listed_first_among_incoming() {
    let mut edges = EdgeStore::new();
    edges.create(Edge::new(1, 9, LinkType::Related));
    edges.create(Edge::new(2, 8, LinkType::Next));
    let e = Edge::new(3, 9, LinkType::Supports);
    let id = e.id;
    edges.create(e);
    let incoming = edges.incoming_to(9);
    assert_eq!(incoming.len(), 2);
    assert_eq!(incoming[0].id, id);
    assert_eq!(incoming[1].from, 1);
}
