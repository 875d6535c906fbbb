use pkm_ai::block::{Block, Edge, FractionalIndex};
use pkm_ai::model::{BlockType, LinkType};
use pkm_ai::spine::{orphans_report, toc_command, traverse_command};
use pkm_ai::store::{BlockStore, EdgeStore};

/// The ULID text of an identifier, as the `ulid` crate writes it.
fn encode_ulid(v: u128) -> String {
    ulid::Ulid(v).to_string()
}

fn pos(n: usize) -> FractionalIndex {
    pkm_ai::block::position_after_steps(n)
}

fn short(id: u128) -> String {
    encode_ulid(id).chars().take(8).collect()
}

#[test]
fn block_store_queries() {
    let mut store = BlockStore::new();
    let a = Block::permanent("A", "alpha").with_tag("rust".to_string());
    let b = Block::structure("B");
    let c = Block::permanent("C", "gamma").with_tag("go".to_string());
    let (ida, idb, idc) = (a.id, b.id, c.id);
    store.create(a);
    store.create(b);
    store.create(c);
    assert_eq!(store.get(idb).unwrap().title, "B");
    assert!(store.get(12345).is_none());
    let perms: Vec<String> = store.list_by_type(BlockType::Permanent).into_iter().map(|x| x.title).collect();
    assert_eq!(perms, vec!["C", "A"]);
    let tagged: Vec<u128> = store.search_by_tags(&["go".to_string(), "x".to_string()]).into_iter().map(|x| x.id).collect();
    assert_eq!(tagged, vec![idc]);
    let all: Vec<u128> = store.list_all().into_iter().map(|x| x.id).collect();
    assert_eq!(all, vec![idc, idb, ida]);
    let mut renamed = Block::permanent("A2", "new");
    renamed.id = ida;
    store.update(renamed);
    assert_eq!(store.get(ida).unwrap().title, "A2");
    store.delete(idb);
    assert_eq!(store.blocks.len(), 2);
    assert!(!store.contains(idb));
}

#[test]
fn edge_store_orders_by_position() {
    let mut edges = EdgeStore::new();
    let e1 = Edge::new(1, 2, LinkType::Next).with_weight(pos(2));
    let e2 = Edge::new(1, 3, LinkType::Next).with_weight(pos(0));
    let e3 = Edge::new(1, 4, LinkType::SectionOf).with_weight(pos(1));
    let e4 = Edge::new(5, 1, LinkType::Next);
    edges.create(e1);
    edges.create(e2);
    edges.create(e3);
    edges.create(e4);
    let out: Vec<u128> = edges.outgoing_from(1).into_iter().map(|e| e.to).collect();
    assert_eq!(out, vec![3, 4, 2]);
    let incoming: Vec<u128> = edges.incoming_to(1).into_iter().map(|e| e.from).collect();
    assert_eq!(incoming, vec![5]);
    let next: Vec<u128> = edges.list_by_type(LinkType::Next).into_iter().map(|e| e.to).collect();
    assert_eq!(next, vec![3, 1, 2]);
    edges.delete_by_source_target(1, 3);
    assert_eq!(edges.edges.len(), 3);
    edges.delete_for_block(1);
    assert!(edges.edges.is_empty());
}

#[test]
fn equal_positions_keep_storing_order() {
    let mut edges = EdgeStore::new();
    edges.create(Edge::new(1, 7, LinkType::Next));
    edges.create(Edge::new(1, 8, LinkType::Next));
    let out: Vec<u128> = edges.outgoing_from(1).into_iter().map(|e| e.to).collect();
    assert_eq!(out, vec![7, 8]);
}

#[test]
fn import_skips_known_identifiers() {
    let mut store = BlockStore::new();
    let a = Block::permanent("A", "x");
    let copy = {
        let mut c = Block::permanent("A again", "y");
        c.id = a.id;
        c
    };
    store.create(a);
    let fresh = Block::permanent("B", "z");
    let (imported, skipped) = store.import_blocks(vec![copy, fresh]);
    assert_eq!((imported, skipped), (1, 1));
    assert_eq!(store.blocks.len(), 2);
    let mut edges = EdgeStore::new();
    let e = Edge::new(1, 2, LinkType::Next);
    let dup = e.copy_edge();
    let (ei, es) = edges.import_edges(vec![e, dup]);
    assert_eq!((ei, es), (1, 1));
}

fn sample() -> (BlockStore, EdgeStore, u128, u128, u128) {
    let mut blocks = BlockStore::new();
    let mut edges = EdgeStore::new();
    let root = Block::structure("Book");
    let chapter = Block::structure("Chapter");
    let note = Block::permanent("Note", "text");
    let (r, c, n) = (root.id, chapter.id, note.id);
    blocks.create(root);
    blocks.create(chapter);
    blocks.create(note);
    edges.create(Edge::new(r, n, LinkType::SectionOf).with_weight(pos(1)));
    edges.create(Edge::new(r, c, LinkType::Next));
    edges.create(Edge::new(c, n, LinkType::Next).with_weight(pos(1)));
    edges.create(Edge::new(r, 999, LinkType::Next));
    (blocks, edges, r, c, n)
}

#[test]
fn toc_command_builds_the_table() {
    let (blocks, edges, r, _c, _n) = sample();
    let id = encode_ulid(r);
    let text = toc_command(&blocks, &edges, &id).unwrap();
    let rule = "─".repeat(60);
    let expected = format!(
        "📖 Table of Contents: Book\n\n   ID: {id}\n\n{rule}\n\n  1. 📁 Chapter\n   └─ 📝 Note [b]\n  2. 📝 Note [b]\n\n{rule}\n\n📊 Statistics:\n   Total entries: 3\n   Sections: 1\n   Zettels: 2\n   Ghosts: 0\n"
    );
    assert_eq!(text, expected);
}

#[test]
fn toc_command_errors() {
    let (blocks, edges, _r, _c, n) = sample();
    assert_eq!(toc_command(&blocks, &edges, "nope").unwrap_err(), "Invalid ULID format: nope");
    let missing = encode_ulid(42);
    assert_eq!(toc_command(&blocks, &edges, &missing).unwrap_err(), format!("Structure block not found: {missing}"));
    let note = encode_ulid(n);
    assert_eq!(
        toc_command(&blocks, &edges, &note).unwrap_err(),
        format!("Block {note} is not a Structure block (type: Permanent)")
    );
}

#[test]
fn traverse_command_walks_next_links() {
    let (blocks, edges, r, c, n) = sample();
    let from = format!("block:{}", encode_ulid(r));
    let text = traverse_command(&blocks, &edges, Some(&from), 0, None, false).unwrap();
    let expected = format!(
        "📁 [{}] Chapter (empty ⚠️)\n  📝 [{}] Note (stable ✅)\n     └─ Weight: b\n\n📊 Statistics:\n   Total blocks: 2\n   Sections: 1\n   Zettels: 0\n   Ghosts: 0 (0% of content)\n",
        short(c),
        short(n)
    );
    assert_eq!(text, expected);
    let limited = traverse_command(&blocks, &edges, Some(&from), 1, None, false).unwrap();
    assert!(limited.starts_with(&format!("📁 [{}] Chapter (empty ⚠️)\n\n📊", short(c))));
    assert_eq!(
        traverse_command(&blocks, &edges, Some(&encode_ulid(7)), 0, None, false).unwrap_err(),
        format!("Block not found: {}", encode_ulid(7))
    );
}

#[test]
fn traverse_from_all_structures_and_orphans() {
    let (blocks, edges, _r, c, n) = sample();
    let text = traverse_command(&blocks, &edges, None, 0, Some("orphans"), false).unwrap();
    assert!(text.contains(&format!("[{}] Note", short(n))));
    assert!(text.contains("⚠️  Orphan Blocks (no NEXT link):"));
    let report = orphans_report(&blocks, &edges);
    assert!(report.contains("Book"));
    assert!(!report.contains(&format!("[{}] Chapter", short(c))));
}
