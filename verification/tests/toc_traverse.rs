use pkm_ai::block::{Block, FractionalIndex};
use pkm_ai::model::BlockType;
use pkm_ai::toc::{
    count_blocks, count_by_type, count_entries, push_markdown, push_simple, push_tree, toc_report, toc_text, traversal_report,
    TocEntry, TraversalNode, TraverseFormat,
};

/// The ULID text of an identifier, as the `ulid` crate writes it.
fn encode_ulid(v: u128) -> String {
    ulid::Ulid(v).to_string()
}

#[test]
fn test_count_entries() {
    let entries = vec![TocEntry {
        id: "1".to_string(),
        title: "Test".to_string(),
        block_type: BlockType::Structure,
        depth: 0,
        weight: FractionalIndex::first(),
        children: vec![TocEntry {
            id: "2".to_string(),
            title: "Child".to_string(),
            block_type: BlockType::Permanent,
            depth: 1,
            weight: FractionalIndex::after_last(&FractionalIndex::first()),
            children: vec![],
        }],
    }];
    assert_eq!(count_entries(&entries), 2);
}

#[test]
fn test_count_by_type() {
    let entries = vec![TocEntry {
        id: "1".to_string(),
        title: "Test".to_string(),
        block_type: BlockType::Structure,
        depth: 0,
        weight: FractionalIndex::first(),
        children: vec![
            TocEntry {
                id: "2".to_string(),
                title: "Permanent".to_string(),
                block_type: BlockType::Permanent,
                depth: 1,
                weight: FractionalIndex::first(),
                children: vec![],
            },
            TocEntry {
                id: "3".to_string(),
                title: "Ghost".to_string(),
                block_type: BlockType::GhostNote,
                depth: 1,
                weight: FractionalIndex::after_last(&FractionalIndex::first()),
                children: vec![],
            },
        ],
    }];
    assert_eq!(count_by_type(&entries, &BlockType::Structure), 1);
    assert_eq!(count_by_type(&entries, &BlockType::Permanent), 1);
    assert_eq!(count_by_type(&entries, &BlockType::GhostNote), 1);
}

#[test]
fn test_traverse_format_parsing() {
    assert_eq!(TraverseFormat::Tree, "tree".parse().unwrap());
    assert_eq!(TraverseFormat::Json, "json".parse().unwrap());
    assert_eq!(TraverseFormat::Markdown, "markdown".parse().unwrap());
    assert_eq!(TraverseFormat::Simple, "simple".parse().unwrap());
    assert_eq!(TraverseFormat::Markdown, "md".parse().unwrap());
    assert!("unknown".parse::<TraverseFormat>().is_err());
}

#[test]
fn test_count_blocks() {
    let nodes = vec![TraversalNode {
        block: Block::structure("Test"),
        depth: 0,
        children: vec![TraversalNode {
            block: Block::permanent("Child 1", "Content"),
            depth: 1,
            children: vec![],
            sequence_weight: FractionalIndex::first(),
        }],
        sequence_weight: FractionalIndex::first(),
    }];
    assert_eq!(count_blocks(&nodes), 2);
}

#[test]
fn traverse_format_default_and_error_text() {
    assert_eq!(TraverseFormat::default(), TraverseFormat::Tree);
    let e = "xml".parse::<TraverseFormat>().unwrap_err();
    assert_eq!(e, "Unknown format: xml. Use tree, json, markdown, or simple");
}

#[test]
fn fractional_positions_advance() {
    let a = FractionalIndex::first();
    assert_eq!(a.to_string(), "a");
    let b = FractionalIndex::after_last(&a);
    assert_eq!(b.to_string(), "b");
    let mut z = FractionalIndex::first();
    for _ in 0..25 {
        z = FractionalIndex::after_last(&z);
    }
    assert_eq!(z.to_string(), "z");
    let zb = FractionalIndex::after_last(&z);
    assert_eq!(zb.to_string(), "zb");
    assert!(zb.to_string() > z.to_string());
    assert_eq!(pkm_ai::block::position_after_steps(26).to_string(), "zb");
}

fn short(id: u128) -> String {
    encode_ulid(id).chars().take(8).collect()
}

fn sample_nodes() -> Vec<TraversalNode> {
    vec![TraversalNode {
        block: Block::structure("Test"),
        depth: 0,
        children: vec![TraversalNode {
            block: Block::permanent("Child 1", "Content"),
            depth: 1,
            children: vec![],
            sequence_weight: FractionalIndex::after_last(&FractionalIndex::first()),
        }],
        sequence_weight: FractionalIndex::first(),
    }]
}

#[test]
fn tree_view_of_a_structure_with_one_child() {
    let nodes = sample_nodes();
    let (a, b) = (short(nodes[0].block.id), short(nodes[0].children[0].block.id));
    let mut out = String::new();
    push_tree(&mut out, &nodes, 0, true);
    assert_eq!(
        out,
        format!(
            "📁 [{a}] Test (empty ⚠️)\n  📝 [{b}] Child 1 (stable ✅)\n     └─ Weight: b\n     └─ \"Content\"\n"
        )
    );
    let mut plain = String::new();
    push_tree(&mut plain, &nodes, 0, false);
    assert_eq!(plain, format!("📁 [{a}] Test (empty ⚠️)\n  📝 [{b}] Child 1 (stable ✅)\n     └─ Weight: b\n"));
}

#[test]
fn markdown_and_simple_views() {
    let nodes = sample_nodes();
    let (a, b) = (short(nodes[0].block.id), short(nodes[0].children[0].block.id));
    let mut md = String::new();
    push_markdown(&mut md, &nodes, 0, true);
    assert_eq!(md, " # Test\n   ## Child 1\n   - Weight: b\n\nContent\n\n");
    let mut simple = String::new();
    push_simple(&mut simple, &nodes, true);
    assert_eq!(simple, format!("[{a}] Test | Structure\n[{b}] Child 1 | Permanent\n       \"Content\"\n"));
}

#[test]
fn traversal_report_counts_and_share() {
    let nodes = sample_nodes();
    let report = traversal_report(&nodes, false);
    assert!(report.ends_with(
        "\n📊 Statistics:\n   Total blocks: 2\n   Sections: 1\n   Zettels: 0\n   Ghosts: 0 (0% of content)\n"
    ));
    assert_eq!(
        traversal_report(&[], false),
        "📭 No blocks found in the structural spine.\n   Create a Structure block and link blocks with 'nexus link --link-type next'\n"
    );
}

fn sample_toc() -> TocEntry {
    TocEntry {
        id: "ROOT".to_string(),
        title: "Book".to_string(),
        block_type: BlockType::Structure,
        depth: 0,
        weight: FractionalIndex::first(),
        children: vec![
            TocEntry {
                id: "1".to_string(),
                title: "Intro".to_string(),
                block_type: BlockType::Structure,
                depth: 1,
                weight: FractionalIndex::first(),
                children: vec![TocEntry {
                    id: "3".to_string(),
                    title: "Idea".to_string(),
                    block_type: BlockType::GhostNote,
                    depth: 2,
                    weight: FractionalIndex::after_last(&FractionalIndex::first()),
                    children: vec![],
                }],
            },
            TocEntry {
                id: "2".to_string(),
                title: "Body".to_string(),
                block_type: BlockType::Permanent,
                depth: 1,
                weight: FractionalIndex::after_last(&FractionalIndex::first()),
                children: vec![],
            },
        ],
    }
}

#[test]
fn toc_lines_number_top_entries_and_indent_children() {
    let root = sample_toc();
    assert_eq!(toc_text(&root.children), "  1. 📁 Intro\n   └─ 👻 Idea [b]\n  2. 📝 Body [b]\n");
}

#[test]
fn toc_report_lists_entries_and_counts() {
    let root = sample_toc();
    let rule = "─".repeat(60);
    let expected = format!(
        "📖 Table of Contents: Book\n\n   ID: ROOT\n\n{rule}\n\n  1. 📁 Intro\n   └─ 👻 Idea [b]\n  2. 📝 Body [b]\n\n{rule}\n\n📊 Statistics:\n   Total entries: 3\n   Sections: 1\n   Zettels: 1\n   Ghosts: 1\n"
    );
    assert_eq!(toc_report(&root, "ROOT"), expected);
    let empty = TocEntry { children: vec![], ..sample_toc() };
    assert!(toc_report(&empty, "X").contains("   (empty - no linked blocks)\n\n💡 Link blocks to this structure using:\n   nexus link --from <block_id> --to X --link-type section_of\n"));
}
