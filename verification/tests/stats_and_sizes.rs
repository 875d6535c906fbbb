use pkm_ai::block::{Block, Edge, FractionalIndex};
use pkm_ai::database::{count_blocks_by_type, DbStats};
use pkm_ai::model::{BlockType, LinkType};
use pkm_ai::size::{decimal_string, format_size};

#[test]
fn test_format_size() {
    assert_eq!(format_size(500), "500 B");
    assert_eq!(format_size(1024), "1.00 KB");
    assert_eq!(format_size(1024 * 1024), "1.00 MB");
    assert_eq!(format_size(1024 * 1024 * 1024), "1.00 GB");
    assert_eq!(format_size(1024 * 1024 + 512 * 1024), "1.50 MB");
}

#[test]
fn format_size_rounds_like_two_decimals() {
    for bytes in [1152u64, 1025, 1535, 2047, 10 * 1024 * 1024 - 1, 5_000_000_000, u64::MAX] {
        let expected = if bytes >= 1 << 30 {
            format!("{:.2} GB", bytes as f64 / (1u64 << 30) as f64)
        } else if bytes >= 1 << 20 {
            format!("{:.2} MB", bytes as f64 / (1u64 << 20) as f64)
        } else {
            format!("{:.2} KB", bytes as f64 / 1024.0)
        };
        assert_eq!(format_size(bytes), expected, "{}", bytes);
    }
    assert_eq!(format_size(0), "0 B");
    assert_eq!(decimal_string(1234567890123), "1234567890123");
}

#[test]
fn test_db_stats_display() {
    let stats = DbStats {
        total_blocks: 10,
        total_edges: 5,
        total_ghost_nodes: 2,
        blocks_by_type: vec![("permanent".to_string(), 5), ("fleeting".to_string(), 5)],
        db_size_bytes: 1024 * 1024,
    };
    let output = stats.display_text();
    assert!(output.contains("Blocks: 10"));
    assert!(output.contains("Edges: 5"));
    assert!(output.contains("Ghost nodes: 2"));
    assert!(output.contains("permanent: 5"));
    assert!(output.contains("1.00 MB"));
    assert_eq!(
        output,
        "📊 Database Statistics:\n  Blocks: 10\n  Edges: 5\n  Ghost nodes: 2\n  Block types:\n    - permanent: 5\n    - fleeting: 5\n  Database size: 1.00 MB\n"
    );
    let empty = DbStats::default();
    assert_eq!(empty.total_blocks, 0);
    assert!(empty.blocks_by_type.is_empty());
}

#[test]
fn blocks_counted_by_kind() {
    let blocks = vec![
        Block::permanent("a", ""),
        Block::fleeting("b"),
        Block::permanent("c", ""),
        Block::new(BlockType::GhostNote, "g"),
    ];
    let counts = count_blocks_by_type(&blocks);
    assert_eq!(
        counts,
        vec![("permanent".to_string(), 2), ("fleeting".to_string(), 1), ("ghost".to_string(), 1)]
    );
    assert!(count_blocks_by_type(&[]).is_empty());
}

#[test]
fn edges_start_first_and_move() {
    let e = Edge::new(1, 2, LinkType::Next);
    assert_eq!(e.sequence_weight.to_string(), "a");
    assert!(e.context.is_none());
    let id = e.id;
    let moved = e.with_weight(FractionalIndex::after_last(&FractionalIndex::first()));
    assert_eq!(moved.id, id);
    assert_eq!(moved.sequence_weight.to_string(), "b");
    assert_eq!((moved.from, moved.to), (1, 2));
}

#[test]
fn block_metadata_replaces_values() {
    let mut b = Block::permanent("t", "c");
    b.set_metadata("k", Some("one"));
    b.set_metadata("other", None);
    b.set_metadata("k", Some("two"));
    assert_eq!(b.metadata.len(), 2);
    assert_eq!(b.metadata[0], ("k".to_string(), Some("two".to_string())));
    assert_eq!(pkm_ai::block::meta_lookup(&b.metadata, "k"), Some(Some("two".to_string())));
    assert_eq!(pkm_ai::block::meta_lookup(&b.metadata, "other"), Some(None));
    assert_eq!(pkm_ai::block::meta_lookup(&b.metadata, "none"), None);
}
