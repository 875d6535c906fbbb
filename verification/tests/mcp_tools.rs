use pkm_ai::mcp::PropertyValue;
use pkm_ai::model::{BlockType, LinkType};
use pkm_ai::store::{BlockStore, EdgeStore};
use pkm_ai::tools::{
    create_block_tool, create_link_tool, delete_block_tool, delete_link_tool, get_block_tool, get_links_tool,
    get_block_view, get_section_map_tool, get_toc_tool, gravity_check_tool, search_limit, search_source,
    summarize_blocks, update_block_tool, SearchSource,
};

/// The ULID text of an identifier, as the `ulid` crate writes it.
fn encode_ulid(v: u128) -> String {
    ulid::Ulid(v).to_string()
}

fn strings(v: &[&str]) -> Vec<String> {
    v.iter().map(|s| s.to_string()).collect()
}

fn permanent(blocks: &mut BlockStore, title: &str) -> String {
    encode_ulid(create_block_tool(blocks, "permanent", Some(title), None, None).unwrap())
}

#[test]
fn test_create_block_fleeting() {
    let mut blocks = BlockStore::new();
    let result = create_block_tool(
        &mut blocks,
        "fleeting",
        Some("Test Note"),
        Some("My fleeting note"),
        Some(strings(&["test", "fleeting"])),
    );
    assert!(result.is_ok(), "Failed to create block: {:?}", result.err());
    let id = result.unwrap();
    let b = &blocks.blocks[0];
    assert_eq!(b.id, id);
    assert_eq!(b.block_type, BlockType::Fleeting);
    assert_eq!(b.block_type.lower_name(), "fleeting");
    assert_eq!(b.title, "Test Note");
    assert_eq!(b.tags, strings(&["test", "fleeting"]));
}

#[test]
fn test_create_block_permanent() {
    let mut blocks = BlockStore::new();
    let result = create_block_tool(
        &mut blocks,
        "permanent",
        Some("My Zettel"),
        Some("# Atomic Note\n\nThis is atomic."),
        None,
    );
    assert!(result.is_ok());
    assert_eq!(blocks.blocks[0].block_type.lower_name(), "permanent");
}

#[test]
fn test_create_block_invalid_type() {
    let mut blocks = BlockStore::new();
    let result = create_block_tool(&mut blocks, "invalid_type", None, None, None);
    assert!(result.is_err());
    let err = result.unwrap_err();
    assert!(err.message.contains("Unknown block type"));
    assert_eq!(err.message, "Unknown block type: invalid_type");
    assert!(blocks.blocks.is_empty());
}

#[test]
fn test_create_block_without_title() {
    let mut blocks = BlockStore::new();
    let result = create_block_tool(&mut blocks, "permanent", None, None, None);
    assert!(result.is_ok());
    assert_eq!(blocks.blocks[0].title, "Untitled");
}

#[test]
fn create_block_tool_cleans_and_checks_tags() {
    let mut blocks = BlockStore::new();
    create_block_tool(&mut blocks, "TASK", Some("  Spaced\0 title "), Some("a\0b"), Some(strings(&[" Rust ", ""])))
        .unwrap();
    let b = &blocks.blocks[0];
    assert_eq!(b.block_type, BlockType::Task);
    assert_eq!(b.title, "Spaced title");
    assert_eq!(b.content, "ab");
    assert_eq!(b.tags, strings(&["rust"]));
    let err = create_block_tool(&mut blocks, "task", None, None, Some(strings(&["bad tag!"]))).unwrap_err();
    assert_eq!(err.message, "Tag 'bad tag!' contains invalid characters. Use only a-z, 0-9, -, _");
    assert_eq!(blocks.blocks.len(), 1);
    // Only the lowercase names are accepted, no short forms.
    assert!(create_block_tool(&mut blocks, "p", None, None, None).is_err());
}

#[test]
fn test_get_block() {
    let mut blocks = BlockStore::new();
    let id = create_block_tool(
        &mut blocks,
        "permanent",
        Some("Test Block"),
        Some("Test content"),
        Some(strings(&["test"])),
    )
    .unwrap();
    let block_id = encode_ulid(id);
    let get_result = get_block_tool(&blocks, &block_id);
    assert!(get_result.is_ok(), "Failed to get block: {:?}", get_result.err());
    let b = get_result.unwrap();
    assert_eq!(encode_ulid(b.id), block_id);
    assert_eq!(b.title, "Test Block");
    assert_eq!(b.content, "Test content");
}

#[test]
fn test_get_block_invalid_ulid() {
    let blocks = BlockStore::new();
    let get_result = get_block_tool(&blocks, "invalid-ulid");
    assert!(get_result.is_err());
    let err = get_result.unwrap_err();
    assert!(err.message.contains("Invalid ULID"));
    assert_eq!(err.message, "Invalid ULID: invalid length");
}

#[test]
fn test_get_block_not_found() {
    let blocks = BlockStore::new();
    let get_result = get_block_tool(&blocks, "01ARZ3NDEKTSV4RRFFQ69G5FAV");
    assert!(get_result.is_err());
    let err = get_result.unwrap_err();
    assert!(err.message.contains("Block not found"));
    assert_eq!(err.message, "Block not found: 01ARZ3NDEKTSV4RRFFQ69G5FAV");
}

#[test]
fn test_update_block_content() {
    let mut blocks = BlockStore::new();
    let id = create_block_tool(&mut blocks, "permanent", Some("Original Title"), Some("Original content"), None)
        .unwrap();
    let block_id = encode_ulid(id);
    let update_result = update_block_tool(&mut blocks, &block_id, Some("Updated content"), None);
    assert!(update_result.is_ok(), "Update failed: {:?}", update_result.err());
    assert_eq!(update_result.unwrap(), format!("Block {} updated successfully", block_id));
    let b = get_block_tool(&blocks, &block_id).unwrap();
    assert_eq!(b.content, "Updated content");
    assert_eq!(b.title, "Original Title");
}

#[test]
fn update_block_tool_stores_checked_properties() {
    let mut blocks = BlockStore::new();
    let block_id = permanent(&mut blocks, "Props");
    let props = vec![
        (" status ".to_string(), PropertyValue::Text("draft".to_string())),
        ("__proto__".to_string(), PropertyValue::Text("x".to_string())),
        ("score".to_string(), PropertyValue::Number("3".to_string())),
    ];
    update_block_tool(&mut blocks, &block_id, None, Some(props)).unwrap();
    let b = &blocks.blocks[0];
    assert_eq!(pkm_ai::block::meta_lookup(&b.metadata, "status"), Some(Some("draft".to_string())));
    assert_eq!(pkm_ai::block::meta_lookup(&b.metadata, "score"), Some(None));
    assert_eq!(pkm_ai::block::meta_lookup(&b.metadata, "__proto__"), None);

    let long_key = "k".repeat(101);
    let err = update_block_tool(&mut blocks, &block_id, Some("changed"), Some(vec![(long_key, PropertyValue::Null)]))
        .unwrap_err();
    assert_eq!(err.message, "Property key exceeds 100 characters");
    assert_eq!(blocks.blocks[0].content, "");
}

#[test]
fn test_create_link() {
    let mut blocks = BlockStore::new();
    let block1_id = permanent(&mut blocks, "Block 1");
    let block2_id = permanent(&mut blocks, "Block 2");
    let mut edges = EdgeStore::new();
    let link_result = create_link_tool(&mut edges, &block1_id, &block2_id, "supports");
    assert!(link_result.is_ok(), "Failed to create link: {:?}", link_result.err());
    let id = link_result.unwrap();
    let e = &edges.edges[0];
    assert_eq!(e.id, id);
    assert_eq!(encode_ulid(e.from), block1_id);
    assert_eq!(encode_ulid(e.to), block2_id);
    assert_eq!(e.link_type, LinkType::Supports);
}

#[test]
fn test_create_link_invalid_link_type() {
    let mut blocks = BlockStore::new();
    let block1_id = permanent(&mut blocks, "Block 1");
    let block2_id = permanent(&mut blocks, "Block 2");
    let mut edges = EdgeStore::new();
    let link_result = create_link_tool(&mut edges, &block1_id, &block2_id, "invalid_link_type");
    assert!(link_result.is_err());
    let err = link_result.unwrap_err();
    assert!(err.message.contains("Unknown link type"));
    assert!(edges.edges.is_empty());
    let err = create_link_tool(&mut edges, "nope", &block2_id, "next").unwrap_err();
    assert_eq!(err.message, "Invalid source ULID: invalid length");
    let err = create_link_tool(&mut edges, &block1_id, "nope", "next").unwrap_err();
    assert_eq!(err.message, "Invalid target ULID: invalid length");
}

#[test]
fn test_get_links_outgoing() {
    let mut blocks = BlockStore::new();
    let block1_id = permanent(&mut blocks, "Source");
    let block2_id = permanent(&mut blocks, "Target");
    let mut edges = EdgeStore::new();
    create_link_tool(&mut edges, &block1_id, &block2_id, "references").unwrap();
    let links = get_links_tool(&edges, &block1_id, None, Some("outgoing")).unwrap();
    assert!(!links.is_empty());
    assert_eq!(encode_ulid(links[0].from), block1_id);
}

#[test]
fn test_get_links_incoming() {
    let mut blocks = BlockStore::new();
    let block1_id = permanent(&mut blocks, "Source");
    let block2_id = permanent(&mut blocks, "Target");
    let mut edges = EdgeStore::new();
    create_link_tool(&mut edges, &block1_id, &block2_id, "supports").unwrap();
    let links = get_links_tool(&edges, &block2_id, None, Some("incoming")).unwrap();
    assert!(!links.is_empty());
    assert_eq!(encode_ulid(links[0].to), block2_id);
}

#[test]
fn test_get_links_filter_by_type() {
    let mut blocks = BlockStore::new();
    let block1_id = permanent(&mut blocks, "Block 1");
    let block2_id = permanent(&mut blocks, "Block 2");
    let block3_id = permanent(&mut blocks, "Block 3");
    let mut edges = EdgeStore::new();
    create_link_tool(&mut edges, &block1_id, &block2_id, "supports").unwrap();
    create_link_tool(&mut edges, &block1_id, &block3_id, "extends").unwrap();
    let links = get_links_tool(&edges, &block1_id, Some(strings(&["supports"])), Some("outgoing")).unwrap();
    assert_eq!(links.len(), 1);
    assert_eq!(links[0].link_type.lower_name(), "supports");
}

#[test]
fn get_links_tool_lists_both_directions_by_default() {
    let mut blocks = BlockStore::new();
    let a = permanent(&mut blocks, "A");
    let b = permanent(&mut blocks, "B");
    let c = permanent(&mut blocks, "C");
    let mut edges = EdgeStore::new();
    create_link_tool(&mut edges, &a, &b, "next").unwrap();
    create_link_tool(&mut edges, &c, &a, "related").unwrap();
    let links = get_links_tool(&edges, &a, None, None).unwrap();
    assert_eq!(links.len(), 2);
    assert_eq!(encode_ulid(links[0].to), b);
    assert_eq!(encode_ulid(links[1].from), c);
    // Unknown kind names are ignored.
    let links = get_links_tool(&edges, &a, Some(strings(&["bogus", "RELATED"])), None).unwrap();
    assert_eq!(links.len(), 1);
    assert_eq!(links[0].link_type, LinkType::Related);
    assert!(get_links_tool(&edges, &a, None, Some("sideways")).unwrap().is_empty());
}

#[test]
fn delete_link_tool_removes_the_first_link() {
    let mut blocks = BlockStore::new();
    let a = permanent(&mut blocks, "A");
    let b = permanent(&mut blocks, "B");
    let mut edges = EdgeStore::new();
    let id = create_link_tool(&mut edges, &a, &b, "next").unwrap();
    create_link_tool(&mut edges, &b, &a, "next").unwrap();
    assert_eq!(delete_link_tool(&blocks, &mut edges, &a, &b).unwrap(), id);
    assert_eq!(edges.edges.len(), 1);
    let err = delete_link_tool(&blocks, &mut edges, &a, &b).unwrap_err();
    assert_eq!(err.message, format!("No link found from {} to {}", a, b));
    let missing = encode_ulid(5);
    let err = delete_link_tool(&blocks, &mut edges, &missing, &b).unwrap_err();
    assert_eq!(err.message, format!("Source block not found: {}", missing));
    let err = delete_link_tool(&blocks, &mut edges, &a, &missing).unwrap_err();
    assert_eq!(err.message, format!("Target block not found: {}", missing));
}

#[test]
fn delete_block_tool_guards_linked_blocks() {
    let mut blocks = BlockStore::new();
    let a = permanent(&mut blocks, "A");
    let b = permanent(&mut blocks, "B");
    let mut edges = EdgeStore::new();
    create_link_tool(&mut edges, &a, &b, "next").unwrap();
    let err = delete_block_tool(&mut blocks, &mut edges, &b, false).unwrap_err();
    assert_eq!(err.message, format!("Block {} has 1 incoming link(s). Use force=true to delete anyway.", b));
    assert_eq!(blocks.blocks.len(), 2);
    let id = delete_block_tool(&mut blocks, &mut edges, &b, true).unwrap();
    assert_eq!(encode_ulid(id), b);
    assert_eq!(blocks.blocks.len(), 1);
    assert!(edges.edges.is_empty());
    // A block without incoming links needs no force.
    assert!(delete_block_tool(&mut blocks, &mut edges, &a, false).is_ok());
    assert!(blocks.blocks.is_empty());
    let err = delete_block_tool(&mut blocks, &mut edges, &a, true).unwrap_err();
    assert_eq!(err.message, format!("Block not found: {}", a));
}

#[test]
fn test_get_section_map() {
    let mut blocks = BlockStore::new();
    let structure_id = encode_ulid(create_block_tool(&mut blocks, "structure", Some("My Structure"), None, None).unwrap());
    let child_id = permanent(&mut blocks, "Section 1");
    let mut edges = EdgeStore::new();
    create_link_tool(&mut edges, &structure_id, &child_id, "contains").unwrap();
    let result = get_section_map_tool(&blocks, &edges, &structure_id);
    assert!(result.is_ok(), "Get section map failed: {:?}", result.err());
    let sections = result.unwrap();
    assert_eq!(sections.len(), 1);
    assert_eq!(sections[0].block.title, "Section 1");
    assert_eq!(sections[0].sequence_weight.to_string(), "a");
}

#[test]
fn test_get_section_map_not_found() {
    let blocks = BlockStore::new();
    let edges = EdgeStore::new();
    let result = get_section_map_tool(&blocks, &edges, "01ARZ3NDEKTSV4RRFFQ69G5FAV");
    assert!(result.is_err());
    let err = result.unwrap_err();
    assert!(err.message.contains("Block not found"));
}

#[test]
fn section_map_skips_links_to_missing_blocks() {
    let mut blocks = BlockStore::new();
    let root = permanent(&mut blocks, "Root");
    let kept = permanent(&mut blocks, "Kept");
    let mut edges = EdgeStore::new();
    create_link_tool(&mut edges, &root, &encode_ulid(99), "contains").unwrap();
    create_link_tool(&mut edges, &root, &kept, "contains").unwrap();
    let sections = get_section_map_tool(&blocks, &edges, &root).unwrap();
    assert_eq!(sections.len(), 1);
    assert_eq!(sections[0].block.title, "Kept");
}

#[test]
fn test_get_toc() {
    let mut blocks = BlockStore::new();
    let structure_id = encode_ulid(create_block_tool(&mut blocks, "structure", Some("Root"), None, None).unwrap());
    let child1_id = permanent(&mut blocks, "Chapter 1");
    let child2_id = permanent(&mut blocks, "Chapter 2");
    let mut edges = EdgeStore::new();
    create_link_tool(&mut edges, &structure_id, &child1_id, "contains").unwrap();
    create_link_tool(&mut edges, &structure_id, &child2_id, "contains").unwrap();
    let result = get_toc_tool(&blocks, &edges, &structure_id);
    assert!(result.is_ok(), "Get TOC failed: {:?}", result.err());
    let toc = result.unwrap();
    // The links are visited last first, each child one level down.
    assert_eq!(toc.len(), 2);
    assert_eq!((toc[0].title.as_str(), toc[0].level), ("Chapter 2", 1));
    assert_eq!((toc[1].title.as_str(), toc[1].level), ("Chapter 1", 1));
}

#[test]
fn test_get_toc_not_found() {
    let blocks = BlockStore::new();
    let edges = EdgeStore::new();
    let result = get_toc_tool(&blocks, &edges, "01ARZ3NDEKTSV4RRFFQ69G5FAV");
    assert!(result.is_err());
    let err = result.unwrap_err();
    assert!(err.message.contains("Structure not found"));
}

#[test]
fn get_toc_tool_walks_nested_sections() {
    let mut blocks = BlockStore::new();
    let root = permanent(&mut blocks, "Root");
    let a = permanent(&mut blocks, "A");
    let a1 = permanent(&mut blocks, "A1");
    let b = permanent(&mut blocks, "B");
    let mut edges = EdgeStore::new();
    create_link_tool(&mut edges, &root, &a, "contains").unwrap();
    create_link_tool(&mut edges, &root, &b, "contains").unwrap();
    create_link_tool(&mut edges, &a, &a1, "contains").unwrap();
    let toc = get_toc_tool(&blocks, &edges, &root).unwrap();
    let seen: Vec<(&str, usize)> = toc.iter().map(|t| (t.title.as_str(), t.level)).collect();
    // B and A are listed first; A was put aside last, so it is expanded next.
    assert_eq!(seen, vec![("B", 1), ("A", 1), ("A1", 2)]);
}

#[test]
fn test_gravity_check() {
    let mut blocks = BlockStore::new();
    let block_id = permanent(&mut blocks, "Connected Block");
    let other_id = permanent(&mut blocks, "Other Block");
    let mut edges = EdgeStore::new();
    create_link_tool(&mut edges, &block_id, &other_id, "supports").unwrap();
    let result = gravity_check_tool(&blocks, &edges, &block_id);
    assert!(result.is_ok(), "Gravity check failed: {:?}", result.err());
    let (outgoing, incoming) = result.unwrap();
    assert_eq!((outgoing, incoming), (1, 0));
    assert_eq!(gravity_check_tool(&blocks, &edges, &other_id).unwrap(), (0, 1));
}

#[test]
fn test_gravity_check_block_not_found() {
    let blocks = BlockStore::new();
    let edges = EdgeStore::new();
    let result = gravity_check_tool(&blocks, &edges, "01ARZ3NDEKTSV4RRFFQ69G5FAV");
    assert!(result.is_err());
    let err = result.unwrap_err();
    assert!(err.message.contains("Block not found"));
}

#[test]
fn block_view_shows_content_only_when_asked() {
    let mut blocks = BlockStore::new();
    let id = create_block_tool(&mut blocks, "permanent", Some("T"), Some("body"), None).unwrap();
    let v = get_block_view(&blocks, &encode_ulid(id), None).unwrap();
    assert!(v.content.is_none() && v.metadata.is_none());
    assert_eq!(v.title, "T");
    let v = get_block_view(&blocks, &encode_ulid(id), Some(false)).unwrap();
    assert!(v.content.is_none());
    let v = get_block_view(&blocks, &encode_ulid(id), Some(true)).unwrap();
    assert_eq!(v.content.as_deref(), Some("body"));
    assert!(v.metadata.is_some());
    assert!(get_block_view(&blocks, "nope", Some(true)).is_err());
}

#[test]
fn search_sources_and_limits() {
    assert!(matches!(search_source(Some("rust"), Some("task")), Ok(SearchSource::Content(q)) if q == "rust"));
    assert!(matches!(search_source(None, Some("TASK")), Ok(SearchSource::OfType(BlockType::Task))));
    assert!(matches!(search_source(None, Some("ghost")), Ok(SearchSource::OfType(BlockType::GhostNote))));
    assert!(matches!(search_source(None, None), Ok(SearchSource::All)));
    let e = search_source(None, Some("t")).unwrap_err();
    assert_eq!(e.message, "Unknown block type: t");
    assert_eq!(search_limit(None), 20);
    assert_eq!(search_limit(Some(7)), 7);
    assert_eq!(search_limit(Some(500)), 100);
    assert_eq!(search_limit(Some(-1)), usize::MAX);
}

#[test]
fn search_lists_cut_content_to_two_hundred_characters() {
    let mut blocks = BlockStore::new();
    create_block_tool(&mut blocks, "permanent", Some("A"), Some(&"é".repeat(250)), None).unwrap();
    create_block_tool(&mut blocks, "permanent", Some("B"), Some("short"), None).unwrap();
    create_block_tool(&mut blocks, "permanent", Some("C"), None, None).unwrap();
    let all = blocks.list_all();
    let out = summarize_blocks(&all, 2);
    assert_eq!(out.len(), 2);
    assert_eq!(out[0].title, "C");
    assert_eq!(out[1].content, "short");
    let out = summarize_blocks(&all, 10);
    assert_eq!(out.len(), 3);
    assert_eq!(out[2].content, "é".repeat(200));
}
