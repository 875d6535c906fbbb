use pkm_ai::model::BlockType;
use pkm_ai::parse::parse_tags;

#[test]
fn test_parse_tags_single_tag() {
    let result = parse_tags("rust");
    assert_eq!(result, vec!["rust"]);
}

#[test]
fn test_parse_tags_multiple_tags() {
    let result = parse_tags("rust, golang, python");
    assert_eq!(result, vec!["rust", "golang", "python"]);
}

#[test]
fn test_parse_tags_with_empty_spaces() {
    let result = parse_tags("  rust  ,  golang  ,  python  ");
    assert_eq!(result, vec!["rust", "golang", "python"]);
}

#[test]
fn test_parse_tags_empty_string() {
    let result = parse_tags("");
    assert!(result.is_empty());
}

#[test]
fn test_parse_tags_with_empty_entries() {
    let result = parse_tags("rust,,golang,  ,python");
    assert_eq!(result, vec!["rust", "golang", "python"]);
}

#[test]
fn test_parse_tags_single_tag_no_comma() {
    let result = parse_tags("rust");
    assert_eq!(result, vec!["rust"]);
}

#[test]
fn test_block_type_emoji_fleeting() {
    assert_eq!(BlockType::Fleeting.list_emoji(), "⚡");
}

#[test]
fn test_block_type_emoji_literature() {
    assert_eq!(BlockType::Literature.list_emoji(), "📖");
}

#[test]
fn test_block_type_emoji_permanent() {
    assert_eq!(BlockType::Permanent.list_emoji(), "💎");
}

#[test]
fn test_block_type_emoji_structure() {
    assert_eq!(BlockType::Structure.list_emoji(), "🗂️");
}

#[test]
fn test_block_type_emoji_hub() {
    assert_eq!(BlockType::Hub.list_emoji(), "🌐");
}

#[test]
fn test_block_type_emoji_task() {
    assert_eq!(BlockType::Task.list_emoji(), "✅");
}

#[test]
fn test_block_type_emoji_reference() {
    assert_eq!(BlockType::Reference.list_emoji(), "📚");
}

#[test]
fn test_block_type_emoji_outline() {
    assert_eq!(BlockType::Outline.list_emoji(), "📝");
}

#[test]
fn test_block_type_emoji_ghost() {
    assert_eq!(BlockType::GhostNote.list_emoji(), "👻");
}

fn get_emoji_for_type(block_type: &BlockType) -> &'static str {
    block_type.list_emoji()
}

#[test]
fn test_all_block_types_have_emoji() {
    let types = vec![
        BlockType::Fleeting,
        BlockType::Literature,
        BlockType::Permanent,
        BlockType::Structure,
        BlockType::Hub,
        BlockType::Task,
        BlockType::Reference,
        BlockType::Outline,
        BlockType::GhostNote,
    ];
    for block_type in &types {
        let emoji = get_emoji_for_type(block_type);
        assert!(!emoji.is_empty(), "Block type {:?} should have an emoji", block_type);
    }
}

#[test]
fn test_emoji_mapping_is_correct() {
    assert_eq!(get_emoji_for_type(&BlockType::Fleeting), "⚡");
    assert_eq!(get_emoji_for_type(&BlockType::Literature), "📖");
    assert_eq!(get_emoji_for_type(&BlockType::Permanent), "💎");
    assert_eq!(get_emoji_for_type(&BlockType::Structure), "🗂️");
    assert_eq!(get_emoji_for_type(&BlockType::Hub), "🌐");
    assert_eq!(get_emoji_for_type(&BlockType::Task), "✅");
    assert_eq!(get_emoji_for_type(&BlockType::Reference), "📚");
    assert_eq!(get_emoji_for_type(&BlockType::Outline), "📝");
    assert_eq!(get_emoji_for_type(&BlockType::GhostNote), "👻");
}

#[test]
fn tree_markers_and_names() {
    assert_eq!(BlockType::Structure.tree_marker(), "📁");
    assert_eq!(BlockType::GhostNote.lower_name(), "ghost");
    assert_eq!(BlockType::GhostNote.debug_name(), "Ghost");
    assert_eq!(BlockType::Hub.lower_name(), "hub");
}
