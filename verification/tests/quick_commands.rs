use pkm_ai::model::BlockType;
use pkm_ai::quick::{quick_block, quick_commit_message, quick_title};

#[test]
fn test_title_truncation_long() {
    let content = "This is a very long content that exceeds fifty characters and should be truncated";
    let title = quick_title(content);
    assert_eq!(title.len(), 50);
    assert!(title.ends_with("..."));
}

#[test]
fn test_title_truncation_short() {
    let content = "Short content";
    let title = quick_title(content);
    assert_eq!(title, "Short content");
}

#[test]
fn test_commit_message_truncation() {
    let long_content = "This is a very long content that exceeds fifty characters and should be truncated";
    let commit_message = quick_commit_message(long_content);
    assert!(commit_message.starts_with("Quick capture: "));
    assert!(commit_message.contains(&long_content[..47]));
    assert!(!commit_message.ends_with("..."));
}

#[test]
fn test_commit_message_short_content() {
    let short_content = "Short note";
    let commit_message = quick_commit_message(short_content);
    assert_eq!(commit_message, "Quick capture: Short note");
}

#[test]
fn title_of_exactly_fifty_bytes_is_kept() {
    let fifty = "a".repeat(50);
    assert_eq!(quick_title(&fifty), fifty);
    let fifty_one = "b".repeat(51);
    assert_eq!(quick_title(&fifty_one), format!("{}...", "b".repeat(47)));
    assert_eq!(quick_commit_message(&fifty_one), format!("Quick capture: {}", "b".repeat(47)));
}

#[test]
fn quick_block_defaults_to_fleeting_with_tags() {
    let b = quick_block("remember the milk", None, Some("home, errands,,")).unwrap();
    assert_eq!(b.block_type, BlockType::Fleeting);
    assert_eq!(b.title, "remember the milk");
    assert_eq!(b.content, "remember the milk");
    assert_eq!(b.tags, vec!["home", "errands"]);
}

#[test]
fn quick_block_takes_named_kind_and_refuses_unknown() {
    let b = quick_block("x", Some("TASK"), None).unwrap();
    assert_eq!(b.block_type, BlockType::Task);
    assert!(b.tags.is_empty());
    assert!(quick_block("x", Some("nope"), None).is_err());
}

#[test]
fn long_titles_are_cut_by_characters() {
    let accents = "é".repeat(30);
    assert_eq!(quick_title(&accents), accents);
    let long = "é".repeat(60);
    assert_eq!(quick_title(&long), format!("{}...", "é".repeat(47)));
    assert_eq!(quick_commit_message(&long), format!("Quick capture: {}", "é".repeat(47)));
}
