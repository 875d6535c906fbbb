use pkm_ai::commands::{parse_choice, InteractiveChoice};
use pkm_ai::detect::detect_block_type;
use pkm_ai::error::NexusError;
use pkm_ai::model::BlockType;
use pkm_ai::parse::parse_block_type;

#[test]
fn test_parse_block_type_fleeting() {
    assert_eq!(parse_block_type("fleeting").unwrap(), BlockType::Fleeting);
    assert_eq!(parse_block_type("F").unwrap(), BlockType::Fleeting);
    assert_eq!(parse_block_type("f").unwrap(), BlockType::Fleeting);
    assert_eq!(parse_block_type("FLEETING").unwrap(), BlockType::Fleeting);
}

#[test]
fn test_parse_block_type_literature() {
    assert_eq!(parse_block_type("literature").unwrap(), BlockType::Literature);
    assert_eq!(parse_block_type("L").unwrap(), BlockType::Literature);
    assert_eq!(parse_block_type("l").unwrap(), BlockType::Literature);
}

#[test]
fn test_parse_block_type_permanent() {
    assert_eq!(parse_block_type("permanent").unwrap(), BlockType::Permanent);
    assert_eq!(parse_block_type("P").unwrap(), BlockType::Permanent);
    assert_eq!(parse_block_type("p").unwrap(), BlockType::Permanent);
}

#[test]
fn test_parse_block_type_structure() {
    assert_eq!(parse_block_type("structure").unwrap(), BlockType::Structure);
    assert_eq!(parse_block_type("S").unwrap(), BlockType::Structure);
    assert_eq!(parse_block_type("s").unwrap(), BlockType::Structure);
    assert_eq!(parse_block_type("index").unwrap(), BlockType::Structure);
    assert_eq!(parse_block_type("moc").unwrap(), BlockType::Structure);
}

#[test]
fn test_parse_block_type_hub() {
    assert_eq!(parse_block_type("hub").unwrap(), BlockType::Hub);
    assert_eq!(parse_block_type("H").unwrap(), BlockType::Hub);
    assert_eq!(parse_block_type("h").unwrap(), BlockType::Hub);
}

#[test]
fn test_parse_block_type_task() {
    assert_eq!(parse_block_type("task").unwrap(), BlockType::Task);
    assert_eq!(parse_block_type("T").unwrap(), BlockType::Task);
    assert_eq!(parse_block_type("t").unwrap(), BlockType::Task);
}

#[test]
fn test_parse_block_type_reference() {
    assert_eq!(parse_block_type("reference").unwrap(), BlockType::Reference);
    assert_eq!(parse_block_type("R").unwrap(), BlockType::Reference);
    assert_eq!(parse_block_type("r").unwrap(), BlockType::Reference);
}

#[test]
fn test_parse_block_type_outline() {
    assert_eq!(parse_block_type("outline").unwrap(), BlockType::Outline);
    assert_eq!(parse_block_type("O").unwrap(), BlockType::Outline);
    assert_eq!(parse_block_type("o").unwrap(), BlockType::Outline);
}

#[test]
fn test_parse_block_type_ghost() {
    assert_eq!(parse_block_type("ghost").unwrap(), BlockType::GhostNote);
    assert_eq!(parse_block_type("G").unwrap(), BlockType::GhostNote);
    assert_eq!(parse_block_type("g").unwrap(), BlockType::GhostNote);
}

#[test]
fn test_parse_block_type_invalid() {
    let result = parse_block_type("invalid");
    assert!(result.is_err());
    assert!(matches!(result.unwrap_err(), NexusError::InvalidBlockType(_)));
}

#[test]
fn test_parse_block_type_case_insensitive() {
    assert_eq!(parse_block_type("Permanent").unwrap(), BlockType::Permanent);
    assert_eq!(parse_block_type("PERMANENT").unwrap(), BlockType::Permanent);
    assert_eq!(parse_block_type("PeRmAnEnT").unwrap(), BlockType::Permanent);
}

#[test]
fn test_detect_block_type_task_from_title() {
    assert_eq!(detect_block_type("TODO: implement auth", &None), Some(BlockType::Task));
    assert_eq!(detect_block_type("TODO fix bug", &None), Some(BlockType::Task));
    assert_eq!(detect_block_type("[ ] Complete task", &None), Some(BlockType::Task));
}

#[test]
fn test_detect_block_type_task_from_content() {
    assert_eq!(
        detect_block_type("My Note", &Some("I need to fix this bug soon".to_string())),
        Some(BlockType::Task)
    );
    assert_eq!(
        detect_block_type("Notes", &Some("Implement login feature".to_string())),
        Some(BlockType::Task)
    );
}

#[test]
fn test_detect_block_type_reference() {
    assert_eq!(
        detect_block_type("Chapter 1", &Some("Book quote here".to_string())),
        Some(BlockType::Reference)
    );
    assert_eq!(
        detect_block_type("My Notes", &Some("Author: Someone. Source: Book title".to_string())),
        Some(BlockType::Reference)
    );
}

#[test]
fn test_detect_block_type_structure() {
    assert_eq!(detect_block_type("Index", &None), Some(BlockType::Structure));
    assert_eq!(detect_block_type("MOC Overview", &None), Some(BlockType::Structure));
    assert_eq!(detect_block_type("Table of Contents", &None), Some(BlockType::Structure));
}

#[test]
fn test_detect_block_type_literature() {
    assert_eq!(
        detect_block_type("My Note", &Some("Interesting idea: something".to_string())),
        Some(BlockType::Literature)
    );
    assert_eq!(
        detect_block_type("Observation", &Some("I noticed that...".to_string())),
        Some(BlockType::Literature)
    );
}

#[test]
fn test_detect_block_type_no_match() {
    assert_eq!(detect_block_type("Random Title", &None), None);
    assert_eq!(
        detect_block_type("Title", &Some("Some random content without keywords".to_string())),
        None
    );
}

#[test]
fn test_detect_block_type_priority() {
    assert_eq!(
        detect_block_type("TODO: implement auth", &Some("book reference".to_string())),
        Some(BlockType::Task)
    );
}

#[test]
fn test_interactive_choice_values() {
    assert_eq!(InteractiveChoice::Yes, InteractiveChoice::Yes);
    assert_eq!(InteractiveChoice::No, InteractiveChoice::No);
    assert_eq!(InteractiveChoice::Edit, InteractiveChoice::Edit);
    assert_eq!(InteractiveChoice::Abort, InteractiveChoice::Abort);
}

#[test]
fn test_interactive_choice_different() {
    assert_ne!(InteractiveChoice::Yes, InteractiveChoice::No);
    assert_ne!(InteractiveChoice::Edit, InteractiveChoice::Abort);
}

#[test]
fn parse_choice_accepts_every_spelling() {
    for s in ["y", "yes", "s", "si", "yep", " YES \n"] {
        assert_eq!(parse_choice(s), Some(InteractiveChoice::Yes), "{}", s);
    }
    for s in ["n", "no", "nope", "No"] {
        assert_eq!(parse_choice(s), Some(InteractiveChoice::No), "{}", s);
    }
    for s in ["e", "edit", "ed", "  Edit  "] {
        assert_eq!(parse_choice(s), Some(InteractiveChoice::Edit), "{}", s);
    }
    for s in ["a", "abort", "cancel", "q", "quit", "QUIT"] {
        assert_eq!(parse_choice(s), Some(InteractiveChoice::Abort), "{}", s);
    }
}

#[test]
fn parse_choice_refuses_other_replies() {
    assert_eq!(parse_choice(""), None);
    assert_eq!(parse_choice("maybe"), None);
    assert_eq!(parse_choice("y e s"), None);
}
