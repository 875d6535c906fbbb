use pkm_ai::block::Block;
use pkm_ai::mcp::{
    detect_type_mismatch, parse_link_type, sanitize_string, sanitize_title, validate_properties, validate_tags,
    PropertyValue, RateLimiter, TypeHintReason, INVALID_PARAMS, RATE_LIMITED,
};
use pkm_ai::model::{BlockType, LinkType};

#[test]
fn test_parse_link_type_valid_types() {
    let valid_types = vec![
        ("extends", LinkType::Extends),
        ("refines", LinkType::Refines),
        ("contradicts", LinkType::Contradicts),
        ("questions", LinkType::Questions),
        ("supports", LinkType::Supports),
        ("references", LinkType::References),
        ("related", LinkType::Related),
        ("similar_to", LinkType::SimilarTo),
        ("section_of", LinkType::SectionOf),
        ("subsection_of", LinkType::SubsectionOf),
        ("ordered_child", LinkType::OrderedChild),
        ("next", LinkType::Next),
        ("next_sibling", LinkType::NextSibling),
        ("first_child", LinkType::FirstChild),
        ("contains", LinkType::Contains),
        ("parent", LinkType::Parent),
        ("ai_suggested", LinkType::AiSuggested),
    ];
    for (name, expected) in valid_types {
        let result = parse_link_type(name);
        assert!(result.is_ok(), "Failed to parse: {}", name);
        assert_eq!(result.unwrap(), expected);
    }
}

#[test]
fn mcp_test_parse_link_type_invalid() {
    let result = parse_link_type("invalid_type");
    assert!(result.is_err());
    let err = result.unwrap_err();
    assert!(err.message.contains("Unknown link type"));
}

#[test]
fn mcp_test_parse_link_type_case_insensitive() {
    let result = parse_link_type("RELATED");
    assert!(result.is_ok());
    assert_eq!(result.unwrap(), LinkType::Related);

    let result2 = parse_link_type("Related");
    assert!(result2.is_ok());
    assert_eq!(result2.unwrap(), LinkType::Related);

    let result3 = parse_link_type("ReLaTeD");
    assert!(result3.is_ok());
    assert_eq!(result3.unwrap(), LinkType::Related);
}

#[test]
fn test_parse_link_type_all_variants() {
    assert_eq!(parse_link_type("EXTENDS").unwrap(), LinkType::Extends);
    assert_eq!(parse_link_type("Extends").unwrap(), LinkType::Extends);
    assert_eq!(parse_link_type("extends").unwrap(), LinkType::Extends);

    assert_eq!(parse_link_type("SECTION_OF").unwrap(), LinkType::SectionOf);
    assert_eq!(parse_link_type("Section_Of").unwrap(), LinkType::SectionOf);
    assert_eq!(parse_link_type("section_of").unwrap(), LinkType::SectionOf);

    assert_eq!(parse_link_type("AI_SUGGESTED").unwrap(), LinkType::AiSuggested);
    assert_eq!(parse_link_type("Ai_Suggested").unwrap(), LinkType::AiSuggested);
    assert_eq!(parse_link_type("ai_suggested").unwrap(), LinkType::AiSuggested);
}

#[test]
fn strict_link_names_refuse_aliases() {
    let e = parse_link_type("elaborates").unwrap_err();
    assert_eq!(e.code, INVALID_PARAMS);
    assert_eq!(e.message, "Unknown link type: elaborates");
    assert!(parse_link_type("similar-to").is_err());
}

#[test]
fn sanitizing_text() {
    assert_eq!(sanitize_string("a\0b\0c"), "abc");
    let long: String = "x".repeat(1_000_005);
    assert_eq!(sanitize_string(&long).chars().count(), 1_000_000);
    assert_eq!(sanitize_title("  \0 My Title \0 "), "My Title");
    let long_title = format!("  {}  ", "é".repeat(600));
    assert_eq!(sanitize_title(&long_title), "é".repeat(500));
}

#[test]
fn tags_are_cleaned_and_checked() {
    let tags = vec![" Rust ".to_string(), "".to_string(), "   ".to_string(), "web-dev".to_string(), "A_b\0".to_string()];
    assert_eq!(validate_tags(tags).unwrap(), vec!["rust", "web-dev", "a_b"]);

    let e = validate_tags(vec!["ok".to_string(), "not ok".to_string(), "x".repeat(60)]).unwrap_err();
    assert_eq!(e.code, INVALID_PARAMS);
    assert_eq!(e.message, "Tag 'not ok' contains invalid characters. Use only a-z, 0-9, -, _");

    let e = validate_tags(vec!["y".repeat(51)]).unwrap_err();
    assert_eq!(e.message, format!("Tag '{}' exceeds 50 characters", "y".repeat(51)));

    let too_many: Vec<String> = (0..21).map(|i| format!("t{}", i)).collect();
    let e = validate_tags(too_many).unwrap_err();
    assert_eq!(e.message, "Maximum 20 tags allowed, got 21");

    let twenty: Vec<String> = (0..20).map(|i| format!("t{}", i)).collect();
    assert_eq!(validate_tags(twenty).unwrap().len(), 20);
}

#[test]
fn properties_are_cleaned() {
    let props = vec![
        (" title ".to_string(), PropertyValue::Text("a\0b".to_string())),
        ("__proto__".to_string(), PropertyValue::Null),
        ("count".to_string(), PropertyValue::Number("3".to_string())),
        ("list".to_string(), PropertyValue::Composite("[1,2]".to_string())),
        ("title".to_string(), PropertyValue::Bool(true)),
    ];
    let out = validate_properties(props).unwrap();
    assert_eq!(out.len(), 3);
    assert_eq!(out[0].0, "title");
    assert!(matches!(out[0].1, PropertyValue::Bool(true)));
    assert_eq!(out[1].0, "count");
    assert!(matches!(&out[1].1, PropertyValue::Number(n) if n == "3"));
    assert!(matches!(&out[2].1, PropertyValue::Text(t) if t == "[1,2]"));

    let e = validate_properties(vec![("k".repeat(101), PropertyValue::Null)]).unwrap_err();
    assert_eq!(e.message, "Property key exceeds 100 characters");
}

#[test]
fn block_kind_hints() {
    let q = Block::permanent("What is ownership", "Explained here");
    let h = detect_type_mismatch(&q, &BlockType::Permanent).unwrap();
    assert_eq!(h.suggested_type, BlockType::Literature);
    assert_eq!(h.confidence_pct, 60);
    assert_eq!(h.reason, TypeHintReason::Question);

    let r = Block::permanent("Links", "see https://example.org");
    assert_eq!(detect_type_mismatch(&r, &BlockType::Permanent).unwrap().confidence_pct, 70);

    let t = Block::permanent("TODO write", "");
    let h = detect_type_mismatch(&t, &BlockType::Permanent).unwrap();
    assert_eq!(h.suggested_type, BlockType::Task);
    assert!(detect_type_mismatch(&t, &BlockType::Task).is_none());

    let s = Block::permanent("Index", "");
    let h = detect_type_mismatch(&s, &BlockType::Hub).unwrap();
    assert_eq!(h.suggested_type, BlockType::Structure);
    assert_eq!(h.reason.text(), "Empty content with structural purpose, consider structure type");

    let plain = Block::permanent("Plain", "Nothing special");
    assert!(detect_type_mismatch(&plain, &BlockType::Permanent).is_none());
}

#[test]
fn rate_limiter_refuses_after_limit_and_forgets_old_requests() {
    let mut l = RateLimiter::new(2, 10);
    let sec = 1_000_000_000u128;
    assert!(l.check_at("a", 0).is_ok());
    assert!(l.check_at("a", sec).is_ok());
    let e = l.check_at("a", 2 * sec).unwrap_err();
    assert_eq!(e.code, RATE_LIMITED);
    assert_eq!(e.message, "Rate limit exceeded: 2 requests per 10 seconds");
    // Another agent has its own budget.
    assert!(l.check_at("b", 2 * sec).is_ok());
    // After the window the first request no longer counts.
    assert!(l.check_at("a", 10 * sec).is_ok());
    assert!(l.check_at("a", 10 * sec + 1).is_err());
    assert!(l.check_at("a", 30 * sec).is_ok());
}

#[test]
fn rate_limiter_with_clock() {
    let mut l = RateLimiter::new(1, 60);
    assert!(l.check("agent").is_ok());
    assert!(l.check("agent").is_err());
}

#[test]
fn refused_requests_are_not_recorded_and_agents_are_apart() {
    let mut l = RateLimiter::new(1, 10);
    let sec = 1_000_000_000u128;
    assert!(l.check_at("a", 0).is_ok());
    // Refused requests of `a` do not extend its wait.
    assert!(l.check_at("a", 5 * sec).is_err());
    assert!(l.check_at("a", 9 * sec).is_err());
    assert!(l.check_at("b", 9 * sec).is_ok());
    assert!(l.check_at("a", 10 * sec).is_ok());
    // `b`'s accepted request counts for `b` only.
    assert!(l.check_at("b", 10 * sec).is_err());
}
