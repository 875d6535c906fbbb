use pkm_ai::error::NexusError;
use pkm_ai::model::LinkType;
use pkm_ai::parse::parse_link_type;

#[test]
fn test_parse_link_type_extends() {
    assert_eq!(parse_link_type("extends").unwrap(), LinkType::Extends);
    assert_eq!(parse_link_type("elaborates").unwrap(), LinkType::Extends);
    assert_eq!(parse_link_type("EXTENDS").unwrap(), LinkType::Extends);
}

#[test]
fn test_parse_link_type_refines() {
    assert_eq!(parse_link_type("refines").unwrap(), LinkType::Refines);
    assert_eq!(parse_link_type("improves").unwrap(), LinkType::Refines);
}

#[test]
fn test_parse_link_type_contradicts() {
    assert_eq!(parse_link_type("contradicts").unwrap(), LinkType::Contradicts);
    assert_eq!(parse_link_type("opposes").unwrap(), LinkType::Contradicts);
}

#[test]
fn test_parse_link_type_questions() {
    assert_eq!(parse_link_type("questions").unwrap(), LinkType::Questions);
    assert_eq!(parse_link_type("asks").unwrap(), LinkType::Questions);
}

#[test]
fn test_parse_link_type_supports() {
    assert_eq!(parse_link_type("supports").unwrap(), LinkType::Supports);
    assert_eq!(parse_link_type("evidence").unwrap(), LinkType::Supports);
}

#[test]
fn test_parse_link_type_references() {
    assert_eq!(parse_link_type("references").unwrap(), LinkType::References);
    assert_eq!(parse_link_type("cites").unwrap(), LinkType::References);
}

#[test]
fn test_parse_link_type_related() {
    assert_eq!(parse_link_type("related").unwrap(), LinkType::Related);
    assert_eq!(parse_link_type("see_also").unwrap(), LinkType::Related);
}

#[test]
fn test_parse_link_type_similar_to() {
    assert_eq!(parse_link_type("similar_to").unwrap(), LinkType::SimilarTo);
    assert_eq!(parse_link_type("similar").unwrap(), LinkType::SimilarTo);
}

#[test]
fn test_parse_link_type_section_of() {
    assert_eq!(parse_link_type("section_of").unwrap(), LinkType::SectionOf);
    assert_eq!(parse_link_type("belongs_to").unwrap(), LinkType::SectionOf);
}

#[test]
fn test_parse_link_type_subsection_of() {
    assert_eq!(parse_link_type("subsection_of").unwrap(), LinkType::SubsectionOf);
    assert_eq!(parse_link_type("child_of").unwrap(), LinkType::SubsectionOf);
}

#[test]
fn test_parse_link_type_ordered_child() {
    assert_eq!(parse_link_type("ordered_child").unwrap(), LinkType::OrderedChild);
    assert_eq!(parse_link_type("seq_child").unwrap(), LinkType::OrderedChild);
}

#[test]
fn test_parse_link_type_next() {
    assert_eq!(parse_link_type("next").unwrap(), LinkType::Next);
    assert_eq!(parse_link_type("seq_next").unwrap(), LinkType::Next);
}

#[test]
fn test_parse_link_type_next_sibling() {
    assert_eq!(parse_link_type("next_sibling").unwrap(), LinkType::NextSibling);
    assert_eq!(parse_link_type("sibling_next").unwrap(), LinkType::NextSibling);
}

#[test]
fn test_parse_link_type_first_child() {
    assert_eq!(parse_link_type("first_child").unwrap(), LinkType::FirstChild);
    assert_eq!(parse_link_type("first").unwrap(), LinkType::FirstChild);
}

#[test]
fn test_parse_link_type_contains() {
    assert_eq!(parse_link_type("contains").unwrap(), LinkType::Contains);
    assert_eq!(parse_link_type("parent_of").unwrap(), LinkType::Contains);
}

#[test]
fn test_parse_link_type_parent() {
    assert_eq!(parse_link_type("parent").unwrap(), LinkType::Parent);
    assert_eq!(parse_link_type("has_parent").unwrap(), LinkType::Parent);
}

#[test]
fn test_parse_link_type_ai_suggested() {
    assert_eq!(parse_link_type("ai_suggested").unwrap(), LinkType::AiSuggested);
    assert_eq!(parse_link_type("ai_link").unwrap(), LinkType::AiSuggested);
}

#[test]
fn test_parse_link_type_with_hyphen() {
    assert_eq!(parse_link_type("similar-to").unwrap(), LinkType::SimilarTo);
    assert_eq!(parse_link_type("section-of").unwrap(), LinkType::SectionOf);
}

#[test]
fn link_test_parse_link_type_invalid() {
    let result = parse_link_type("invalid_type");
    assert!(result.is_err());
    assert!(matches!(result.unwrap_err(), NexusError::InvalidEdgeType(_)));
}

#[test]
fn link_test_parse_link_type_case_insensitive() {
    assert_eq!(parse_link_type("RELATED").unwrap(), LinkType::Related);
    assert_eq!(parse_link_type("Related").unwrap(), LinkType::Related);
    assert_eq!(parse_link_type("ReLaTeD").unwrap(), LinkType::Related);
}

#[test]
fn invalid_link_type_keeps_input_in_error() {
    match parse_link_type("Not-A-Link") {
        Err(NexusError::InvalidEdgeType(m)) => assert_eq!(m, "Not-A-Link"),
        other => panic!("unexpected {:?}", other),
    }
}

#[test]
fn link_names_agree_across_case_and_dashes() {
    for s in ["section_of", "Next", "ordered_child", "first_child", "SUBSECTION_OF", "bogus_name", "rel-ated", ""] {
        let base = parse_link_type(s).ok();
        assert_eq!(parse_link_type(&s.to_uppercase()).ok(), base, "{}", s);
        assert_eq!(parse_link_type(&s.replace('_', "-")).ok(), base, "{}", s);
    }
}
