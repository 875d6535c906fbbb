use pkm_ai::block::Block;
use pkm_ai::model::{BlockType, LinkType};
use pkm_ai::suggest::{
    common_concepts, filter_candidates, generate_reason, link_keywords, predict_link_type, tag_overlap, title_overlap,
    SimilarityBand,
};

fn create_test_block(title: &str, content: &str, block_type: BlockType) -> Block {
    Block::new(block_type, title).with_content(content)
}

#[test]
fn test_predict_link_type() {
    // Extension pattern, similarity 0.9.
    let source = create_test_block("Base Concept", "This builds on previous work", BlockType::Permanent);
    let target = create_test_block("Extended Concept", "This extends the base concept", BlockType::Permanent);
    assert_eq!(predict_link_type(&source, &target, SimilarityBand::VeryHigh), LinkType::Extends);

    // Refinement pattern, similarity exactly 0.7.
    let source = create_test_block("Main Idea", "The concept is important for various reasons", BlockType::Permanent);
    let target = create_test_block("Refined Idea", "Specifically, this elaborates on the details", BlockType::Permanent);
    assert_eq!(predict_link_type(&source, &target, SimilarityBand::AtThreshold), LinkType::Refines);

    // Contradiction pattern, similarity 0.6.
    let source = create_test_block("Statement A", "However, this contradicts earlier claims", BlockType::Permanent);
    let target = create_test_block("Statement B", "The traditional view suggests otherwise", BlockType::Permanent);
    assert_eq!(predict_link_type(&source, &target, SimilarityBand::Moderate), LinkType::Contradicts);
}

#[test]
fn predicted_link_type_falls_back_to_kinds_and_score() {
    let plain_a = create_test_block("A", "Plain words here", BlockType::Permanent);
    let plain_b = create_test_block("B", "Other plain words", BlockType::Permanent);
    let structure = create_test_block("S", "Plain words", BlockType::Structure);
    let hub = create_test_block("H", "Plain words", BlockType::Hub);
    assert_eq!(predict_link_type(&structure, &plain_a, SimilarityBand::Low), LinkType::SectionOf);
    assert_eq!(predict_link_type(&plain_a, &structure, SimilarityBand::Low), LinkType::Contains);
    assert_eq!(predict_link_type(&hub, &plain_a, SimilarityBand::Low), LinkType::Contains);
    assert_eq!(predict_link_type(&plain_a, &hub, SimilarityBand::Low), LinkType::SectionOf);
    assert_eq!(predict_link_type(&plain_a, &plain_b, SimilarityBand::High), LinkType::Related);
    assert_eq!(predict_link_type(&plain_a, &plain_b, SimilarityBand::AtThreshold), LinkType::SimilarTo);
    let asking = create_test_block("Q", "Plain words?", BlockType::Permanent);
    assert_eq!(predict_link_type(&asking, &plain_b, SimilarityBand::Moderate), LinkType::Questions);
    assert_eq!(predict_link_type(&asking, &plain_b, SimilarityBand::Low), LinkType::SimilarTo);
    let cited = create_test_block("C", "As cited elsewhere", BlockType::Permanent);
    assert_eq!(predict_link_type(&plain_b, &cited, SimilarityBand::Low), LinkType::References);
    let study_a = create_test_block("D", "A study", BlockType::Permanent);
    let study_b = create_test_block("E", "The data", BlockType::Permanent);
    assert_eq!(predict_link_type(&study_a, &study_b, SimilarityBand::Low), LinkType::Supports);
}

#[test]
fn test_filter_candidates() {
    let blocks = vec![
        create_test_block("Permanent", "Content", BlockType::Permanent),
        create_test_block("Fleeting", "Content", BlockType::Fleeting),
        create_test_block("Empty", "", BlockType::Permanent),
        create_test_block("Structure", "Content", BlockType::Structure),
    ];
    let filtered = filter_candidates(&blocks);
    assert_eq!(filtered.len(), 2);
    assert_eq!(filtered[0].title, "Permanent");
    assert_eq!(filtered[1].title, "Structure");
}

#[test]
fn link_suggester_test_extract_keywords() {
    let keywords = link_keywords("The quick brown fox jumps over the lazy dog in the forest");
    assert!(keywords.contains(&"quick".to_string()));
    assert!(keywords.contains(&"brown".to_string()));
    assert!(keywords.contains(&"forest".to_string()));
    assert!(!keywords.contains(&"the".to_string()));
    assert!(!keywords.contains(&"over".to_string()));
}

#[test]
fn test_generate_reason() {
    let source = create_test_block("Rust Programming", "Rust is a systems programming language", BlockType::Permanent);
    let target = create_test_block("Rust Performance", "Rust offers excellent performance and safety", BlockType::Permanent);
    let reason = generate_reason(&source, &target, "75");
    assert!(reason.contains("Rust"));
    assert!(reason.contains("75%"));
    assert_eq!(reason, "75% similar - Shared title words: Rust");
}

#[test]
fn reason_without_overlap_reports_similarity_only() {
    let source = create_test_block("Alpha", "nothing", BlockType::Permanent);
    let target = create_test_block("Beta", "else", BlockType::Permanent);
    assert_eq!(generate_reason(&source, &target, "42"), "Semantic similarity: 42%");
}

#[test]
fn reason_lists_tags_and_concepts() {
    let source = create_test_block("Graph notes", "Knowledge graphs organize information", BlockType::Permanent)
        .with_tag("PKM".to_string())
        .with_tag("graphs".to_string());
    let target = create_test_block("Other", "Graphs organize knowledge", BlockType::Permanent)
        .with_tag("pkm".to_string());
    assert_eq!(tag_overlap(&source.tags, &target.tags), vec!["pkm".to_string()]);
    assert_eq!(common_concepts(&source.content, &target.content), vec!["knowledge", "graphs", "organize"]);
    assert_eq!(
        generate_reason(&source, &target, "80"),
        "80% similar - Shared tags: pkm; Common concepts: knowledge, graphs, organize"
    );
}

#[test]
fn shared_title_words_keep_source_spelling_and_order() {
    assert_eq!(title_overlap("Rust and RUST tips", "rust TIPS"), vec!["Rust", "Rust", "tips"]);
    assert!(title_overlap("", "anything").is_empty());
}
