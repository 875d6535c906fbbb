use pkm_ai::block::Block;
use pkm_ai::ghost::{extract_keywords, GhostDetector, GhostStatus};
use pkm_ai::hierarchy::{find_structural_issues, StructuralIssue};

/// The ULID text of an identifier, as the `ulid` crate writes it.
fn encode_ulid(v: u128) -> String {
    ulid::Ulid(v).to_string()
}

fn with_parent(mut b: Block, parent: u128) -> Block {
    b.set_metadata("parent_section", Some(&encode_ulid(parent)));
    b
}

#[test]
fn test_detect_structural_gaps_empty() {
    let detector = GhostDetector::new();
    let blocks: Vec<Block> = vec![];
    let ghosts = detector.detect_structural_gaps(&blocks);
    assert!(ghosts.is_empty());
}

#[test]
fn test_detect_structural_gaps_no_issues() {
    let detector = GhostDetector::new();
    let block1 = Block::permanent("Block 1", "Content 1");
    let block2 = Block::permanent("Block 2", "Content 2");
    let blocks = vec![block1, block2];
    let ghosts = detector.detect_structural_gaps(&blocks);
    assert!(ghosts.is_empty());
}

#[test]
fn test_detect_structural_gaps_missing_parent() {
    let detector = GhostDetector::new();
    let non_existent_parent = ulid::Ulid::new().0;
    let block1 = with_parent(Block::permanent("Child Block", "Content"), non_existent_parent);
    let blocks = vec![block1];
    let ghosts = detector.detect_structural_gaps(&blocks);
    assert!(!ghosts.is_empty());
    assert!(ghosts.iter().any(|g| g.description.contains("Missing parent")));
    let g = &ghosts[0];
    assert_eq!(g.confidence_pct, 85);
    assert_eq!(g.position_hint.parent_section, Some(non_existent_parent));
    assert_eq!(
        g.ai_rationale,
        format!("parent_section points to {} which doesn't exist in the block collection", encode_ulid(non_existent_parent))
    );
}

#[test]
fn test_detect_structural_gaps_self_reference() {
    let detector = GhostDetector::new();
    let block = Block::permanent("Self Ref Block", "Content");
    let id = block.id;
    let block = with_parent(block, id);
    let blocks = vec![block];
    let ghosts = detector.detect_structural_gaps(&blocks);
    assert!(!ghosts.is_empty());
    assert!(ghosts.iter().any(|g| g.description.contains("Self-reference")));
    assert_eq!(ghosts.len(), 1);
    assert_eq!(ghosts[0].description, "Self-reference detected: block 'Self Ref Block' references itself as parent");
    assert_eq!(ghosts[0].confidence_pct, 95);
    assert_eq!(ghosts[0].trigger_blocks, vec![id]);
    assert_eq!(ghosts[0].status, GhostStatus::Detected);
}

#[test]
fn test_detect_structural_gaps_valid_hierarchy() {
    let detector = GhostDetector::new();
    let parent = Block::permanent("Parent Block", "Parent Content");
    let pid = parent.id;
    let child = with_parent(Block::permanent("Child Block", "Child Content"), pid);
    let blocks = vec![parent, child];
    let ghosts = detector.detect_structural_gaps(&blocks);
    let self_ref_ghosts: Vec<_> = ghosts.iter().filter(|g| g.description.contains("Self-reference")).collect();
    let missing_parent_ghosts: Vec<_> = ghosts.iter().filter(|g| g.description.contains("Missing parent")).collect();
    assert!(self_ref_ghosts.is_empty());
    assert!(missing_parent_ghosts.is_empty());
    assert!(ghosts.is_empty());
}

#[test]
fn two_block_cycle_is_reported_once() {
    let a = Block::permanent("A", "a");
    let b = Block::permanent("B", "b");
    let (ia, ib) = (a.id, b.id);
    let a = with_parent(a, ib);
    let b = with_parent(b, ia);
    let blocks = vec![a, b];
    let issues = find_structural_issues(&blocks);
    // The walk starts at A, goes to B, and B's parent A closes the cycle.
    assert_eq!(issues, vec![StructuralIssue::Cycle { node: ib, parent: ia }]);
    let ghosts = GhostDetector::new().detect_structural_gaps(&blocks);
    assert_eq!(ghosts.len(), 1);
    assert_eq!(ghosts[0].description, "Circular reference detected: 'B' is part of a cycle in the hierarchy");
    assert_eq!(ghosts[0].trigger_blocks, vec![ib, ia]);
    assert_eq!(ghosts[0].confidence_pct, 90);
    assert_eq!(
        ghosts[0].ai_rationale,
        format!("Block {} references {} which leads back to {}", encode_ulid(ib), encode_ulid(ia), encode_ulid(ib))
    );
}

#[test]
fn issues_come_most_serious_first() {
    // c is its own parent; d points to a missing block; e and f form a cycle;
    // g expects children, has a long body and a parent, and nobody names it.
    let missing = ulid::Ulid::new().0;
    let c = Block::permanent("C", "c");
    let cid = c.id;
    let c = with_parent(c, cid);
    let d = with_parent(Block::permanent("D", "d"), missing);
    let e = Block::permanent("E", "e");
    let f = Block::permanent("F", "f");
    let (eid, fid) = (e.id, f.id);
    let e = with_parent(e, fid);
    let f = with_parent(f, eid);
    let mut g = with_parent(Block::permanent("Gap note", &"word ".repeat(50)), eid);
    g.set_metadata("expected_children", None);
    let gid = g.id;
    let blocks = vec![g, d, c, e, f];
    let issues = find_structural_issues(&blocks);
    assert_eq!(
        issues,
        vec![
            StructuralIssue::SelfReference { child: cid },
            StructuralIssue::Cycle { node: fid, parent: eid },
            StructuralIssue::MissingParent { child: blocks[1].id, parent: missing },
            StructuralIssue::ExpectedChildren { block: 0, parent: eid },
        ]
    );
    let ghosts = GhostDetector::new().detect_structural_gaps(&blocks);
    let confidences: Vec<u32> = ghosts.iter().map(|g| g.confidence_pct).collect();
    assert_eq!(confidences, vec![95, 90, 85, 70]);
    assert_eq!(ghosts[3].trigger_blocks, vec![gid]);
    assert_eq!(ghosts[3].expected_keywords, vec!["note", "word"]);
}

#[test]
fn short_body_or_named_parent_is_no_gap() {
    let p = Block::permanent("P", "p");
    let pid = p.id;
    let mut short = with_parent(Block::permanent("S", "short"), pid);
    short.set_metadata("expected_children", Some("3"));
    let blocks = vec![p, short];
    assert!(find_structural_issues(&blocks).is_empty());
}

#[test]
fn parent_text_that_is_no_ulid_is_ignored() {
    let mut b = Block::permanent("B", "b");
    b.set_metadata("parent_section", Some("not a ulid"));
    assert!(find_structural_issues(&[b]).is_empty());
}

#[test]
fn test_detect_orphans() {
    let detector = GhostDetector::new();
    let orphan = Block::permanent(
        "Orphan Block",
        "This is a substantial piece of content that has no structure assigned to it yet and needs to be organized.",
    );
    let mut structured = Block::permanent("Structured Block", "Test content");
    structured.set_metadata("sequence_weight", None);
    let oid = orphan.id;
    let blocks = vec![orphan, structured];
    let ghosts = detector.detect_orphans(&blocks);
    assert_eq!(ghosts.len(), 1);
    assert!(ghosts[0].trigger_blocks.contains(&oid));
    assert_eq!(
        ghosts[0].description,
        "Orphan block 'Orphan Block' found - consider linking to related content or adding structure"
    );
    assert_eq!(ghosts[0].confidence_pct, 50);
}

#[test]
fn test_no_orphan_for_short_content() {
    let detector = GhostDetector::new();
    let short = Block::permanent("Short", "Hi");
    let ghosts = detector.detect_orphans(&[short]);
    assert!(ghosts.is_empty());
}

#[test]
fn ghost_detector_test_extract_keywords() {
    let block = Block::permanent(
        "Rust Programming Language",
        "Rust is a systems programming language that focuses on safety, speed, and concurrency.",
    );
    let keywords = extract_keywords(&block);
    assert!(keywords.contains(&"rust".to_string()));
    assert!(keywords.contains(&"programming".to_string()));
    assert!(keywords.contains(&"language".to_string()));
    assert!(keywords.contains(&"systems".to_string()));
    assert!(!keywords.contains(&"that".to_string()));
    assert!(!keywords.contains(&"and".to_string()));
    // Each keyword once, punctuation dropped.
    assert_eq!(keywords.iter().filter(|k| *k == "rust").count(), 1);
    assert!(keywords.contains(&"safety".to_string()));
}

#[test]
fn test_ghost_config() {
    let config = pkm_ai::ghost::GhostConfig {
        min_sequence_gap_pct: 200,
        max_expected_density: 20,
        semantic_threshold_pct: 70,
        min_content_length: 100,
    };
    let detector = GhostDetector::with_config(config);
    assert_eq!(detector.config.min_sequence_gap_pct, 200);
    assert_eq!(detector.config.max_expected_density, 20);
    assert_eq!(detector.config.semantic_threshold_pct, 70);
    assert_eq!(detector.config.min_content_length, 100);
    assert_eq!(GhostDetector::new().config.min_content_length, 50);
}

#[test]
fn density_gap_for_structure_with_unlinked_sections() {
    let detector = GhostDetector::new();
    let structure = Block::permanent("Guide", "# Guide\n## Intro\n## Setup\ntext\n## Usage");
    let child = with_parent(Block::permanent("Intro text", "Body"), structure.id);
    let ghosts = detector.detect_density_gaps(&[structure.clone(), child]);
    assert_eq!(ghosts.len(), 1);
    let g = &ghosts[0];
    assert_eq!(g.description, "Structure 'Guide' has 3 sections but only 1 blocks linked");
    assert_eq!(g.ai_rationale, "Density gap: expected ~10 blocks per section, found 1");
    assert_eq!(g.confidence_pct, 66);
    assert_eq!(g.position_hint.parent_section, Some(structure.id));
    assert_eq!(g.trigger_blocks, vec![structure.id]);
    assert_eq!(g.status, GhostStatus::Detected);
}

#[test]
fn density_gap_confidence_is_capped() {
    let detector = GhostDetector::new();
    let structure = Block::permanent("Plan", "## A\n## B");
    let ghosts = detector.detect_density_gaps(&[structure]);
    assert_eq!(ghosts.len(), 1);
    assert_eq!(ghosts[0].confidence_pct, 90);
    assert_eq!(ghosts[0].description, "Structure 'Plan' has 2 sections but only 0 blocks linked");
}

#[test]
fn no_density_gap_when_sections_are_covered() {
    let detector = GhostDetector::new();
    let structure = Block::permanent("Plan", "## A\n### not a heading line start? yes it is\nplain");
    let a = with_parent(Block::permanent("a", "x"), structure.id);
    let b = with_parent(Block::permanent("b", "y"), structure.id);
    assert!(detector.detect_density_gaps(&[structure, a, b]).is_empty());
    let plain = Block::permanent("Note", "no headings here");
    assert!(detector.detect_density_gaps(&[plain]).is_empty());
}
