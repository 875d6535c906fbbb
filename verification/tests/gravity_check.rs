use pkm_ai::block::{Block, Edge};
use pkm_ai::gravity::{affinity_fraction, affinity_halves, current_section, rank_sections, smart_section_keywords};
use pkm_ai::model::{BlockType, LinkType};
use pkm_ai::store::{BlockStore, EdgeStore};

fn strings(v: &[&str]) -> Vec<String> {
    v.iter().map(|s| s.to_string()).collect()
}

fn affinity(score: u64, weight: u64) -> f64 {
    let (n, d) = affinity_fraction(score, weight);
    n as f64 / d as f64
}

fn structure(title: &str, content: &str, tags: &[&str]) -> Block {
    let mut b = Block::new(BlockType::Structure, title).with_content(content);
    b.tags = strings(tags);
    b
}

#[test]
fn test_affinity_calculation() {
    // A section with the boundary constraints "rust" and "ownership".
    let block = Block::permanent("Rust Ownership", "Rust ownership is important");
    let (score, weight) = affinity_halves(&block, &Vec::new(), &strings(&["rust", "ownership"]));
    assert_eq!((score, weight), (6, 6));
    let a = affinity(score, weight);
    assert!(a > 0.5, "Expected affinity > 0.5, got {}", a);
}

#[test]
fn section_keywords_come_from_the_first_words_and_the_tags() {
    let s = structure("Systems", "The Ownership model of rust: borrows memory safely", &["Systems", "Low-Level"]);
    let k = smart_section_keywords(&s);
    assert_eq!(k, strings(&["ownership", "model", "rust", "borrows", "memory", "safely", "systems", "low-level"]));
}

#[test]
fn section_keywords_stop_after_twenty_words() {
    let words: Vec<String> = (0..25).map(|i| format!("word{}", i)).collect();
    let s = structure("Long", &words.join(" "), &[]);
    let k = smart_section_keywords(&s);
    assert_eq!(k.len(), 20);
    assert_eq!(k[19], "word19");
}

#[test]
fn empty_section_content_gives_only_tags() {
    let s = structure("Empty", "", &["Rust"]);
    assert_eq!(smart_section_keywords(&s), strings(&["rust"]));
}

#[test]
fn keyword_scores_count_title_content_and_tags() {
    let mut block = Block::permanent("Rust tips", "nothing here about it");
    block.tags = strings(&["RustLang"]);
    // "rust": in a title word (2 halves), not in the content; tag "rustlang"
    // holds it (4 halves, weight 4). "cargo": nowhere.
    let (score, weight) = affinity_halves(&block, &strings(&["Rust", "cargo"]), &Vec::new());
    assert_eq!(score, 2 + 4);
    assert_eq!(weight, 2 * 2 + 4);
    assert!((affinity(score, weight) - 0.75).abs() < 1e-12);
}

#[test]
fn no_criteria_gives_the_default_affinity() {
    let block = Block::permanent("Anything", "at all");
    let (score, weight) = affinity_halves(&block, &Vec::new(), &Vec::new());
    assert_eq!((score, weight), (0, 0));
    assert_eq!(affinity_fraction(score, weight), (3, 10));
}

#[test]
fn affinity_is_capped_at_one() {
    assert_eq!(affinity_fraction(9, 4), (1, 1));
    assert_eq!(affinity_fraction(3, 4), (3, 4));
}

#[test]
fn sections_are_ranked_by_affinity_then_order() {
    let block = Block::permanent("Rust Ownership", "Rust ownership and borrowing");
    let sections = vec![
        structure("Cooking", "recipes pasta sauces", &[]),
        structure("Rust", "ownership borrowing lifetimes", &[]),
        structure("Empty A", "", &[]),
        structure("Empty B", "", &[]),
    ];
    let r = rank_sections(&block, &sections, &[]);
    let order: Vec<usize> = r.iter().map(|e| e.0).collect();
    // Rust: ownership (title 2 + content 1), borrowing (content 1), lifetimes (0):
    // 4 of 6 halves. Empty sections weigh nothing (3/10); cooking scores 0 of 6.
    assert_eq!(order, vec![1, 2, 3, 0]);
    assert_eq!((r[0].1, r[0].2), (4, 6));
    assert_eq!((r[3].1, r[3].2), (0, 6));
}

#[test]
fn constraints_are_given_per_section() {
    let block = Block::permanent("Notes", "about rust");
    let sections = vec![structure("A", "", &[]), structure("B", "", &[])];
    let r = rank_sections(&block, &sections, &[Vec::new(), strings(&["RUST"])]);
    assert_eq!(r[0], (1, 3, 3));
    assert_eq!(r[1], (0, 0, 0));
}

#[test]
fn current_section_follows_the_section_link() {
    let mut blocks = BlockStore::new();
    let mut edges = EdgeStore::new();
    let note = Block::permanent("Note", "text");
    let other = Block::permanent("Other", "text");
    let sec = structure("Section", "", &[]);
    let (note_id, other_id, sec_id) = (note.id, other.id, sec.id);
    blocks.create(note);
    blocks.create(other);
    blocks.create(sec);
    assert_eq!(current_section(&blocks, &edges, note_id), None);
    // A link from a block that is not a structure note does not count.
    edges.create(Edge::new(other_id, note_id, LinkType::SectionOf));
    assert_eq!(current_section(&blocks, &edges, note_id), None);
    // Nor does a link of another kind.
    edges.create(Edge::new(sec_id, note_id, LinkType::Related));
    assert_eq!(current_section(&blocks, &edges, note_id), None);
    edges.create(Edge::new(sec_id, note_id, LinkType::Contains));
    assert_eq!(current_section(&blocks, &edges, note_id), Some(2));
}
