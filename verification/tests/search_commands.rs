use pkm_ai::fuzzy::{calculate_similarity, fuzzy_match};

const SIMILARITY_THRESHOLD: f64 = 0.6;

fn similarity(query: &str, title: &str) -> f64 {
    let q: Vec<char> = query.chars().collect();
    let t: Vec<char> = title.chars().collect();
    let s = calculate_similarity(&q, &t);
    s.points as f64 / s.out_of as f64
}

#[test]
fn test_fuzzy_match_exact_substring() {
    assert!(fuzzy_match("rust", "Rust Programming"));
    assert!(fuzzy_match("programming", "Rust Programming"));
    assert!(fuzzy_match("RUST", "Rust Ownership Model"));
}

#[test]
fn test_fuzzy_match_partial() {
    assert!(fuzzy_match("rust own", "Rust Ownership Model"));
    assert!(fuzzy_match("prog", "Rust Programming"));
}

#[test]
fn test_fuzzy_match_typos() {
    assert!(fuzzy_match("rust programing", "Rust Programming"));
}

#[test]
fn test_fuzzy_match_no_match() {
    assert!(!fuzzy_match("python", "Rust Programming"));
    assert!(!fuzzy_match("xyz", "Rust Ownership Model"));
}

#[test]
fn test_fuzzy_match_empty_query() {
    assert!(fuzzy_match("", "Rust Programming"));
}

#[test]
fn test_fuzzy_match_empty_title() {
    assert!(!fuzzy_match("rust", ""));
}

#[test]
fn test_calculate_similarity() {
    let sim = similarity("rust", "rust");
    assert!(sim > 0.8, "Expected similarity > 0.8, got {}", sim);

    let sim = similarity("rust", "rust programming");
    assert!(sim > 0.5);

    let sim = similarity("python", "rust programming");
    assert!(sim < SIMILARITY_THRESHOLD);
}

#[test]
fn test_calculate_similarity_word_boundaries() {
    assert!(fuzzy_match("rust", "Rust Programming"));
    assert!(fuzzy_match("ust", "Rust Programming"));
}

#[test]
fn test_fuzzy_match_special_characters() {
    assert!(fuzzy_match("rust", "Rust-Ownership-Model"));
    assert!(fuzzy_match("rust", "rust_ownership_model"));
}

#[test]
fn similarity_exact_values() {
    // "rust" in "rust": 4 matched, 3 consecutive steps (+1.5), start (+1),
    // one boundary at position 0 (+0.3) = 6.8 out of 4 + 2 + 1 + 1.2 = 8.2.
    let q: Vec<char> = "rust".chars().collect();
    let s = calculate_similarity(&q, &q);
    assert_eq!((s.points, s.out_of), (68, 82));
    // A gap of two costs 0.2: "rt" in "rust" = 2 - 0.2 + 1 + 0.3 = 3.1 out of 4.6.
    let rt: Vec<char> = "rt".chars().collect();
    let s = calculate_similarity(&rt, &q);
    assert_eq!((s.points, s.out_of), (31, 46));
    // Empty query: 1; empty title: 0.
    let e: Vec<char> = Vec::new();
    let s = calculate_similarity(&e, &q);
    assert_eq!((s.points, s.out_of), (1, 1));
    let s = calculate_similarity(&q, &e);
    assert_eq!(s.points, 0);
    // A query whose letters do not all occur in order scores nothing.
    let z: Vec<char> = "zz".chars().collect();
    assert_eq!(calculate_similarity(&z, &q).points, 0);
}
