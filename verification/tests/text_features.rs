use pkm_ai::block::Block;
use pkm_ai::features::EmbeddingGenerator;

#[test]
fn punctuation_and_word_counts() {
    let g = EmbeddingGenerator::new();
    assert_eq!(g.question_marks("Why? How? ok"), 2);
    assert_eq!(g.exclamation_marks("Wow! Really!!"), 3);
    assert_eq!(g.number_count("pay 1,000.50 or 42 now 4a"), 2);
    assert_eq!(g.hashtag_count("#rust is #fun #"), 3);
    assert_eq!(g.mention_count("hi @ana and @bo"), 2);
}

#[test]
fn sentences_and_paragraphs() {
    let g = EmbeddingGenerator::new();
    assert_eq!(g.sentence_count("One. Two! Three?"), 3);
    assert_eq!(g.sentence_count("No end here"), 1);
    assert_eq!(g.sentence_count("..."), 1);
    assert_eq!(g.sentence_count(""), 1);
    assert_eq!(g.sentence_count("First... second."), 2);
    assert_eq!(g.paragraph_count("a\n\nb\n\n\n\nc"), 3);
    assert_eq!(g.paragraph_count("   "), 1);
    assert_eq!(g.paragraph_count("one paragraph\nstill one"), 1);
}

#[test]
fn prepared_text() {
    let g = EmbeddingGenerator::new();
    assert_eq!(g.prepare_text_raw("Hello, World! 42"), "hello world 42");
    let b = Block::permanent("Title", "Body").with_tag("x".to_string()).with_tag("y".to_string());
    assert_eq!(g.prepare_text(&b), "Title Body x y");
    let f = Block::fleeting("just this");
    assert_eq!(g.prepare_text(&f), "just this");
}

#[test]
fn character_frequencies() {
    let g = EmbeddingGenerator::new();
    let f = g.char_frequency("aab b!");
    // Counted characters: a:2, b:2, space:1; '!' is not counted.
    assert_eq!(f.len(), 3);
    assert!(f[0].1 >= f[1].1 && f[1].1 >= f[2].1);
    assert!(f.contains(&('a', 2)));
    assert!(f.contains(&('b', 2)));
    assert_eq!(f[2], (' ', 1));
    assert!(g.char_frequency("").is_empty());
}

#[test]
fn white_space_is_what_std_calls_white_space() {
    for code in 0u32..=0x3100 {
        if let Some(c) = char::from_u32(code) {
            assert_eq!(pkm_ai::text::trim_chars(&[c]).is_empty(), c.is_whitespace(), "U+{:04X}", code);
        }
    }
    for c in ['\u{feff}', '\u{200b}', '\u{180e}', 'a', '0'] {
        assert!(!pkm_ai::text::trim_chars(&[c]).is_empty());
    }
}

#[test]
fn decimal_parsing_matches_std() {
    for s in ["0", "+7", "340282366920938463463374607431768211455", "340282366920938463463374607431768211456", "", "+", "-1", "12a", "007", "+0042"] {
        let want = s.parse::<u128>().ok().map(|n| u128::MAX - n);
        let got = pkm_ai::ids::parse_ghost_ulid(&format!("ghost_{}", s)).ok();
        assert_eq!(got, want, "ghost_{}", s);
    }
}
