use pkm_ai::block::Block;
use pkm_ai::grep::{grep_blocks, grep_report};
use pkm_ai::store::BlockStore;

/// The ULID text of an identifier, as the `ulid` crate writes it.
fn encode_ulid(v: u128) -> String {
    ulid::Ulid(v).to_string()
}

fn store_with(ids: &[(u128, &str, &str)]) -> BlockStore {
    let mut s = BlockStore::new();
    for (id, title, content) in ids {
        let mut b = Block::permanent(title, content);
        b.id = *id;
        s.create(b);
    }
    s
}

#[test]
fn grep_finds_content_lines_and_titles() {
    let s = store_with(&[(10, "Rust ownership", "Borrowing rules\r\nLifetimes matter\n"), (20, "Python", "no match here")]);
    let found = grep_blocks(&s, "lifetime", false, false, 50).unwrap();
    assert_eq!(found.len(), 1);
    assert_eq!(found[0].block_id, 10);
    assert_eq!(found[0].matched_in, "content");
    assert_eq!(found[0].match_preview, "Lifetimes matter");
    let titles = grep_blocks(&s, "PYTHON", false, false, 50).unwrap();
    assert_eq!(titles.len(), 1);
    assert_eq!(titles[0].matched_in, "title");
    assert_eq!(titles[0].match_preview, "Python");
    assert!(grep_blocks(&s, "PYTHON", false, true, 50).unwrap().is_empty());
    assert!(grep_blocks(&s, "Python", true, true, 50).unwrap().is_empty());
    let both = grep_blocks(&s, "rust|rules", false, false, 50).unwrap();
    assert_eq!(both[0].matched_in, "title+content");
    assert_eq!(both[0].match_preview, "Borrowing rules");
}

#[test]
fn grep_orders_by_identifier_and_stops_at_the_limit() {
    let s = store_with(&[(5, "alpha one", ""), (9, "alpha two", ""), (7, "alpha three", "")]);
    let all = grep_blocks(&s, "alpha", false, false, 50).unwrap();
    let ids: Vec<u128> = all.iter().map(|m| m.block_id).collect();
    assert_eq!(ids, vec![9, 7, 5]);
    let first = grep_blocks(&s, "alpha", false, false, 1).unwrap();
    let ids: Vec<u128> = first.iter().map(|m| m.block_id).collect();
    assert_eq!(ids, vec![7]);
}

#[test]
fn grep_refuses_bad_patterns() {
    let s = store_with(&[]);
    let err = grep_blocks(&s, "(", false, true, 10).unwrap_err();
    assert!(err.starts_with("Invalid regex pattern: "));
}

#[test]
fn grep_report_table() {
    let s = store_with(&[(10, "Rust ownership", "Lifetimes matter")]);
    let found = grep_blocks(&s, "lifetime", false, false, 50).unwrap();
    let text = grep_report("lifetime", &found, 50);
    let id: String = encode_ulid(10).chars().take(24).collect();
    assert!(text.starts_with("Found 1 matches for pattern: lifetime\n\n┌"));
    assert!(text.contains(&format!("│ {id} │ content     │ {:<61} │\n", "Lifetimes matter")));
    assert!(text.ends_with("┘\n"));
    assert_eq!(grep_report("zzz", &[], 5), "No matches found for pattern: zzz\n");
}
