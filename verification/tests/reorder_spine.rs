use pkm_ai::block::{Block, Edge, FractionalIndex};
use pkm_ai::model::{BlockType, LinkType};
use pkm_ai::reorder::{apply_reorder, plan_reorder, position_for, reorder_block, WeightRule};
use pkm_ai::store::{BlockStore, EdgeStore};

/// The ULID text of an identifier, as the `ulid` crate writes it.
fn encode_ulid(v: u128) -> String {
    ulid::Ulid(v).to_string()
}

fn key(s: &str) -> FractionalIndex {
    FractionalIndex::parse(s).expect("a position key")
}

fn store_of(n: usize) -> (BlockStore, Vec<u128>) {
    let mut blocks = BlockStore::new();
    let mut ids = Vec::new();
    for i in 0..n {
        let b = Block::new(BlockType::Permanent, &format!("note {}", i));
        ids.push(b.id);
        blocks.create(b);
    }
    (blocks, ids)
}

#[test]
fn reorder_refuses_bad_identifiers() {
    let (blocks, ids) = store_of(1);
    let edges = EdgeStore::new();
    let e = plan_reorder(&blocks, &edges, "short", Some(&encode_ulid(ids[0])), None).unwrap_err();
    assert_eq!(e.code, -32602);
    assert_eq!(e.message, "Invalid ULID: invalid length");
    let bad = "0000000000000000000000000U";
    let e = plan_reorder(&blocks, &edges, &encode_ulid(ids[0]), Some(bad), None).unwrap_err();
    assert_eq!(e.message, "Invalid ULID: invalid character");
    let e = plan_reorder(&blocks, &edges, &encode_ulid(ids[0]), None, Some("x")).unwrap_err();
    assert_eq!(e.message, "Invalid ULID: invalid length");
}

#[test]
fn reorder_needs_a_neighbour_and_a_stored_block() {
    let (blocks, ids) = store_of(1);
    let edges = EdgeStore::new();
    let e = plan_reorder(&blocks, &edges, &encode_ulid(ids[0]), None, None).unwrap_err();
    assert_eq!(e.message, "Either 'after_id' or 'before_id' must be provided");
    let missing = encode_ulid(7);
    let e = plan_reorder(&blocks, &edges, &missing, Some(&encode_ulid(ids[0])), None).unwrap_err();
    assert_eq!(e.message, format!("Block not found: {}", missing));
}

#[test]
fn reorder_after_redirects_the_next_link() {
    let (blocks, ids) = store_of(3);
    let (a, moved, c) = (ids[0], ids[1], ids[2]);
    let mut edges = EdgeStore::new();
    edges.create(Edge::new(a, c, LinkType::Next).with_weight(key("c")));
    let plan = plan_reorder(&blocks, &edges, &encode_ulid(moved), Some(&encode_ulid(a)), None).unwrap();
    assert_eq!(plan.block_id, moved);
    assert_eq!(plan.after_id, Some(a));
    assert_eq!(plan.before_id, None);
    match &plan.weight {
        WeightRule::AfterLast(x) => assert_eq!(x.to_string(), "c"),
        other => panic!("unexpected rule {:?}", other),
    }
    let w = FractionalIndex::after_last(&key("c"));
    apply_reorder(&mut edges, &plan, &w);
    assert_eq!(edges.edges.len(), 1);
    assert_eq!(edges.edges[0].from, a);
    assert_eq!(edges.edges[0].to, moved);
    assert_eq!(edges.edges[0].sequence_weight.to_string(), "c");
}

#[test]
fn reorder_before_links_the_moved_block() {
    let (blocks, ids) = store_of(3);
    let (a, moved, c) = (ids[0], ids[1], ids[2]);
    let mut edges = EdgeStore::new();
    edges.create(Edge::new(a, c, LinkType::Next).with_weight(key("b")));
    let plan = plan_reorder(&blocks, &edges, &encode_ulid(moved), None, Some(&encode_ulid(c))).unwrap();
    match &plan.weight {
        WeightRule::Between(x, y) => {
            assert_eq!(x.to_string(), "a");
            assert_eq!(y.to_string(), "b");
        }
        other => panic!("unexpected rule {:?}", other),
    }
    apply_reorder(&mut edges, &plan, &key("am"));
    assert_eq!(edges.edges.len(), 2);
    let added = &edges.edges[1];
    assert_eq!((added.from, added.to, added.link_type), (moved, c, LinkType::Next));
    assert_eq!(added.sequence_weight.to_string(), "am");
    assert_eq!(edges.edges[0].to, c);
}

#[test]
fn reorder_without_next_links_starts_at_the_first_position() {
    let (blocks, ids) = store_of(2);
    let mut edges = EdgeStore::new();
    edges.create(Edge::new(ids[0], ids[1], LinkType::Related));
    let plan = plan_reorder(&blocks, &edges, &encode_ulid(ids[1]), None, Some(&encode_ulid(ids[0]))).unwrap();
    assert!(matches!(plan.weight, WeightRule::First));
    let plan = plan_reorder(&blocks, &edges, &encode_ulid(ids[1]), Some(&encode_ulid(ids[0])), None).unwrap();
    assert!(matches!(plan.weight, WeightRule::First));
}

#[test]
fn position_keys_parse_back() {
    assert_eq!(key("abz").to_string(), "abz");
    assert!(FractionalIndex::parse("").is_none());
    assert!(FractionalIndex::parse("aB").is_none());
    assert!(FractionalIndex::parse("a1").is_none());
}

#[test]
fn test_reorder_block() {
    let (blocks, ids) = store_of(3);
    let (b1, b2, b3) = (ids[0], ids[1], ids[2]);
    let mut edges = EdgeStore::new();
    edges.create(Edge::new(b1, b2, LinkType::Next));
    let plan = plan_reorder(&blocks, &edges, &encode_ulid(b3), Some(&encode_ulid(b1)), Some(&encode_ulid(b2)));
    assert!(plan.is_ok(), "Reorder failed: {:?}", plan.as_ref().err());
    let plan = plan.unwrap();
    match &plan.weight {
        WeightRule::Between(x, y) => {
            assert_eq!(x.to_string(), "a");
            assert_eq!(y.to_string(), "a");
        }
        other => panic!("unexpected rule {:?}", other),
    }
    apply_reorder(&mut edges, &plan, &key("b"));
    assert_eq!(edges.edges.len(), 2);
    assert_eq!((edges.edges[0].from, edges.edges[0].to), (b1, b3));
    assert_eq!((edges.edges[1].from, edges.edges[1].to), (b3, b2));
    assert_eq!(edges.edges[1].link_type, LinkType::Next);
}

#[test]
fn test_reorder_block_requires_after_or_before() {
    let (blocks, ids) = store_of(1);
    let edges = EdgeStore::new();
    let result = plan_reorder(&blocks, &edges, &encode_ulid(ids[0]), None, None);
    assert!(result.is_err());
    let err = result.unwrap_err();
    assert!(err.message.contains("after_id"));
}

#[test]
fn a_position_can_always_be_made_between_two_others() {
    let pairs = [("a", "b"), ("a", "ab"), ("ab", "ac"), ("z", "zb"), ("b", "baab"), ("az", "b"), ("m", "n")];
    for (x, y) in pairs {
        let (x, y) = (key(x), key(y));
        assert!(x.precedes(&y));
        let m = x.between(&y);
        assert!(x.precedes(&m) && m.precedes(&y), "{} < {} < {}", x.to_string(), m.to_string(), y.to_string());
        assert!(m.is_well_formed());
        assert!(FractionalIndex::parse(&m.to_string()).is_some());
    }
    assert_eq!(key("a").between(&key("b")).to_string(), "az");
    assert_eq!(key("z").between(&key("zb")).to_string(), "zaz");
    // Repeated insertion right after the same position never runs out.
    let lo = key("a");
    let mut hi = key("b");
    for _ in 0..100 {
        let m = lo.between(&hi);
        assert!(lo.precedes(&m) && m.precedes(&hi));
        hi = m;
    }
}

#[test]
fn keys_end_in_a_only_when_they_are_a() {
    assert!(FractionalIndex::parse("a").is_some());
    assert!(FractionalIndex::parse("ba").is_none());
    assert!(FractionalIndex::parse("aa").is_none());
}

#[test]
fn rules_make_their_positions() {
    assert_eq!(position_for(&WeightRule::First).unwrap().to_string(), "a");
    assert_eq!(position_for(&WeightRule::AfterLast(key("c"))).unwrap().to_string(), "d");
    let m = position_for(&WeightRule::Between(key("a"), key("b"))).unwrap();
    assert!(key("a").precedes(&m) && m.precedes(&key("b")));
    // Between two positions out of order, the position after the first.
    assert_eq!(position_for(&WeightRule::Between(key("b"), key("a"))).unwrap().to_string(), "c");
    assert_eq!(position_for(&WeightRule::Between(key("a"), key("a"))).unwrap().to_string(), "b");
}

#[test]
fn reorder_block_plans_places_and_relinks() {
    let (blocks, ids) = store_of(3);
    let (b1, b2, b3) = (ids[0], ids[1], ids[2]);
    let mut edges = EdgeStore::new();
    edges.create(Edge::new(b1, b2, LinkType::Next).with_weight(key("c")));
    let (plan, w) = reorder_block(&blocks, &mut edges, &encode_ulid(b3), Some(&encode_ulid(b1)), None).unwrap();
    assert_eq!(plan.after_id, Some(b1));
    assert_eq!(w.to_string(), "d");
    assert_eq!((edges.edges[0].from, edges.edges[0].to), (b1, b3));
    // A refused request changes nothing.
    let before = edges.edges.len();
    assert!(reorder_block(&blocks, &mut edges, &encode_ulid(b3), None, None).is_err());
    assert_eq!(edges.edges.len(), before);
}

#[test]
fn reorder_block_between_equal_positions_goes_after_the_first() {
    let (blocks, ids) = store_of(3);
    let (b1, b2, b3) = (ids[0], ids[1], ids[2]);
    let mut edges = EdgeStore::new();
    edges.create(Edge::new(b1, b2, LinkType::Next));
    let (_, w) = reorder_block(&blocks, &mut edges, &encode_ulid(b3), Some(&encode_ulid(b1)), Some(&encode_ulid(b2))).unwrap();
    assert_eq!(w.to_string(), "b");
    assert_eq!((edges.edges[0].from, edges.edges[0].to), (b1, b3));
    assert_eq!((edges.edges[1].from, edges.edges[1].to), (b3, b2));
}
