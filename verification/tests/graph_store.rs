use pkm_ai::graph::{parse_properties, Database, FlatTuple, KuzuError, Value};

#[test]
fn test_database_creation() {
    let db = Database::new("test.db").unwrap();
    let mut conn = db.connection().unwrap();
    assert!(conn.query("MATCH (b:Block) RETURN b").is_ok());
}

#[test]
fn test_block_creation() {
    let db = Database::new("test.db").unwrap();
    let mut conn = db.connection().unwrap();
    let result = conn.query(r#"CREATE (b:Block {ulid: "test123", title: "Test", content: "Content", block_type: "permanent", tags: "[]", metadata: "{}", created_at: "2024-01-01T00:00:00Z", updated_at: "2024-01-01T00:00:00Z", version: 1})"#);
    assert!(result.is_ok());
}

fn pairs(v: &[(String, Value)]) -> Vec<(String, String)> {
    v.iter()
        .map(|(k, v)| match v {
            Value::String(s) => (k.clone(), s.clone()),
            _ => (k.clone(), "<not text>".to_string()),
        })
        .collect()
}

fn owned_pairs(v: &[(&str, &str)]) -> Vec<(String, String)> {
    v.iter().map(|(k, v)| (k.to_string(), v.to_string())).collect()
}

#[test]
fn property_maps_are_read_as_pairs() {
    assert_eq!(
        pairs(&parse_properties(r#"ulid: "test123", title: "Test"}"#)),
        owned_pairs(&[("ulid", "test123"), ("title", "Test")])
    );
    assert_eq!(pairs(&parse_properties("a = 1, b = 2}")), owned_pairs(&[("a", "1"), ("b", "2")]));
    assert_eq!(pairs(&parse_properties("last: \"pair\"")), owned_pairs(&[("last", "pair")]));
    assert!(parse_properties("").is_empty());
}

#[test]
fn property_maps_keep_quoted_text_and_the_last_value_of_a_key() {
    assert_eq!(
        pairs(&parse_properties(r#"t: "12:30, {ok}", a: "1", t: "later"}"#)),
        owned_pairs(&[("t", "later"), ("a", "1")])
    );
    // A pair without a value, or with a blank key, is not stored.
    assert_eq!(pairs(&parse_properties(r#"lonely, : "x", k: "v"}"#)), owned_pairs(&[("k", "v")]));
}

#[test]
fn created_block_is_found_by_its_ulid() {
    let db = Database::new("test.db").unwrap();
    let mut conn = db.connection().unwrap();
    conn.query(r#"CREATE (b:Block {ulid: "test123", title: "Test"})"#).unwrap();
    let mut r = conn.query(r#"MATCH (b:Block {ulid: "test123"}) RETURN b"#).unwrap();
    assert_eq!(r.num_rows(), 1);
    assert_eq!(r.columns(), &["b".to_string()]);
    let row = r.next().unwrap();
    assert!(matches!(row.get("ulid").unwrap(), Value::String(s) if s == "test123"));
    assert_eq!(row.get_string(1).unwrap(), "Test");
    assert!(r.next().is_none());
    assert_eq!(conn.query(r#"MATCH (b:Block {ulid: "other"}) RETURN b"#).unwrap().num_rows(), 0);
}

#[test]
fn creating_a_block_again_replaces_it() {
    let db = Database::new("mem").unwrap();
    let mut conn = db.connection().unwrap();
    conn.query(r#"CREATE (b:Block {ulid: "a", title: "First"})"#).unwrap();
    conn.query(r#"CREATE (b:Block {ulid: "b", title: "Second"})"#).unwrap();
    conn.query(r#"CREATE (b:Block {ulid: "a", title: "Renamed"})"#).unwrap();
    let mut all = conn.query("MATCH (b:Block) RETURN b").unwrap();
    assert_eq!(all.num_rows(), 2);
    assert_eq!(all.next().unwrap().get_string(1).unwrap(), "Renamed");
    assert_eq!(all.next().unwrap().get_string(1).unwrap(), "Second");
    // Without a `ulid` property a block is filed under `unknown`.
    conn.query("CREATE (b:Block {x: 1})").unwrap();
    let mut u = conn.query(r#"MATCH (b:Block {ulid: "unknown"}) RETURN b"#).unwrap();
    assert_eq!(u.num_rows(), 1);
    assert_eq!(u.next().unwrap().get_string(0).unwrap(), "1");
}

#[test]
fn relationships_keep_their_properties() {
    let db = Database::new("mem").unwrap();
    let mut conn = db.connection().unwrap();
    conn.query(r#"CREATE (s)-[r:x]->(t) -[r: next] WHERE s.ulid = "A" AND t.ulid = "B" SET r = {src: "A", weight: "0.5"}"#)
        .unwrap();
    let mut all = conn.query("MATCH ()-[r:-:next]->() RETURN r").unwrap();
    assert_eq!(all.num_rows(), 1);
    let row = all.next().unwrap();
    assert_eq!(row.get_string(1).unwrap(), "0.5");
    assert_eq!(row.get_string(3).unwrap(), "B");
    assert_eq!(row.get_string(4).unwrap(), "next");
    assert_eq!(row.get_str("ignored").unwrap(), "src,weight,src,dst,rel_type");
}

#[test]
fn relationships_are_listed_by_type_and_source() {
    let db = Database::new("mem").unwrap();
    let mut conn = db.connection().unwrap();
    // The type is read from a separate `-[r:` word; without one it is `related`.
    conn.query(r#"CREATE (s)-[r:x]->(t) -[r: extends] WHERE s.ulid = "A" AND t.ulid = "B""#).unwrap();
    conn.query(r#"CREATE (s)-[r:x]->(t) -[r: extends]-> WHERE s.ulid = "C" AND t.ulid = "B""#).unwrap();
    conn.query(r#"CREATE (s)-[r:next]->(t) WHERE s.ulid = "A" AND t.ulid = "C""#).unwrap();
    let mut all = conn.query("MATCH ()-[r:-:extends]->() RETURN r").unwrap();
    assert_eq!(all.num_rows(), 2);
    let first = all.next().unwrap();
    assert_eq!(first.get_string(0).unwrap(), "A");
    assert_eq!(first.get_string(1).unwrap(), "B");
    assert_eq!(first.get_string(2).unwrap(), "extends");
    assert!(matches!(first.get("dst").unwrap(), Value::String(s) if s == "B"));
    assert_eq!(first.get_str("ignored").unwrap(), "src,dst,rel_type");
    match first.get_string(3) {
        Err(KuzuError::NotFound(m)) => assert_eq!(m, "Column 3 not found"),
        _ => panic!("expected a missing column"),
    }
    match first.get("nope") {
        Err(e) => assert_eq!(e.message(), "Not found: Column 'nope' not found"),
        Ok(_) => panic!("expected a missing column"),
    }
    let second = all.next().unwrap();
    assert_eq!(second.get_string(0).unwrap(), "C");

    let mut from_a = conn.query(r#"MATCH (s:Block {ulid: "A"})-[r:-:extends]->(t) RETURN r"#).unwrap();
    assert_eq!(from_a.num_rows(), 1);
    let row = from_a.next().unwrap();
    assert_eq!(row.get_string(1).unwrap(), "B");

    assert_eq!(conn.query("MATCH ()-[r:-:cites]->() RETURN r").unwrap().num_rows(), 0);
    let mut related = conn.query("MATCH ()-[r:-:related]->() RETURN r").unwrap();
    assert_eq!(related.num_rows(), 1);
    assert_eq!(related.next().unwrap().get_string(1).unwrap(), "C");
    // A pattern without both endpoints adds nothing.
    conn.query(r#"CREATE (s)-[r:x]->(t) WHERE s.ulid = "A""#).unwrap();
    assert_eq!(conn.query("MATCH ()-[r:-:related]->() RETURN r").unwrap().num_rows(), 1);
}

#[test]
fn endpoint_check_needs_both_blocks() {
    let db = Database::new("mem").unwrap();
    let mut conn = db.connection().unwrap();
    let q = r#"MATCH (s:Block), (t:Block) WHERE s.ulid = "unknown" AND t.ulid = "unknown" RETURN s"#;
    assert_eq!(conn.query(q).unwrap().num_rows(), 0);
    conn.query("CREATE (b:Block {x: 1})").unwrap();
    let mut r = conn.query(q).unwrap();
    assert_eq!(r.num_rows(), 1);
    assert!(r.columns().is_empty());
    assert_eq!(conn.execute("CREATE NODE TABLE Block(ulid STRING)").is_ok(), true);
}

#[test]
fn values_as_text() {
    let t = FlatTuple {
        values: vec![
            ("a".to_string(), Value::Int64(-42)),
            ("b".to_string(), Value::UInt64(7)),
            ("c".to_string(), Value::Bool(true)),
            ("d".to_string(), Value::Null),
            ("e".to_string(), Value::StringList(vec!["x".into(), "y".into()])),
            ("f".to_string(), Value::Int64List(vec![1, -2, 3])),
        ],
    };
    assert_eq!(t.get_string(0).unwrap(), "-42");
    assert_eq!(t.get_string(1).unwrap(), "7");
    assert_eq!(t.get_string(2).unwrap(), "true");
    assert_eq!(t.get_string(3).unwrap(), "NULL");
    assert_eq!(t.get_string(4).unwrap(), "x,y");
    assert_eq!(t.get_string(5).unwrap(), "1,-2,3");
    assert!(matches!(Value::default(), Value::Null));
}
