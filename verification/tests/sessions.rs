use pkm_ai::model::BlockType;
use pkm_ai::session::{
    add_promotion_tags, capture_block_title, capture_tags, parse_promote_target, session_block_title,
    session_tags, Session, SessionStatus, Timestamp,
};

#[test]
fn session_lifecycle() {
    let mut s = Session::new("s1".into(), "scribe".into(), "proj".into(), None);
    assert!(s.accepts_captures());
    s.track_created(&1);
    s.track_modified(&2);
    assert_eq!(s.tracked_count(), 2);
    s.set_checkpoint("cp".into());
    assert_eq!(s.checkpoint_id.as_deref(), Some("cp"));
    let t = Timestamp { secs: 1_700_000_000, nanos: 0 };
    s.end(t, Some("done".into()));
    assert_eq!(s.status, SessionStatus::Ended);
    assert!(!s.accepts_captures());
    assert_eq!(s.summary.as_deref(), Some("done"));
    s.restore();
    assert_eq!(s.status, SessionStatus::Restored);
    assert!(s.accepts_captures());
    assert_eq!(SessionStatus::Ended.as_str(), "ended");
}

#[test]
fn session_titles_and_tags() {
    assert_eq!(session_block_title("abc"), "session/abc");
    assert_eq!(capture_block_title(0), "capture/00000000000000000000000000");
    assert_eq!(capture_tags("abc"), vec!["session-capture", "session/abc"]);
    assert!(!session_tags(SessionStatus::Active).is_empty());
    let mut tags = vec!["x".to_string()];
    add_promotion_tags(&mut tags, "abc");
    assert_eq!(tags, vec!["x", "from-session/abc", "promoted"]);
    add_promotion_tags(&mut tags, "abc");
    // The origin tag is added again; "promoted" only once.
    assert_eq!(tags, vec!["x", "from-session/abc", "promoted", "from-session/abc"]);
}

#[test]
fn promote_targets() {
    assert_eq!(parse_promote_target("Literature").unwrap(), BlockType::Literature);
    assert_eq!(parse_promote_target("PERMANENT").unwrap(), BlockType::Permanent);
    assert_eq!(
        parse_promote_target("task").unwrap_err(),
        "Invalid promote_to type: task. Use 'literature' or 'permanent'."
    );
}
