use pkm_ai::block::Block;
use pkm_ai::commands::{App, Config};
use pkm_ai::ids::parse_ulid;
use pkm_ai::lint::{calculate_score, issue_text, issues_summary, LintIssue, LintSeverity};
use pkm_ai::model::BlockType;
use pkm_ai::session::{Session, SessionStatus};
use std::path::PathBuf;

/// The ULID text of an identifier, as the `ulid` crate writes it.
fn encode_ulid(v: u128) -> String {
    ulid::Ulid(v).to_string()
}

#[test]
fn test_default_config() {
    let config = Config::default();
    assert_eq!(PathBuf::from(config.database_path), PathBuf::from("data.db"));
}

#[test]
fn test_database_path_absolute() {
    let config = Config { database_path: "/absolute/path/db.db".to_string() };
    assert_eq!(PathBuf::from(config.database_path()), PathBuf::from("/absolute/path/db.db"));
}

#[test]
fn relative_database_path_goes_under_pkmai() {
    let config = Config::default();
    assert_eq!(config.database_path_in(Some("/home/ana")), "/home/ana/.pkmai/data.db");
    assert_eq!(config.database_path_in(Some("/home/ana/")), "/home/ana/.pkmai/data.db");
    assert_eq!(config.database_path_in(None), "data.db");
}

#[test]
fn test_architect_info() {
    assert!(true);
}

#[test]
fn new_app_is_running_without_block() {
    let app = App::new();
    assert!(app.running);
    assert!(app.current_block.is_none());
}

#[test]
fn app_quit_stops_running() {
    let mut app = App::new();
    app.current_block = Some(Block::structure("Open"));
    app.quit();
    assert!(!app.running);
    assert_eq!(app.current_block.unwrap().title, "Open");
}

#[test]
fn test_score_calculation() {
    let empty: Vec<LintIssue> = vec![];
    assert_eq!(calculate_score(&empty) as f32, 100.0);

    let issue = LintIssue {
        code: "orphan".to_string(),
        severity: LintSeverity::Error,
        message: "Test".to_string(),
        block_id: None,
        context: None,
    };
    assert_eq!(calculate_score(&[issue]) as f32, 85.0);
}

#[test]
fn test_lint_severity_display() {
    let issue = LintIssue {
        code: "test".to_string(),
        severity: LintSeverity::Warning,
        message: "Test message".to_string(),
        block_id: None,
        context: Some("Context".to_string()),
    };
    assert!(issue.message.contains("Test message"));
}

#[test]
fn lint_score_floors_at_zero() {
    let many: Vec<LintIssue> = (0..10)
        .map(|_| LintIssue {
            code: "x".to_string(),
            severity: LintSeverity::Error,
            message: "m".to_string(),
            block_id: None,
            context: None,
        })
        .collect();
    assert_eq!(calculate_score(&many), 0);
    let mixed = vec![
        LintIssue { code: "a".into(), severity: LintSeverity::Warning, message: "".into(), block_id: None, context: None },
        LintIssue { code: "b".into(), severity: LintSeverity::Info, message: "".into(), block_id: None, context: None },
    ];
    assert_eq!(calculate_score(&mixed), 94);
}

#[test]
fn test_ghost_block_creation() {
    let ghost = Block::new(BlockType::GhostNote, "Test Ghost");
    assert_eq!(ghost.block_type, BlockType::GhostNote);
    assert_eq!(ghost.title, "Test Ghost");
}

#[test]
fn test_parse_ulid_formats() {
    let ulid = parse_ulid("01ARZ3NDEKTSV4RRFFQ69G5FAV").unwrap();
    assert_eq!(encode_ulid(ulid), "01ARZ3NDEKTSV4RRFFQ69G5FAV");

    let ulid = parse_ulid("block:01ARZ3NDEKTSV4RRFFQ69G5FAV").unwrap();
    assert_eq!(encode_ulid(ulid), "01ARZ3NDEKTSV4RRFFQ69G5FAV");

    assert!(parse_ulid("invalid").is_err());
}

#[test]
fn test_parse_ulid() {
    let ulid = parse_ulid("01ARZ3NDEKTSV4RRFFQ69G5FAV").unwrap();
    assert_eq!(ulid::Ulid(ulid).to_string(), "01ARZ3NDEKTSV4RRFFQ69G5FAV");
}

#[test]
fn invalid_ulid_message() {
    let e = parse_ulid("nope").unwrap_err();
    assert_eq!(e.message(), "Invalid ULID format: nope");
}

#[test]
fn test_session_new() {
    let session = Session::new(
        "test-id".to_string(),
        "scribe".to_string(),
        "test-project".to_string(),
        Some("/tmp".to_string()),
    );
    assert_eq!(session.id, "test-id");
    assert_eq!(session.agent, "scribe");
    assert_eq!(session.project, "test-project");
    assert_eq!(session.status, SessionStatus::Active);
    assert!(session.created_blocks.is_empty());
    assert!(session.modified_blocks.is_empty());
}

#[test]
fn test_session_track_blocks() {
    let mut session = Session::new(
        "test-id".to_string(),
        "scribe".to_string(),
        "test-project".to_string(),
        None,
    );
    let block_id = ulid::Ulid::new();
    session.track_created(&block_id.0);
    assert_eq!(session.created_blocks.len(), 1);
    assert_eq!(session.created_blocks[0], block_id.to_string());

    let block_id2 = ulid::Ulid::new();
    session.track_modified(&block_id2.0);
    assert_eq!(session.modified_blocks.len(), 1);
    assert_eq!(session.modified_blocks[0], block_id2.to_string());
}

#[test]
fn ulid_encoding_round_trips() {
    let v = ulid::Ulid::new();
    assert_eq!(pkm_ai::session::capture_block_title(v.0), format!("capture/{}", v));
    assert_eq!(parse_ulid(&v.to_string()).ok(), Some(v.0));
    assert_eq!(parse_ulid(&v.to_string().to_lowercase()).ok(), Some(v.0));
    assert!(parse_ulid("short").is_err());
}

fn rule() -> String {
    "━".repeat(60)
}

#[test]
fn lint_report_with_one_orphan_error() {
    let issue = LintIssue {
        code: "orphan".to_string(),
        severity: LintSeverity::Error,
        message: "Test".to_string(),
        block_id: None,
        context: None,
    };
    let text = issues_summary(&[issue]);
    let expected = format!(
        "{r}\n❌ ERRORS (1)\n\n  ❌ [ORPHAN] Test\n\n\n{r}\n\n📊 Score: ⚠️ 85/100\n\n   Errors: 1 (15 pts each)\n   Warnings: 0 (5 pts each)\n   Info: 0 (1 pt each)\n\n💡 Recommendations:\n   - 1 orphan block(s) need linking\n     Run `nexus lint --fix` to auto-fix\n\n💡 Tip: Run `nexus lint --fix` to auto-fix fixable issues\n",
        r = rule()
    );
    assert_eq!(text, expected);
}

#[test]
fn lint_report_without_issues() {
    let text = issues_summary(&[]);
    assert_eq!(text, "✅ No structural issues found!\n\n📊 Your knowledge graph is well-structured.\n");
}

#[test]
fn lint_report_notes_only() {
    let issue = LintIssue {
        code: "stale-ghost".to_string(),
        severity: LintSeverity::Info,
        message: "Old".to_string(),
        block_id: None,
        context: Some("Review it".to_string()),
    };
    let text = issues_summary(&[issue]);
    assert!(text.contains("ℹ️  INFO (1)\n\n  ℹ️ [STALE-GHOST] Old\n     💡 Review it\n\n\n"));
    assert!(text.contains("📊 Score: ✅ 99/100"));
    assert!(text.contains("   - No critical issues. Keep up the good work!\n"));
}

#[test]
fn lint_issue_shows_short_block_id() {
    let id: u128 = 0x0123_4567_89ab_cdef_0123_4567_89ab_cdef;
    let issue = LintIssue {
        code: "gap".to_string(),
        severity: LintSeverity::Warning,
        message: "Gap".to_string(),
        block_id: Some(id),
        context: None,
    };
    let short: String = encode_ulid(id).chars().take(8).collect();
    assert_eq!(issue_text(&issue), format!("  ⚠️ [GAP] Gap\n     Block: {}\n\n", short));
}

#[test]
fn ulid_text_reads_back_as_the_identifier() {
    for v in [0u128, 1, 31, 32, 0x0123_4567_89ab_cdef_0123_4567_89ab_cdef, u128::MAX] {
        let text = ulid::Ulid(v).to_string();
        assert_eq!(parse_ulid(&text).unwrap(), v);
        assert_eq!(parse_ulid(&format!("block:{}", text)).unwrap(), v);
    }
}
