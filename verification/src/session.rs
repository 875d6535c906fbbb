//! Agent work sessions and the blocks they create.
//!
//! A session starts active, may be ended (optionally promoting the blocks
//! created during it), restored, and checkpointed. Captures are refused once
//! a session has ended.

use vstd::prelude::*;
use crate::ids::{encode_ulid, ulid_encode};
use crate::model::BlockType;
use crate::text::{concat, lowercase, owned, str_eq, to_lowercase};

verus! {

/// A point in time, as seconds and nanoseconds since the Unix epoch (UTC).
#[derive(Debug, Clone, Copy, PartialEq, Eq, Structural)]
pub struct Timestamp {
    pub secs: i64,
    pub nanos: u32,
}

#[verifier::external_type_specification]
#[verifier::external_body]
pub struct ExSystemTime(std::time::SystemTime);

/// `SystemTime::now`: the system clock's reading. Nothing is promised of it.
#[verifier::external_body]
fn system_now() -> (t: std::time::SystemTime) {
    std::time::SystemTime::now()
}

/// `SystemTime::duration_since(UNIX_EPOCH)`: the whole seconds and the
/// nanoseconds since the Unix epoch, or nothing when the reading lies before
/// the epoch. Nothing is promised of the values, which depend on the clock.
#[verifier::external_body]
fn since_epoch(t: &std::time::SystemTime) -> (r: Option<(u64, u32)>)
    ensures
        r matches Some(p) ==> p.1 < 1_000_000_000,
{
    match t.duration_since(std::time::UNIX_EPOCH) {
        Ok(d) => Some((d.as_secs(), d.subsec_nanos())),
        Err(_) => None,
    }
}

/// The current time, or nothing when the clock reads before the Unix epoch
/// or beyond what a timestamp holds.
pub(crate) fn now() -> (t: Option<Timestamp>)
    ensures
        t matches Some(x) ==> x.secs >= 0 && x.nanos < 1_000_000_000,
{
    let reading = system_now();
    match since_epoch(&reading) {
        Some((secs, nanos)) => {
            if secs <= 9_223_372_036_854_775_807u64 {
                Some(Timestamp { secs: secs as i64, nanos })
            } else {
                None
            }
        },
        None => None,
    }
}

/// The state of a session.
#[derive(Debug, Clone, Copy, PartialEq, Eq, Structural)]
pub enum SessionStatus {
    Active,
    Ended,
    Restored,
}

/// The displayed name of a session state.
pub open spec fn status_name(s: SessionStatus) -> Seq<char> {
    match s {
        SessionStatus::Active => "active"@,
        SessionStatus::Ended => "ended"@,
        SessionStatus::Restored => "restored"@,
    }
}

impl SessionStatus {
    /// The displayed name: `active`, `ended` or `restored`.
    pub fn as_str(&self) -> (s: &'static str)
        ensures
            s@ == status_name(*self),
    {
        match self {
            SessionStatus::Active => "active",
            SessionStatus::Ended => "ended",
            SessionStatus::Restored => "restored",
        }
    }
}

/// A session of an agent on a project, tracking the blocks it touched.
#[derive(Debug, Clone)]
pub struct Session {
    pub id: String,
    pub agent: String,
    pub project: String,
    /// When the session started; `None` when the clock could not be read.
    pub started_at: Option<Timestamp>,
    pub ended_at: Option<Timestamp>,
    pub cwd: Option<String>,
    pub status: SessionStatus,
    pub description: Option<String>,
    pub summary: Option<String>,
    pub checkpoint_id: Option<String>,
    pub created_blocks: Vec<String>,
    pub modified_blocks: Vec<String>,
    pub session_block_id: Option<String>,
}

impl Session {
    /// A new active session started now, with nothing tracked yet.
    pub fn new(id: String, agent: String, project: String, cwd: Option<String>) -> (s: Session)
        ensures
            s.id == id,
            s.agent == agent,
            s.project == project,
            s.cwd == cwd,
            s.ended_at is None,
            s.status == SessionStatus::Active,
            s.description is None,
            s.summary is None,
            s.checkpoint_id is None,
            s.created_blocks@.len() == 0,
            s.modified_blocks@.len() == 0,
            s.session_block_id is None,
    {
        Session {
            id,
            agent,
            project,
            started_at: now(),
            ended_at: None,
            cwd,
            status: SessionStatus::Active,
            description: None,
            summary: None,
            checkpoint_id: None,
            created_blocks: Vec::new(),
            modified_blocks: Vec::new(),
            session_block_id: None,
        }
    }

    /// Records a block created during the session, by its ULID text.
    pub fn track_created(&mut self, block_id: &u128)
        ensures
            final(self).created_blocks.deep_view() == old(self).created_blocks.deep_view().push(
                ulid_encode(*block_id),
            ),
            final(self).modified_blocks == old(self).modified_blocks,
            final(self).status == old(self).status,
            final(self).id == old(self).id,
    {
        let s = encode_ulid(*block_id);
        self.created_blocks.push(s);
        assert(self.created_blocks.deep_view() =~= old(self).created_blocks.deep_view().push(
            ulid_encode(*block_id),
        ));
    }

    /// Records a block modified during the session, by its ULID text.
    pub fn track_modified(&mut self, block_id: &u128)
        ensures
            final(self).modified_blocks.deep_view() == old(self).modified_blocks.deep_view().push(
                ulid_encode(*block_id),
            ),
            final(self).created_blocks == old(self).created_blocks,
            final(self).status == old(self).status,
            final(self).id == old(self).id,
    {
        let s = encode_ulid(*block_id);
        self.modified_blocks.push(s);
        assert(self.modified_blocks.deep_view() =~= old(self).modified_blocks.deep_view().push(
            ulid_encode(*block_id),
        ));
    }

    /// The identifier of the block that stores the session, if set.
    pub fn session_block_id(&self) -> (r: Option<&str>)
        ensures
            match r {
                Some(s) => self.session_block_id matches Some(b) && s@ == b@,
                None => self.session_block_id is None,
            },
    {
        match &self.session_block_id {
            Some(b) => Some(b.as_str()),
            None => None,
        }
    }

    /// Ends the session at `at`, recording the summary if one is given.
    pub fn end(&mut self, at: Timestamp, summary: Option<String>)
        ensures
            final(self).status == SessionStatus::Ended,
            final(self).ended_at == Some(at),
            final(self).summary == summary,
            final(self).created_blocks == old(self).created_blocks,
            final(self).modified_blocks == old(self).modified_blocks,
            final(self).id == old(self).id,
            final(self).started_at == old(self).started_at,
    {
        self.ended_at = Some(at);
        self.status = SessionStatus::Ended;
        self.summary = summary;
    }

    /// Marks the session as restored.
    pub fn restore(&mut self)
        ensures
            final(self).status == SessionStatus::Restored,
            final(self).ended_at == old(self).ended_at,
            final(self).created_blocks == old(self).created_blocks,
            final(self).modified_blocks == old(self).modified_blocks,
            final(self).id == old(self).id,
    {
        self.status = SessionStatus::Restored;
    }

    /// Records a checkpoint.
    pub fn set_checkpoint(&mut self, checkpoint_id: String)
        ensures
            final(self).checkpoint_id == Some(checkpoint_id),
            final(self).status == old(self).status,
            final(self).created_blocks == old(self).created_blocks,
            final(self).modified_blocks == old(self).modified_blocks,
            final(self).id == old(self).id,
    {
        self.checkpoint_id = Some(checkpoint_id);
    }

    /// Whether blocks may still be captured into the session.
    pub fn accepts_captures(&self) -> (b: bool)
        ensures
            b == (self.status != SessionStatus::Ended),
    {
        match self.status {
            SessionStatus::Ended => false,
            _ => true,
        }
    }

    /// The number of blocks the session touched.
    pub fn tracked_count(&self) -> (n: usize)
        requires
            self.created_blocks@.len() + self.modified_blocks@.len() <= usize::MAX,
        ensures
            n == self.created_blocks@.len() + self.modified_blocks@.len(),
    {
        self.created_blocks.len() + self.modified_blocks.len()
    }
}

/// The title of the block that stores a session: `session/<id>`.
pub fn session_block_title(session_id: &str) -> (s: String)
    ensures
        s@ == "session/"@ + session_id@,
{
    concat("session/", session_id)
}

/// The title of a captured block: `capture/<ulid>`.
pub fn capture_block_title(block_id: u128) -> (s: String)
    ensures
        s@ == "capture/"@ + ulid_encode(block_id),
{
    let u = encode_ulid(block_id);
    concat("capture/", u.as_str())
}

/// The tags of the block that stores a session in a given state.
pub open spec fn session_tags_spec(status: SessionStatus) -> Seq<Seq<char>> {
    seq!["session"@, "session-"@ + status_name(status)]
}

/// The tags of the block that stores a session in a given state:
/// `session` and `session-<state>`.
pub fn session_tags(status: SessionStatus) -> (tags: Vec<String>)
    ensures
        tags.deep_view() == session_tags_spec(status),
{
    let mut tags: Vec<String> = Vec::new();
    tags.push(owned("session"));
    tags.push(concat("session-", status.as_str()));
    assert(tags.deep_view() =~= session_tags_spec(status));
    tags
}

/// The tags of a captured block: `session-capture` and `session/<id>`.
pub fn capture_tags(session_id: &str) -> (tags: Vec<String>)
    ensures
        tags.deep_view() == seq!["session-capture"@, "session/"@ + session_id@],
{
    let mut tags: Vec<String> = Vec::new();
    tags.push(owned("session-capture"));
    tags.push(concat("session/", session_id));
    assert(tags.deep_view() =~= seq!["session-capture"@, "session/"@ + session_id@]);
    tags
}

/// The kind named by a `promote_to` option: `literature` or `permanent`,
/// ignoring case.
pub open spec fn promote_target_of(lower: Seq<char>) -> Option<BlockType> {
    if lower == "literature"@ {
        Some(BlockType::Literature)
    } else if lower == "permanent"@ {
        Some(BlockType::Permanent)
    } else {
        None
    }
}

/// Parses the kind that ending a session promotes its blocks to. Anything
/// else gives `"Invalid promote_to type: <s>. Use 'literature' or 'permanent'."`.
pub fn parse_promote_target(s: &str) -> (r: Result<BlockType, String>)
    ensures
        match r {
            Ok(t) => promote_target_of(lowercase(s@)) == Some(t),
            Err(m) => promote_target_of(lowercase(s@)) is None && m@ == "Invalid promote_to type: "@
                + s@ + ". Use 'literature' or 'permanent'."@,
        },
{
    let l = to_lowercase(s);
    if str_eq(l.as_str(), "literature") {
        Ok(BlockType::Literature)
    } else if str_eq(l.as_str(), "permanent") {
        Ok(BlockType::Permanent)
    } else {
        let a = concat("Invalid promote_to type: ", s);
        Err(concat(a.as_str(), ". Use 'literature' or 'permanent'."))
    }
}

/// Whether a tag list holds a tag.
pub fn has_tag(tags: &Vec<String>, tag: &str) -> (b: bool)
    ensures
        b == tags.deep_view().contains(tag@),
{
    let mut i: usize = 0;
    while i < tags.len()
        invariant
            i <= tags@.len(),
            forall|j: int| 0 <= j < i ==> tags@[j]@ != tag@,
        decreases tags@.len() - i,
    {
        if str_eq(tags[i].as_str(), tag) {
            assert(tags.deep_view()[i as int] == tag@);
            return true;
        }
        i = i + 1;
    }
    assert forall|j: int| 0 <= j < tags.deep_view().len() implies tags.deep_view()[j] != tag@ by {
        assert(tags.deep_view()[j] == tags@[j]@);
    }
    false
}

/// The tags of a block promoted when its session ends: `from-session/<id>`
/// is appended, then `promoted` unless the block already has it.
pub open spec fn promoted_tags_spec(tags: Seq<Seq<char>>, session_id: Seq<char>) -> Seq<Seq<char>> {
    let t = tags.push("from-session/"@ + session_id);
    if t.contains("promoted"@) {
        t
    } else {
        t.push("promoted"@)
    }
}

/// Adds the session-origin tags to a block promoted at the end of a session.
pub fn add_promotion_tags(tags: &mut Vec<String>, session_id: &str)
    ensures
        final(tags).deep_view() == promoted_tags_spec(old(tags).deep_view(), session_id@),
{
    let ghost before = tags.deep_view();
    tags.push(concat("from-session/", session_id));
    assert(tags.deep_view() =~= before.push("from-session/"@ + session_id@));
    if !has_tag(tags, "promoted") {
        let ghost mid = tags.deep_view();
        tags.push(owned("promoted"));
        assert(tags.deep_view() =~= mid.push("promoted"@));
    }
}

/// Once a session has ended, captures into it are refused until it is
/// restored; a restored session accepts captures again.
pub proof fn lemma_capture_follows_status(s: SessionStatus)
    ensures
        (s != SessionStatus::Ended) == (s == SessionStatus::Active || s == SessionStatus::Restored),
{
}

/// Promoting a block's tags twice for the same session adds `promoted` once:
/// the second pass only appends another origin tag.
pub proof fn lemma_promoted_tag_added_once(tags: Seq<Seq<char>>, session_id: Seq<char>)
    ensures
        promoted_tags_spec(promoted_tags_spec(tags, session_id), session_id) == promoted_tags_spec(
            tags,
            session_id,
        ).push("from-session/"@ + session_id),
        promoted_tags_spec(tags, session_id).contains("promoted"@),
{
    let t = tags.push("from-session/"@ + session_id);
    let p = promoted_tags_spec(tags, session_id);
    if !t.contains("promoted"@) {
        assert(p.last() == "promoted"@);
        assert(p[p.len() - 1] == "promoted"@);
    } else {
        let i = choose|i: int| 0 <= i < t.len() && t[i] == "promoted"@;
        assert(p[i] == "promoted"@);
    }
    let q = p.push("from-session/"@ + session_id);
    let i = choose|i: int| 0 <= i < p.len() && p[i] == "promoted"@;
    assert(q[i] == "promoted"@);
}

} // verus!
