//! The command vocabulary of the CLI, the state of the interactive
//! application, configuration, and the requests handed to the application
//! services.

use vstd::prelude::*;
use crate::block::{Block, Edge};
use crate::error::NexusError;
use crate::ids::{encode_ulid, ulid_encode};
use crate::model::{link_type_lower_name, BlockType, LinkType};
use crate::store::EdgeStore;
use crate::toc::TraversalNode;
use crate::text::{chars_of, lowercase, owned, push_str, str_eq, string_from_chars, to_lowercase, trim_chars, trim_seq};

verus! {

// ---------------------------------------------------------------------------
// Interactive answers
// ---------------------------------------------------------------------------

/// An answer in interactive creation.
#[derive(Debug, Clone, Copy, PartialEq, Eq, Structural)]
pub enum InteractiveChoice {
    /// Use the existing duplicate block.
    Yes,
    /// Create the new block anyway.
    No,
    /// Edit before creating.
    Edit,
    /// Abort.
    Abort,
}

/// The answer named by a trimmed, lowercased reply.
pub open spec fn choice_of(s: Seq<char>) -> Option<InteractiveChoice> {
    if s == "y"@ || s == "yes"@ || s == "s"@ || s == "si"@ || s == "yep"@ {
        Some(InteractiveChoice::Yes)
    } else if s == "n"@ || s == "no"@ || s == "nope"@ {
        Some(InteractiveChoice::No)
    } else if s == "e"@ || s == "edit"@ || s == "ed"@ {
        Some(InteractiveChoice::Edit)
    } else if s == "a"@ || s == "abort"@ || s == "cancel"@ || s == "q"@ || s == "quit"@ {
        Some(InteractiveChoice::Abort)
    } else {
        None
    }
}

/// Reads a reply: trimmed, lowercased, then matched against the accepted
/// words; `None` when the reply is none of them (the prompt then asks again).
pub fn parse_choice(input: &str) -> (r: Option<InteractiveChoice>)
    ensures
        r == choice_of(lowercase(trim_seq(input@))),
{
    let cs = chars_of(input);
    let trimmed = trim_chars(&cs);
    let t = string_from_chars(&trimmed);
    let lower = to_lowercase(t.as_str());
    let s = lower.as_str();
    if str_eq(s, "y") || str_eq(s, "yes") || str_eq(s, "s") || str_eq(s, "si") || str_eq(s, "yep") {
        Some(InteractiveChoice::Yes)
    } else if str_eq(s, "n") || str_eq(s, "no") || str_eq(s, "nope") {
        Some(InteractiveChoice::No)
    } else if str_eq(s, "e") || str_eq(s, "edit") || str_eq(s, "ed") {
        Some(InteractiveChoice::Edit)
    } else if str_eq(s, "a") || str_eq(s, "abort") || str_eq(s, "cancel") || str_eq(s, "q") || str_eq(s, "quit") {
        Some(InteractiveChoice::Abort)
    } else {
        None
    }
}

// ---------------------------------------------------------------------------
// Subcommands
// ---------------------------------------------------------------------------

/// Ghost node subcommands.
#[derive(Debug, Clone)]
pub enum GhostCommands {
    List,
    Show { id: String },
    Fill { id: String, content: String },
    Dismiss { id: String },
}

/// Database subcommands.
#[derive(Debug, Clone)]
pub enum DbCommands {
    Init,
    Export { format: String },
    Import { file: String },
    Stats,
}

/// Version control subcommands.
#[derive(Debug, Clone)]
pub enum VersionCommands {
    Status { repo: Option<String> },
    Log { repo: Option<String>, oneline: bool, graph: bool, limit: usize },
    Diff { repo: Option<String>, block_id: Option<String> },
    Add { repo: Option<String>, block_id: String },
    Commit { repo: Option<String>, message: String, author: String, amend: bool, no_edit: bool },
    Branch { repo: Option<String>, name: Option<String>, delete: bool, force_delete: bool },
    Checkout { repo: Option<String>, name: String, create_new: bool },
    Merge { repo: Option<String>, name: String, strategy: Option<String> },
    Tag {
        repo: Option<String>,
        name: Option<String>,
        commit_id: Option<String>,
        message: Option<String>,
        delete: bool,
    },
    LogGrep { repo: Option<String>, pattern: String, limit: usize },
    Orphan { repo: Option<String> },
    Reset { repo: Option<String>, soft: bool, hard: bool, commit: Option<String> },
    Rebase { repo: Option<String>, branch: String },
    Push { repo: Option<String>, remote: String, refs: Vec<String>, force: bool },
    Pull { repo: Option<String>, remote: String, branch: String, strategy: Option<String> },
    Clone { source: String, destination: Option<String>, branch: Option<String>, depth: Option<usize> },
    Fetch { repo: Option<String>, remote: String },
    RemoteList { repo: Option<String> },
    RemoteAdd { repo: Option<String>, name: String, url: String },
}

/// Agent session subcommands.
#[derive(Debug, Clone)]
pub enum SessionCommands {
    Start {
        agent: String,
        project: String,
        session_id: Option<String>,
        cwd: Option<String>,
        description: Option<String>,
    },
    End {
        session_id: String,
        project: Option<String>,
        auto_summary: Option<bool>,
        summary: Option<String>,
        promote_to: Option<String>,
    },
    List { limit: usize, project: Option<String> },
    Restore { session_id: String, project: Option<String> },
    Checkpoint { session_id: String, project: Option<String> },
    Capture { session_id: String, project: Option<String>, content: String },
    Blocks { session_id: String, project: Option<String> },
}

// ---------------------------------------------------------------------------
// Application state
// ---------------------------------------------------------------------------

/// The state of the interactive application.
pub struct App {
    pub running: bool,
    pub current_block: Option<Block>,
}

impl App {
    /// A running application with no block open.
    pub fn new() -> (a: App)
        ensures
            a.running,
            a.current_block is None,
    {
        App { running: true, current_block: None }
    }

    /// Stops the application, keeping the open block.
    pub fn quit(&mut self)
        ensures
            !final(self).running,
            final(self).current_block == old(self).current_block,
    {
        self.running = false;
    }
}

// ---------------------------------------------------------------------------
// Configuration
// ---------------------------------------------------------------------------

/// Where the database lives: absolute, or relative to the `.pkmai`
/// directory in the home directory.
#[derive(Debug, Clone)]
pub struct Config {
    pub database_path: String,
}

/// `Path::is_absolute` on Unix: the path starts at the root.
pub open spec fn is_absolute_path(p: Seq<char>) -> bool {
    p.len() > 0 && p[0] == '/'
}

/// `PathBuf::push` of a relative path: a separator is added unless the base
/// is empty or already ends with one.
pub open spec fn join_path(base: Seq<char>, rel: Seq<char>) -> Seq<char> {
    if base.len() == 0 || base.last() == '/' {
        base + rel
    } else {
        base + "/"@ + rel
    }
}

/// The database path for the configured path and the home directory, if
/// known: an absolute path as it is, a relative one under `~/.pkmai`.
pub open spec fn resolved_database_path(path: Seq<char>, home: Option<Seq<char>>) -> Seq<char> {
    if is_absolute_path(path) {
        path
    } else {
        match home {
            Some(h) => join_path(join_path(h, ".pkmai"@), path),
            None => path,
        }
    }
}

/// `dirs::home_dir`: the home directory of the user running the program, as
/// text. It depends on the environment; nothing is promised of it.
#[verifier::external_body]
fn home_dir() -> (h: Option<String>) {
    dirs::home_dir().map(|p| p.to_string_lossy().into_owned())
}

fn join_path_exec(base: &str, rel: &str) -> (out: String)
    ensures
        out@ == join_path(base@, rel@),
{
    let cs = chars_of(base);
    let mut out = owned(base);
    if cs.len() == 0 || cs[cs.len() - 1] == '/' {
        crate::text::push_str(&mut out, rel);
    } else {
        crate::text::push_str(&mut out, "/");
        crate::text::push_str(&mut out, rel);
    }
    out
}

impl Default for Config {
    /// The default configuration: `data.db`.
    fn default() -> (c: Config)
        ensures
            c.database_path@ == "data.db"@,
    {
        Config { database_path: owned("data.db") }
    }
}

impl Config {
    /// Resolves the configured path against a home directory (see
    /// [`resolved_database_path`]).
    pub fn database_path_in(&self, home: Option<&str>) -> (p: String)
        ensures
            p@ == resolved_database_path(
                self.database_path@,
                match home {
                    Some(h) => Some(h@),
                    None => None,
                },
            ),
    {
        let cs = chars_of(self.database_path.as_str());
        if cs.len() > 0 && cs[0] == '/' {
            return owned(self.database_path.as_str());
        }
        match home {
            Some(h) => {
                let dir = join_path_exec(h, ".pkmai");
                join_path_exec(dir.as_str(), self.database_path.as_str())
            },
            None => owned(self.database_path.as_str()),
        }
    }

    /// The database path, resolved against the current user's home
    /// directory.
    pub fn database_path(&self) -> (p: String)
        ensures
            is_absolute_path(self.database_path@) ==> p@ == self.database_path@,
            p@ == self.database_path@ || exists|h: Seq<char>| p@ == resolved_database_path(self.database_path@, Some(h)),
    {
        let home = home_dir();
        match home {
            Some(h) => self.database_path_in(Some(h.as_str())),
            None => self.database_path_in(None),
        }
    }
}

// ---------------------------------------------------------------------------
// Requests to the application services
// ---------------------------------------------------------------------------

/// A request to create a block.
#[derive(Debug, Clone)]
pub struct CreateBlockCommand {
    pub block_type: BlockType,
    pub title: String,
    pub content: String,
    pub tags: Vec<String>,
}

/// A request to search blocks.
#[derive(Debug, Clone)]
pub struct SearchBlocksQuery {
    pub query: String,
}

/// A request to walk the spine from a block.
#[derive(Debug, Clone, Copy)]
pub struct TraverseSpineQuery {
    pub root_id: u128,
    pub max_depth: u32,
}

/// What a store behind the application services reports when it fails or
/// refuses a request.
#[derive(Debug)]
pub enum RepositoryError {
    /// No block has the identifier given.
    BlockNotFound(String),
    /// The request breaks a rule of the knowledge base.
    ValidationError(String),
    /// The store could not answer.
    Database(String),
}

/// A store that answers graph queries; the application layer implements it.
/// Each implementation says, by the relations below, which answers it may
/// give; a store backed by a database may give different answers to the
/// same question at different times.
pub trait GraphQueryPort {
    /// `r` is an answer the store may give to whether a structural link
    /// from `from` to `to` would close a cycle.
    spec fn cycle_answer(&self, from: u128, to: u128, r: Result<bool, RepositoryError>) -> bool;

    /// `r` is an answer the store may give for the spine below `root`, at
    /// most `max_depth` levels deep.
    spec fn spine_answer(&self, root: u128, max_depth: u32, r: Result<Option<TraversalNode>, RepositoryError>) -> bool;

    /// Whether a structural link from `from` to `to` would close a cycle.
    fn would_create_cycle(&self, from: u128, to: u128) -> (r: Result<bool, RepositoryError>)
        ensures
            self.cycle_answer(from, to, r),
    ;

    /// The spine below `root`, at most `max_depth` levels deep; `None` when
    /// there is no such block.
    fn traverse_spine(&self, root: u128, max_depth: u32) -> (r: Result<Option<TraversalNode>, RepositoryError>)
        ensures
            self.spine_answer(root, max_depth, r),
    ;
}

/// The service that walks spines, holding the store it asks.
pub struct TraverseSpineUseCase<G: GraphQueryPort> {
    pub graph_query: std::sync::Arc<G>,
}

impl<G: GraphQueryPort> TraverseSpineUseCase<G> {
    /// A service over the given store.
    pub fn new(graph_query: std::sync::Arc<G>) -> (u: TraverseSpineUseCase<G>)
        ensures
            u.graph_query == graph_query,
    {
        TraverseSpineUseCase { graph_query }
    }

    /// Walks the spine from the query's root, as deep as the query asks:
    /// the store's answer for that root and depth, as it gives it.
    pub fn execute(&self, query: TraverseSpineQuery) -> (r: Result<Option<TraversalNode>, RepositoryError>)
        ensures
            (*self.graph_query).spine_answer(query.root_id, query.max_depth, r),
    {
        self.graph_query.traverse_spine(query.root_id, query.max_depth)
    }
}

/// A request to link two blocks.
#[derive(Debug, Clone, Copy)]
pub struct LinkBlocksCommand {
    pub from_id: u128,
    pub to_id: u128,
    pub link_type: LinkType,
}

/// The link kinds that shape the spine and the sections: a cycle of them is
/// refused.
pub open spec fn is_structural_spec(t: LinkType) -> bool {
    t == LinkType::SectionOf || t == LinkType::SubsectionOf || t == LinkType::OrderedChild || t == LinkType::Next
        || t == LinkType::NextSibling || t == LinkType::FirstChild || t == LinkType::Contains || t == LinkType::Parent
}

/// Whether a link kind is structural (see [`is_structural_spec`]).
pub fn is_structural(t: LinkType) -> (b: bool)
    ensures
        b == is_structural_spec(t),
{
    match t {
        LinkType::SectionOf | LinkType::SubsectionOf | LinkType::OrderedChild | LinkType::Next | LinkType::NextSibling
        | LinkType::FirstChild | LinkType::Contains | LinkType::Parent => true,
        _ => false,
    }
}

/// The message refusing a link that would close a cycle.
pub open spec fn cycle_message(cmd: LinkBlocksCommand) -> Seq<char> {
    "Adding "@ + link_type_lower_name(cmd.link_type) + " edge from "@ + ulid_encode(cmd.from_id) + " to "@
        + ulid_encode(cmd.to_id) + " would create a cycle"@
}

/// The store after a link for `cmd` was added as `e`.
pub open spec fn linked_as(old: Seq<Edge>, new: Seq<Edge>, cmd: LinkBlocksCommand, e: Edge) -> bool {
    &&& new == old.push(e)
    &&& e.from == cmd.from_id
    &&& e.to == cmd.to_id
    &&& e.link_type == cmd.link_type
}

/// Links two blocks once the cycle check answered `cycle` (`Ok(false)` when
/// no check was needed): an error of the check is passed on, a cycle is
/// refused with a `ValidationError`, and in both cases nothing is
/// stored; otherwise a new link is stored last and its identifier returned.
pub fn link_after_check(edges: &mut EdgeStore, cmd: LinkBlocksCommand, cycle: Result<bool, RepositoryError>) -> (r: Result<
    u128,
    RepositoryError,
>)
    ensures
        link_checked(old(edges).edges@, final(edges).edges@, cmd, cycle, r),
{
    match cycle {
        Err(e) => Err(e),
        Ok(true) => {
            let mut m = owned("Adding ");
            push_str(&mut m, cmd.link_type.lower_name());
            push_str(&mut m, " edge from ");
            push_str(&mut m, encode_ulid(cmd.from_id).as_str());
            push_str(&mut m, " to ");
            push_str(&mut m, encode_ulid(cmd.to_id).as_str());
            push_str(&mut m, " would create a cycle");
            Err(RepositoryError::ValidationError(m))
        },
        Ok(false) => {
            let e = Edge::new(cmd.from_id, cmd.to_id, cmd.link_type);
            let id = e.id;
            let ghost ev = e;
            edges.create(e);
            assert(linked_as(old(edges).edges@, edges.edges@, cmd, ev));
            Ok(id)
        },
    }
}

/// The service that links blocks, holding the link store and the store it
/// asks about cycles.
pub struct LinkBlocksUseCase<G: GraphQueryPort> {
    pub edge_repo: EdgeStore,
    pub graph_query: std::sync::Arc<G>,
}

impl<G: GraphQueryPort> LinkBlocksUseCase<G> {
    /// A service over the given stores.
    pub fn new(edge_repo: EdgeStore, graph_query: std::sync::Arc<G>) -> (u: LinkBlocksUseCase<G>)
        ensures
            u.edge_repo == edge_repo,
            u.graph_query == graph_query,
    {
        LinkBlocksUseCase { edge_repo, graph_query }
    }

    /// Links two blocks: a structural link is first checked for a cycle by
    /// the store (see [`link_after_check`] for each answer); any other link
    /// is stored at once.
    pub fn execute(&mut self, cmd: LinkBlocksCommand) -> (r: Result<u128, RepositoryError>)
        ensures
            final(self).graph_query == old(self).graph_query,
            !is_structural_spec(cmd.link_type) ==> link_checked(
                old(self).edge_repo.edges@,
                final(self).edge_repo.edges@,
                cmd,
                Ok(false),
                r,
            ),
            is_structural_spec(cmd.link_type) ==> exists|c: Result<bool, RepositoryError>|
                (*old(self).graph_query).cycle_answer(cmd.from_id, cmd.to_id, c) && #[trigger] link_checked(
                    old(self).edge_repo.edges@,
                    final(self).edge_repo.edges@,
                    cmd,
                    c,
                    r,
                ),
    {
        if is_structural(cmd.link_type) {
            let c = self.graph_query.would_create_cycle(cmd.from_id, cmd.to_id);
            let ghost cv = c;
            let r = link_after_check(&mut self.edge_repo, cmd, c);
            assert(link_checked(old(self).edge_repo.edges@, self.edge_repo.edges@, cmd, cv, r));
            r
        } else {
            link_after_check(&mut self.edge_repo, cmd, Ok(false))
        }
    }
}

/// `new` and `r` are what [`link_after_check`] gives for the answer `c`
/// of the cycle check.
pub open spec fn link_checked(
    old: Seq<Edge>,
    new: Seq<Edge>,
    cmd: LinkBlocksCommand,
    c: Result<bool, RepositoryError>,
    r: Result<u128, RepositoryError>,
) -> bool {
    match c {
        Err(e) => r == Err::<u128, RepositoryError>(e) && new == old,
        Ok(true) => (r matches Err(RepositoryError::ValidationError(m)) && m@ == cycle_message(cmd)) && new == old,
        Ok(false) => r matches Ok(id) && exists|e: Edge| #[trigger] linked_as(old, new, cmd, e) && e.id == id,
    }
}

} // verus!
