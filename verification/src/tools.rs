//! The block and link tools of the tool server, on plain arguments: each
//! checks its arguments in the server's order, works on the stores, and
//! answers what the reply is built from, or the error it carries.

use vstd::prelude::*;
use crate::block::{meta_get, same_block, same_edge, Block, Edge, FractionalIndex};
use crate::ids::{encode_ulid, ulid_decode, ulid_encode, ulid_error_text, ulid_from_string};
use crate::listing::{find_to, first_where, in_order, lemma_out_listing, lemma_same_listing, link_to, out_order};
use crate::mcp::{
    entries_view, invalid_params, parse_link_type, props_outcome, pv_view, sanitize_string, sanitize_title, sanitized,
    sanitized_title, tags_outcome, too_many_tags_message, validate_properties, validate_tags, ErrorData, PropertyValue,
    INVALID_PARAMS, MAX_TAGS_COUNT,
};
use crate::model::{BlockType, LinkType};
use crate::parse::link_type_of_name;
use crate::size::{decimal_digits, decimal_string};
use crate::store::{blocks_without, edges_except, first_block_with, holds_block, same_edges, BlockStore, EdgeStore};
use crate::session::Timestamp;
use crate::text::{concat, first_chars, lowercase, owned, push_str, str_eq, to_lowercase};

verus! {

/// The error for an argument that is no ULID: `prefix` and the decoder's
/// message.
pub open spec fn bad_id(e: ErrorData, prefix: Seq<char>, s: Seq<char>) -> bool {
    e.code == INVALID_PARAMS && e.message@ == prefix + ulid_error_text(s)
}

/// An invalid-parameter error with message `m`.
pub open spec fn refused(e: ErrorData, m: Seq<char>) -> bool {
    e.code == INVALID_PARAMS && e.message@ == m
}

fn parse_id_arg(s: &str, prefix: &str) -> (r: Result<u128, ErrorData>)
    ensures
        match ulid_decode(s@) {
            Some(v) => r == Ok::<u128, ErrorData>(v),
            None => r matches Err(e) && bad_id(e, prefix@, s@),
        },
{
    match ulid_from_string(s) {
        Ok(v) => Ok(v),
        Err(m) => Err(invalid_params(concat(prefix, m.as_str()))),
    }
}

// ---------------------------------------------------------------------------
// Reading a block
// ---------------------------------------------------------------------------

/// The block that `block_id` names. Refused: text that is no ULID
/// (`Invalid ULID: ...`), an identifier that no stored block has
/// (`Block not found: ...`).
pub fn get_block_tool(blocks: &BlockStore, block_id: &str) -> (r: Result<Block, ErrorData>)
    ensures
        match ulid_decode(block_id@) {
            None => r matches Err(e) && bad_id(e, "Invalid ULID: "@, block_id@),
            Some(v) => match first_block_with(blocks.blocks@, v) {
                None => r matches Err(e) && refused(e, "Block not found: "@ + ulid_encode(v)),
                Some(k) => r matches Ok(b) && same_block(b, blocks.blocks@[k]),
            },
        },
{
    let v = match parse_id_arg(block_id, "Invalid ULID: ") {
        Ok(v) => v,
        Err(e) => {
            return Err(e);
        },
    };
    match blocks.get(v) {
        Some(b) => Ok(b),
        None => {
            let id = encode_ulid(v);
            Err(invalid_params(concat("Block not found: ", id.as_str())))
        },
    }
}

/// A block as the block tool shows it: the content and the metadata only
/// when they were asked for.
#[derive(Debug)]
pub struct BlockView {
    pub id: u128,
    pub block_type: BlockType,
    pub title: String,
    pub content: Option<String>,
    pub tags: Vec<String>,
    pub metadata: Option<Vec<(String, Option<String>)>>,
    pub created_at: Option<Timestamp>,
    pub updated_at: Option<Timestamp>,
}

/// `v` shows block `b`, with its content and metadata exactly when `full`.
pub open spec fn shows(v: BlockView, b: Block, full: bool) -> bool {
    &&& v.id == b.id
    &&& v.block_type == b.block_type
    &&& v.title == b.title
    &&& v.tags@ == b.tags@
    &&& v.created_at == b.created_at
    &&& v.updated_at == b.updated_at
    &&& if full {
        v.content == Some(b.content) && (v.metadata matches Some(m) && m@ == b.metadata@)
    } else {
        v.content is None && v.metadata is None
    }
}

/// The block that `block_id` names, shown with its content and metadata
/// when `include_content` is `true` (not when it is absent). Refused as
/// [`get_block_tool`] refuses.
pub fn get_block_view(blocks: &BlockStore, block_id: &str, include_content: Option<bool>) -> (r: Result<BlockView, ErrorData>)
    ensures
        match ulid_decode(block_id@) {
            None => r matches Err(e) && bad_id(e, "Invalid ULID: "@, block_id@),
            Some(v) => match first_block_with(blocks.blocks@, v) {
                None => r matches Err(e) && refused(e, "Block not found: "@ + ulid_encode(v)),
                Some(k) => r matches Ok(view) && shows(view, blocks.blocks@[k], include_content == Some(true)),
            },
        },
{
    let b = match get_block_tool(blocks, block_id) {
        Ok(b) => b,
        Err(e) => {
            return Err(e);
        },
    };
    let full = match include_content {
        Some(f) => f,
        None => false,
    };
    if full {
        Ok(
            BlockView {
                id: b.id,
                block_type: b.block_type,
                title: b.title,
                content: Some(b.content),
                tags: b.tags,
                metadata: Some(b.metadata),
                created_at: b.created_at,
                updated_at: b.updated_at,
            },
        )
    } else {
        Ok(
            BlockView {
                id: b.id,
                block_type: b.block_type,
                title: b.title,
                content: None,
                tags: b.tags,
                metadata: None,
                created_at: b.created_at,
                updated_at: b.updated_at,
            },
        )
    }
}

// ---------------------------------------------------------------------------
// Searching
// ---------------------------------------------------------------------------

/// Where a search takes its blocks from: the store's full-text search for
/// a query, the blocks of one kind, or all blocks.
#[derive(Debug)]
pub enum SearchSource {
    Content(String),
    OfType(BlockType),
    All,
}

/// The source of a search: the query when one is given; else the kind
/// named (lowercase names only, in any case); else all blocks. Refused: an
/// unknown kind (`Unknown block type: ...`).
pub fn search_source(query: Option<&str>, block_type: Option<&str>) -> (r: Result<SearchSource, ErrorData>)
    ensures
        match query {
            Some(q) => r matches Ok(SearchSource::Content(c)) && c@ == q@,
            None => match block_type {
                Some(t) => match tool_block_type(lowercase(t@)) {
                    Some(k) => r matches Ok(SearchSource::OfType(x)) && x == k,
                    None => r matches Err(e) && refused(e, "Unknown block type: "@ + t@),
                },
                None => r matches Ok(SearchSource::All),
            },
        },
{
    match query {
        Some(q) => Ok(SearchSource::Content(owned(q))),
        None => match block_type {
            Some(t) => {
                let lower = to_lowercase(t);
                match tool_block_type_of(lower.as_str()) {
                    Some(k) => Ok(SearchSource::OfType(k)),
                    None => Err(invalid_params(concat("Unknown block type: ", t))),
                }
            },
            None => Ok(SearchSource::All),
        },
    }
}

/// The most blocks a search answers: the limit asked for, 20 when none, at
/// most 100 (a negative limit taken as an unsigned count, as a cast does).
pub open spec fn search_limit_of(limit: Option<i64>) -> usize {
    (match limit {
        Some(l) => if l < 100 {
            l
        } else {
            100
        },
        None => 20,
    }) as usize
}

/// The most blocks a search answers (see [`search_limit_of`]).
pub fn search_limit(limit: Option<i64>) -> (n: usize)
    ensures
        n == search_limit_of(limit),
{
    let l: i64 = match limit {
        Some(l) => if l < 100 {
            l
        } else {
            100
        },
        None => 20,
    };
    l as usize
}

/// A block as a search lists it: its content cut to 200 characters.
#[derive(Debug)]
pub struct BlockSummary {
    pub id: u128,
    pub block_type: BlockType,
    pub title: String,
    pub content: String,
    pub tags: Vec<String>,
    pub created_at: Option<Timestamp>,
}

/// `s` lists block `b`.
pub open spec fn summarizes(s: BlockSummary, b: Block) -> bool {
    &&& s.id == b.id
    &&& s.block_type == b.block_type
    &&& s.title@ == b.title@
    &&& s.content@ == (if b.content@.len() <= 200 {
        b.content@
    } else {
        b.content@.take(200)
    })
    &&& s.tags@ == b.tags@
    &&& s.created_at == b.created_at
}

/// The first `limit` blocks found, as a search lists them.
pub fn summarize_blocks(found: &Vec<Block>, limit: usize) -> (out: Vec<BlockSummary>)
    ensures
        out@.len() == (if found@.len() < limit {
            found@.len()
        } else {
            limit as nat
        }),
        forall|i: int| 0 <= i < out@.len() ==> summarizes(#[trigger] out@[i], found@[i]),
{
    let mut out: Vec<BlockSummary> = Vec::new();
    let mut i: usize = 0;
    while i < found.len() && i < limit
        invariant
            i <= found@.len(),
            i <= limit,
            out@.len() == i,
            forall|j: int| 0 <= j < i ==> summarizes(#[trigger] out@[j], found@[j]),
        decreases found@.len() - i,
    {
        let b = found[i].copy_block();
        let content = first_chars(b.content.as_str(), 200);
        proof {
            if b.content@.len() == 200 {
                assert(b.content@.take(200) =~= b.content@);
            }
        }
        let ghost before = out@;
        out.push(
            BlockSummary {
                id: b.id,
                block_type: b.block_type,
                title: b.title,
                content,
                tags: b.tags,
                created_at: b.created_at,
            },
        );
        assert(forall|j: int| 0 <= j < i ==> out@[j] == before[j]);
        i = i + 1;
    }
    out
}

// ---------------------------------------------------------------------------
// Links
// ---------------------------------------------------------------------------

/// Stores a link of the named kind from `source_id` to `target_id`, at the
/// first position and without context, and answers its identifier. The
/// blocks need not be stored. Refused, with nothing stored: an identifier
/// that is no ULID (`Invalid source ULID: ...`, then `Invalid target
/// ULID: ...`), an unknown kind (`Unknown link type: ...`).
pub fn create_link_tool(edges: &mut EdgeStore, source_id: &str, target_id: &str, link_type: &str) -> (r: Result<
    u128,
    ErrorData,
>)
    ensures
        match (ulid_decode(source_id@), ulid_decode(target_id@)) {
            (None, _) => r matches Err(e) && bad_id(e, "Invalid source ULID: "@, source_id@) && final(edges).edges@
                == old(edges).edges@,
            (Some(_), None) => r matches Err(e) && bad_id(e, "Invalid target ULID: "@, target_id@)
                && final(edges).edges@ == old(edges).edges@,
            (Some(a), Some(b)) => match link_type_of_name(lowercase(link_type@)) {
                None => r matches Err(e) && refused(e, "Unknown link type: "@ + link_type@) && final(edges).edges@
                    == old(edges).edges@,
                Some(t) => r matches Ok(id) && final(edges).edges@.len() == old(edges).edges@.len() + 1
                    && final(edges).edges@.drop_last() == old(edges).edges@ && {
                    let e = final(edges).edges@.last();
                    &&& e.id == id
                    &&& e.from == a
                    &&& e.to == b
                    &&& e.link_type == t
                    &&& e.sequence_weight.wf()
                    &&& e.sequence_weight.key() == seq![97u8]
                    &&& e.context is None
                },
            },
        },
{
    let a = match parse_id_arg(source_id, "Invalid source ULID: ") {
        Ok(v) => v,
        Err(e) => {
            return Err(e);
        },
    };
    let b = match parse_id_arg(target_id, "Invalid target ULID: ") {
        Ok(v) => v,
        Err(e) => {
            return Err(e);
        },
    };
    let t = match parse_link_type(link_type) {
        Ok(t) => t,
        Err(e) => {
            return Err(e);
        },
    };
    let e = Edge::new(a, b, t);
    let id = e.id;
    edges.create(e);
    assert(edges.edges@.drop_last() =~= old(edges).edges@);
    Ok(id)
}

/// Deletes the link from `source_id` to `target_id`: the first one, in
/// position order, among the links leaving the source; every stored link
/// with its identifier goes, and the identifier is answered. Refused, with
/// nothing changed: an identifier that is no ULID, a source or target that
/// is not stored, no link from the source to the target.
pub fn delete_link_tool(blocks: &BlockStore, edges: &mut EdgeStore, source_id: &str, target_id: &str) -> (r: Result<
    u128,
    ErrorData,
>)
    ensures
        match (ulid_decode(source_id@), ulid_decode(target_id@)) {
            (None, _) => r matches Err(e) && bad_id(e, "Invalid source ULID: "@, source_id@) && final(edges).edges@
                == old(edges).edges@,
            (Some(_), None) => r matches Err(e) && bad_id(e, "Invalid target ULID: "@, target_id@)
                && final(edges).edges@ == old(edges).edges@,
            (Some(a), Some(b)) => if !holds_block(blocks.blocks@, a) {
                r matches Err(e) && refused(e, "Source block not found: "@ + ulid_encode(a)) && final(edges).edges@
                    == old(edges).edges@
            } else if !holds_block(blocks.blocks@, b) {
                r matches Err(e) && refused(e, "Target block not found: "@ + ulid_encode(b)) && final(edges).edges@
                    == old(edges).edges@
            } else {
                match first_where(out_order(old(edges).edges@, a), link_to(b)) {
                    None => r matches Err(e) && refused(
                        e,
                        "No link found from "@ + ulid_encode(a) + " to "@ + ulid_encode(b),
                    ) && final(edges).edges@ == old(edges).edges@,
                    Some(k) => r matches Ok(id) && id == out_order(old(edges).edges@, a)[k].id && final(edges).edges@
                        == edges_except(old(edges).edges@, |e: Edge| e.id == id),
                }
            },
        },
{
    let a = match parse_id_arg(source_id, "Invalid source ULID: ") {
        Ok(v) => v,
        Err(e) => {
            return Err(e);
        },
    };
    let b = match parse_id_arg(target_id, "Invalid target ULID: ") {
        Ok(v) => v,
        Err(e) => {
            return Err(e);
        },
    };
    if !blocks.contains(a) {
        let id = encode_ulid(a);
        return Err(invalid_params(concat("Source block not found: ", id.as_str())));
    }
    if !blocks.contains(b) {
        let id = encode_ulid(b);
        return Err(invalid_params(concat("Target block not found: ", id.as_str())));
    }
    let out = edges.outgoing_from(a);
    proof {
        lemma_out_listing(out@, edges.edges@, a);
        lemma_same_listing(out@, out_order(edges.edges@, a));
        assert(first_where(out@, link_to(b)) == first_where(out_order(edges.edges@, a), link_to(b)));
    }
    match find_to(&out, b) {
        Some(k) => {
            let id = out[k].id;
            proof {
                assert(crate::block::same_edge(out@[k as int], out_order(edges.edges@, a)[k as int]));
            }
            edges.delete(id);
            Ok(id)
        },
        None => {
            let mut m = concat("No link found from ", encode_ulid(a).as_str());
            push_str(&mut m, " to ");
            let tb = encode_ulid(b);
            push_str(&mut m, tb.as_str());
            Err(invalid_params(m))
        },
    }
}

// ---------------------------------------------------------------------------
// Deleting a block
// ---------------------------------------------------------------------------

/// The refusal of a deletion that would leave `n` links pointing nowhere.
pub open spec fn incoming_refusal(id: u128, n: nat) -> Seq<char> {
    "Block "@ + ulid_encode(id) + " has "@ + decimal_digits(n) + " incoming link(s). Use force=true to delete anyway."@
}

/// Deletes the block that `block_id` names together with the links from or
/// to it, and answers its identifier. Unless `force` is set, a block that
/// links point to is kept and the deletion refused with their number.
/// Refused too, with nothing changed: text that is no ULID, a block that
/// is not stored.
pub fn delete_block_tool(blocks: &mut BlockStore, edges: &mut EdgeStore, block_id: &str, force: bool) -> (r: Result<
    u128,
    ErrorData,
>)
    ensures
        match ulid_decode(block_id@) {
            None => r matches Err(e) && bad_id(e, "Invalid ULID: "@, block_id@) && final(blocks).blocks@
                == old(blocks).blocks@ && final(edges).edges@ == old(edges).edges@,
            Some(v) => if !holds_block(old(blocks).blocks@, v) {
                r matches Err(e) && refused(e, "Block not found: "@ + ulid_encode(v)) && final(blocks).blocks@
                    == old(blocks).blocks@ && final(edges).edges@ == old(edges).edges@
            } else if !force && in_order(old(edges).edges@, v).len() > 0 {
                r matches Err(e) && refused(e, incoming_refusal(v, in_order(old(edges).edges@, v).len()))
                    && final(blocks).blocks@ == old(blocks).blocks@ && final(edges).edges@ == old(edges).edges@
            } else {
                r == Ok::<u128, ErrorData>(v) && final(edges).edges@ == edges_except(
                    old(edges).edges@,
                    |e: Edge| e.from == v || e.to == v,
                ) && final(blocks).blocks@ == blocks_without(old(blocks).blocks@, v)
            },
        },
{
    let v = match parse_id_arg(block_id, "Invalid ULID: ") {
        Ok(v) => v,
        Err(e) => {
            return Err(e);
        },
    };
    if !blocks.contains(v) {
        let id = encode_ulid(v);
        return Err(invalid_params(concat("Block not found: ", id.as_str())));
    }
    if !force {
        let incoming = edges.incoming_to(v);
        if incoming.len() > 0 {
            let mut m = concat("Block ", encode_ulid(v).as_str());
            push_str(&mut m, " has ");
            let n = decimal_string(incoming.len() as u128);
            push_str(&mut m, n.as_str());
            push_str(&mut m, " incoming link(s). Use force=true to delete anyway.");
            return Err(invalid_params(m));
        }
    }
    edges.delete_for_block(v);
    blocks.delete(v);
    Ok(v)
}

// ---------------------------------------------------------------------------
// Creating a block
// ---------------------------------------------------------------------------

/// The block kinds the tool server accepts, by their lowercase names.
pub open spec fn tool_block_type(n: Seq<char>) -> Option<BlockType> {
    if n == "fleeting"@ {
        Some(BlockType::Fleeting)
    } else if n == "literature"@ {
        Some(BlockType::Literature)
    } else if n == "permanent"@ {
        Some(BlockType::Permanent)
    } else if n == "structure"@ {
        Some(BlockType::Structure)
    } else if n == "hub"@ {
        Some(BlockType::Hub)
    } else if n == "task"@ {
        Some(BlockType::Task)
    } else if n == "reference"@ {
        Some(BlockType::Reference)
    } else if n == "outline"@ {
        Some(BlockType::Outline)
    } else if n == "ghost"@ {
        Some(BlockType::GhostNote)
    } else {
        None
    }
}

fn tool_block_type_of(n: &str) -> (r: Option<BlockType>)
    ensures
        r == tool_block_type(n@),
{
    if str_eq(n, "fleeting") {
        Some(BlockType::Fleeting)
    } else if str_eq(n, "literature") {
        Some(BlockType::Literature)
    } else if str_eq(n, "permanent") {
        Some(BlockType::Permanent)
    } else if str_eq(n, "structure") {
        Some(BlockType::Structure)
    } else if str_eq(n, "hub") {
        Some(BlockType::Hub)
    } else if str_eq(n, "task") {
        Some(BlockType::Task)
    } else if str_eq(n, "reference") {
        Some(BlockType::Reference)
    } else if str_eq(n, "outline") {
        Some(BlockType::Outline)
    } else if str_eq(n, "ghost") {
        Some(BlockType::GhostNote)
    } else {
        None
    }
}

/// Checking a list of tags: more than the allowed number is refused
/// outright, otherwise see [`tags_outcome`].
pub open spec fn tags_result(ts: Seq<Seq<char>>) -> Result<Seq<Seq<char>>, Seq<char>> {
    if ts.len() > MAX_TAGS_COUNT {
        Err(too_many_tags_message(ts.len()))
    } else {
        tags_outcome(ts)
    }
}

/// The text views of a list of strings.
pub open spec fn texts(v: Seq<String>) -> Seq<Seq<char>> {
    v.map_values(|t: String| t@)
}

/// `new` is `old` with one more block at the end: identifier `id`, kind
/// `t`, the sanitised title (`Untitled` when none is given), the sanitised
/// content (empty when none is given), the tags `tags`, no metadata.
pub open spec fn block_added(
    old: Seq<Block>,
    new: Seq<Block>,
    id: u128,
    t: BlockType,
    title: Option<Seq<char>>,
    content: Option<Seq<char>>,
    tags: Seq<Seq<char>>,
) -> bool {
    &&& new.len() == old.len() + 1
    &&& new.drop_last() == old
    &&& new.last().id == id
    &&& new.last().block_type == t
    &&& new.last().title@ == match title {
        Some(x) => sanitized_title(x),
        None => "Untitled"@,
    }
    &&& new.last().content@ == match content {
        Some(c) => sanitized(c),
        None => Seq::<char>::empty(),
    }
    &&& texts(new.last().tags@) == tags
    &&& new.last().metadata@.len() == 0
}

/// Creates a block of the kind named (lowercase names only, in any case),
/// with the sanitised title and content and the checked tags, and answers
/// its identifier. Refused, with nothing stored: an unknown kind
/// (`Unknown block type: ...`), tags that fail the checks.
pub fn create_block_tool(
    blocks: &mut BlockStore,
    block_type: &str,
    title: Option<&str>,
    content: Option<&str>,
    tags: Option<Vec<String>>,
) -> (r: Result<u128, ErrorData>)
    ensures
        match tool_block_type(lowercase(block_type@)) {
            None => r matches Err(e) && refused(e, "Unknown block type: "@ + block_type@) && final(blocks).blocks@
                == old(blocks).blocks@,
            Some(t) => match (match tags {
                Some(ts) => tags_result(texts(ts@)),
                None => Ok(Seq::<Seq<char>>::empty()),
            }) {
                Err(m) => r matches Err(e) && refused(e, m) && final(blocks).blocks@ == old(blocks).blocks@,
                Ok(kept) => r matches Ok(id) && block_added(
                    old(blocks).blocks@,
                    final(blocks).blocks@,
                    id,
                    t,
                    match title {
                        Some(x) => Some(x@),
                        None => None,
                    },
                    match content {
                        Some(c) => Some(c@),
                        None => None,
                    },
                    kept,
                ),
            },
        },
{
    let content_clean = match content {
        Some(c) => Some(sanitize_string(c)),
        None => None,
    };
    let title_clean = match title {
        Some(x) => sanitize_title(x),
        None => owned("Untitled"),
    };
    proof {
        reveal_strlit("Untitled");
    }
    let lower = to_lowercase(block_type);
    let t = match tool_block_type_of(lower.as_str()) {
        Some(t) => t,
        None => {
            return Err(invalid_params(concat("Unknown block type: ", block_type)));
        },
    };
    let mut block = Block::new(t, title_clean.as_str());
    match content_clean {
        Some(c) => {
            block.content = c;
        },
        None => {
            assert(block.content@ =~= Seq::<char>::empty());
        },
    }
    match tags {
        Some(ts) => {
            let ghost tv = texts(ts@);
            assert(ts@.map_values(|t: String| t@) == tv);
            match validate_tags(ts) {
                Ok(kept) => {
                    block.tags = kept;
                    assert(texts(block.tags@) == block.tags@.map_values(|t: String| t@));
                },
                Err(e) => {
                    return Err(e);
                },
            }
        },
        None => {
            assert(texts(block.tags@) =~= Seq::<Seq<char>>::empty());
        },
    }
    let id = block.id;
    blocks.create(block);
    assert(blocks.blocks@.drop_last() =~= old(blocks).blocks@);
    Ok(id)
}

// ---------------------------------------------------------------------------
// Updating a block
// ---------------------------------------------------------------------------

/// The metadata value a checked property leaves: its text for a text, and
/// a value that is not text otherwise.
pub open spec fn property_text(v: (int, Seq<char>, bool)) -> Option<Seq<char>> {
    if v.0 == 0 {
        Some(v.1)
    } else {
        None
    }
}

/// The value the last entry with key `k` leaves, if there is one.
pub open spec fn property_for(kept: Seq<(Seq<char>, (int, Seq<char>, bool))>, k: Seq<char>) -> Option<Option<Seq<char>>>
    decreases kept.len(),
{
    if kept.len() == 0 {
        None
    } else if kept.last().0 == k {
        Some(property_text(kept.last().1))
    } else {
        property_for(kept.drop_last(), k)
    }
}

/// `b` is `orig` with the content replaced when `content` is given
/// (sanitised), and with the checked properties `kept` stored in its
/// metadata, each replacing the value under its key.
pub open spec fn block_updated(
    b: Block,
    orig: Block,
    content: Option<Seq<char>>,
    kept: Seq<(Seq<char>, (int, Seq<char>, bool))>,
) -> bool {
    &&& b.id == orig.id
    &&& b.block_type == orig.block_type
    &&& b.title@ == orig.title@
    &&& b.tags@ == orig.tags@
    &&& b.content@ == match content {
        Some(c) => sanitized(c),
        None => orig.content@,
    }
    &&& forall|k: Seq<char>| #[trigger] meta_get(b.metadata@, k) == match property_for(kept, k) {
        Some(v) => Some(v),
        None => meta_get(orig.metadata@, k),
    }
}

/// The entries of a property list read as keys and values.
pub open spec fn property_entries(ps: Seq<(String, PropertyValue)>) -> Seq<(Seq<char>, PropertyValue)> {
    ps.map_values(|e: (String, PropertyValue)| (e.0@, e.1))
}

fn store_properties(b: &mut Block, props: &Vec<(String, PropertyValue)>)
    ensures
        final(b).id == old(b).id,
        final(b).block_type == old(b).block_type,
        final(b).title == old(b).title,
        final(b).tags == old(b).tags,
        final(b).content == old(b).content,
        forall|k: Seq<char>| #[trigger] meta_get(final(b).metadata@, k) == match property_for(entries_view(props@), k) {
            Some(v) => Some(v),
            None => meta_get(old(b).metadata@, k),
        },
{
    let mut i: usize = 0;
    while i < props.len()
        invariant
            i <= props@.len(),
            b.id == old(b).id,
            b.block_type == old(b).block_type,
            b.title == old(b).title,
            b.tags == old(b).tags,
            b.content == old(b).content,
            forall|k: Seq<char>| #[trigger] meta_get(b.metadata@, k) == match property_for(entries_view(props@.take(i as int)), k) {
                Some(v) => Some(v),
                None => meta_get(old(b).metadata@, k),
            },
        decreases props@.len() - i,
    {
        let ghost before = b.metadata@;
        let key = &props[i].0;
        let ghost ev = entries_view(props@.take(i + 1));
        assert(ev.drop_last() =~= entries_view(props@.take(i as int)));
        assert(ev.last() == (props@[i as int].0@, pv_view(props@[i as int].1)));
        match &props[i].1 {
            PropertyValue::Text(t) => {
                b.set_metadata(key.as_str(), Some(t.as_str()));
            },
            _ => {
                b.set_metadata(key.as_str(), None);
            },
        }
        i = i + 1;
    }
    assert(props@.take(props@.len() as int) =~= props@);
}

/// A copy of `orig` with the content replaced when given (sanitised) and
/// the checked properties `kept` stored in its metadata.
fn updated_copy(orig: &Block, content: Option<&str>, kept: &Vec<(String, PropertyValue)>) -> (b: Block)
    ensures
        block_updated(
            b,
            *orig,
            match content {
                Some(c) => Some(c@),
                None => None,
            },
            entries_view(kept@),
        ),
{
    let mut block = orig.copy_block();
    match content {
        Some(c) => {
            block.content = sanitize_string(c);
        },
        None => {},
    }
    store_properties(&mut block, kept);
    block
}

/// Updates the block that `block_id` names: its content, when given, is
/// replaced by the sanitised text, and the checked properties are stored in
/// its metadata; every stored block with that identifier becomes the
/// updated first one. Answers `Block ... updated successfully`. Refused,
/// with nothing changed: text that is no ULID, a block that is not stored,
/// a property key too long.
pub fn update_block_tool(
    blocks: &mut BlockStore,
    block_id: &str,
    content: Option<&str>,
    properties: Option<Vec<(String, PropertyValue)>>,
) -> (r: Result<String, ErrorData>)
    ensures
        match ulid_decode(block_id@) {
            None => r matches Err(e) && bad_id(e, "Invalid ULID: "@, block_id@) && final(blocks).blocks@
                == old(blocks).blocks@,
            Some(v) => match first_block_with(old(blocks).blocks@, v) {
                None => r matches Err(e) && refused(e, "Block not found: "@ + ulid_encode(v)) && final(blocks).blocks@
                    == old(blocks).blocks@,
                Some(k) => match (match properties {
                    Some(ps) => props_outcome(property_entries(ps@)),
                    None => Some(Seq::<(Seq<char>, (int, Seq<char>, bool))>::empty()),
                }) {
                    None => r matches Err(e) && refused(e, "Property key exceeds 100 characters"@)
                        && final(blocks).blocks@ == old(blocks).blocks@,
                    Some(kept) => r matches Ok(m) && m@ == "Block "@ + ulid_encode(v) + " updated successfully"@
                        && final(blocks).blocks@.len() == old(blocks).blocks@.len() && forall|j: int|
                        0 <= j < old(blocks).blocks@.len() ==> if old(blocks).blocks@[j].id == v {
                            block_updated(
                                #[trigger] final(blocks).blocks@[j],
                                old(blocks).blocks@[k],
                                match content {
                                    Some(c) => Some(c@),
                                    None => None,
                                },
                                kept,
                            )
                        } else {
                            final(blocks).blocks@[j] == old(blocks).blocks@[j]
                        },
                },
            },
        },
{
    let v = match parse_id_arg(block_id, "Invalid ULID: ") {
        Ok(v) => v,
        Err(e) => {
            return Err(e);
        },
    };
    let k = match blocks.position_of(v) {
        Some(k) => k,
        None => {
            let id = encode_ulid(v);
            return Err(invalid_params(concat("Block not found: ", id.as_str())));
        },
    };
    let kept: Vec<(String, PropertyValue)> = match properties {
        Some(ps) => {
            let ghost pe = property_entries(ps@);
            assert(ps@.map_values(|e: (String, PropertyValue)| (e.0@, e.1)) == pe);
            match validate_properties(ps) {
                Ok(kept) => kept,
                Err(e) => {
                    return Err(e);
                },
            }
        },
        None => {
            let none: Vec<(String, PropertyValue)> = Vec::new();
            assert(entries_view(none@) =~= Seq::<(Seq<char>, (int, Seq<char>, bool))>::empty());
            none
        },
    };
    let block = updated_copy(&blocks.blocks[k], content, &kept);
    let mut m = concat("Block ", encode_ulid(v).as_str());
    push_str(&mut m, " updated successfully");
    blocks.update(block);
    Ok(m)
}

// ---------------------------------------------------------------------------
// Listing links
// ---------------------------------------------------------------------------

/// The links of a block in a direction (`outgoing`, `incoming` or `both`):
/// those leaving it in position order, then those entering it newest first.
pub open spec fn links_of(es: Seq<Edge>, v: u128, direction: Seq<char>) -> Seq<Edge> {
    (if direction == "outgoing"@ || direction == "both"@ {
        out_order(es, v)
    } else {
        Seq::<Edge>::empty()
    }) + (if direction == "incoming"@ || direction == "both"@ {
        in_order(es, v)
    } else {
        Seq::<Edge>::empty()
    })
}

/// Whether one of the names in `names` is the kind `t` (by its canonical
/// name, in any case).
pub open spec fn kind_named(names: Seq<Seq<char>>, t: LinkType) -> bool {
    exists|i: int| 0 <= i < names.len() && link_type_of_name(lowercase(#[trigger] names[i])) == Some(t)
}

/// The links of `s` whose kind one of `names` names, in order.
pub open spec fn of_kinds(s: Seq<Edge>, names: Seq<Seq<char>>) -> Seq<Edge>
    decreases s.len(),
{
    if s.len() == 0 {
        Seq::<Edge>::empty()
    } else {
        of_kinds(s.drop_last(), names) + if kind_named(names, s.last().link_type) {
            seq![s.last()]
        } else {
            Seq::<Edge>::empty()
        }
    }
}

/// The links of the block that `block_id` names in the direction given
/// (`both` when none is), kept to the kinds named when names are given
/// (unknown names are ignored). Refused: text that is no ULID.
pub fn get_links_tool(
    edges: &EdgeStore,
    block_id: &str,
    link_types: Option<Vec<String>>,
    direction: Option<&str>,
) -> (r: Result<Vec<Edge>, ErrorData>)
    ensures
        match ulid_decode(block_id@) {
            None => r matches Err(e) && bad_id(e, "Invalid ULID: "@, block_id@),
            Some(v) => r matches Ok(out) && {
                let all = links_of(
                    edges.edges@,
                    v,
                    match direction {
                        Some(d) => d@,
                        None => "both"@,
                    },
                );
                same_edges(
                    out@,
                    match link_types {
                        Some(ns) => of_kinds(all, texts(ns@)),
                        None => all,
                    },
                )
            },
        },
{
    let v = match parse_id_arg(block_id, "Invalid ULID: ") {
        Ok(v) => v,
        Err(e) => {
            return Err(e);
        },
    };
    let dir = match direction {
        Some(d) => owned(d),
        None => owned("both"),
    };
    proof {
        reveal_strlit("both");
    }
    let both = str_eq(dir.as_str(), "both");
    let mut all: Vec<Edge> = Vec::new();
    let ghost es = edges.edges@;
    if both || str_eq(dir.as_str(), "outgoing") {
        let out = edges.outgoing_from(v);
        proof {
            lemma_out_listing(out@, es, v);
        }
        all = out;
    }
    let ghost first_part = all@;
    let ghost part1 = if dir@ == "outgoing"@ || dir@ == "both"@ {
        out_order(es, v)
    } else {
        Seq::<Edge>::empty()
    };
    assert(same_edges(first_part, part1));
    let ghost part2 = if dir@ == "incoming"@ || dir@ == "both"@ {
        in_order(es, v)
    } else {
        Seq::<Edge>::empty()
    };
    if both || str_eq(dir.as_str(), "incoming") {
        let inc = edges.incoming_to(v);
        let mut i: usize = 0;
        while i < inc.len()
            invariant
                i <= inc@.len(),
                all@.len() == first_part.len() + i,
                forall|q: int| 0 <= q < first_part.len() ==> #[trigger] all@[q] == first_part[q],
                forall|q: int| 0 <= q < i ==> same_edge(#[trigger] all@[first_part.len() + q], inc@[q]),
            decreases inc@.len() - i,
        {
            all.push(inc[i].copy_edge());
            i = i + 1;
        }
        assert(same_edges(inc@, part2));
        assert forall|q: int| 0 <= q < all@.len() implies same_edge(#[trigger] all@[q], (part1 + part2)[q]) by {
            if q < first_part.len() {
                assert(same_edge(first_part[q], part1[q]));
            } else {
                assert(same_edge(all@[first_part.len() + (q - first_part.len())], inc@[q - first_part.len()]));
            }
        }
    } else {
        assert(part2 =~= Seq::<Edge>::empty());
        assert(part1 + part2 =~= part1);
    }
    let ghost listed = links_of(es, v, dir@);
    assert(listed == part1 + part2);
    assert(same_edges(all@, listed));
    match link_types {
        None => Ok(all),
        Some(ns) => {
            let ghost names = texts(ns@);
            let mut out: Vec<Edge> = Vec::new();
            let mut i: usize = 0;
            while i < all.len()
                invariant
                    i <= all@.len(),
                    same_edges(all@, listed),
                    names == texts(ns@),
                    same_edges(out@, of_kinds(listed.take(i as int), names)),
                decreases all@.len() - i,
            {
                assert(listed.take(i + 1).drop_last() =~= listed.take(i as int));
                let wanted = names_kind(&ns, all[i].link_type);
                if wanted {
                    out.push(all[i].copy_edge());
                }
                i = i + 1;
            }
            assert(listed.take(listed.len() as int) =~= listed);
            Ok(out)
        },
    }
}

/// Whether one of `names` names the kind `t` (see [`kind_named`]).
fn names_kind(names: &Vec<String>, t: LinkType) -> (b: bool)
    ensures
        b == kind_named(texts(names@), t),
{
    let mut i: usize = 0;
    while i < names.len()
        invariant
            i <= names@.len(),
            forall|j: int| 0 <= j < i ==> link_type_of_name(lowercase(#[trigger] texts(names@)[j])) != Some(t),
        decreases names@.len() - i,
    {
        match parse_link_type(names[i].as_str()) {
            Ok(u) => {
                if u == t {
                    assert(link_type_of_name(lowercase(texts(names@)[i as int])) == Some(t));
                    return true;
                }
            },
            Err(_) => {},
        }
        i = i + 1;
    }
    false
}

// ---------------------------------------------------------------------------
// The sections of a block
// ---------------------------------------------------------------------------

/// A section of a block: the block a link leads to, and the link's position.
#[derive(Debug, Clone)]
pub struct SectionEntry {
    pub block: Block,
    pub sequence_weight: FractionalIndex,
}

/// The links of `s` that lead to a stored block, in order.
pub open spec fn to_stored(bs: Seq<Block>, s: Seq<Edge>) -> Seq<Edge>
    decreases s.len(),
{
    if s.len() == 0 {
        Seq::<Edge>::empty()
    } else {
        to_stored(bs, s.drop_last()) + if holds_block(bs, s.last().to) {
            seq![s.last()]
        } else {
            Seq::<Edge>::empty()
        }
    }
}

/// `r` lists, for each link of `s`, the first stored block it leads to and
/// the link's position.
pub open spec fn sections_match(r: Seq<SectionEntry>, bs: Seq<Block>, s: Seq<Edge>) -> bool {
    &&& r.len() == s.len()
    &&& forall|i: int|
        0 <= i < r.len() ==> (first_block_with(bs, s[i].to) matches Some(k) && same_block(
            (#[trigger] r[i]).block,
            bs[k],
        ) && r[i].sequence_weight.key() == s[i].sequence_weight.key() && r[i].sequence_weight.wf()
            == s[i].sequence_weight.wf())
}

/// The sections of the block that `root_id` names: the stored blocks that
/// the links leaving it lead to, in position order, with the positions.
/// Refused: text that is no ULID, a block that is not stored.
#[verifier::rlimit(40)]
pub fn get_section_map_tool(blocks: &BlockStore, edges: &EdgeStore, root_id: &str) -> (r: Result<
    Vec<SectionEntry>,
    ErrorData,
>)
    ensures
        match ulid_decode(root_id@) {
            None => r matches Err(e) && bad_id(e, "Invalid ULID: "@, root_id@),
            Some(v) => if !holds_block(blocks.blocks@, v) {
                r matches Err(e) && refused(e, "Block not found: "@ + ulid_encode(v))
            } else {
                r matches Ok(out) && sections_match(out@, blocks.blocks@, to_stored(blocks.blocks@, out_order(edges.edges@, v)))
            },
        },
{
    let v = match parse_id_arg(root_id, "Invalid ULID: ") {
        Ok(v) => v,
        Err(e) => {
            return Err(e);
        },
    };
    if !blocks.contains(v) {
        let id = encode_ulid(v);
        return Err(invalid_params(concat("Block not found: ", id.as_str())));
    }
    let children = edges.outgoing_from(v);
    let ghost bs = blocks.blocks@;
    let ghost o = out_order(edges.edges@, v);
    proof {
        lemma_out_listing(children@, edges.edges@, v);
    }
    let mut out: Vec<SectionEntry> = Vec::new();
    let mut i: usize = 0;
    while i < children.len()
        invariant
            i <= children@.len(),
            bs == blocks.blocks@,
            children@.len() == o.len(),
            forall|k: int| 0 <= k < children@.len() ==> same_edge(#[trigger] children@[k], o[k]),
            sections_match(out@, bs, to_stored(bs, o.take(i as int))),
        decreases children@.len() - i,
    {
        assert(o.take(i + 1).drop_last() =~= o.take(i as int));
        assert(same_edge(children@[i as int], o[i as int]));
        let ghost before = out@;
        match blocks.get(children[i].to) {
            Some(b) => {
                proof {
                    assert(holds_block(bs, o[i as int].to)) by {
                        let k = first_block_with(bs, o[i as int].to)->0;
                        assert(exists|q: int| 0 <= q < bs.len() && bs[q].id == o[i as int].to);
                    }
                }
                out.push(SectionEntry { block: b, sequence_weight: children[i].sequence_weight.copy_index() });
                proof {
                    let ts = to_stored(bs, o.take(i + 1));
                    assert(ts == to_stored(bs, o.take(i as int)).push(o[i as int]));
                    assert forall|q: int| 0 <= q < out@.len() implies (first_block_with(bs, ts[q].to) matches Some(k)
                        && same_block((#[trigger] out@[q]).block, bs[k]) && out@[q].sequence_weight.key()
                        == ts[q].sequence_weight.key() && out@[q].sequence_weight.wf() == ts[q].sequence_weight.wf()) by {
                        if q < before.len() {
                            assert(out@[q] == before[q]);
                        }
                    }
                }
            },
            None => {
                proof {
                    assert(!holds_block(bs, o[i as int].to));
                    assert(to_stored(bs, o.take(i + 1)) =~= to_stored(bs, o.take(i as int)));
                }
            },
        }
        i = i + 1;
    }
    assert(o.take(o.len() as int) =~= o);
    Ok(out)
}

// ---------------------------------------------------------------------------
// The table of contents of a structure
// ---------------------------------------------------------------------------

/// An entry of a table of contents: a block and its level below the
/// structure.
#[derive(Debug, Clone)]
pub struct TocItem {
    pub id: u128,
    pub title: String,
    pub level: usize,
}

/// An entry read as identifier, title and level.
pub open spec fn item_view(t: TocItem) -> (u128, Seq<char>, nat) {
    (t.id, t.title@, t.level as nat)
}

/// The entries so far and the blocks still to visit, with their levels.
pub type WalkState = (Seq<(u128, Seq<char>, nat)>, Seq<(u128, nat)>);

/// Visiting one link `e` of a block at level `d`: a link to a stored block
/// adds that block as an entry one level down and puts it on the blocks to
/// visit.
pub open spec fn visit_one(bs: Seq<Block>, e: Edge, d: nat, st: WalkState) -> WalkState {
    match first_block_with(bs, e.to) {
        Some(k) => (st.0.push((bs[k].id, bs[k].title@, d + 1)), st.1.push((bs[k].id, d + 1))),
        None => st,
    }
}

/// Visiting the links `cs` of a block at level `d`, the last link first
/// (see [`visit_one`]).
pub open spec fn walk_links(bs: Seq<Block>, cs: Seq<Edge>, d: nat, st: WalkState) -> WalkState
    decreases cs.len(),
{
    if cs.len() == 0 {
        st
    } else {
        walk_links(bs, cs.drop_last(), d, visit_one(bs, cs.last(), d, st))
    }
}

proof fn lemma_walk_links_take(bs: Seq<Block>, cs: Seq<Edge>, j: int, d: nat, st: WalkState)
    requires
        0 < j <= cs.len(),
    ensures
        walk_links(bs, cs.take(j), d, st) == walk_links(bs, cs.take(j - 1), d, visit_one(bs, cs[j - 1], d, st)),
{
    assert(cs.take(j).last() == cs[j - 1]);
    assert(cs.take(j).drop_last() =~= cs.take(j - 1));
}

/// One step of the walk: the last block to visit is taken off and its
/// links, in position order, are visited.
pub open spec fn walk_step(bs: Seq<Block>, es: Seq<Edge>, st: WalkState) -> WalkState {
    if st.1.len() == 0 {
        st
    } else {
        let top = st.1.last();
        walk_links(bs, out_order(es, top.0), top.1, (st.0, st.1.drop_last()))
    }
}

/// The walk from `root` after `n` steps.
pub open spec fn walk(bs: Seq<Block>, es: Seq<Edge>, root: u128, n: nat) -> WalkState
    decreases n,
{
    if n == 0 {
        (Seq::<(u128, Seq<char>, nat)>::empty(), seq![(root, 0nat)])
    } else {
        walk_step(bs, es, walk(bs, es, root, (n - 1) as nat))
    }
}

/// The walk from `root` has nothing left to visit after `n` steps, and `n`
/// is a number of steps a machine can count.
pub open spec fn walk_ends(bs: Seq<Block>, es: Seq<Edge>, root: u128, n: nat) -> bool {
    n <= usize::MAX && walk(bs, es, root, n).1.len() == 0
}

/// Once nothing is left to visit, the walk stays where it is.
proof fn lemma_walk_stays(bs: Seq<Block>, es: Seq<Edge>, root: u128, n: nat, m: nat)
    requires
        walk(bs, es, root, n).1.len() == 0,
        n <= m,
    ensures
        walk(bs, es, root, m) == walk(bs, es, root, n),
    decreases m - n,
{
    if m > n {
        lemma_walk_stays(bs, es, root, n, (m - 1) as nat);
    }
}

/// Levels grow by one per step at most.
proof fn lemma_walk_links_levels(bs: Seq<Block>, cs: Seq<Edge>, d: nat, st: WalkState, bound: nat)
    requires
        d < bound,
        forall|q: int| 0 <= q < st.1.len() ==> (#[trigger] st.1[q]).1 <= bound,
    ensures
        forall|q: int| 0 <= q < walk_links(bs, cs, d, st).1.len() ==> (#[trigger] walk_links(bs, cs, d, st).1[q]).1 <= bound,
    decreases cs.len(),
{
    if cs.len() > 0 {
        let next = visit_one(bs, cs.last(), d, st);
        assert forall|q: int| 0 <= q < next.1.len() implies (#[trigger] next.1[q]).1 <= bound by {
            if q < st.1.len() {
                assert(next.1[q] == st.1[q]);
            }
        }
        lemma_walk_links_levels(bs, cs.drop_last(), d, next, bound);
        assert(walk_links(bs, cs, d, st) == walk_links(bs, cs.drop_last(), d, next));
    }
}

/// Entries read as identifiers, titles and levels.
pub open spec fn toc_view(v: Seq<TocItem>) -> Seq<(u128, Seq<char>, nat)> {
    v.map_values(|t: TocItem| item_view(t))
}

/// Blocks to visit read as identifiers and levels.
pub open spec fn stack_view(v: Seq<(u128, usize)>) -> Seq<(u128, nat)> {
    v.map_values(|p: (u128, usize)| (p.0, p.1 as nat))
}

proof fn lemma_views_push(v: Seq<TocItem>, t: TocItem, w: Seq<(u128, usize)>, p: (u128, usize))
    ensures
        toc_view(v.push(t)) == toc_view(v).push(item_view(t)),
        stack_view(w.push(p)) == stack_view(w).push((p.0, p.1 as nat)),
{
    assert(toc_view(v.push(t)) =~= toc_view(v).push(item_view(t)));
    assert(stack_view(w.push(p)) =~= stack_view(w).push((p.0, p.1 as nat)));
}

/// Visits the links `children` of a block at level `depth` (see
/// [`walk_links`]).
fn visit_links(
    blocks: &BlockStore,
    children: &Vec<Edge>,
    Ghost(cs): Ghost<Seq<Edge>>,
    depth: usize,
    toc: &mut Vec<TocItem>,
    stack: &mut Vec<(u128, usize)>,
)
    requires
        children@.len() == cs.len(),
        forall|k: int| 0 <= k < children@.len() ==> same_edge(#[trigger] children@[k], cs[k]),
        depth < usize::MAX,
    ensures
        (toc_view(final(toc)@), stack_view(final(stack)@)) == walk_links(
            blocks.blocks@,
            cs,
            depth as nat,
            (toc_view(old(toc)@), stack_view(old(stack)@)),
        ),
{
    let ghost bs = blocks.blocks@;
    let ghost goal = walk_links(bs, cs, depth as nat, (toc_view(toc@), stack_view(stack@)));
    let mut j: usize = children.len();
    assert(cs.take(j as int) =~= cs);
    while j > 0
        invariant
            bs == blocks.blocks@,
            j <= children@.len(),
            children@.len() == cs.len(),
            forall|k: int| 0 <= k < children@.len() ==> same_edge(#[trigger] children@[k], cs[k]),
            depth < usize::MAX,
            walk_links(bs, cs.take(j as int), depth as nat, (toc_view(toc@), stack_view(stack@))) == goal,
        decreases j,
    {
        let ghost cur_toc = toc_view(toc@);
        let ghost cur_stack = stack_view(stack@);
        proof {
            lemma_walk_links_take(bs, cs, j as int, depth as nat, (cur_toc, cur_stack));
        }
        assert(same_edge(children@[j - 1], cs[j - 1]));
        match blocks.position_of(children[j - 1].to) {
            Some(k) => {
                let b = &blocks.blocks[k];
                let item = TocItem { id: b.id, title: b.title.clone(), level: depth + 1 };
                let pair = (b.id, depth + 1);
                proof {
                    lemma_views_push(toc@, item, stack@, pair);
                }
                toc.push(item);
                stack.push(pair);
            },
            None => {},
        }
        j = j - 1;
    }
    assert(cs.take(0) =~= Seq::<Edge>::empty());
}

/// The table of contents of the structure that `structure_id` names, as the
/// tool server walks it: from the structure, repeatedly the last block put
/// aside is taken and the stored blocks its links lead to (in position
/// order) are listed one level down, the last link first, and put aside
/// (see [`walk`]). The walk keeps no record of the blocks seen, so it ends
/// only when no cycle of links is reachable; the request is for such a
/// structure. Refused: text that is no ULID, a structure that is not
/// stored (`Structure not found: ...`).
pub fn get_toc_tool(blocks: &BlockStore, edges: &EdgeStore, structure_id: &str) -> (r: Result<Vec<TocItem>, ErrorData>)
    requires
        match ulid_decode(structure_id@) {
            Some(v) => holds_block(blocks.blocks@, v) ==> exists|n: nat| walk_ends(blocks.blocks@, edges.edges@, v, n),
            None => true,
        },
    ensures
        match ulid_decode(structure_id@) {
            None => r matches Err(e) && bad_id(e, "Invalid ULID: "@, structure_id@),
            Some(v) => if !holds_block(blocks.blocks@, v) {
                r matches Err(e) && refused(e, "Structure not found: "@ + ulid_encode(v))
            } else {
                r matches Ok(out) && forall|n: nat| #[trigger] walk_ends(blocks.blocks@, edges.edges@, v, n)
                    ==> toc_view(out@) == walk(blocks.blocks@, edges.edges@, v, n).0
            },
        },
{
    let v = match parse_id_arg(structure_id, "Invalid ULID: ") {
        Ok(v) => v,
        Err(e) => {
            return Err(e);
        },
    };
    if !blocks.contains(v) {
        let id = encode_ulid(v);
        return Err(invalid_params(concat("Structure not found: ", id.as_str())));
    }
    let ghost bs = blocks.blocks@;
    let ghost es = edges.edges@;
    let ghost n = choose|n: nat| walk_ends(bs, es, v, n);
    let mut toc: Vec<TocItem> = Vec::new();
    let mut stack: Vec<(u128, usize)> = Vec::new();
    stack.push((v, 0));
    let ghost mut i: nat = 0;
    assert(toc_view(toc@) =~= walk(bs, es, v, 0).0);
    assert(stack_view(stack@) =~= walk(bs, es, v, 0).1);
    while stack.len() > 0
        invariant
            bs == blocks.blocks@,
            es == edges.edges@,
            walk_ends(bs, es, v, n),
            i <= n,
            toc_view(toc@) == walk(bs, es, v, i).0,
            stack_view(stack@) == walk(bs, es, v, i).1,
            forall|q: int| 0 <= q < stack@.len() ==> (#[trigger] stack@[q]).1 <= i,
        decreases n - i,
    {
        proof {
            if i == n {
                assert(stack_view(stack@).len() == 0);
            }
        }
        let ghost st = walk(bs, es, v, i);
        let ghost before = stack@;
        let top = stack.pop().unwrap();
        let (cur, depth) = top;
        proof {
            assert(stack_view(before).last() == (cur, depth as nat));
            assert(stack_view(stack@) =~= stack_view(before).drop_last());
            assert(depth <= i);
            assert(i < n);
        }
        let children = edges.outgoing_from(cur);
        proof {
            lemma_out_listing(children@, es, cur);
        }
        visit_links(blocks, &children, Ghost(out_order(es, cur)), depth, &mut toc, &mut stack);
        proof {
            assert(walk(bs, es, v, i + 1) == walk_step(bs, es, st));
            assert forall|q: int| 0 <= q < st.1.drop_last().len() implies (#[trigger] st.1.drop_last()[q]).1 <= i + 1 by {
                assert(st.1.drop_last()[q] == stack_view(before)[q]);
            }
            lemma_walk_links_levels(bs, out_order(es, cur), depth as nat, (st.0, st.1.drop_last()), (i + 1) as nat);
            let w = walk_links(bs, out_order(es, cur), depth as nat, (st.0, st.1.drop_last()));
            assert(stack_view(stack@) == w.1);
            assert forall|q: int| 0 <= q < stack@.len() implies (#[trigger] stack@[q]).1 <= i + 1 by {
                assert(stack_view(stack@)[q] == w.1[q]);
            }
            i = i + 1;
        }
    }
    proof {
        assert forall|m: nat| #[trigger] walk_ends(bs, es, v, m) implies toc_view(toc@) == walk(bs, es, v, m).0 by {
            if m <= i {
                lemma_walk_stays(bs, es, v, m, i);
            } else {
                lemma_walk_stays(bs, es, v, i, m);
            }
        }
    }
    Ok(toc)
}

// ---------------------------------------------------------------------------
// Connections of a block
// ---------------------------------------------------------------------------

/// The connections of the block that `block_id` names: the numbers of links
/// leaving it and of links entering it (their sum is its gravity). Refused:
/// text that is no ULID, a block that is not stored.
pub fn gravity_check_tool(blocks: &BlockStore, edges: &EdgeStore, block_id: &str) -> (r: Result<(usize, usize), ErrorData>)
    ensures
        match ulid_decode(block_id@) {
            None => r matches Err(e) && bad_id(e, "Invalid ULID: "@, block_id@),
            Some(v) => if !holds_block(blocks.blocks@, v) {
                r matches Err(e) && refused(e, "Block not found: "@ + ulid_encode(v))
            } else {
                r matches Ok((o, i)) && o == out_order(edges.edges@, v).len() && i == in_order(edges.edges@, v).len()
            },
        },
{
    let v = match parse_id_arg(block_id, "Invalid ULID: ") {
        Ok(v) => v,
        Err(e) => {
            return Err(e);
        },
    };
    if !blocks.contains(v) {
        let id = encode_ulid(v);
        return Err(invalid_params(concat("Block not found: ", id.as_str())));
    }
    let outgoing = edges.outgoing_from(v);
    let incoming = edges.incoming_to(v);
    proof {
        lemma_out_listing(outgoing@, edges.edges@, v);
    }
    Ok((outgoing.len(), incoming.len()))
}

} // verus!
