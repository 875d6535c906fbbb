//! The checks the tool server applies to its inputs: link kinds, text
//! sanitisation, tags, properties, block kind hints, and request rates.

use vstd::prelude::*;
use crate::block::Block;
use crate::model::{BlockType, LinkType};
use crate::parse::{link_type_from_name, link_type_of_name};
use crate::size::{decimal_digits, decimal_string};
use crate::text::{
    byte_len, byte_length, char_is_alphanumeric, chars_of, contains_chars, contains_seq, is_alphanumeric, lowercase,
    owned, push_str, starts_with_chars, starts_with_seq, str_eq, string_from_chars, to_lowercase, trim_chars, trim_seq,
};

verus! {

/// An error answered to a tool call: a JSON-RPC code and a message.
#[derive(Debug, Clone)]
pub struct ErrorData {
    pub code: i32,
    pub message: String,
}

/// The code of an invalid parameter.
pub const INVALID_PARAMS: i32 = -32602;

/// The code of a refused request.
pub const RATE_LIMITED: i32 = -32001;

pub(crate) fn invalid_params(message: String) -> (e: ErrorData)
    ensures
        e.code == INVALID_PARAMS,
        e.message@ == message@,
{
    ErrorData { code: INVALID_PARAMS, message }
}

// ---------------------------------------------------------------------------
// Link kinds
// ---------------------------------------------------------------------------

/// Parses a link kind by its canonical name, ignoring case.
pub fn parse_link_type(s: &str) -> (r: Result<LinkType, ErrorData>)
    ensures
        match r {
            Ok(t) => link_type_of_name(lowercase(s@)) == Some(t),
            Err(e) => link_type_of_name(lowercase(s@)) is None && e.code == INVALID_PARAMS && e.message@ == "Unknown link type: "@ + s@,
        },
{
    let lower = to_lowercase(s);
    match link_type_from_name(lower.as_str()) {
        Some(t) => Ok(t),
        None => {
            let mut m = owned("Unknown link type: ");
            push_str(&mut m, s);
            Err(invalid_params(m))
        },
    }
}

// ---------------------------------------------------------------------------
// Text
// ---------------------------------------------------------------------------

/// The longest content kept, in characters.
pub const MAX_CONTENT_LENGTH: usize = 1_000_000;

/// The longest title kept, in characters.
pub const MAX_TITLE_LENGTH: usize = 500;

/// The longest tag accepted, in bytes.
pub const MAX_TAG_LENGTH: usize = 50;

/// The most tags accepted.
pub const MAX_TAGS_COUNT: usize = 20;

/// The longest property key accepted, in bytes.
pub const MAX_PROPERTY_KEY_LENGTH: usize = 100;

/// `s` without NUL characters.
pub open spec fn without_nul(s: Seq<char>) -> Seq<char> {
    s.filter(|c: char| c != '\0')
}

/// At most the first `n` characters of `s`.
pub open spec fn at_most(s: Seq<char>, n: nat) -> Seq<char> {
    if s.len() <= n {
        s
    } else {
        s.subrange(0, n as int)
    }
}

/// Sanitised content: no NUL characters, at most a million characters.
pub open spec fn sanitized(s: Seq<char>) -> Seq<char> {
    at_most(without_nul(s), MAX_CONTENT_LENGTH as nat)
}

/// A sanitised title: no NUL characters, trimmed, at most 500 characters.
pub open spec fn sanitized_title(s: Seq<char>) -> Seq<char> {
    at_most(trim_seq(without_nul(s)), MAX_TITLE_LENGTH as nat)
}

fn drop_nul(s: &[char]) -> (out: Vec<char>)
    ensures
        out@ == without_nul(s@),
{
    let mut out: Vec<char> = Vec::new();
    let mut i: usize = 0;
    while i < s.len()
        invariant
            i <= s@.len(),
            out@ == s@.subrange(0, i as int).filter(|c: char| c != '\0'),
        decreases s@.len() - i,
    {
        proof {
            reveal(Seq::filter);
            assert(s@.subrange(0, i + 1).drop_last() =~= s@.subrange(0, i as int));
        }
        if s[i] != '\0' {
            out.push(s[i]);
        }
        i = i + 1;
    }
    assert(s@.subrange(0, s@.len() as int) =~= s@);
    out
}

fn keep_first(s: &[char], n: usize) -> (out: String)
    ensures
        out@ == at_most(s@, n as nat),
{
    if s.len() <= n {
        string_from_chars(s)
    } else {
        let mut v: Vec<char> = Vec::new();
        let mut i: usize = 0;
        while i < n
            invariant
                i <= n,
                n < s@.len(),
                v@ == s@.subrange(0, i as int),
            decreases n - i,
        {
            v.push(s[i]);
            i = i + 1;
            assert(v@ =~= s@.subrange(0, i as int));
        }
        string_from_chars(&v)
    }
}

/// Removes NUL characters and keeps at most a million characters.
pub fn sanitize_string(input: &str) -> (out: String)
    ensures
        out@ == sanitized(input@),
{
    let cs = chars_of(input);
    let cleaned = drop_nul(&cs);
    keep_first(&cleaned, MAX_CONTENT_LENGTH)
}

/// Removes NUL characters, trims, and keeps at most 500 characters.
pub fn sanitize_title(input: &str) -> (out: String)
    ensures
        out@ == sanitized_title(input@),
{
    let cs = chars_of(input);
    let cleaned = drop_nul(&cs);
    let trimmed = trim_chars(&cleaned);
    keep_first(&trimmed, MAX_TITLE_LENGTH)
}

// ---------------------------------------------------------------------------
// Tags
// ---------------------------------------------------------------------------

/// A tag as kept: no NUL characters, trimmed, lowercased.
pub open spec fn clean_tag(t: Seq<char>) -> Seq<char> {
    lowercase(trim_seq(without_nul(t)))
}

/// Characters allowed in a tag.
pub open spec fn tag_char_ok(c: char) -> bool {
    is_alphanumeric(c) || c == '-' || c == '_'
}

/// The message for a tag that is too long.
pub open spec fn tag_too_long_message(c: Seq<char>) -> Seq<char> {
    "Tag '"@ + c + "' exceeds 50 characters"@
}

/// The message for a tag with a character that is not allowed.
pub open spec fn tag_invalid_message(c: Seq<char>) -> Seq<char> {
    "Tag '"@ + c + "' contains invalid characters. Use only a-z, 0-9, -, _"@
}

/// Checking tags in order: the kept tags, or the message for the first
/// cleaned tag that is too long (in bytes) or holds a character other than
/// a letter, a digit, `-` and `_`. Tags that clean to nothing are dropped.
pub open spec fn tags_outcome(ts: Seq<Seq<char>>) -> Result<Seq<Seq<char>>, Seq<char>>
    decreases ts.len(),
{
    if ts.len() == 0 {
        Ok(seq![])
    } else {
        match tags_outcome(ts.drop_last()) {
            Err(m) => Err(m),
            Ok(acc) => {
                let c = clean_tag(ts.last());
                if c.len() == 0 {
                    Ok(acc)
                } else if byte_len(c) > MAX_TAG_LENGTH {
                    Err(tag_too_long_message(c))
                } else if !(forall|i: int| 0 <= i < c.len() ==> tag_char_ok(#[trigger] c[i])) {
                    Err(tag_invalid_message(c))
                } else {
                    Ok(acc.push(c))
                }
            },
        }
    }
}

/// The message for too many tags.
pub open spec fn too_many_tags_message(n: nat) -> Seq<char> {
    "Maximum 20 tags allowed, got "@ + decimal_digits(n)
}

fn all_tag_chars(c: &[char]) -> (b: bool)
    ensures
        b == forall|i: int| 0 <= i < c@.len() ==> tag_char_ok(#[trigger] c@[i]),
{
    let mut i: usize = 0;
    while i < c.len()
        invariant
            i <= c@.len(),
            forall|j: int| 0 <= j < i ==> tag_char_ok(#[trigger] c@[j]),
        decreases c@.len() - i,
    {
        let ch = c[i];
        if !(char_is_alphanumeric(ch) || ch == '-' || ch == '_') {
            assert(!tag_char_ok(c@[i as int]));
            return false;
        }
        i = i + 1;
    }
    true
}

/// Checks and cleans tags (see [`tags_outcome`]); more than 20 tags are
/// refused outright.
pub fn validate_tags(tags: Vec<String>) -> (r: Result<Vec<String>, ErrorData>)
    ensures
        tags@.len() > MAX_TAGS_COUNT ==> (r matches Err(e) && e.code == INVALID_PARAMS && e.message@ == too_many_tags_message(tags@.len())),
        tags@.len() <= MAX_TAGS_COUNT ==> match tags_outcome(tags@.map_values(|t: String| t@)) {
            Ok(kept) => r matches Ok(v) && v@.map_values(|t: String| t@) == kept,
            Err(m) => r matches Err(e) && e.code == INVALID_PARAMS && e.message@ == m,
        },
{
    if tags.len() > MAX_TAGS_COUNT {
        let mut m = owned("Maximum 20 tags allowed, got ");
        let n = decimal_string(tags.len() as u128);
        push_str(&mut m, n.as_str());
        return Err(invalid_params(m));
    }
    let ghost ts = tags@.map_values(|t: String| t@);
    let mut kept: Vec<String> = Vec::new();
    let mut i: usize = 0;
    assert(ts.subrange(0, 0) =~= Seq::<Seq<char>>::empty());
    assert(kept@.map_values(|t: String| t@) =~= Seq::<Seq<char>>::empty());
    while i < tags.len()
        invariant
            i <= tags@.len(),
            tags@.len() <= MAX_TAGS_COUNT,
            ts == tags@.map_values(|t: String| t@),
            tags_outcome(ts.subrange(0, i as int)) == Ok::<Seq<Seq<char>>, Seq<char>>(kept@.map_values(|t: String| t@)),
        decreases tags@.len() - i,
    {
        assert(ts.subrange(0, i + 1).drop_last() =~= ts.subrange(0, i as int));
        assert(ts.subrange(0, i + 1).last() == tags@[i as int]@);
        let cs = chars_of(tags[i].as_str());
        let no_nul = drop_nul(&cs);
        let trimmed = trim_chars(&no_nul);
        let t = string_from_chars(&trimmed);
        let cleaned = to_lowercase(t.as_str());
        let cc = chars_of(cleaned.as_str());
        if cc.len() > 0 {
            if byte_length(cleaned.as_str()) > MAX_TAG_LENGTH {
                let mut m = owned("Tag '");
                push_str(&mut m, cleaned.as_str());
                push_str(&mut m, "' exceeds 50 characters");
                proof {
                    assert(tags_outcome(ts.subrange(0, i + 1)) == Err::<Seq<Seq<char>>, Seq<char>>(m@));
                    lemma_tags_outcome_err_stays(ts, i as int + 1, m@);
                    assert(ts.subrange(0, ts.len() as int) =~= ts);
                }
                return Err(invalid_params(m));
            }
            if !all_tag_chars(&cc) {
                let mut m = owned("Tag '");
                push_str(&mut m, cleaned.as_str());
                push_str(&mut m, "' contains invalid characters. Use only a-z, 0-9, -, _");
                proof {
                    assert(tags_outcome(ts.subrange(0, i + 1)) == Err::<Seq<Seq<char>>, Seq<char>>(m@));
                    lemma_tags_outcome_err_stays(ts, i as int + 1, m@);
                    assert(ts.subrange(0, ts.len() as int) =~= ts);
                }
                return Err(invalid_params(m));
            }
            let ghost before = kept@;
            kept.push(cleaned);
            assert(kept@.map_values(|t: String| t@) =~= before.map_values(|t: String| t@).push(cc@));
        }
        i = i + 1;
    }
    assert(ts.subrange(0, ts.len() as int) =~= ts);
    Ok(kept)
}

proof fn lemma_tags_outcome_err_stays(ts: Seq<Seq<char>>, n: int, m: Seq<char>)
    requires
        0 <= n <= ts.len(),
        tags_outcome(ts.subrange(0, n)) == Err::<Seq<Seq<char>>, Seq<char>>(m),
    ensures
        tags_outcome(ts.subrange(0, ts.len() as int)) == Err::<Seq<Seq<char>>, Seq<char>>(m),
    decreases ts.len() - n,
{
    if n < ts.len() {
        assert(ts.subrange(0, n + 1).drop_last() =~= ts.subrange(0, n));
        lemma_tags_outcome_err_stays(ts, n + 1, m);
    }
}

// ---------------------------------------------------------------------------
// Properties
// ---------------------------------------------------------------------------

/// A property value: text, a number as written, a truth value, null, or a
/// composite value (list or map) given by its JSON text.
#[derive(Debug, Clone)]
pub enum PropertyValue {
    Text(String),
    Number(String),
    Bool(bool),
    Null,
    Composite(String),
}

/// A property value read as a kind (0 text, 1 number, 2 truth value, 3 null,
/// 4 composite), its text and its truth value.
pub open spec fn pv_view(v: PropertyValue) -> (int, Seq<char>, bool) {
    match v {
        PropertyValue::Text(s) => (0, s@, false),
        PropertyValue::Number(s) => (1, s@, false),
        PropertyValue::Bool(b) => (2, seq![], b),
        PropertyValue::Null => (3, seq![], false),
        PropertyValue::Composite(s) => (4, s@, false),
    }
}

/// A value as kept: texts and composites become sanitised text; the others
/// stay.
pub open spec fn cleaned_value(v: PropertyValue) -> (int, Seq<char>, bool) {
    match v {
        PropertyValue::Text(s) => (0, sanitized(s@), false),
        PropertyValue::Composite(s) => (0, sanitized(s@), false),
        _ => pv_view(v),
    }
}

/// A key as kept: no NUL characters, trimmed.
pub open spec fn clean_key(k: Seq<char>) -> Seq<char> {
    trim_seq(without_nul(k))
}

/// Keys that are dropped.
pub open spec fn is_dangerous_key(k: Seq<char>) -> bool {
    k == "__proto__"@ || k == "constructor"@ || k == "prototype"@
}

/// Entries with key `k` set to `v`, replacing the entry already there.
pub open spec fn assoc_set(m: Seq<(Seq<char>, (int, Seq<char>, bool))>, k: Seq<char>, v: (int, Seq<char>, bool)) -> Seq<(Seq<char>, (int, Seq<char>, bool))>
    decreases m.len(),
{
    if m.len() == 0 {
        seq![(k, v)]
    } else if m[0].0 == k {
        m.update(0, (k, v))
    } else {
        seq![m[0]] + assoc_set(m.drop_first(), k, v)
    }
}

/// Checking properties in order: the kept entries, or failure at the first
/// key longer than 100 bytes once cleaned.
pub open spec fn props_outcome(ps: Seq<(Seq<char>, PropertyValue)>) -> Option<Seq<(Seq<char>, (int, Seq<char>, bool))>>
    decreases ps.len(),
{
    if ps.len() == 0 {
        Some(seq![])
    } else {
        match props_outcome(ps.drop_last()) {
            None => None,
            Some(acc) => {
                let k = clean_key(ps.last().0);
                if byte_len(k) > MAX_PROPERTY_KEY_LENGTH {
                    None
                } else if is_dangerous_key(k) {
                    Some(acc)
                } else {
                    Some(assoc_set(acc, k, cleaned_value(ps.last().1)))
                }
            },
        }
    }
}

/// Entries read as keys and value views.
pub open spec fn entries_view(v: Seq<(String, PropertyValue)>) -> Seq<(Seq<char>, (int, Seq<char>, bool))> {
    v.map_values(|e: (String, PropertyValue)| (e.0@, pv_view(e.1)))
}

fn clean_value(v: &PropertyValue) -> (r: PropertyValue)
    ensures
        pv_view(r) == cleaned_value(*v),
{
    match v {
        PropertyValue::Text(s) => PropertyValue::Text(sanitize_string(s.as_str())),
        PropertyValue::Composite(s) => PropertyValue::Text(sanitize_string(s.as_str())),
        PropertyValue::Number(s) => PropertyValue::Number(owned(s.as_str())),
        PropertyValue::Bool(b) => PropertyValue::Bool(*b),
        PropertyValue::Null => PropertyValue::Null,
    }
}

proof fn lemma_assoc_set_at(m: Seq<(String, PropertyValue)>, k: Seq<char>, e: (String, PropertyValue), j: int)
    requires
        0 <= j < m.len(),
        m[j].0@ == k,
        e.0@ == k,
        forall|q: int| 0 <= q < j ==> #[trigger] m[q].0@ != k,
    ensures
        entries_view(m.update(j, e)) == assoc_set(entries_view(m), k, pv_view(e.1)),
    decreases j,
{
    if j > 0 {
        assert forall|q: int| 0 <= q < j - 1 implies #[trigger] m.drop_first()[q].0@ != k by {
            assert(m.drop_first()[q] == m[q + 1]);
        }
        lemma_assoc_set_at(m.drop_first(), k, e, j - 1);
        assert(entries_view(m).drop_first() =~= entries_view(m.drop_first()));
        assert(m.update(j, e).drop_first() =~= m.drop_first().update(j - 1, e));
        assert(entries_view(m.update(j, e)) =~= seq![entries_view(m)[0]] + entries_view(m.drop_first().update(j - 1, e)));
    } else {
        assert(entries_view(m.update(0, e)) =~= entries_view(m).update(0, (k, pv_view(e.1))));
    }
}

proof fn lemma_assoc_set_new(m: Seq<(String, PropertyValue)>, k: Seq<char>, e: (String, PropertyValue))
    requires
        e.0@ == k,
        forall|q: int| 0 <= q < m.len() ==> #[trigger] m[q].0@ != k,
    ensures
        entries_view(m.push(e)) == assoc_set(entries_view(m), k, pv_view(e.1)),
    decreases m.len(),
{
    if m.len() > 0 {
        assert forall|q: int| 0 <= q < m.len() - 1 implies #[trigger] m.drop_first()[q].0@ != k by {
            assert(m.drop_first()[q] == m[q + 1]);
        }
        lemma_assoc_set_new(m.drop_first(), k, e);
        assert(entries_view(m).drop_first() =~= entries_view(m.drop_first()));
        assert(m.push(e).drop_first() =~= m.drop_first().push(e));
        assert(entries_view(m.push(e)) =~= seq![entries_view(m)[0]] + entries_view(m.drop_first().push(e)));
    } else {
        assert(entries_view(m.push(e)) =~= seq![(k, pv_view(e.1))]);
    }
}

fn find_entry(out: &Vec<(String, PropertyValue)>, k: &str) -> (r: Option<usize>)
    ensures
        match r {
            Some(j) => j < out@.len() && out@[j as int].0@ == k@ && forall|q: int| 0 <= q < j ==> #[trigger] out@[q].0@ != k@,
            None => forall|q: int| 0 <= q < out@.len() ==> #[trigger] out@[q].0@ != k@,
        },
{
    let mut j: usize = 0;
    while j < out.len()
        invariant
            j <= out@.len(),
            forall|q: int| 0 <= q < j ==> #[trigger] out@[q].0@ != k@,
        decreases out@.len() - j,
    {
        if str_eq(out[j].0.as_str(), k) {
            return Some(j);
        }
        j = j + 1;
    }
    None
}

/// Checks and cleans properties (see [`props_outcome`]).
pub fn validate_properties(props: Vec<(String, PropertyValue)>) -> (r: Result<Vec<(String, PropertyValue)>, ErrorData>)
    ensures
        match props_outcome(props@.map_values(|e: (String, PropertyValue)| (e.0@, e.1))) {
            Some(kept) => r matches Ok(v) && entries_view(v@) == kept,
            None => r matches Err(e) && e.code == INVALID_PARAMS && e.message@ == "Property key exceeds 100 characters"@,
        },
{
    let ghost ps = props@.map_values(|e: (String, PropertyValue)| (e.0@, e.1));
    let mut out: Vec<(String, PropertyValue)> = Vec::new();
    let mut i: usize = 0;
    assert(ps.subrange(0, 0) =~= Seq::<(Seq<char>, PropertyValue)>::empty());
    assert(entries_view(out@) =~= Seq::<(Seq<char>, (int, Seq<char>, bool))>::empty());
    while i < props.len()
        invariant
            i <= props@.len(),
            ps == props@.map_values(|e: (String, PropertyValue)| (e.0@, e.1)),
            props_outcome(ps.subrange(0, i as int)) == Some(entries_view(out@)),
        decreases props@.len() - i,
    {
        assert(ps.subrange(0, i + 1).drop_last() =~= ps.subrange(0, i as int));
        assert(ps.subrange(0, i + 1).last() == (props@[i as int].0@, props@[i as int].1));
        let cs = chars_of(props[i].0.as_str());
        let no_nul = drop_nul(&cs);
        let trimmed = trim_chars(&no_nul);
        let key = string_from_chars(&trimmed);
        if byte_length(key.as_str()) > MAX_PROPERTY_KEY_LENGTH {
            proof {
                lemma_props_none_stays(ps, i as int + 1);
                assert(ps.subrange(0, ps.len() as int) =~= ps);
            }
            return Err(invalid_params(owned("Property key exceeds 100 characters")));
        }
        let k = key.as_str();
        if !(str_eq(k, "__proto__") || str_eq(k, "constructor") || str_eq(k, "prototype")) {
            let v = clean_value(&props[i].1);
            let ghost before = out@;
            match find_entry(&out, k) {
                Some(j) => {
                    let e = (key, v);
                    proof {
                        lemma_assoc_set_at(before, trimmed@, e, j as int);
                    }
                    out.set(j, e);
                },
                None => {
                    let e = (key, v);
                    proof {
                        lemma_assoc_set_new(before, trimmed@, e);
                    }
                    out.push(e);
                },
            }
        }
        i = i + 1;
    }
    assert(ps.subrange(0, ps.len() as int) =~= ps);
    Ok(out)
}

proof fn lemma_props_none_stays(ps: Seq<(Seq<char>, PropertyValue)>, n: int)
    requires
        0 <= n <= ps.len(),
        props_outcome(ps.subrange(0, n)) is None,
    ensures
        props_outcome(ps.subrange(0, ps.len() as int)) is None,
    decreases ps.len() - n,
{
    if n < ps.len() {
        assert(ps.subrange(0, n + 1).drop_last() =~= ps.subrange(0, n));
        lemma_props_none_stays(ps, n + 1);
    }
}

// ---------------------------------------------------------------------------
// Block kind hints
// ---------------------------------------------------------------------------

/// A suggested block kind, with a confidence in hundredths and a reason.
#[derive(Debug, Clone, Copy, PartialEq, Eq, Structural)]
pub struct TypeSuggestion {
    pub suggested_type: BlockType,
    pub confidence_pct: u32,
    pub reason: TypeHintReason,
}

/// Why a kind is suggested.
#[derive(Debug, Clone, Copy, PartialEq, Eq, Structural)]
pub enum TypeHintReason {
    Question,
    ExternalReferences,
    ActionItem,
    EmptyStructure,
}

/// The explanation shown with a suggestion for the reason `r`.
pub open spec fn type_hint_text(r: TypeHintReason) -> Seq<char> {
    match r {
        TypeHintReason::Question => "Content appears to be a question, consider using literature type for source references"@,
        TypeHintReason::ExternalReferences => "Content appears to contain external references, consider literature type"@,
        TypeHintReason::ActionItem => "Content appears to be an action item, consider task type"@,
        TypeHintReason::EmptyStructure => "Empty content with structural purpose, consider structure type"@,
    }
}

impl TypeHintReason {
    /// The explanation shown with the suggestion (see [`type_hint_text`]).
    pub fn text(&self) -> (s: &'static str)
        ensures
            s@ == type_hint_text(*self),
    {
        match self {
            TypeHintReason::Question => "Content appears to be a question, consider using literature type for source references",
            TypeHintReason::ExternalReferences => "Content appears to contain external references, consider literature type",
            TypeHintReason::ActionItem => "Content appears to be an action item, consider task type",
            TypeHintReason::EmptyStructure => "Empty content with structural purpose, consider structure type",
        }
    }
}

/// The text asks something.
pub open spec fn looks_like_question(content_lower: Seq<char>, title_lower: Seq<char>) -> bool {
    contains_seq(content_lower, "?"@) || starts_with_seq(title_lower, "how"@) || starts_with_seq(title_lower, "what"@)
        || starts_with_seq(title_lower, "why"@)
}

/// The text points elsewhere.
pub open spec fn looks_like_reference(content_lower: Seq<char>) -> bool {
    contains_seq(content_lower, "http://"@) || contains_seq(content_lower, "https://"@) || starts_with_seq(content_lower, "# "@)
}

/// The text is something to do.
pub open spec fn looks_like_task(content_lower: Seq<char>, title_lower: Seq<char>) -> bool {
    starts_with_seq(title_lower, "todo"@) || starts_with_seq(title_lower, "- [ ]"@) || contains_seq(content_lower, "due date"@)
        || contains_seq(content_lower, "deadline"@)
}

/// The kind suggested for a block created with kind `requested`, if any.
pub open spec fn type_hint(b: Block, requested: BlockType) -> Option<TypeSuggestion> {
    let c = lowercase(b.content@);
    let t = lowercase(b.title@);
    if looks_like_question(c, t) && requested == BlockType::Permanent {
        Some(TypeSuggestion { suggested_type: BlockType::Literature, confidence_pct: 60, reason: TypeHintReason::Question })
    } else if looks_like_reference(c) && requested == BlockType::Permanent {
        Some(TypeSuggestion { suggested_type: BlockType::Literature, confidence_pct: 70, reason: TypeHintReason::ExternalReferences })
    } else if looks_like_task(c, t) && requested != BlockType::Task {
        Some(TypeSuggestion { suggested_type: BlockType::Task, confidence_pct: 80, reason: TypeHintReason::ActionItem })
    } else if b.content@.len() == 0 && (requested == BlockType::Structure || requested == BlockType::Hub
        || requested == BlockType::Outline) {
        Some(TypeSuggestion { suggested_type: BlockType::Structure, confidence_pct: 90, reason: TypeHintReason::EmptyStructure })
    } else {
        None
    }
}

/// Suggests another kind when a block's text does not fit the requested one
/// (see [`type_hint`]).
pub fn detect_type_mismatch(block: &Block, requested_type: &BlockType) -> (r: Option<TypeSuggestion>)
    ensures
        r == type_hint(*block, *requested_type),
{
    let cl = to_lowercase(block.content.as_str());
    let tl = to_lowercase(block.title.as_str());
    let c = chars_of(cl.as_str());
    let t = chars_of(tl.as_str());
    let is_question = contains_chars(&c, &chars_of("?")) || starts_with_chars(&t, &chars_of("how"))
        || starts_with_chars(&t, &chars_of("what")) || starts_with_chars(&t, &chars_of("why"));
    let is_reference = contains_chars(&c, &chars_of("http://")) || contains_chars(&c, &chars_of("https://"))
        || starts_with_chars(&c, &chars_of("# "));
    let is_task = starts_with_chars(&t, &chars_of("todo")) || starts_with_chars(&t, &chars_of("- [ ]"))
        || contains_chars(&c, &chars_of("due date")) || contains_chars(&c, &chars_of("deadline"));
    let requested = *requested_type;
    let is_structure = block.content.as_str().is_empty() && (requested == BlockType::Structure || requested
        == BlockType::Hub || requested == BlockType::Outline);
    if is_question && requested == BlockType::Permanent {
        return Some(TypeSuggestion { suggested_type: BlockType::Literature, confidence_pct: 60, reason: TypeHintReason::Question });
    }
    if is_reference && requested == BlockType::Permanent {
        return Some(TypeSuggestion { suggested_type: BlockType::Literature, confidence_pct: 70, reason: TypeHintReason::ExternalReferences });
    }
    if is_task && requested != BlockType::Task {
        return Some(TypeSuggestion { suggested_type: BlockType::Task, confidence_pct: 80, reason: TypeHintReason::ActionItem });
    }
    if is_structure {
        return Some(TypeSuggestion { suggested_type: BlockType::Structure, confidence_pct: 90, reason: TypeHintReason::EmptyStructure });
    }
    None
}

// ---------------------------------------------------------------------------
// Request rates
// ---------------------------------------------------------------------------

#[verifier::external_type_specification]
#[verifier::external_body]
pub struct ExInstant(std::time::Instant);

/// `Instant::now`: a point of a monotonic clock. Nothing is promised of it.
#[verifier::external_body]
fn clock_now() -> (t: std::time::Instant) {
    std::time::Instant::now()
}

/// `Instant::elapsed`, in nanoseconds: the time since `origin`. It depends on
/// the clock; nothing is promised of its value.
#[verifier::external_body]
fn nanos_since(origin: &std::time::Instant) -> (n: u128) {
    origin.elapsed().as_nanos()
}

/// Limits each agent to a number of requests per time window. Request times
/// are nanoseconds since the limiter was made.
pub struct RateLimiter {
    requests: Vec<(String, Vec<u128>)>,
    max_requests: usize,
    window_secs: u64,
    origin: std::time::Instant,
}

/// Request times by agent.
pub type RequestLog = Seq<(Seq<char>, Seq<u128>)>;

/// A request at `t` still counts at `now` when less than `window` has
/// passed (no time has passed when `t` is later than `now`).
pub open spec fn still_counts(t: u128, now: u128, window: nat) -> bool {
    if t <= now {
        now - t < window
    } else {
        0 < window
    }
}

/// The times that still count.
pub open spec fn recent(times: Seq<u128>, now: u128, window: nat) -> Seq<u128> {
    times.filter(|t: u128| still_counts(t, now, window))
}

/// Every agent's times, keeping those that still count.
pub open spec fn prune_log(log: RequestLog, now: u128, window: nat) -> RequestLog {
    log.map_values(|e: (Seq<char>, Seq<u128>)| (e.0, recent(e.1, now, window)))
}

/// The times recorded for `agent` (none when it has no entry).
pub open spec fn agent_times(log: RequestLog, agent: Seq<char>) -> Seq<u128>
    decreases log.len(),
{
    if log.len() == 0 {
        seq![]
    } else if log[0].0 == agent {
        log[0].1
    } else {
        agent_times(log.drop_first(), agent)
    }
}

/// The log with a request of `agent` at `now` added, a new entry at the end
/// for a new agent.
pub open spec fn record_request(log: RequestLog, agent: Seq<char>, now: u128) -> RequestLog
    decreases log.len(),
{
    if log.len() == 0 {
        seq![(agent, seq![now])]
    } else if log[0].0 == agent {
        log.update(0, (agent, log[0].1.push(now)))
    } else {
        seq![log[0]] + record_request(log.drop_first(), agent, now)
    }
}

/// The message of a refused request.
pub open spec fn rate_limit_message(max: usize, secs: u64) -> Seq<char> {
    "Rate limit exceeded: "@ + decimal_digits(max as nat) + " requests per "@ + decimal_digits(secs as nat) + " seconds"@
}

/// The window in nanoseconds.
pub open spec fn window_nanos(secs: u64) -> nat {
    (secs * 1_000_000_000) as nat
}

impl RateLimiter {
    /// The most requests an agent may have within the window.
    pub closed spec fn max(&self) -> usize {
        self.max_requests
    }

    /// The window, in seconds.
    pub closed spec fn window(&self) -> u64 {
        self.window_secs
    }

    /// The request times by agent.
    pub closed spec fn log(&self) -> RequestLog {
        self.requests@.map_values(|e: (String, Vec<u128>)| (e.0@, e.1@))
    }

    /// A limiter with no requests yet.
    pub fn new(max_requests: usize, window_secs: u64) -> (l: RateLimiter)
        ensures
            l.max() == max_requests,
            l.window() == window_secs,
            l.log().len() == 0,
    {
        let l = RateLimiter { requests: Vec::new(), max_requests, window_secs, origin: clock_now() };
        assert(l.log() =~= Seq::<(Seq<char>, Seq<u128>)>::empty());
        l
    }

    /// Checks a request of `agent_id` now.
    pub fn check(&mut self, agent_id: &str) -> (r: Result<(), ErrorData>)
        ensures
            exists|now: u128| #[trigger] checked_at(*old(self), *final(self), agent_id@, now, r),
    {
        let now = nanos_since(&self.origin);
        self.check_at(agent_id, now)
    }

    /// Checks a request of `agent_id` at time `now`: requests that no longer
    /// count are forgotten for every agent; the request is refused when the
    /// agent already has `max_requests` that count, and recorded otherwise.
    pub fn check_at(&mut self, agent_id: &str, now: u128) -> (r: Result<(), ErrorData>)
        ensures
            checked_at(*old(self), *final(self), agent_id@, now, r),
    {
        let window: u128 = (self.window_secs as u128) * 1_000_000_000u128;
        let ghost old_log = self.log();
        let ghost pruned = prune_log(old_log, now, window as nat);
        let n = self.requests.len();
        let mut i: usize = 0;
        while i < n
            invariant
                i <= n,
                n == self.requests@.len(),
                window as nat == window_nanos(self.window_secs),
                old_log.len() == n,
                pruned == prune_log(old_log, now, window as nat),
                forall|k: int| 0 <= k < i ==> #[trigger] self.log()[k] == pruned[k],
                forall|k: int| i <= k < n ==> #[trigger] self.log()[k] == old_log[k],
                self.max_requests == old(self).max_requests,
                self.window_secs == old(self).window_secs,
                old_log == old(self).log(),
            decreases n - i,
        {
            let ghost before_iter = self.requests@;
            let ghost lb = self.log();
            assert(lb[i as int] == old_log[i as int]);
            assert forall|k: int| 0 <= k < i implies #[trigger] lb[k] == pruned[k] by {
                assert(self.log()[k] == pruned[k]);
            }
            assert forall|k: int| i <= k < n implies #[trigger] lb[k] == old_log[k] by {
                assert(self.log()[k] == old_log[k]);
            }
            let mut entry = self.requests.remove(i);
            let ghost times = entry.1@;
            let mut kept: Vec<u128> = Vec::new();
            let mut j: usize = 0;
            while j < entry.1.len()
                invariant
                    j <= entry.1@.len(),
                    entry.1@ == times,
                    kept@ == times.subrange(0, j as int).filter(|t: u128| still_counts(t, now, window as nat)),
                decreases entry.1@.len() - j,
            {
                proof {
                    reveal(Seq::filter);
                    assert(times.subrange(0, j + 1).drop_last() =~= times.subrange(0, j as int));
                }
                let t = entry.1[j];
                let keep = if t <= now {
                    now - t < window
                } else {
                    0 < window
                };
                if keep {
                    kept.push(t);
                }
                j = j + 1;
            }
            assert(times.subrange(0, times.len() as int) =~= times);
            entry.1 = kept;
            self.requests.insert(i, entry);
            proof {
                assert(self.requests@ =~= before_iter.update(i as int, entry));
                assert(lb[i as int] == (before_iter[i as int].0@, before_iter[i as int].1@));
                assert(times == old_log[i as int].1);
                assert(self.log()[i as int] == (entry.0@, entry.1@));
                assert(pruned[i as int] == (old_log[i as int].0, recent(old_log[i as int].1, now, window as nat)));
                assert forall|k: int| 0 <= k < i + 1 implies #[trigger] self.log()[k] == pruned[k] by {
                    if k < i {
                        assert(self.requests@[k] == before_iter[k]);
                        assert(self.log()[k] == lb[k]);
                    }
                }
                assert forall|k: int| i + 1 <= k < n implies #[trigger] self.log()[k] == old_log[k] by {
                    assert(self.requests@[k] == before_iter[k]);
                    assert(self.log()[k] == lb[k]);
                }
            }
            i = i + 1;
        }
        assert(self.log() =~= pruned);
        let found = find_agent(&self.requests, agent_id);
        proof {
            lemma_agent_times(self.requests@, agent_id@, found);
        }
        let count = match found {
            Some(k) => self.requests[k].1.len(),
            None => 0,
        };
        if count >= self.max_requests {
            let mut m = owned("Rate limit exceeded: ");
            push_str(&mut m, decimal_string(self.max_requests as u128).as_str());
            push_str(&mut m, " requests per ");
            push_str(&mut m, decimal_string(self.window_secs as u128).as_str());
            push_str(&mut m, " seconds");
            return Err(ErrorData { code: RATE_LIMITED, message: m });
        }
        let ghost before = self.requests@;
        match found {
            Some(k) => {
                let mut entry = self.requests.remove(k);
                entry.1.push(now);
                self.requests.insert(k, entry);
                proof {
                    lemma_record_at(before, agent_id@, now, k as int, self.requests@);
                }
            },
            None => {
                let mut times: Vec<u128> = Vec::new();
                times.push(now);
                self.requests.push((owned(agent_id), times));
                proof {
                    lemma_record_new(before, agent_id@, now, self.requests@);
                }
            },
        }
        Ok(())
    }
}

/// `after` is `before` after a check of `agent` at `now` answered `r`.
pub open spec fn checked_at(before: RateLimiter, after: RateLimiter, agent: Seq<char>, now: u128, r: Result<(), ErrorData>) -> bool {
    let pruned = prune_log(before.log(), now, window_nanos(before.window()));
    let count = agent_times(pruned, agent).len();
    &&& after.max() == before.max()
    &&& after.window() == before.window()
    &&& count >= before.max() ==> (r matches Err(e) && e.code == RATE_LIMITED && e.message@ == rate_limit_message(
        before.max(),
        before.window(),
    ) && after.log() == pruned)
    &&& count < before.max() ==> (r is Ok && after.log() == record_request(pruned, agent, now))
}

/// How many requests of `agent` count at time `now`.
pub open spec fn counted(l: RateLimiter, agent: Seq<char>, now: u128) -> nat {
    agent_times(prune_log(l.log(), now, window_nanos(l.window())), agent).len()
}

proof fn lemma_filter_twice<A>(x: Seq<A>, p: spec_fn(A) -> bool)
    ensures
        x.filter(p).filter(p) == x.filter(p),
    decreases x.len(),
{
    if x.len() == 0 {
        assert(x.filter(p) =~= Seq::<A>::empty()) by {
            reveal(Seq::filter);
        }
        assert(x.filter(p).filter(p) =~= Seq::<A>::empty()) by {
            reveal(Seq::filter);
        }
    } else {
        let y = x.drop_last();
        let e = x.last();
        lemma_filter_twice(y, p);
        assert(x =~= y.push(e));
        y.lemma_filter_push(e, p);
        if p(e) {
            y.filter(p).lemma_filter_push(e, p);
        }
    }
}

proof fn lemma_times_pruned(log: RequestLog, now: u128, w: nat, x: Seq<char>)
    ensures
        agent_times(prune_log(log, now, w), x) == recent(agent_times(log, x), now, w),
    decreases log.len(),
{
    if log.len() == 0 {
        assert(recent(Seq::<u128>::empty(), now, w) =~= Seq::<u128>::empty()) by {
            reveal(Seq::filter);
        }
    } else {
        assert(prune_log(log, now, w).drop_first() =~= prune_log(log.drop_first(), now, w));
        lemma_times_pruned(log.drop_first(), now, w, x);
    }
}

proof fn lemma_times_recorded(log: RequestLog, a: Seq<char>, now: u128, x: Seq<char>)
    ensures
        agent_times(record_request(log, a, now), x) == if x == a {
            agent_times(log, a).push(now)
        } else {
            agent_times(log, x)
        },
    decreases log.len(),
{
    if log.len() == 0 {
        let r = seq![(a, seq![now])];
        if x != a {
            assert(agent_times(r, x) == agent_times(r.drop_first(), x));
        }
        assert(seq![now] =~= Seq::<u128>::empty().push(now));
    } else if log[0].0 == a {
        let r = log.update(0, (a, log[0].1.push(now)));
        assert(r.drop_first() =~= log.drop_first());
    } else {
        lemma_times_recorded(log.drop_first(), a, now, x);
        let r = seq![log[0]] + record_request(log.drop_first(), a, now);
        assert(r.drop_first() =~= record_request(log.drop_first(), a, now));
        assert(r[0] == log[0]);
    }
}

/// An accepted request counts against its agent and no other: afterwards,
/// at the same time, the agent has one more request that counts (the
/// window not being empty) and every other agent as many as before.
pub proof fn lemma_accepted_request_counts(
    before: RateLimiter,
    after: RateLimiter,
    a: Seq<char>,
    other: Seq<char>,
    now: u128,
    r: Result<(), ErrorData>,
)
    requires
        checked_at(before, after, a, now, r),
        r is Ok,
        window_nanos(before.window()) > 0,
    ensures
        counted(after, a, now) == counted(before, a, now) + 1,
        other != a ==> counted(after, other, now) == counted(before, other, now),
{
    let w = window_nanos(before.window());
    let pruned = prune_log(before.log(), now, w);
    let p = |t: u128| still_counts(t, now, w);
    assert(after.log() == record_request(pruned, a, now));
    lemma_times_pruned(after.log(), now, w, a);
    lemma_times_recorded(pruned, a, now, a);
    lemma_times_pruned(before.log(), now, w, a);
    lemma_filter_twice(agent_times(before.log(), a), p);
    agent_times(pruned, a).lemma_filter_push(now, p);
    assert(p(now));
    lemma_times_pruned(after.log(), now, w, other);
    lemma_times_recorded(pruned, a, now, other);
    lemma_times_pruned(before.log(), now, w, other);
    lemma_filter_twice(agent_times(before.log(), other), p);
}

/// A refused request is recorded for nobody: afterwards, at the same time,
/// every agent has as many requests that count as before.
pub proof fn lemma_refused_request_not_recorded(
    before: RateLimiter,
    after: RateLimiter,
    a: Seq<char>,
    other: Seq<char>,
    now: u128,
    r: Result<(), ErrorData>,
)
    requires
        checked_at(before, after, a, now, r),
        r is Err,
    ensures
        counted(after, other, now) == counted(before, other, now),
{
    let w = window_nanos(before.window());
    let pruned = prune_log(before.log(), now, w);
    let p = |t: u128| still_counts(t, now, w);
    assert(after.log() == pruned);
    lemma_times_pruned(after.log(), now, w, other);
    lemma_times_pruned(before.log(), now, w, other);
    lemma_filter_twice(agent_times(before.log(), other), p);
}

/// What a check does at the time it read, stated per agent: it is refused
/// exactly when the agent already has as many requests that count as the
/// limit allows; an accepted request counts against its agent only, and a
/// refused one against nobody.
pub open spec fn check_counts(before: RateLimiter, after: RateLimiter, a: Seq<char>, other: Seq<char>, now: u128, r: Result<(), ErrorData>) -> bool {
    &&& (r is Err <==> counted(before, a, now) >= before.max())
    &&& r is Ok ==> counted(after, a, now) == counted(before, a, now) + 1
    &&& r is Ok && other != a ==> counted(after, other, now) == counted(before, other, now)
    &&& r is Err ==> counted(after, other, now) == counted(before, other, now)
}

/// The window law at the check that reads the clock: whatever time it read,
/// at that time the request was refused exactly when the agent's requests
/// that count had reached the limit, an accepted request counts for its
/// agent only, and a refused one is recorded for nobody.
pub proof fn lemma_check_window(before: RateLimiter, after: RateLimiter, a: Seq<char>, other: Seq<char>, r: Result<(), ErrorData>)
    requires
        exists|now: u128| #[trigger] checked_at(before, after, a, now, r),
        window_nanos(before.window()) > 0,
    ensures
        exists|now: u128| #[trigger] check_counts(before, after, a, other, now, r),
{
    let now = choose|now: u128| #[trigger] checked_at(before, after, a, now, r);
    if r is Ok {
        lemma_accepted_request_counts(before, after, a, other, now, r);
    } else {
        lemma_refused_request_not_recorded(before, after, a, other, now, r);
    }
    assert(check_counts(before, after, a, other, now, r));
}

fn find_agent(reqs: &Vec<(String, Vec<u128>)>, agent: &str) -> (r: Option<usize>)
    ensures
        match r {
            Some(k) => k < reqs@.len() && reqs@[k as int].0@ == agent@ && forall|q: int| 0 <= q < k ==> #[trigger] reqs@[q].0@ != agent@,
            None => forall|q: int| 0 <= q < reqs@.len() ==> #[trigger] reqs@[q].0@ != agent@,
        },
{
    let mut k: usize = 0;
    while k < reqs.len()
        invariant
            k <= reqs@.len(),
            forall|q: int| 0 <= q < k ==> #[trigger] reqs@[q].0@ != agent@,
        decreases reqs@.len() - k,
    {
        if str_eq(reqs[k].0.as_str(), agent) {
            return Some(k);
        }
        k = k + 1;
    }
    None
}

proof fn lemma_agent_times(reqs: Seq<(String, Vec<u128>)>, agent: Seq<char>, found: Option<usize>)
    requires
        match found {
            Some(k) => k < reqs.len() && reqs[k as int].0@ == agent && forall|q: int| 0 <= q < k ==> #[trigger] reqs[q].0@ != agent,
            None => forall|q: int| 0 <= q < reqs.len() ==> #[trigger] reqs[q].0@ != agent,
        },
    ensures
        agent_times(reqs.map_values(|e: (String, Vec<u128>)| (e.0@, e.1@)), agent) == match found {
            Some(k) => reqs[k as int].1@,
            None => Seq::<u128>::empty(),
        },
    decreases reqs.len(),
{
    let v = reqs.map_values(|e: (String, Vec<u128>)| (e.0@, e.1@));
    if reqs.len() > 0 {
        assert(v.drop_first() =~= reqs.drop_first().map_values(|e: (String, Vec<u128>)| (e.0@, e.1@)));
        match found {
            Some(k) => {
                if k > 0 {
                    assert forall|q: int| 0 <= q < k - 1 implies #[trigger] reqs.drop_first()[q].0@ != agent by {
                        assert(reqs.drop_first()[q] == reqs[q + 1]);
                    }
                    lemma_agent_times(reqs.drop_first(), agent, Some((k - 1) as usize));
                }
            },
            None => {
                assert forall|q: int| 0 <= q < reqs.len() - 1 implies #[trigger] reqs.drop_first()[q].0@ != agent by {
                    assert(reqs.drop_first()[q] == reqs[q + 1]);
                }
                lemma_agent_times(reqs.drop_first(), agent, None);
            },
        }
    }
}

proof fn lemma_record_at(before: Seq<(String, Vec<u128>)>, agent: Seq<char>, now: u128, k: int, after: Seq<(String, Vec<u128>)>)
    requires
        0 <= k < before.len(),
        before[k].0@ == agent,
        forall|q: int| 0 <= q < k ==> #[trigger] before[q].0@ != agent,
        after.len() == before.len(),
        after[k].0 == before[k].0,
        after[k].1@ == before[k].1@.push(now),
        forall|q: int| 0 <= q < before.len() && q != k ==> #[trigger] after[q] == before[q],
    ensures
        after.map_values(|e: (String, Vec<u128>)| (e.0@, e.1@)) == record_request(
            before.map_values(|e: (String, Vec<u128>)| (e.0@, e.1@)),
            agent,
            now,
        ),
    decreases k,
{
    let bv = before.map_values(|e: (String, Vec<u128>)| (e.0@, e.1@));
    let av = after.map_values(|e: (String, Vec<u128>)| (e.0@, e.1@));
    if k == 0 {
        assert(av =~= bv.update(0, (agent, bv[0].1.push(now))));
    } else {
        assert forall|q: int| 0 <= q < k - 1 implies #[trigger] before.drop_first()[q].0@ != agent by {
            assert(before.drop_first()[q] == before[q + 1]);
        }
        assert forall|q: int| 0 <= q < before.drop_first().len() && q != k - 1 implies #[trigger] after.drop_first()[q] == before.drop_first()[q] by {
            assert(after[q + 1] == before[q + 1]);
        }
        lemma_record_at(before.drop_first(), agent, now, k - 1, after.drop_first());
        assert(bv.drop_first() =~= before.drop_first().map_values(|e: (String, Vec<u128>)| (e.0@, e.1@)));
        assert(av =~= seq![bv[0]] + after.drop_first().map_values(|e: (String, Vec<u128>)| (e.0@, e.1@)));
    }
}

proof fn lemma_record_new(before: Seq<(String, Vec<u128>)>, agent: Seq<char>, now: u128, after: Seq<(String, Vec<u128>)>)
    requires
        forall|q: int| 0 <= q < before.len() ==> #[trigger] before[q].0@ != agent,
        after.len() == before.len() + 1,
        forall|q: int| 0 <= q < before.len() ==> #[trigger] after[q] == before[q],
        after[before.len() as int].0@ == agent,
        after[before.len() as int].1@ == seq![now],
    ensures
        after.map_values(|e: (String, Vec<u128>)| (e.0@, e.1@)) == record_request(
            before.map_values(|e: (String, Vec<u128>)| (e.0@, e.1@)),
            agent,
            now,
        ),
    decreases before.len(),
{
    let bv = before.map_values(|e: (String, Vec<u128>)| (e.0@, e.1@));
    let av = after.map_values(|e: (String, Vec<u128>)| (e.0@, e.1@));
    if before.len() == 0 {
        assert(av =~= seq![(agent, seq![now])]);
    } else {
        assert forall|q: int| 0 <= q < before.len() - 1 implies #[trigger] before.drop_first()[q].0@ != agent by {
            assert(before.drop_first()[q] == before[q + 1]);
        }
        assert forall|q: int| 0 <= q < before.len() - 1 implies #[trigger] after.drop_first()[q] == before.drop_first()[q] by {
            assert(after[q + 1] == before[q + 1]);
        }
        lemma_record_new(before.drop_first(), agent, now, after.drop_first());
        assert(bv.drop_first() =~= before.drop_first().map_values(|e: (String, Vec<u128>)| (e.0@, e.1@)));
        assert(av =~= seq![bv[0]] + after.drop_first().map_values(|e: (String, Vec<u128>)| (e.0@, e.1@)));
    }
}

proof fn lemma_record_then_read(log: RequestLog, agent: Seq<char>, now: u128)
    ensures
        agent_times(record_request(log, agent, now), agent) == agent_times(log, agent).push(now),
    decreases log.len(),
{
    if log.len() == 0 {
        assert(agent_times(seq![(agent, seq![now])], agent) == seq![now]);
        assert(seq![now] =~= Seq::<u128>::empty().push(now));
    } else if log[0].0 != agent {
        lemma_record_then_read(log.drop_first(), agent, now);
        let r = seq![log[0]] + record_request(log.drop_first(), agent, now);
        assert(r.drop_first() =~= record_request(log.drop_first(), agent, now));
    }
}

/// A request is accepted only while fewer than the allowed number of the
/// agent's requests count; after it, the agent has at most that many.
pub proof fn lemma_accepted_requests_bounded(before: RateLimiter, after: RateLimiter, agent: Seq<char>, now: u128, r: Result<(), ErrorData>)
    requires
        checked_at(before, after, agent, now, r),
    ensures
        r is Ok ==> agent_times(after.log(), agent).len() <= after.max(),
        r is Ok <==> agent_times(prune_log(before.log(), now, window_nanos(before.window())), agent).len() < before.max(),
{
    let pruned = prune_log(before.log(), now, window_nanos(before.window()));
    lemma_record_then_read(pruned, agent, now);
}

} // verus!
