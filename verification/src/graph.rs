//! An in-memory graph store that answers a small Cypher-like query language:
//! block creation and lookup, relationship creation and listing.
//!
//! Property maps `key: "value", ...` in queries are read by a small state
//! machine (see [`props_of`]). A created block is filed under its `ulid`
//! property, and a lookup by that identifier gives its properties back;
//! relationships keep the properties given with them.

use vstd::prelude::*;
use crate::size::{decimal_digits, decimal_string};
use crate::text::{
    chars_of, contains_chars, contains_seq, find_chars, find_seq, owned, push_str, starts_with_chars,
    starts_with_seq, str_eq, string_from_chars, trim_chars, trim_seq, words_of, words_seq,
};

verus! {

/// What can go wrong with the store.
#[derive(Debug, Clone)]
pub enum KuzuError {
    ConnectionError(String),
    QueryError(String),
    NotFound(String),
    InvalidArgument(String),
}

/// The text of an error.
pub open spec fn kuzu_error_text(e: KuzuError) -> Seq<char> {
    match e {
        KuzuError::ConnectionError(m) => "Connection error: "@ + m@,
        KuzuError::QueryError(m) => "Query error: "@ + m@,
        KuzuError::NotFound(m) => "Not found: "@ + m@,
        KuzuError::InvalidArgument(m) => "Invalid argument: "@ + m@,
    }
}

impl KuzuError {
    /// The text of the error (see [`kuzu_error_text`]).
    pub fn message(&self) -> (s: String)
        ensures
            s@ == kuzu_error_text(*self),
    {
        let (prefix, m) = match self {
            KuzuError::ConnectionError(m) => ("Connection error: ", m),
            KuzuError::QueryError(m) => ("Query error: ", m),
            KuzuError::NotFound(m) => ("Not found: ", m),
            KuzuError::InvalidArgument(m) => ("Invalid argument: ", m),
        };
        let mut s = owned(prefix);
        push_str(&mut s, m.as_str());
        s
    }
}

/// A property value. (Floating-point values are not held here.)
#[derive(Debug, Clone)]
pub enum Value {
    String(String),
    Int64(i64),
    UInt64(u64),
    Bool(bool),
    Null,
    StringList(Vec<String>),
    Int64List(Vec<i64>),
}

impl Default for Value {
    fn default() -> (v: Value)
        ensures
            v is Null,
    {
        Value::Null
    }
}

/// The text of a value, when it is text.
pub open spec fn value_text(v: Value) -> Option<Seq<char>> {
    match v {
        Value::String(s) => Some(s@),
        _ => None,
    }
}

/// A row or property list, read as names and optional texts.
pub open spec fn row_view(r: Seq<(String, Value)>) -> Seq<(Seq<char>, Option<Seq<char>>)> {
    r.map_values(|e: (String, Value)| (e.0@, value_text(e.1)))
}

/// A node of the graph.
#[derive(Debug, Clone)]
pub struct Node {
    pub name: String,
    pub properties: Vec<(String, Value)>,
}

/// A typed link between two nodes, named by their identifiers.
#[derive(Debug, Clone)]
pub struct Relationship {
    pub rel_type: String,
    pub src: String,
    pub dst: String,
    pub properties: Vec<(String, Value)>,
}

// ---------------------------------------------------------------------------
// Property maps
// ---------------------------------------------------------------------------

/// A row or property list read as names and optional texts.
pub type Row = Seq<(Seq<char>, Option<Seq<char>>)>;

/// No two entries of `ps` have the same key.
pub open spec fn distinct_keys<V>(ps: Seq<(Seq<char>, V)>) -> bool {
    forall|k: int, l: int| #![trigger ps[k], ps[l]] 0 <= k < l < ps.len() ==> ps[k].0 != ps[l].0
}

/// Some entry of `ps` has key `k`.
pub open spec fn has_key<V>(ps: Seq<(Seq<char>, V)>, k: Seq<char>) -> bool {
    exists|j: int| 0 <= j < ps.len() && (#[trigger] ps[j]).0 == k
}

/// The position of an entry with key `k` (the only one, when the keys are
/// distinct).
pub open spec fn key_pos<V>(ps: Seq<(Seq<char>, V)>, k: Seq<char>) -> int {
    choose|j: int| 0 <= j < ps.len() && (#[trigger] ps[j]).0 == k
}

/// The value stored under `k`, if any.
pub open spec fn lookup<V>(ps: Seq<(Seq<char>, V)>, k: Seq<char>) -> Option<V> {
    if has_key(ps, k) {
        Some(ps[key_pos(ps, k)].1)
    } else {
        None
    }
}

/// `ps` with `v` stored under `k`: in place of the entry with that key, or
/// at the end when there is none.
pub open spec fn assoc<V>(ps: Seq<(Seq<char>, V)>, k: Seq<char>, v: V) -> Seq<(Seq<char>, V)> {
    if has_key(ps, k) {
        ps.update(key_pos(ps, k), (k, v))
    } else {
        ps.push((k, v))
    }
}

/// Storing keeps the keys distinct; reading a key back gives what was last
/// stored under it, and the other keys keep their values.
pub proof fn lemma_assoc_lookup<V>(ps: Seq<(Seq<char>, V)>, k: Seq<char>, v: V, other: Seq<char>)
    requires
        distinct_keys(ps),
    ensures
        distinct_keys(assoc(ps, k, v)),
        lookup(assoc(ps, k, v), k) == Some(v),
        other != k ==> lookup(assoc(ps, k, v), other) == lookup(ps, other),
{
    let qs = assoc(ps, k, v);
    if has_key(ps, k) {
        let j = key_pos(ps, k);
        assert(qs[j].0 == k);
        assert forall|a: int| 0 <= a < qs.len() implies (#[trigger] qs[a]).0 == ps[a].0 by {}
        assert(has_key(qs, k));
        let c = key_pos(qs, k);
        assert(c == j);
        if other != k {
            if has_key(ps, other) {
                let o = key_pos(ps, other);
                assert(qs[o].0 == other);
                assert(has_key(qs, other));
                assert(key_pos(qs, other) == o);
            } else {
                assert forall|a: int| 0 <= a < qs.len() implies (#[trigger] qs[a]).0 != other by {
                    if qs[a].0 == other {
                        assert(ps[a].0 == other);
                    }
                }
            }
        }
    } else {
        let n = ps.len() as int;
        assert(qs[n].0 == k);
        assert forall|a: int, b: int| #![trigger qs[a], qs[b]] 0 <= a < b < qs.len() implies qs[a].0 != qs[b].0 by {
            if b == n {
                assert(qs[a] == ps[a]);
            } else {
                assert(qs[a] == ps[a] && qs[b] == ps[b]);
            }
        }
        assert(has_key(qs, k));
        assert(key_pos(qs, k) == n);
        if other != k {
            if has_key(ps, other) {
                let o = key_pos(ps, other);
                assert(qs[o] == ps[o]);
                assert(has_key(qs, other));
                assert(key_pos(qs, other) == o);
            } else {
                assert forall|a: int| 0 <= a < qs.len() implies (#[trigger] qs[a]).0 != other by {
                    if a < n {
                        assert(qs[a] == ps[a]);
                    }
                }
            }
        }
    }
}

/// The state of the property reader: the pairs read, the key and the value
/// read so far, whether a value has begun, whether inside quotes.
pub type PropState = (Row, Seq<char>, Seq<char>, bool, bool);

/// The pairs read once the current pair ends: it is stored, key and value
/// trimmed, when its value has begun and its key is not blank.
pub open spec fn finish_pair(st: PropState) -> Row {
    let k = trim_seq(st.1);
    if st.3 && k.len() > 0 {
        assoc(st.0, k, Some(trim_seq(st.2)))
    } else {
        st.0
    }
}

/// The reader after one more character: a quote opens or closes a quoted
/// part and is dropped; outside quotes, `,` or `}` ends the pair and the
/// first `:` or `=` of a pair begins its value; any other character goes to
/// the value once it has begun, else to the key.
pub open spec fn prop_step(st: PropState, c: char) -> PropState {
    if c == '"' {
        (st.0, st.1, st.2, st.3, !st.4)
    } else if !st.4 && (c == ',' || c == '}') {
        (finish_pair(st), seq![], seq![], false, false)
    } else if !st.4 && !st.3 && (c == ':' || c == '=') {
        (st.0, st.1, st.2, true, false)
    } else if st.3 {
        (st.0, st.1, st.2.push(c), true, st.4)
    } else {
        (st.0, st.1.push(c), st.2, false, st.4)
    }
}

/// The reader after the characters `cs`, from the empty state.
pub open spec fn prop_run(cs: Seq<char>) -> PropState
    decreases cs.len(),
{
    if cs.len() == 0 {
        (seq![], seq![], seq![], false, false)
    } else {
        prop_step(prop_run(cs.drop_last()), cs.last())
    }
}

/// The property map `key: "value", ...` read from `s`, every value as text,
/// a repeated key keeping its place and its last value.
pub open spec fn props_of(s: Seq<char>) -> Row {
    finish_pair(prop_run(s))
}

proof fn lemma_prop_run_distinct(cs: Seq<char>)
    ensures
        distinct_keys(prop_run(cs).0),
    decreases cs.len(),
{
    if cs.len() > 0 {
        lemma_prop_run_distinct(cs.drop_last());
        let st = prop_run(cs.drop_last());
        lemma_assoc_lookup(st.0, trim_seq(st.1), Some(trim_seq(st.2)), seq![]);
    }
}

/// The position of the entry with key `k` in a property list.
fn find_text_key(ps: &Vec<(String, Value)>, k: &str) -> (r: Option<usize>)
    requires
        distinct_keys(row_view(ps@)),
    ensures
        match r {
            Some(j) => j < ps@.len() && has_key(row_view(ps@), k@) && key_pos(row_view(ps@), k@) == j,
            None => !has_key(row_view(ps@), k@),
        },
{
    let ghost rv = row_view(ps@);
    let mut j: usize = 0;
    while j < ps.len()
        invariant
            j <= ps@.len(),
            rv == row_view(ps@),
            distinct_keys(rv),
            forall|a: int| 0 <= a < j ==> (#[trigger] rv[a]).0 != k@,
        decreases ps@.len() - j,
    {
        if str_eq(ps[j].0.as_str(), k) {
            assert(rv[j as int].0 == k@);
            proof {
                assert(has_key(rv, k@));
                let c = key_pos(rv, k@);
                assert(rv[c].0 == k@);
                if c > j {
                    assert(rv[j as int].0 != rv[c].0);
                }
            }
            return Some(j);
        }
        j = j + 1;
    }
    None
}

/// Stores the text `v` under `k` in a property list.
fn put_text(out: &mut Vec<(String, Value)>, k: String, v: String)
    requires
        distinct_keys(row_view(old(out)@)),
    ensures
        row_view(final(out)@) == assoc(row_view(old(out)@), k@, Some(v@)),
        distinct_keys(row_view(final(out)@)),
{
    proof {
        lemma_assoc_lookup(row_view(out@), k@, Some(v@), seq![]);
    }
    let ghost before = out@;
    match find_text_key(out, k.as_str()) {
        Some(j) => {
            out.set(j, (k, Value::String(v)));
            assert(row_view(out@) =~= row_view(before).update(j as int, (k@, Some(v@))));
        },
        None => {
            out.push((k, Value::String(v)));
            assert(row_view(out@) =~= row_view(before).push((k@, Some(v@))));
        },
    }
}

/// Ends the pair being read (see [`finish_pair`]).
fn finish_into(out: &mut Vec<(String, Value)>, key: &str, val: &str, in_value: bool)
    requires
        distinct_keys(row_view(old(out)@)),
    ensures
        row_view(final(out)@) == finish_pair((row_view(old(out)@), key@, val@, in_value, false)),
        distinct_keys(row_view(final(out)@)),
{
    let k = trim_string(key);
    if in_value && !k.as_str().is_empty() {
        let v = trim_string(val);
        put_text(out, k, v);
    }
}

/// Reads a property map (see [`props_of`]); every value is text.
pub fn parse_properties(props: &str) -> (out: Vec<(String, Value)>)
    ensures
        row_view(out@) == props_of(props@),
        distinct_keys(row_view(out@)),
{
    let cs = chars_of(props);
    let mut out: Vec<(String, Value)> = Vec::new();
    let mut key = String::new();
    let mut val = String::new();
    let mut in_value = false;
    let mut in_string = false;
    let mut i: usize = 0;
    assert(row_view(out@) =~= Seq::<(Seq<char>, Option<Seq<char>>)>::empty());
    assert(cs@.take(0) =~= Seq::<char>::empty());
    while i < cs.len()
        invariant
            i <= cs@.len(),
            cs@ == props@,
            (row_view(out@), key@, val@, in_value, in_string) == prop_run(cs@.take(i as int)),
            distinct_keys(row_view(out@)),
        decreases cs@.len() - i,
    {
        assert(cs@.take(i + 1).drop_last() =~= cs@.take(i as int));
        let c = cs[i];
        if c == '"' {
            in_string = !in_string;
        } else if !in_string && (c == ',' || c == '}') {
            finish_into(&mut out, key.as_str(), val.as_str(), in_value);
            key = String::new();
            val = String::new();
            in_value = false;
        } else if !in_string && !in_value && (c == ':' || c == '=') {
            in_value = true;
        } else if in_value {
            push_str(&mut val, string_from_chars(&[c]).as_str());
        } else {
            push_str(&mut key, string_from_chars(&[c]).as_str());
        }
        i = i + 1;
    }
    assert(cs@.take(cs@.len() as int) =~= cs@);
    finish_into(&mut out, key.as_str(), val.as_str(), in_value);
    out
}

fn trim_string(s: &str) -> (out: String)
    ensures
        out@ == trim_seq(s@),
{
    let cs = chars_of(s);
    let t = trim_chars(&cs);
    string_from_chars(&t)
}

// ---------------------------------------------------------------------------
// Reading queries
// ---------------------------------------------------------------------------

/// The text between the first `ulid: "` and the next `"`.
pub open spec fn ulid_in_query(q: Seq<char>) -> Option<Seq<char>> {
    match find_seq(q, "ulid: \""@) {
        Some(p) => {
            let rest = q.subrange(p + 7, q.len() as int);
            match find_seq(rest, "\""@) {
                Some(e) => Some(rest.subrange(0, e)),
                None => None,
            }
        },
        None => None,
    }
}

/// The relationship type: the text between the first `-:` and the next
/// `]`, or `related`.
pub open spec fn rel_type_in_query(q: Seq<char>) -> Seq<char> {
    match find_seq(q, "-:"@) {
        Some(p) => {
            let rest = q.subrange(p + 2, q.len() as int);
            match find_seq(rest, "]"@) {
                Some(e) => rest.subrange(0, e),
                None => "related"@,
            }
        },
        None => "related"@,
    }
}

fn text_between(q: &[char], open: &str, skip: usize, close: &str) -> (r: Option<Vec<char>>)
    requires
        skip == open@.len(),
    ensures
        match r {
            Some(v) => match find_seq(q@, open@) {
                Some(p) => match find_seq(q@.subrange(p + skip, q@.len() as int), close@) {
                    Some(e) => v@ == q@.subrange(p + skip, q@.len() as int).subrange(0, e),
                    None => false,
                },
                None => false,
            },
            None => match find_seq(q@, open@) {
                Some(p) => find_seq(q@.subrange(p + skip, q@.len() as int), close@) is None,
                None => true,
            },
        },
{
    let o = chars_of(open);
    let c = chars_of(close);
    match find_chars(q, &o) {
        Some(p) => {
            proof {
                lemma_find_in_range(q@, o@, p as int);
            }
            let n = q.len();
            let rest = slice_chars(q, p + skip, n);
            match find_chars(&rest, &c) {
                Some(e) => {
                    proof {
                        lemma_find_in_range(rest@, c@, e as int);
                    }
                    Some(slice_chars(&rest, 0, e))
                },
                None => None,
            }
        },
        None => None,
    }
}

proof fn lemma_first_match_range(text: Seq<char>, pat: Seq<char>, from: int, i: int)
    requires
        first_match_is(text, pat, from, i),
    ensures
        0 <= i && i + pat.len() <= text.len(),
    decreases text.len() - from,
{
    if !(from < 0 || from + pat.len() > text.len()) && !crate::text::occurs_at(text, pat, from) && from < text.len() {
        lemma_first_match_range(text, pat, from + 1, i);
    }
}

spec fn first_match_is(text: Seq<char>, pat: Seq<char>, from: int, i: int) -> bool {
    crate::text::first_match(text, pat, from) == Some(i)
}

proof fn lemma_find_in_range(text: Seq<char>, pat: Seq<char>, i: int)
    requires
        find_seq(text, pat) == Some(i),
    ensures
        0 <= i && i + pat.len() <= text.len(),
{
    lemma_first_match_range(text, pat, 0, i);
}

/// The characters `q[a..b]`.
fn slice_chars(q: &[char], a: usize, b: usize) -> (out: Vec<char>)
    requires
        a <= b <= q@.len(),
    ensures
        out@ == q@.subrange(a as int, b as int),
{
    let mut out: Vec<char> = Vec::new();
    let mut i: usize = a;
    while i < b
        invariant
            a <= i <= b,
            b <= q@.len(),
            out@ == q@.subrange(a as int, i as int),
        decreases b - i,
    {
        out.push(q[i]);
        i = i + 1;
        assert(out@ =~= q@.subrange(a as int, i as int));
    }
    out
}

/// Reads the identifier in `ulid: "..."`.
pub fn extract_ulid_from_query(q: &[char]) -> (r: Option<Vec<char>>)
    ensures
        match r {
            Some(v) => ulid_in_query(q@) == Some(v@),
            None => ulid_in_query(q@) is None,
        },
{
    proof {
        reveal_strlit("ulid: \"");
    }
    text_between(q, "ulid: \"", 7, "\"")
}

/// Reads the relationship type in `-:...]`, or `related`.
pub fn extract_rel_type(q: &[char]) -> (r: String)
    ensures
        r@ == rel_type_in_query(q@),
{
    proof {
        reveal_strlit("-:");
    }
    match text_between(q, "-:", 2, "]") {
        Some(v) => string_from_chars(&v),
        None => owned("related"),
    }
}

/// Reads the identifier of a `t.ulid: "..."` pattern. The text is taken from
/// ten characters after the start of the nine-character pattern.
pub fn extract_target_rel_query(q: &[char]) -> (r: Option<(String, String)>)
    requires
        find_seq(q@, "t.ulid: \""@) matches Some(p) ==> p + 10 <= q@.len(),
    ensures
        match r {
            Some(v) => find_seq(q@, "t.ulid: \""@) matches Some(p) && (find_seq(q@.subrange(p + 10, q@.len() as int), "\""@) matches Some(e) && v.0@ == q@.subrange(p + 10, q@.len() as int).subrange(0, e)) && v.1@ == rel_type_in_query(q@),
            None => match find_seq(q@, "t.ulid: \""@) {
                Some(p) => find_seq(q@.subrange(p + 10, q@.len() as int), "\""@) is None,
                None => true,
            },
        },
{
    let o = chars_of("t.ulid: \"");
    let c = chars_of("\"");
    match find_chars(q, &o) {
        Some(p) => {
            let n = q.len();
            let rest = slice_chars(q, p + 10, n);
            match find_chars(&rest, &c) {
                Some(e) => {
                    proof {
                        lemma_find_in_range(rest@, c@, e as int);
                    }
                    let u = slice_chars(&rest, 0, e);
                    Some((string_from_chars(&u), extract_rel_type(q)))
                },
                None => None,
            }
        },
        None => None,
    }
}

/// Reads the identifier and relationship type of a source query.
pub fn extract_source_rel_query(q: &[char]) -> (r: Option<(String, String)>)
    ensures
        match r {
            Some(v) => ulid_in_query(q@) == Some(v.0@) && v.1@ == rel_type_in_query(q@),
            None => ulid_in_query(q@) is None,
        },
{
    match extract_ulid_from_query(q) {
        Some(u) => Some((string_from_chars(&u), extract_rel_type(q))),
        None => None,
    }
}

// ---------------------------------------------------------------------------
// Relationship creation patterns
// ---------------------------------------------------------------------------

/// `s` with every leading and trailing character of `set` removed
/// (`str::trim_matches`).
pub open spec fn strip_both(s: Seq<char>, set: Seq<char>) -> Seq<char> {
    strip_end(strip_start(s, set), set)
}

/// `s` without its leading characters from `set`.
pub open spec fn strip_start(s: Seq<char>, set: Seq<char>) -> Seq<char>
    decreases s.len(),
{
    if s.len() > 0 && set.contains(s[0]) {
        strip_start(s.drop_first(), set)
    } else {
        s
    }
}

/// `s` without its trailing characters from `set`.
pub open spec fn strip_end(s: Seq<char>, set: Seq<char>) -> Seq<char>
    decreases s.len(),
{
    if s.len() > 0 && set.contains(s.last()) {
        strip_end(s.drop_last(), set)
    } else {
        s
    }
}

fn in_set(set: &[char], c: char) -> (b: bool)
    ensures
        b == set@.contains(c),
{
    let mut i: usize = 0;
    while i < set.len()
        invariant
            i <= set@.len(),
            forall|j: int| 0 <= j < i ==> set@[j] != c,
        decreases set@.len() - i,
    {
        if set[i] == c {
            assert(set@[i as int] == c);
            return true;
        }
        i = i + 1;
    }
    false
}

proof fn lemma_strip_start_skip(s: Seq<char>, set: Seq<char>, i: int)
    requires
        0 <= i <= s.len(),
        forall|j: int| 0 <= j < i ==> set.contains(#[trigger] s[j]),
    ensures
        strip_start(s, set) == strip_start(s.subrange(i, s.len() as int), set),
    decreases i,
{
    if i > 0 {
        assert(set.contains(s[0]));
        assert(s.drop_first().subrange(i - 1, s.drop_first().len() as int) =~= s.subrange(i, s.len() as int));
        assert forall|j: int| 0 <= j < i - 1 implies set.contains(#[trigger] s.drop_first()[j]) by {
            assert(s.drop_first()[j] == s[j + 1]);
        }
        lemma_strip_start_skip(s.drop_first(), set, i - 1);
    } else {
        assert(s.subrange(0, s.len() as int) =~= s);
    }
}

proof fn lemma_strip_end_skip(s: Seq<char>, set: Seq<char>, e: int)
    requires
        0 <= e <= s.len(),
        forall|j: int| e <= j < s.len() ==> set.contains(#[trigger] s[j]),
    ensures
        strip_end(s, set) == strip_end(s.subrange(0, e), set),
    decreases s.len() - e,
{
    if e < s.len() {
        assert(s.drop_last().subrange(0, e) =~= s.subrange(0, e));
        lemma_strip_end_skip(s.drop_last(), set, e);
    } else {
        assert(s.subrange(0, e) =~= s);
    }
}

/// Removes leading and trailing characters of `set`.
pub fn strip_chars(s: &[char], set: &[char]) -> (out: Vec<char>)
    ensures
        out@ == strip_both(s@, set@),
{
    let n = s.len();
    let mut a: usize = 0;
    while a < n && in_set(set, s[a])
        invariant
            a <= n,
            n == s@.len(),
            forall|j: int| 0 <= j < a ==> set@.contains(#[trigger] s@[j]),
        decreases n - a,
    {
        a = a + 1;
    }
    proof {
        lemma_strip_start_skip(s@, set@, a as int);
    }
    let rest = slice_chars(s, a, n);
    assert(strip_start(rest@, set@) == rest@) by {
        if rest@.len() > 0 {
            assert(rest@[0] == s@[a as int]);
        }
    }
    let mut e: usize = rest.len();
    while e > 0 && in_set(set, rest[e - 1])
        invariant
            e <= rest@.len(),
            forall|j: int| e <= j < rest@.len() ==> set@.contains(#[trigger] rest@[j]),
        decreases e,
    {
        e = e - 1;
    }
    proof {
        lemma_strip_end_skip(rest@, set@, e as int);
        let t = rest@.subrange(0, e as int);
        if t.len() > 0 {
            assert(t.last() == rest@[e - 1]);
        }
    }
    slice_chars(&rest, 0, e)
}

/// The word `off` places after the last occurrence of the word `marker`
/// among the first `n` words, when there is one.
pub open spec fn marked_value(parts: Seq<Seq<char>>, marker: Seq<char>, off: int, n: int) -> Option<Seq<char>>
    decreases n,
{
    if n <= 0 {
        None
    } else if parts[n - 1] == marker && n - 1 + off < parts.len() {
        Some(parts[n - 1 + off])
    } else {
        marked_value(parts, marker, off, n - 1)
    }
}

/// The source and target of a relationship pattern: the words two places
/// after the last `s.ulid` and `t.ulid`, without quotes.
pub open spec fn pattern_endpoints(t: Seq<char>) -> (Option<Seq<char>>, Option<Seq<char>>) {
    let parts = words_seq(t);
    let n = parts.len() as int;
    (
        match marked_value(parts, "s.ulid"@, 2, n) {
            Some(v) => Some(strip_both(v, "\""@)),
            None => None,
        },
        match marked_value(parts, "t.ulid"@, 2, n) {
            Some(v) => Some(strip_both(v, "\""@)),
            None => None,
        },
    )
}

/// The relationship type of a creation pattern: the word after the last
/// `-[r:`, without `]`, `-` and `>`; `related` when there is none.
pub open spec fn pattern_rel_type(t: Seq<char>) -> Seq<char> {
    let parts = words_seq(t);
    match marked_value(parts, "-[r:"@, 1, parts.len() as int) {
        Some(v) => strip_both(v, "]->"@),
        None => "related"@,
    }
}

fn find_marked(parts: &Vec<Vec<char>>, marker: &str, off: usize, Ghost(ps): Ghost<Seq<Seq<char>>>) -> (r: Option<Vec<char>>)
    requires
        parts@.len() == ps.len(),
        forall|j: int| 0 <= j < ps.len() ==> #[trigger] parts@[j]@ == ps[j],
        off <= 2,
    ensures
        match r {
            Some(v) => marked_value(ps, marker@, off as int, ps.len() as int) == Some(v@),
            None => marked_value(ps, marker@, off as int, ps.len() as int) is None,
        },
{
    let m = chars_of(marker);
    let n = parts.len();
    let mut i: usize = n;
    while i > 0
        invariant
            i <= n,
            n == ps.len(),
            parts@.len() == ps.len(),
            forall|j: int| 0 <= j < ps.len() ==> #[trigger] parts@[j]@ == ps[j],
            m@ == marker@,
            off <= 2,
            marked_value(ps, marker@, off as int, n as int) == marked_value(ps, marker@, off as int, i as int),
        decreases i,
    {
        let hit = crate::text::chars_eq(parts[i - 1].as_slice(), &m);
        if hit && off < n - (i - 1) {
            let v = slice_chars(parts[i - 1 + off].as_slice(), 0, parts[i - 1 + off].len());
            assert(parts@[i - 1 + off]@.subrange(0, parts@[i - 1 + off]@.len() as int) =~= parts@[i - 1 + off]@);
            return Some(v);
        }
        i = i - 1;
    }
    None
}

// ---------------------------------------------------------------------------
// The store
// ---------------------------------------------------------------------------

/// A relationship read as source, target and properties.
pub type Link = (Seq<char>, Seq<char>, Row);

/// Relationships grouped by type.
pub type LinkGroups = Seq<(Seq<char>, Seq<Link>)>;

/// Blocks by identifier, each read as its properties.
pub type NodeTable = Seq<(Seq<char>, Row)>;

/// A graph store: nodes by identifier, relationships by type.
pub struct Database {
    path: String,
    nodes: Vec<(String, Node)>,
    rels: Vec<(String, Vec<Relationship>)>,
}

/// The links of one relationship group.
pub open spec fn group_links(g: Seq<Relationship>) -> Seq<Link> {
    g.map_values(|r: Relationship| (r.src@, r.dst@, row_view(r.properties@)))
}

/// The links of type `ty` (none when there is no such group).
pub open spec fn group_of(groups: LinkGroups, ty: Seq<char>) -> Seq<Link>
    decreases groups.len(),
{
    if groups.len() == 0 {
        seq![]
    } else if groups[0].0 == ty {
        groups[0].1
    } else {
        group_of(groups.drop_first(), ty)
    }
}

/// The groups with link `l` added to the group of type `ty`, a new group at
/// the end when there is none.
pub open spec fn add_link(groups: LinkGroups, ty: Seq<char>, l: Link) -> LinkGroups
    decreases groups.len(),
{
    if groups.len() == 0 {
        seq![(ty, seq![l])]
    } else if groups[0].0 == ty {
        groups.update(0, (ty, groups[0].1.push(l)))
    } else {
        seq![groups[0]] + add_link(groups.drop_first(), ty, l)
    }
}

impl Database {
    /// The store is well formed: each block identifier once; relationships
    /// filed under their own type, each type once.
    pub closed spec fn wf(&self) -> bool {
        &&& distinct_keys(self.node_table())
        &&& forall|k: int, l: int| 0 <= k < l < self.rels@.len() ==> self.rels@[k].0@ != self.rels@[l].0@
        &&& forall|k: int, j: int| 0 <= k < self.rels@.len() && 0 <= j < self.rels@[k].1@.len() ==> (
            #[trigger] self.rels@[k].1@[j]).rel_type@ == self.rels@[k].0@
    }

    /// The blocks, by identifier, in the order they were first stored.
    pub closed spec fn node_table(&self) -> NodeTable {
        self.nodes@.map_values(|n: (String, Node)| (n.0@, row_view(n.1.properties@)))
    }

    /// The relationships, by type.
    pub closed spec fn groups(&self) -> LinkGroups {
        self.rels@.map_values(|g: (String, Vec<Relationship>)| (g.0@, group_links(g.1@)))
    }

    /// The path the store was opened with.
    pub closed spec fn path_view(&self) -> Seq<char> {
        self.path@
    }

    /// In a well-formed store each block identifier occurs once.
    pub proof fn lemma_wf_keys(&self)
        requires
            self.wf(),
        ensures
            distinct_keys(self.node_table()),
    {
    }

    /// An empty store.
    pub fn new(path: &str) -> (r: Result<Database, KuzuError>)
        ensures
            r matches Ok(db) && db.wf() && db.node_table().len() == 0 && db.groups().len() == 0 && db.path_view() == path@,
    {
        let db = Database { path: owned(path), nodes: Vec::new(), rels: Vec::new() };
        assert(db.groups() =~= Seq::<(Seq<char>, Seq<Link>)>::empty());
        assert(db.node_table() =~= Seq::<(Seq<char>, Row)>::empty());
        Ok(db)
    }

    /// A connection to the store; the connection holds the store.
    pub fn connection(self) -> (r: Result<Connection, KuzuError>)
        ensures
            r matches Ok(c) && c.db == self,
    {
        Ok(Connection { db: self })
    }
}

/// A connection, through which queries read and change the store.
pub struct Connection {
    pub db: Database,
}

/// The result of a query: column names, rows, and how many rows were read.
#[derive(Debug)]
pub struct QueryResult {
    columns: Vec<String>,
    rows: Vec<Vec<(String, Value)>>,
    current_row: usize,
}

/// A result, read as column names and rows.
pub type ResultView = (Seq<Seq<char>>, Seq<Seq<(Seq<char>, Option<Seq<char>>)>>);

impl QueryResult {
    /// The column names and the rows.
    pub closed spec fn view_result(&self) -> ResultView {
        (self.columns@.map_values(|c: String| c@), self.rows@.map_values(|r: Vec<(String, Value)>| row_view(r@)))
    }

    /// How many rows have been read.
    pub closed spec fn position(&self) -> nat {
        self.current_row as nat
    }

    /// An empty result.
    pub fn empty() -> (r: QueryResult)
        ensures
            r.view_result() == empty_result(),
            r.position() == 0,
    {
        let r = QueryResult { columns: Vec::new(), rows: Vec::new(), current_row: 0 };
        assert(r.view_result().0 =~= empty_result().0);
        assert(r.view_result().1 =~= empty_result().1);
        r
    }

    /// The column names.
    pub fn columns(&self) -> (c: &[String])
        ensures
            c@.map_values(|s: String| s@) == self.view_result().0,
    {
        self.columns.as_slice()
    }

    /// The number of rows.
    pub fn num_rows(&self) -> (n: usize)
        ensures
            n == self.view_result().1.len(),
    {
        self.rows.len()
    }

    /// The next row, taken out of the result; `None` once all were read.
    pub fn next(&mut self) -> (r: Option<FlatTuple>)
        ensures
            old(self).position() >= old(self).view_result().1.len() ==> r is None && *final(self) == *old(self),
            old(self).position() < old(self).view_result().1.len() ==> (r matches Some(t) && row_view(t.values@)
                == old(self).view_result().1[old(self).position() as int] && final(self).position() == old(self).position() + 1
                && final(self).view_result().0 == old(self).view_result().0 && final(self).view_result().1.len()
                == old(self).view_result().1.len()),
    {
        if self.current_row >= self.rows.len() {
            return None;
        }
        let i = self.current_row;
        let ghost before = self.view_result();
        let row = self.rows.remove(i);
        self.rows.insert(i, Vec::new());
        self.current_row = i + 1;
        proof {
            assert(self.view_result().0 == before.0);
        }
        Some(FlatTuple { values: row })
    }
}

/// A row of a result.
#[derive(Debug)]
pub struct FlatTuple {
    pub values: Vec<(String, Value)>,
}

/// The empty result.
pub open spec fn empty_result() -> ResultView {
    (seq![], seq![])
}

/// The text of a 64-bit integer.
pub open spec fn i64_text(v: i64) -> Seq<char> {
    if v < 0 {
        "-"@ + decimal_digits((-v) as nat)
    } else {
        decimal_digits(v as nat)
    }
}

/// Texts joined with commas.
pub open spec fn join_commas(parts: Seq<Seq<char>>) -> Seq<char>
    decreases parts.len(),
{
    if parts.len() == 0 {
        seq![]
    } else if parts.len() == 1 {
        parts[0]
    } else {
        join_commas(parts.drop_last()) + ","@ + parts.last()
    }
}

/// The text of a value (as `get_string` gives it).
pub open spec fn value_string(v: Value) -> Seq<char> {
    match v {
        Value::String(s) => s@,
        Value::Int64(i) => i64_text(i),
        Value::UInt64(u) => decimal_digits(u as nat),
        Value::Bool(b) => if b {
            "true"@
        } else {
            "false"@
        },
        Value::Null => "NULL"@,
        Value::StringList(l) => join_commas(l@.map_values(|s: String| s@)),
        Value::Int64List(l) => join_commas(l@.map_values(|i: i64| i64_text(i))),
    }
}

fn i64_string(v: i64) -> (s: String)
    ensures
        s@ == i64_text(v),
{
    if v < 0 {
        let m: u128 = (0i128 - (v as i128)) as u128;
        let mut s = owned("-");
        let d = decimal_string(m);
        push_str(&mut s, d.as_str());
        s
    } else {
        decimal_string(v as u128)
    }
}

fn value_to_string(v: &Value) -> (s: String)
    ensures
        s@ == value_string(*v),
{
    match v {
        Value::String(t) => owned(t.as_str()),
        Value::Int64(i) => i64_string(*i),
        Value::UInt64(u) => decimal_string(*u as u128),
        Value::Bool(b) => if *b {
            owned("true")
        } else {
            owned("false")
        },
        Value::Null => owned("NULL"),
        Value::StringList(l) => {
            let mut out = String::new();
            let mut i: usize = 0;
            while i < l.len()
                invariant
                    i <= l@.len(),
                    out@ == join_commas(l@.subrange(0, i as int).map_values(|s: String| s@)),
                decreases l@.len() - i,
            {
                assert(l@.subrange(0, i + 1).map_values(|s: String| s@).drop_last() =~= l@.subrange(0, i as int).map_values(|s: String| s@));
                if i > 0 {
                    push_str(&mut out, ",");
                }
                push_str(&mut out, l[i].as_str());
                proof {
                    if i == 0 {
                        assert(out@ =~= l@.subrange(0, 1).map_values(|s: String| s@)[0]);
                    }
                }
                i = i + 1;
            }
            assert(l@.subrange(0, l@.len() as int) =~= l@);
            out
        },
        Value::Int64List(l) => {
            let mut out = String::new();
            let mut i: usize = 0;
            while i < l.len()
                invariant
                    i <= l@.len(),
                    out@ == join_commas(l@.subrange(0, i as int).map_values(|x: i64| i64_text(x))),
                decreases l@.len() - i,
            {
                assert(l@.subrange(0, i + 1).map_values(|x: i64| i64_text(x)).drop_last() =~= l@.subrange(0, i as int).map_values(|x: i64| i64_text(x)));
                if i > 0 {
                    push_str(&mut out, ",");
                }
                let t = i64_string(l[i]);
                push_str(&mut out, t.as_str());
                proof {
                    if i == 0 {
                        assert(out@ =~= l@.subrange(0, 1).map_values(|x: i64| i64_text(x))[0]);
                    }
                }
                i = i + 1;
            }
            assert(l@.subrange(0, l@.len() as int) =~= l@);
            out
        },
    }
}

/// A copy of a value.
pub fn copy_value(v: &Value) -> (r: Value)
    ensures
        value_text(r) == value_text(*v),
        value_string(r) == value_string(*v),
{
    match v {
        Value::String(t) => Value::String(owned(t.as_str())),
        Value::Int64(i) => Value::Int64(*i),
        Value::UInt64(u) => Value::UInt64(*u),
        Value::Bool(b) => Value::Bool(*b),
        Value::Null => Value::Null,
        Value::StringList(l) => {
            let mut out: Vec<String> = Vec::new();
            let mut i: usize = 0;
            while i < l.len()
                invariant
                    i <= l@.len(),
                    out@.len() == i,
                    forall|j: int| 0 <= j < i ==> #[trigger] out@[j]@ == l@[j]@,
                decreases l@.len() - i,
            {
                out.push(owned(l[i].as_str()));
                i = i + 1;
            }
            assert(out@.map_values(|s: String| s@) =~= l@.map_values(|s: String| s@));
            Value::StringList(out)
        },
        Value::Int64List(l) => {
            let mut out: Vec<i64> = Vec::new();
            let mut i: usize = 0;
            while i < l.len()
                invariant
                    i <= l@.len(),
                    out@ == l@.subrange(0, i as int),
                decreases l@.len() - i,
            {
                out.push(l[i]);
                i = i + 1;
                assert(out@ =~= l@.subrange(0, i as int));
            }
            assert(l@.subrange(0, l@.len() as int) =~= l@);
            Value::Int64List(out)
        },
    }
}

impl FlatTuple {
    /// The text of the value in column `idx`; `NotFound` past the last
    /// column.
    pub fn get_string(&self, idx: u64) -> (r: Result<String, KuzuError>)
        ensures
            idx < self.values@.len() ==> (r matches Ok(s) && s@ == value_string(self.values@[idx as int].1)),
            idx >= self.values@.len() ==> (r matches Err(KuzuError::NotFound(m)) && m@ == "Column "@ + decimal_digits(idx as nat) + " not found"@),
    {
        if idx >= self.values.len() as u64 {
            let mut m = owned("Column ");
            let d = decimal_string(idx as u128);
            push_str(&mut m, d.as_str());
            push_str(&mut m, " not found");
            return Err(KuzuError::NotFound(m));
        }
        Ok(value_to_string(&self.values[idx as usize].1))
    }

    /// The value of the first column called `name`; `NotFound` when there is
    /// none.
    pub fn get(&self, name: &str) -> (r: Result<Value, KuzuError>)
        ensures
            match r {
                Ok(v) => exists|k: int| 0 <= k < self.values@.len() && self.values@[k].0@ == name@
                    && (forall|j: int| 0 <= j < k ==> #[trigger] self.values@[j].0@ != name@)
                    && value_text(v) == value_text(self.values@[k].1) && value_string(v) == value_string(self.values@[k].1),
                Err(e) => (forall|j: int| 0 <= j < self.values@.len() ==> #[trigger] self.values@[j].0@ != name@)
                    && (e matches KuzuError::NotFound(m) && m@ == "Column '"@ + name@ + "' not found"@),
            },
    {
        let mut i: usize = 0;
        while i < self.values.len()
            invariant
                i <= self.values@.len(),
                forall|j: int| 0 <= j < i ==> #[trigger] self.values@[j].0@ != name@,
            decreases self.values@.len() - i,
        {
            if str_eq(self.values[i].0.as_str(), name) {
                return Ok(copy_value(&self.values[i].1));
            }
            i = i + 1;
        }
        let mut m = owned("Column '");
        push_str(&mut m, name);
        push_str(&mut m, "' not found");
        Err(KuzuError::NotFound(m))
    }

    /// The column names joined with commas.
    pub fn get_str(&self, name: &str) -> (r: Result<String, KuzuError>)
        ensures
            r matches Ok(s) && s@ == join_commas(self.values@.map_values(|e: (String, Value)| e.0@)),
    {
        let mut out = String::new();
        let mut i: usize = 0;
        while i < self.values.len()
            invariant
                i <= self.values@.len(),
                out@ == join_commas(self.values@.subrange(0, i as int).map_values(|e: (String, Value)| e.0@)),
            decreases self.values@.len() - i,
        {
            assert(self.values@.subrange(0, i + 1).map_values(|e: (String, Value)| e.0@).drop_last()
                =~= self.values@.subrange(0, i as int).map_values(|e: (String, Value)| e.0@));
            if i > 0 {
                push_str(&mut out, ",");
            }
            push_str(&mut out, self.values[i].0.as_str());
            proof {
                if i == 0 {
                    assert(out@ =~= self.values@.subrange(0, 1).map_values(|e: (String, Value)| e.0@)[0]);
                }
            }
            i = i + 1;
        }
        assert(self.values@.subrange(0, self.values@.len() as int) =~= self.values@);
        Ok(out)
    }
}

// ---------------------------------------------------------------------------
// Queries
// ---------------------------------------------------------------------------

/// Reading back what was written: after a block is stored under `k`, a
/// lookup by `k` gives exactly its properties, a lookup by any other
/// identifier gives what it gave before, and identifiers stay distinct.
pub proof fn lemma_stored_block_read_back(nodes: NodeTable, k: Seq<char>, props: Row, other: Seq<char>)
    requires
        distinct_keys(nodes),
    ensures
        distinct_keys(assoc(nodes, k, props)),
        block_rows(assoc(nodes, k, props), Some(k)) == seq![props],
        other != k ==> block_rows(assoc(nodes, k, props), Some(other)) == block_rows(nodes, Some(other)),
{
    lemma_assoc_lookup(nodes, k, props, other);
}

/// The properties a block creation query gives its block: the map read
/// between its first `{` and its last character.
pub open spec fn created_props(q: Seq<char>) -> Row {
    let t = trim_seq(q);
    props_of(t.subrange(find_seq(t, "{"@)->0 + 1, t.len() - 1))
}

/// Reading back a created block through queries: after a block creation
/// query with a property map, a lookup query naming the identifier the
/// block was filed under answers exactly one row, the block's properties;
/// the lookup changes nothing.
pub proof fn lemma_create_then_match(nodes: NodeTable, groups: LinkGroups, create: Seq<char>, lookup_q: Seq<char>)
    requires
        distinct_keys(nodes),
        starts_with_seq(trim_seq(create), "CREATE (b:Block"@),
        find_seq(trim_seq(create), "{"@) is Some,
        starts_with_seq(trim_seq(lookup_q), "MATCH (b:Block "@),
        ulid_in_query(trim_seq(lookup_q)) == Some(node_key(created_props(create))),
    ensures
        ({
            let (n1, g1, res) = query_effect(nodes, groups, create);
            &&& res == empty_result()
            &&& query_effect(n1, g1, lookup_q) == (n1, g1, (seq!["b"@], seq![created_props(create)]))
        }),
{
    let props = created_props(create);
    let key = node_key(props);
    lemma_stored_block_read_back(nodes, key, props, key);
    let t = trim_seq(lookup_q);
    reveal_strlit("CREATE (b:Block");
    reveal_strlit("MATCH (b:Block ");
    assert("MATCH (b:Block "@.len() == 15);
    assert(t.subrange(0, 15)[0] == t[0]);
    assert(t.subrange(0, 15) == "MATCH (b:Block "@);
    assert(t[0] == 'M');
    assert(!starts_with_seq(t, "CREATE (b:Block"@)) by {
        if starts_with_seq(t, "CREATE (b:Block"@) {
            assert(t.subrange(0, 15) == "CREATE (b:Block"@);
        }
    }
}

/// The rows of a block lookup: the properties of the block named, or of
/// every block in the order they were first stored when none is named.
pub open spec fn block_rows(nodes: NodeTable, u: Option<Seq<char>>) -> Seq<Row> {
    match u {
        Some(u) => match lookup(nodes, u) {
            Some(row) => seq![row],
            None => seq![],
        },
        None => nodes.map_values(|n: (Seq<char>, Row)| n.1),
    }
}

/// Rows for the relationships of type `ty`: their properties, then source,
/// target and type.
pub open spec fn rows_by_type(links: Seq<Link>, ty: Seq<char>) -> Seq<Row> {
    links.map_values(|l: Link| l.2 + seq![("src"@, Some(l.0)), ("dst"@, Some(l.1)), ("rel_type"@, Some(ty))])
}

/// Rows for the relationships leaving `u`: their properties, then source and
/// target.
pub open spec fn rows_from(links: Seq<Link>, u: Seq<char>) -> Seq<Row> {
    links.filter(|l: Link| l.0 == u).map_values(|l: Link| l.2 + seq![("src"@, Some(l.0)), ("dst"@, Some(l.1))])
}

/// The identifier a created block is filed under: its `ulid` property when
/// that is text, `unknown` otherwise.
pub open spec fn node_key(props: Row) -> Seq<char> {
    match lookup(props, "ulid"@) {
        Some(Some(u)) => u,
        _ => "unknown"@,
    }
}

/// The properties of a relationship creation: the map read from the first
/// `src:` up to the next `}`; none when either is missing.
pub open spec fn rel_props(t: Seq<char>) -> Row {
    match find_seq(t, "src:"@) {
        Some(p) => {
            let rest = t.subrange(p, t.len() as int);
            match find_seq(rest, "}"@) {
                Some(e) => props_of(rest.subrange(0, e)),
                None => seq![],
            }
        },
        None => seq![],
    }
}

/// A query that would cut the text it reads between its first `{` and its
/// last character at an impossible place: `{` is the last character, or the
/// last character takes more than one byte.
pub open spec fn create_query_cut_fails(q: Seq<char>) -> bool {
    let t = trim_seq(q);
    starts_with_seq(t, "CREATE (b:Block"@) && (find_seq(t, "{"@) matches Some(i) && !(i + 1 < t.len() && (t.last() as u32) < 128))
}

/// What a query does: the blocks and the relationships afterwards, and the
/// result.
pub open spec fn query_effect(nodes: NodeTable, groups: LinkGroups, q: Seq<char>) -> (NodeTable, LinkGroups, ResultView) {
    let t = trim_seq(q);
    if starts_with_seq(t, "CREATE (b:Block"@) {
        match find_seq(t, "{"@) {
            Some(i) => {
                let props = props_of(t.subrange(i + 1, t.len() - 1));
                (assoc(nodes, node_key(props), props), groups, empty_result())
            },
            None => (nodes, groups, empty_result()),
        }
    } else if starts_with_seq(t, "MATCH (b:Block)"@) || starts_with_seq(t, "MATCH (b:Block "@) {
        (nodes, groups, (seq!["b"@], block_rows(nodes, ulid_in_query(t))))
    } else if starts_with_seq(t, "MATCH ()-[r:"@) {
        let ty = rel_type_in_query(t);
        (nodes, groups, (seq!["r"@], rows_by_type(group_of(groups, ty), ty)))
    } else if starts_with_seq(t, "MATCH (s:Block"@) && contains_seq(t, "-[r:"@) {
        match ulid_in_query(t) {
            Some(u) => (nodes, groups, (seq!["r"@], rows_from(group_of(groups, rel_type_in_query(t)), u))),
            None => (nodes, groups, empty_result()),
        }
    } else if contains_seq(t, "CREATE (s)-[r:"@) {
        match pattern_endpoints(t) {
            (Some(s), Some(d)) => (nodes, add_link(groups, pattern_rel_type(t), (s, d, rel_props(t))), empty_result()),
            _ => (nodes, groups, empty_result()),
        }
    } else if starts_with_seq(t, "MATCH (s:Block), (t:Block"@) {
        match pattern_endpoints(t) {
            (Some(s), Some(d)) => if has_key(nodes, s) && has_key(nodes, d) {
                (nodes, groups, (seq![], seq![seq![]]))
            } else {
                (nodes, groups, empty_result())
            },
            _ => (nodes, groups, empty_result()),
        }
    } else {
        (nodes, groups, empty_result())
    }
}

fn one_column(name: &str) -> (c: Vec<String>)
    ensures
        c@.map_values(|s: String| s@) == seq![name@],
{
    let mut c: Vec<String> = Vec::new();
    c.push(owned(name));
    assert(c@.map_values(|s: String| s@) =~= seq![name@]);
    c
}

fn text_entry(name: &str, value: &str) -> (e: (String, Value))
    ensures
        e.0@ == name@,
        value_text(e.1) == Some(value@),
{
    (owned(name), Value::String(owned(value)))
}

proof fn lemma_group_of_index(rels: Seq<(String, Vec<Relationship>)>, ty: Seq<char>, k: int)
    requires
        0 <= k < rels.len(),
        rels[k].0@ == ty,
        forall|j: int| 0 <= j < k ==> #[trigger] rels[j].0@ != ty,
    ensures
        group_of(rels.map_values(|g: (String, Vec<Relationship>)| (g.0@, group_links(g.1@))), ty) == group_links(rels[k].1@),
    decreases k,
{
    let gs = rels.map_values(|g: (String, Vec<Relationship>)| (g.0@, group_links(g.1@)));
    if k > 0 {
        assert(gs.drop_first() =~= rels.drop_first().map_values(|g: (String, Vec<Relationship>)| (g.0@, group_links(g.1@))));
        assert forall|j: int| 0 <= j < k - 1 implies #[trigger] rels.drop_first()[j].0@ != ty by {
            assert(rels.drop_first()[j] == rels[j + 1]);
        }
        lemma_group_of_index(rels.drop_first(), ty, k - 1);
    }
}

proof fn lemma_group_of_absent(rels: Seq<(String, Vec<Relationship>)>, ty: Seq<char>)
    requires
        forall|j: int| 0 <= j < rels.len() ==> #[trigger] rels[j].0@ != ty,
    ensures
        group_of(rels.map_values(|g: (String, Vec<Relationship>)| (g.0@, group_links(g.1@))), ty).len() == 0,
    decreases rels.len(),
{
    let gs = rels.map_values(|g: (String, Vec<Relationship>)| (g.0@, group_links(g.1@)));
    if rels.len() > 0 {
        assert(gs.drop_first() =~= rels.drop_first().map_values(|g: (String, Vec<Relationship>)| (g.0@, group_links(g.1@))));
        assert forall|j: int| 0 <= j < rels.len() - 1 implies #[trigger] rels.drop_first()[j].0@ != ty by {
            assert(rels.drop_first()[j] == rels[j + 1]);
        }
        lemma_group_of_absent(rels.drop_first(), ty);
    }
}

fn find_group(rels: &Vec<(String, Vec<Relationship>)>, ty: &str) -> (r: Option<usize>)
    ensures
        match r {
            Some(k) => k < rels@.len() && rels@[k as int].0@ == ty@ && group_of(
                rels@.map_values(|g: (String, Vec<Relationship>)| (g.0@, group_links(g.1@))),
                ty@,
            ) == group_links(rels@[k as int].1@),
            None => (forall|j: int| 0 <= j < rels@.len() ==> #[trigger] rels@[j].0@ != ty@) && group_of(
                rels@.map_values(|g: (String, Vec<Relationship>)| (g.0@, group_links(g.1@))),
                ty@,
            ).len() == 0,
        },
{
    let mut k: usize = 0;
    while k < rels.len()
        invariant
            k <= rels@.len(),
            forall|j: int| 0 <= j < k ==> #[trigger] rels@[j].0@ != ty@,
        decreases rels@.len() - k,
    {
        if str_eq(rels[k].0.as_str(), ty) {
            proof {
                lemma_group_of_index(rels@, ty@, k as int);
            }
            return Some(k);
        }
        k = k + 1;
    }
    proof {
        lemma_group_of_absent(rels@, ty@);
    }
    None
}

/// A copy of a row.
fn copy_row(r: &Vec<(String, Value)>) -> (out: Vec<(String, Value)>)
    ensures
        row_view(out@) == row_view(r@),
{
    let mut out: Vec<(String, Value)> = Vec::new();
    let mut i: usize = 0;
    while i < r.len()
        invariant
            i <= r@.len(),
            row_view(out@) == row_view(r@).take(i as int),
        decreases r@.len() - i,
    {
        let e = (owned(r[i].0.as_str()), copy_value(&r[i].1));
        let ghost before = out@;
        out.push(e);
        assert(out@ == before.push(e));
        assert(row_view(out@) =~= row_view(before).push((e.0@, value_text(e.1))));
        assert(row_view(r@).take(i + 1) =~= row_view(r@).take(i as int).push(row_view(r@)[i as int]));
        i = i + 1;
    }
    assert(row_view(r@).take(r@.len() as int) =~= row_view(r@));
    out
}

/// The properties of a relationship followed by named texts.
fn link_row(props: &Vec<(String, Value)>, src: &str, dst: &str, ty: Option<&str>) -> (row: Vec<(String, Value)>)
    ensures
        row_view(row@) == row_view(props@) + match ty {
            Some(t) => seq![("src"@, Some(src@)), ("dst"@, Some(dst@)), ("rel_type"@, Some(t@))],
            None => seq![("src"@, Some(src@)), ("dst"@, Some(dst@))],
        },
{
    let mut row = copy_row(props);
    let ghost base = row_view(row@);
    row.push(text_entry("src", src));
    row.push(text_entry("dst", dst));
    match ty {
        Some(t) => {
            row.push(text_entry("rel_type", t));
            assert(row_view(row@) =~= base + seq![("src"@, Some(src@)), ("dst"@, Some(dst@)), ("rel_type"@, Some(t@))]);
        },
        None => {
            assert(row_view(row@) =~= base + seq![("src"@, Some(src@)), ("dst"@, Some(dst@))]);
        },
    }
    row
}

impl Database {
    /// The position of the block with identifier `k`.
    fn find_node(&self, k: &str) -> (r: Option<usize>)
        requires
            self.wf(),
        ensures
            match r {
                Some(j) => j < self.nodes@.len() && has_key(self.node_table(), k@) && key_pos(self.node_table(), k@) == j,
                None => !has_key(self.node_table(), k@),
            },
    {
        let ghost nt = self.node_table();
        let mut j: usize = 0;
        while j < self.nodes.len()
            invariant
                j <= self.nodes@.len(),
                nt == self.node_table(),
                distinct_keys(nt),
                forall|a: int| 0 <= a < j ==> (#[trigger] nt[a]).0 != k@,
            decreases self.nodes@.len() - j,
        {
            if str_eq(self.nodes[j].0.as_str(), k) {
                proof {
                    assert(nt[j as int].0 == k@);
                    assert(has_key(nt, k@));
                    let c = key_pos(nt, k@);
                    assert(nt[c].0 == k@);
                    if c > j {
                        assert(nt[j as int].0 != nt[c].0);
                    }
                }
                return Some(j);
            }
            j = j + 1;
        }
        None
    }

    fn match_blocks(&self, t: &[char]) -> (r: QueryResult)
        requires
            self.wf(),
        ensures
            r.view_result() == (seq!["b"@], block_rows(self.node_table(), ulid_in_query(t@))),
            r.position() == 0,
    {
        let mut rows: Vec<Vec<(String, Value)>> = Vec::new();
        let ghost nt = self.node_table();
        let ghost want = block_rows(nt, ulid_in_query(t@));
        match extract_ulid_from_query(t) {
            Some(u) => {
                let us = string_from_chars(&u);
                match self.find_node(us.as_str()) {
                    Some(j) => {
                        rows.push(copy_row(&self.nodes[j].1.properties));
                        assert(rows@.map_values(|r: Vec<(String, Value)>| row_view(r@)) =~= want);
                    },
                    None => {
                        assert(rows@.map_values(|r: Vec<(String, Value)>| row_view(r@)) =~= want);
                    },
                }
            },
            None => {
                let mut i: usize = 0;
                while i < self.nodes.len()
                    invariant
                        i <= self.nodes@.len(),
                        nt == self.node_table(),
                        want == nt.map_values(|n: (Seq<char>, Row)| n.1),
                        rows@.map_values(|r: Vec<(String, Value)>| row_view(r@)) == want.take(i as int),
                    decreases self.nodes@.len() - i,
                {
                    let row = copy_row(&self.nodes[i].1.properties);
                    let ghost before = rows@;
                    rows.push(row);
                    proof {
                        assert(nt[i as int].1 == row_view(self.nodes@[i as int].1.properties@));
                        assert(want[i as int] == nt[i as int].1);
                        assert(rows@ == before.push(row));
                        assert(rows@.map_values(|r: Vec<(String, Value)>| row_view(r@)) =~= before.map_values(
                            |r: Vec<(String, Value)>| row_view(r@),
                        ).push(row_view(row@)));
                        assert(want.take(i + 1) =~= want.take(i as int).push(want[i as int]));
                    }
                    i = i + 1;
                }
                assert(want.take(self.nodes@.len() as int) =~= want);
            },
        }
        let r = QueryResult { columns: one_column("b"), rows, current_row: 0 };
        r
    }

    fn match_rels_by_type(&self, t: &[char]) -> (r: QueryResult)
        requires
            self.wf(),
        ensures
            r.view_result() == (seq!["r"@], rows_by_type(group_of(self.groups(), rel_type_in_query(t@)), rel_type_in_query(t@))),
            r.position() == 0,
    {
        let ty = extract_rel_type(t);
        let mut rows: Vec<Vec<(String, Value)>> = Vec::new();
        let ghost want = rows_by_type(group_of(self.groups(), ty@), ty@);
        match find_group(&self.rels, ty.as_str()) {
            Some(k) => {
                let g = &self.rels[k].1;
                let mut i: usize = 0;
                while i < g.len()
                    invariant
                        i <= g@.len(),
                        group_of(self.groups(), ty@) == group_links(g@),
                        want == rows_by_type(group_links(g@), ty@),
                        rows@.len() == i,
                        forall|j: int| 0 <= j < i ==> row_view(#[trigger] rows@[j]@) == want[j],
                    decreases g@.len() - i,
                {
                    let row = link_row(&g[i].properties, g[i].src.as_str(), g[i].dst.as_str(), Some(ty.as_str()));
                    rows.push(row);
                    i = i + 1;
                }
            },
            None => {},
        }
        let r = QueryResult { columns: one_column("r"), rows, current_row: 0 };
        assert(r.view_result().1 =~= want);
        r
    }

    fn match_rels_from(&self, u: &str, ty: &str) -> (r: QueryResult)
        requires
            self.wf(),
        ensures
            r.view_result() == (seq!["r"@], rows_from(group_of(self.groups(), ty@), u@)),
            r.position() == 0,
    {
        let mut rows: Vec<Vec<(String, Value)>> = Vec::new();
        let ghost all = group_of(self.groups(), ty@);
        match find_group(&self.rels, ty) {
            Some(k) => {
                let g = &self.rels[k].1;
                let mut i: usize = 0;
                while i < g.len()
                    invariant
                        i <= g@.len(),
                        all == group_links(g@),
                        rows@.len() == rows_from(all.subrange(0, i as int), u@).len(),
                        forall|j: int| 0 <= j < rows@.len() ==> row_view(#[trigger] rows@[j]@) == rows_from(all.subrange(0, i as int), u@)[j],
                    decreases g@.len() - i,
                {
                    proof {
                        reveal(Seq::filter);
                        assert(all.subrange(0, i + 1).drop_last() =~= all.subrange(0, i as int));
                    }
                    if str_eq(g[i].src.as_str(), u) {
                        let row = link_row(&g[i].properties, g[i].src.as_str(), g[i].dst.as_str(), None);
                        rows.push(row);
                    }
                    i = i + 1;
                }
                assert(all.subrange(0, g@.len() as int) =~= all);
            },
            None => {
                assert(all.filter(|l: Link| l.0 == u@) =~= Seq::<Link>::empty()) by {
                    reveal(Seq::filter);
                }
            },
        }
        let r = QueryResult { columns: one_column("r"), rows, current_row: 0 };
        assert(r.view_result().1 =~= rows_from(all, u@));
        r
    }

    fn insert_node(&mut self, key: String, node: Node)
        requires
            old(self).wf(),
        ensures
            final(self).wf(),
            final(self).node_table() == assoc(old(self).node_table(), key@, row_view(node.properties@)),
            final(self).groups() == old(self).groups(),
            final(self).path_view() == old(self).path_view(),
    {
        let ghost nt = self.node_table();
        let ghost row = row_view(node.properties@);
        proof {
            lemma_assoc_lookup(nt, key@, row, seq![]);
        }
        match self.find_node(key.as_str()) {
            Some(j) => {
                self.nodes.set(j, (key, node));
                assert(self.node_table() =~= nt.update(j as int, (key@, row)));
            },
            None => {
                self.nodes.push((key, node));
                assert(self.node_table() =~= nt.push((key@, row)));
            },
        }
    }

    fn endpoints_exist(&self, t: &[char]) -> (r: QueryResult)
        requires
            self.wf(),
        ensures
            r.view_result() == match pattern_endpoints(t@) {
                (Some(s), Some(d)) => if has_key(self.node_table(), s) && has_key(self.node_table(), d) {
                    (Seq::<Seq<char>>::empty(), seq![Seq::<(Seq<char>, Option<Seq<char>>)>::empty()])
                } else {
                    empty_result()
                },
                _ => empty_result(),
            },
            r.position() == 0,
    {
        let (src, dst) = read_endpoints(t);
        let src_exists = match &src {
            Some(u) => match self.find_node(u.as_str()) {
                Some(_) => true,
                None => false,
            },
            None => false,
        };
        let dst_exists = match &dst {
            Some(u) => match self.find_node(u.as_str()) {
                Some(_) => true,
                None => false,
            },
            None => false,
        };
        if src_exists && dst_exists {
            let mut rows: Vec<Vec<(String, Value)>> = Vec::new();
            rows.push(Vec::new());
            let ghost rows_v = rows@;
            let r = QueryResult { columns: Vec::new(), rows, current_row: 0 };
            proof {
                assert(row_view(rows_v[0]@) =~= Seq::<(Seq<char>, Option<Seq<char>>)>::empty());
                assert(r.view_result().0 =~= Seq::<Seq<char>>::empty());
                assert(r.view_result().1 =~= seq![Seq::<(Seq<char>, Option<Seq<char>>)>::empty()]);
            }
            r
        } else {
            QueryResult::empty()
        }
    }

    fn add_relationship(&mut self, rel: Relationship)
        requires
            old(self).wf(),
        ensures
            final(self).wf(),
            final(self).node_table() == old(self).node_table(),
            final(self).groups() == add_link(old(self).groups(), rel.rel_type@, (rel.src@, rel.dst@, row_view(rel.properties@))),
            final(self).path_view() == old(self).path_view(),
    {
        let ghost old_rels = self.rels@;
        let ghost ty = rel.rel_type@;
        let ghost link = (rel.src@, rel.dst@, row_view(rel.properties@));
        match find_group(&self.rels, rel.rel_type.as_str()) {
            Some(k) => {
                let mut group = self.rels.remove(k);
                let ghost g0 = group;
                group.1.push(rel);
                assert(group_links(group.1@) =~= group_links(g0.1@).push(link));
                self.rels.insert(k, group);
                proof {
                    assert(self.rels@ =~= old_rels.update(k as int, group));
                    lemma_add_link_at(old_rels, ty, link, k as int, group);
                }
            },
            None => {
                let key = owned(rel.rel_type.as_str());
                let mut v: Vec<Relationship> = Vec::new();
                v.push(rel);
                assert(group_links(v@) =~= seq![link]);
                self.rels.push((key, v));
                proof {
                    lemma_add_link_absent(old_rels, ty, link, self.rels@.last());
                    assert(self.rels@ =~= old_rels.push(self.rels@.last()));
                }
            },
        }
    }
}

/// Reads the source and target of a relationship pattern.
fn read_endpoints(t: &[char]) -> (r: (Option<String>, Option<String>))
    ensures
        pattern_endpoints(t@) == (
            match r.0 {
                Some(s) => Some(s@),
                None => None::<Seq<char>>,
            },
            match r.1 {
                Some(s) => Some(s@),
                None => None::<Seq<char>>,
            },
        ),
{
    let words = words_of(t);
    let ghost ps = words_seq(t@);
    let quote = chars_of("\"");
    let s = match find_marked(&words, "s.ulid", 2, Ghost(ps)) {
        Some(v) => Some(string_from_chars(&strip_chars(&v, &quote))),
        None => None,
    };
    let d = match find_marked(&words, "t.ulid", 2, Ghost(ps)) {
        Some(v) => Some(string_from_chars(&strip_chars(&v, &quote))),
        None => None,
    };
    (s, d)
}

/// Reads a relationship creation pattern: source, target, type and the
/// property map from `src:` (see [`rel_props`]).
pub fn parse_relationship_creation(t: &[char]) -> (r: Option<(String, String, String, Vec<(String, Value)>)>)
    ensures
        match r {
            Some(v) => pattern_endpoints(t@) == (Some(v.0@), Some(v.1@)) && v.2@ == pattern_rel_type(t@) && row_view(v.3@)
                == rel_props(t@),
            None => !(pattern_endpoints(t@).0 is Some && pattern_endpoints(t@).1 is Some),
        },
{
    let (src, dst) = read_endpoints(t);
    let words = words_of(t);
    let ghost ps = words_seq(t@);
    let arrow = chars_of("]->");
    let rel_type = match find_marked(&words, "-[r:", 1, Ghost(ps)) {
        Some(v) => string_from_chars(&strip_chars(&v, &arrow)),
        None => owned("related"),
    };
    let mut props: Vec<(String, Value)> = Vec::new();
    let key = chars_of("src:");
    match find_chars(t, &key) {
        Some(start) => {
            proof {
                lemma_find_in_range(t@, key@, start as int);
            }
            let n = t.len();
            let rest = slice_chars(t, start, n);
            let close = chars_of("}");
            match find_chars(&rest, &close) {
                Some(end) => {
                    proof {
                        lemma_find_in_range(rest@, close@, end as int);
                    }
                    let inner = slice_chars(&rest, 0, end);
                    props = parse_properties(string_from_chars(&inner).as_str());
                },
                None => {},
            }
        },
        None => {},
    }
    match (src, dst) {
        (Some(s), Some(d)) => Some((s, d, rel_type, props)),
        _ => None,
    }
}

/// The text stored under `key` in a property list, when it is text.
fn prop_text(props: &Vec<(String, Value)>, key: &str) -> (r: Option<String>)
    requires
        distinct_keys(row_view(props@)),
    ensures
        match r {
            Some(s) => lookup(row_view(props@), key@) == Some(Some(s@)),
            None => !(lookup(row_view(props@), key@) matches Some(Some(_))),
        },
{
    match find_text_key(props, key) {
        Some(j) => match &props[j].1 {
            Value::String(s) => Some(owned(s.as_str())),
            _ => None,
        },
        None => None,
    }
}

impl Connection {
    /// Runs a query (see [`query_effect`]).
    pub fn query(&mut self, q: &str) -> (r: Result<QueryResult, KuzuError>)
        requires
            old(self).db.wf(),
            !create_query_cut_fails(q@),
        ensures
            final(self).db.wf(),
            final(self).db.path_view() == old(self).db.path_view(),
            r matches Ok(res) && res.position() == 0 && (final(self).db.node_table(), final(self).db.groups(), res.view_result())
                == query_effect(old(self).db.node_table(), old(self).db.groups(), q@),
    {
        let cs = chars_of(q);
        let t = trim_chars(&cs);
        let create_block = chars_of("CREATE (b:Block");
        let match_block = chars_of("MATCH (b:Block)");
        let match_block_props = chars_of("MATCH (b:Block ");
        let match_rels = chars_of("MATCH ()-[r:");
        let match_source = chars_of("MATCH (s:Block");
        let rel_marker = chars_of("-[r:");
        let to_target = chars_of("]->(t:Block");
        let create_rel = chars_of("CREATE (s)-[r:");
        let check_pair = chars_of("MATCH (s:Block), (t:Block");
        if starts_with_chars(&t, &create_block) {
            let brace = chars_of("{");
            match find_chars(&t, &brace) {
                Some(i) => {
                    let n = t.len();
                    let inner = slice_chars(&t, i + 1, n - 1);
                    let props = parse_properties(string_from_chars(&inner).as_str());
                    let ulid = match prop_text(&props, "ulid") {
                        Some(u) => u,
                        None => owned("unknown"),
                    };
                    let node = Node { name: owned("Block"), properties: props };
                    self.db.insert_node(ulid, node);
                },
                None => {},
            }
            Ok(QueryResult::empty())
        } else if starts_with_chars(&t, &match_block) || starts_with_chars(&t, &match_block_props) {
            Ok(self.db.match_blocks(&t))
        } else if starts_with_chars(&t, &match_rels) {
            Ok(self.db.match_rels_by_type(&t))
        } else if starts_with_chars(&t, &match_source) && contains_chars(&t, &rel_marker) {
            match extract_source_rel_query(&t) {
                Some((u, ty)) => Ok(self.db.match_rels_from(u.as_str(), ty.as_str())),
                None => Ok(QueryResult::empty()),
            }
        } else if starts_with_chars(&t, &match_rels) && contains_chars(&t, &to_target) {
            match extract_target_rel_query(&t) {
                Some((u, ty)) => Ok(self.db.match_rels_from(u.as_str(), ty.as_str())),
                None => Ok(QueryResult::empty()),
            }
        } else if contains_chars(&t, &create_rel) {
            match parse_relationship_creation(&t) {
                Some((src, dst, rel_type, props)) => {
                    let rel = Relationship { rel_type, src, dst, properties: props };
                    self.db.add_relationship(rel);
                    Ok(QueryResult::empty())
                },
                None => Ok(QueryResult::empty()),
            }
        } else if starts_with_chars(&t, &check_pair) {
            Ok(self.db.endpoints_exist(&t))
        } else {
            Ok(QueryResult::empty())
        }
    }

    /// Runs a statement; statements have no effect on this store.
    pub fn execute(&self, statement: &str) -> (r: Result<(), KuzuError>)
        ensures
            r is Ok,
    {
        Ok(())
    }
}

proof fn lemma_add_link_at(rels: Seq<(String, Vec<Relationship>)>, ty: Seq<char>, link: Link, k: int, g: (String, Vec<Relationship>))
    requires
        0 <= k < rels.len(),
        rels[k].0@ == ty,
        forall|j: int| 0 <= j < k ==> #[trigger] rels[j].0@ != ty,
        g.0 == rels[k].0,
        group_links(g.1@) == group_links(rels[k].1@).push(link),
    ensures
        rels.update(k, g).map_values(|e: (String, Vec<Relationship>)| (e.0@, group_links(e.1@))) == add_link(
            rels.map_values(|e: (String, Vec<Relationship>)| (e.0@, group_links(e.1@))),
            ty,
            link,
        ),
    decreases k,
{
    let gs = rels.map_values(|e: (String, Vec<Relationship>)| (e.0@, group_links(e.1@)));
    let lhs = rels.update(k, g).map_values(|e: (String, Vec<Relationship>)| (e.0@, group_links(e.1@)));
    if k == 0 {
        assert(lhs =~= gs.update(0, (ty, gs[0].1.push(link))));
    } else {
        assert forall|j: int| 0 <= j < k - 1 implies #[trigger] rels.drop_first()[j].0@ != ty by {
            assert(rels.drop_first()[j] == rels[j + 1]);
        }
        lemma_add_link_at(rels.drop_first(), ty, link, k - 1, g);
        assert(gs.drop_first() =~= rels.drop_first().map_values(|e: (String, Vec<Relationship>)| (e.0@, group_links(e.1@))));
        assert(rels.drop_first().update(k - 1, g) =~= rels.update(k, g).drop_first());
        assert(lhs =~= seq![gs[0]] + rels.drop_first().update(k - 1, g).map_values(|e: (String, Vec<Relationship>)| (e.0@, group_links(e.1@))));
    }
}

proof fn lemma_add_link_absent(rels: Seq<(String, Vec<Relationship>)>, ty: Seq<char>, link: Link, g: (String, Vec<Relationship>))
    requires
        forall|j: int| 0 <= j < rels.len() ==> #[trigger] rels[j].0@ != ty,
        g.0@ == ty,
        group_links(g.1@) == seq![link],
    ensures
        rels.push(g).map_values(|e: (String, Vec<Relationship>)| (e.0@, group_links(e.1@))) == add_link(
            rels.map_values(|e: (String, Vec<Relationship>)| (e.0@, group_links(e.1@))),
            ty,
            link,
        ),
    decreases rels.len(),
{
    let gs = rels.map_values(|e: (String, Vec<Relationship>)| (e.0@, group_links(e.1@)));
    let lhs = rels.push(g).map_values(|e: (String, Vec<Relationship>)| (e.0@, group_links(e.1@)));
    if rels.len() == 0 {
        assert(lhs =~= seq![(ty, seq![link])]);
    } else {
        assert forall|j: int| 0 <= j < rels.len() - 1 implies #[trigger] rels.drop_first()[j].0@ != ty by {
            assert(rels.drop_first()[j] == rels[j + 1]);
        }
        lemma_add_link_absent(rels.drop_first(), ty, link, g);
        assert(gs.drop_first() =~= rels.drop_first().map_values(|e: (String, Vec<Relationship>)| (e.0@, group_links(e.1@))));
        assert(rels.drop_first().push(g) =~= rels.push(g).drop_first());
        assert(lhs =~= seq![gs[0]] + rels.drop_first().push(g).map_values(|e: (String, Vec<Relationship>)| (e.0@, group_links(e.1@))));
    }
}

/// A relationship added under a type is listed last among the
/// relationships of that type; the other types keep theirs.
pub proof fn lemma_add_link_then_read(groups: LinkGroups, ty: Seq<char>, l: Link, other: Seq<char>)
    ensures
        group_of(add_link(groups, ty, l), ty) == group_of(groups, ty).push(l),
        other != ty ==> group_of(add_link(groups, ty, l), other) == group_of(groups, other),
    decreases groups.len(),
{
    if groups.len() > 0 {
        if groups[0].0 == ty {
            let g2 = groups.update(0, (ty, groups[0].1.push(l)));
            assert(g2.drop_first() =~= groups.drop_first());
            if other != ty {
                assert(group_of(g2, other) == group_of(g2.drop_first(), other));
                assert(group_of(groups, other) == group_of(groups.drop_first(), other));
            }
        } else {
            lemma_add_link_then_read(groups.drop_first(), ty, l, other);
            let g2 = seq![groups[0]] + add_link(groups.drop_first(), ty, l);
            assert(g2.drop_first() =~= add_link(groups.drop_first(), ty, l));
            assert(g2[0] == groups[0]);
            if other != ty && groups[0].0 != other {
                assert(group_of(g2, other) == group_of(g2.drop_first(), other));
            }
        }
    } else {
        let g2 = seq![(ty, seq![l])];
        assert(g2.drop_first() =~= Seq::<(Seq<char>, Seq<Link>)>::empty());
        if other != ty {
            assert(group_of(g2, other) == group_of(g2.drop_first(), other));
            assert(group_of(g2.drop_first(), other) == Seq::<Link>::empty());
        }
        assert(seq![l] =~= Seq::<Link>::empty().push(l));
    }
}

} // verus!
