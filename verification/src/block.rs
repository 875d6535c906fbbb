//! Blocks, as the spine and table-of-contents logic reads them, and the
//! fractional index that orders siblings.

use vstd::prelude::*;
use crate::ids::new_ulid;
use crate::model::{BlockType, LinkType};
use crate::session::{now, Timestamp};
use crate::text::{owned, str_eq};

verus! {

/// A block: an atomic note with an identifier, a kind, a title, a body, tags,
/// metadata, and the times it was created and last changed (`None` when the
/// clock could not be read as a time after the Unix epoch). Each metadata entry holds its key and, when the stored value
/// is text, that text (`None` for a value of another kind).
#[derive(Debug, Clone)]
pub struct Block {
    pub id: u128,
    pub block_type: BlockType,
    pub title: String,
    pub content: String,
    pub tags: Vec<String>,
    pub metadata: Vec<(String, Option<String>)>,
    pub created_at: Option<Timestamp>,
    pub updated_at: Option<Timestamp>,
}

/// Two blocks agree in every field (the vectors by their contents).
pub open spec fn same_block(a: Block, b: Block) -> bool {
    &&& a.id == b.id
    &&& a.block_type == b.block_type
    &&& a.title == b.title
    &&& a.content == b.content
    &&& a.tags@ == b.tags@
    &&& a.metadata@ == b.metadata@
    &&& a.created_at == b.created_at
    &&& a.updated_at == b.updated_at
}

/// The value stored under `key` (first entry with that key): `Some(Some(t))`
/// for text `t`, `Some(None)` for a value that is not text, `None` when the
/// key is absent.
pub open spec fn meta_get(m: Seq<(String, Option<String>)>, key: Seq<char>) -> Option<Option<Seq<char>>>
    decreases m.len(),
{
    if m.len() == 0 {
        None
    } else if m[0].0@ == key {
        Some(
            match m[0].1 {
                Some(t) => Some(t@),
                None => None,
            },
        )
    } else {
        meta_get(m.drop_first(), key)
    }
}

/// The index of the first metadata entry with key `key`.
pub fn meta_find(m: &Vec<(String, Option<String>)>, key: &str) -> (r: Option<usize>)
    ensures
        match r {
            Some(k) => k < m@.len() && m@[k as int].0@ == key@ && forall|j: int| 0 <= j < k ==> #[trigger] m@[j].0@ != key@,
            None => forall|j: int| 0 <= j < m@.len() ==> #[trigger] m@[j].0@ != key@,
        },
{
    let mut k: usize = 0;
    while k < m.len()
        invariant
            k <= m@.len(),
            forall|j: int| 0 <= j < k ==> #[trigger] m@[j].0@ != key@,
        decreases m@.len() - k,
    {
        if str_eq(m[k].0.as_str(), key) {
            return Some(k);
        }
        k = k + 1;
    }
    None
}

proof fn lemma_meta_get_at(m: Seq<(String, Option<String>)>, key: Seq<char>, k: int)
    requires
        0 <= k < m.len(),
        m[k].0@ == key,
        forall|j: int| 0 <= j < k ==> #[trigger] m[j].0@ != key,
    ensures
        meta_get(m, key) == Some(
            match m[k].1 {
                Some(t) => Some(t@),
                None => None,
            },
        ),
    decreases k,
{
    if k > 0 {
        assert forall|j: int| 0 <= j < k - 1 implies #[trigger] m.drop_first()[j].0@ != key by {
            assert(m.drop_first()[j] == m[j + 1]);
        }
        lemma_meta_get_at(m.drop_first(), key, k - 1);
    }
}

proof fn lemma_meta_get_absent(m: Seq<(String, Option<String>)>, key: Seq<char>)
    requires
        forall|j: int| 0 <= j < m.len() ==> #[trigger] m[j].0@ != key,
    ensures
        meta_get(m, key) is None,
    decreases m.len(),
{
    if m.len() > 0 {
        assert forall|j: int| 0 <= j < m.len() - 1 implies #[trigger] m.drop_first()[j].0@ != key by {
            assert(m.drop_first()[j] == m[j + 1]);
        }
        lemma_meta_get_absent(m.drop_first(), key);
    }
}

proof fn lemma_meta_get_other_set(m: Seq<(String, Option<String>)>, m2: Seq<(String, Option<String>)>, key: Seq<char>, q: Seq<char>, k: int)
    requires
        0 <= k < m.len(),
        m2.len() == m.len(),
        m[k].0@ == key,
        m2[k].0@ == key,
        q != key,
        forall|j: int| 0 <= j < m.len() && j != k ==> #[trigger] m2[j] == m[j],
    ensures
        meta_get(m2, q) == meta_get(m, q),
    decreases m.len(),
{
    if m.len() > 0 {
        if k == 0 {
            assert(m2.drop_first() =~= m.drop_first());
        } else {
            assert forall|j: int| 0 <= j < m.len() - 1 && j != k - 1 implies #[trigger] m2.drop_first()[j] == m.drop_first()[j] by {
                assert(m2[j + 1] == m[j + 1]);
            }
            assert(m2[0] == m[0]);
            lemma_meta_get_other_set(m.drop_first(), m2.drop_first(), key, q, k - 1);
        }
    }
}

proof fn lemma_meta_get_push(m: Seq<(String, Option<String>)>, e: (String, Option<String>), q: Seq<char>)
    requires
        e.0@ != q,
    ensures
        meta_get(m.push(e), q) == meta_get(m, q),
    decreases m.len(),
{
    if m.len() > 0 {
        assert(m.push(e).drop_first() =~= m.drop_first().push(e));
        lemma_meta_get_push(m.drop_first(), e, q);
    } else {
        assert(m.push(e).drop_first() =~= m);
    }
}

/// Reads the metadata value stored under `key`.
pub fn meta_lookup(m: &Vec<(String, Option<String>)>, key: &str) -> (r: Option<Option<String>>)
    ensures
        match r {
            Some(Some(t)) => meta_get(m@, key@) == Some(Some(t@)),
            Some(None) => meta_get(m@, key@) == Some(None::<Seq<char>>),
            None => meta_get(m@, key@) is None,
        },
{
    match meta_find(m, key) {
        Some(k) => {
            proof {
                lemma_meta_get_at(m@, key@, k as int);
            }
            match &m[k].1 {
                Some(t) => Some(Some(owned(t.as_str()))),
                None => Some(None),
            }
        },
        None => {
            proof {
                lemma_meta_get_absent(m@, key@);
            }
            None
        },
    }
}

impl Block {
    /// A new empty block of the given kind, with a fresh identifier.
    pub fn new(block_type: BlockType, title: &str) -> (b: Block)
        ensures
            b.block_type == block_type,
            b.title@ == title@,
            b.content@.len() == 0,
            b.tags@.len() == 0,
            b.metadata@.len() == 0,
            b.updated_at == b.created_at,
    {
        let t = now();
        Block {
            id: new_ulid(),
            block_type,
            title: owned(title),
            content: String::new(),
            tags: Vec::new(),
            metadata: Vec::new(),
            created_at: t,
            updated_at: t,
        }
    }

    /// Marks the block as changed now: its update time becomes the clock's
    /// reading; every other field is kept.
    pub fn touch(&mut self)
        ensures
            final(self).id == old(self).id,
            final(self).block_type == old(self).block_type,
            final(self).title == old(self).title,
            final(self).content == old(self).content,
            final(self).tags == old(self).tags,
            final(self).metadata == old(self).metadata,
            final(self).created_at == old(self).created_at,
            final(self).updated_at matches Some(t) ==> t.secs >= 0 && t.nanos < 1_000_000_000,
    {
        self.updated_at = now();
    }

    /// The block with its content replaced.
    pub fn with_content(self, content: &str) -> (b: Block)
        ensures
            b.id == self.id,
            b.block_type == self.block_type,
            b.title == self.title,
            b.content@ == content@,
            b.tags == self.tags,
            b.metadata == self.metadata,
            b.created_at == self.created_at,
            b.updated_at == self.updated_at,
    {
        Block { content: owned(content), ..self }
    }

    /// The block with one more tag at the end.
    pub fn with_tag(self, tag: String) -> (b: Block)
        ensures
            b.id == self.id,
            b.block_type == self.block_type,
            b.title == self.title,
            b.content == self.content,
            b.tags@ == self.tags@.push(tag),
            b.metadata == self.metadata,
            b.created_at == self.created_at,
            b.updated_at == self.updated_at,
    {
        let mut b = self;
        b.tags.push(tag);
        b
    }

    /// Stores `value` under `key`, replacing the value already stored there.
    pub fn set_metadata(&mut self, key: &str, value: Option<&str>)
        ensures
            final(self).id == old(self).id,
            final(self).block_type == old(self).block_type,
            final(self).title == old(self).title,
            final(self).content == old(self).content,
            final(self).tags == old(self).tags,
            final(self).created_at == old(self).created_at,
            final(self).updated_at == old(self).updated_at,
            meta_get(final(self).metadata@, key@) == Some(
                match value {
                    Some(t) => Some(t@),
                    None => None::<Seq<char>>,
                },
            ),
            forall|k: Seq<char>| k != key@ ==> #[trigger] meta_get(final(self).metadata@, k) == meta_get(old(self).metadata@, k),
    {
        let v = match value {
            Some(t) => Some(owned(t)),
            None => None,
        };
        let ghost old_m = self.metadata@;
        match meta_find(&self.metadata, key) {
            Some(k) => {
                self.metadata.set(k, (owned(key), v));
                proof {
                    lemma_meta_get_at(self.metadata@, key@, k as int);
                    assert forall|q: Seq<char>| q != key@ implies #[trigger] meta_get(self.metadata@, q) == meta_get(old_m, q) by {
                        lemma_meta_get_other_set(old_m, self.metadata@, key@, q, k as int);
                    }
                }
            },
            None => {
                self.metadata.push((owned(key), v));
                proof {
                    let e = self.metadata@[old_m.len() as int];
                    assert(self.metadata@ =~= old_m.push(e));
                    assert forall|j: int| 0 <= j < old_m.len() implies #[trigger] self.metadata@[j].0@ != key@ by {
                        assert(self.metadata@[j] == old_m[j]);
                    }
                    lemma_meta_get_at(self.metadata@, key@, old_m.len() as int);
                    assert forall|q: Seq<char>| q != key@ implies #[trigger] meta_get(self.metadata@, q) == meta_get(old_m, q) by {
                        lemma_meta_get_push(old_m, e, q);
                    }
                }
            },
        }
    }

    /// A new structure block.
    /// A copy of the block, equal to it in every field.
    pub fn copy_block(&self) -> (b: Block)
        ensures
            same_block(b, *self),
    {
        let mut tags: Vec<String> = Vec::new();
        let mut i: usize = 0;
        while i < self.tags.len()
            invariant
                i <= self.tags@.len(),
                tags@ == self.tags@.subrange(0, i as int),
            decreases self.tags@.len() - i,
        {
            tags.push(self.tags[i].clone());
            i = i + 1;
            assert(tags@ =~= self.tags@.subrange(0, i as int));
        }
        assert(self.tags@.subrange(0, self.tags@.len() as int) =~= self.tags@);
        let mut metadata: Vec<(String, Option<String>)> = Vec::new();
        let mut j: usize = 0;
        while j < self.metadata.len()
            invariant
                j <= self.metadata@.len(),
                metadata@ == self.metadata@.subrange(0, j as int),
            decreases self.metadata@.len() - j,
        {
            let value = match &self.metadata[j].1 {
                Some(t) => Some(t.clone()),
                None => None,
            };
            metadata.push((self.metadata[j].0.clone(), value));
            j = j + 1;
            assert(metadata@ =~= self.metadata@.subrange(0, j as int));
        }
        assert(self.metadata@.subrange(0, self.metadata@.len() as int) =~= self.metadata@);
        Block {
            id: self.id,
            block_type: self.block_type,
            title: self.title.clone(),
            content: self.content.clone(),
            tags,
            metadata,
            created_at: self.created_at,
            updated_at: self.updated_at,
        }
    }

    pub fn structure(title: &str) -> (b: Block)
        ensures
            b.block_type == BlockType::Structure,
            b.title@ == title@,
            b.content@.len() == 0,
            b.tags@.len() == 0,
            b.metadata@.len() == 0,
    {
        Block::new(BlockType::Structure, title)
    }

    /// A new permanent note with content.
    pub fn permanent(title: &str, content: &str) -> (b: Block)
        ensures
            b.block_type == BlockType::Permanent,
            b.title@ == title@,
            b.content@ == content@,
            b.tags@.len() == 0,
            b.metadata@.len() == 0,
    {
        Block::new(BlockType::Permanent, title).with_content(content)
    }

    /// A new fleeting note holding `content`, titled "Fleeting Note".
    pub fn fleeting(content: &str) -> (b: Block)
        ensures
            b.block_type == BlockType::Fleeting,
            b.title@ == "Fleeting Note"@,
            b.content@ == content@,
            b.tags@.len() == 0,
            b.metadata@.len() == 0,
    {
        Block::new(BlockType::Fleeting, "Fleeting Note").with_content(content)
    }
}

// ---------------------------------------------------------------------------
// Fractional index
// ---------------------------------------------------------------------------

/// A key: non-empty, lowercase letters, ending in `a` only when it is `a`.
pub open spec fn key_shape(k: Seq<u8>) -> bool {
    &&& k.len() > 0
    &&& forall|i: int| 0 <= i < k.len() ==> 97u8 <= #[trigger] k[i] <= 122u8
    &&& (k.last() == 97u8 ==> k.len() == 1)
}

/// Strict lexicographic order on byte strings.
pub open spec fn key_lt(a: Seq<u8>, b: Seq<u8>) -> bool {
    (a.len() < b.len() && b.subrange(0, a.len() as int) == a) || exists|i: int|
        0 <= i < a.len() && i < b.len() && a.subrange(0, i) == b.subrange(0, i) && #[trigger] a[i]
            < b[i]
}

/// A position among siblings, ordered lexicographically by its key, so that
/// a new position can always be made after the last one, or between two
/// others, without renumbering. Keys are non-empty strings of the letters
/// `a` to `z` that do not end in `a`, but for the first key `a` itself.
#[derive(Debug, Clone, PartialEq, Eq, PartialOrd, Ord, Hash)]
pub struct FractionalIndex {
    key: Vec<u8>,
}

impl FractionalIndex {
    /// The key of the position.
    pub closed spec fn key(&self) -> Seq<u8> {
        self.key@
    }

    /// Keys are non-empty, made of lowercase letters, and end in `a` only
    /// when they are `a`.
    pub closed spec fn wf(&self) -> bool {
        key_shape(self.key@)
    }

    /// The first position, key `a`.
    pub fn first() -> (r: FractionalIndex)
        ensures
            r.wf(),
            r.key() == seq![97u8],
    {
        let mut key: Vec<u8> = Vec::new();
        key.push(97u8);
        FractionalIndex { key }
    }

    /// A position after `last`: its last letter advanced, or `b` appended
    /// when the last letter is already `z`.
    pub fn after_last(last: &FractionalIndex) -> (r: FractionalIndex)
        requires
            last.wf(),
        ensures
            r.wf(),
            key_lt(last.key(), r.key()),
            last.key().last() < 122u8 ==> r.key() == last.key().update(last.key().len() - 1, (last.key().last() + 1) as u8),
            last.key().last() == 122u8 ==> r.key() == last.key().push(98u8),
            r.key() == key_after(last.key()),
    {
        let n = last.key.len();
        let c = last.key[n - 1];
        let mut key = last.key.clone();
        if c < 122u8 {
            key.set(n - 1, c + 1);
            assert(key@.subrange(0, n - 1) =~= last.key@.subrange(0, n - 1));
            assert(key@[n - 1] > last.key@[n - 1]);
        } else {
            key.push(98u8);
            assert(key@.subrange(0, n as int) =~= last.key@);
        }
        FractionalIndex { key }
    }

    /// A position strictly between `self` and `other`: `self` followed by
    /// `z` when `other` does not extend `self`; otherwise the part of
    /// `other` up to its first letter past `self` that is not `a`, followed
    /// by `az`.
    pub fn between(&self, other: &FractionalIndex) -> (r: FractionalIndex)
        requires
            self.wf(),
            other.wf(),
            key_lt(self.key(), other.key()),
        ensures
            r.wf(),
            key_lt(self.key(), r.key()),
            key_lt(r.key(), other.key()),
    {
        let a = &self.key;
        let b = &other.key;
        let n = a.len();
        // Whether `b` extends `a`.
        let mut ext = n < b.len();
        let mut i: usize = 0;
        while ext && i < n
            invariant
                i <= n,
                n == a@.len(),
                ext ==> n < b@.len(),
                ext ==> a@.subrange(0, i as int) == b@.subrange(0, i as int),
                !ext ==> !(a@.len() < b@.len() && b@.subrange(0, a@.len() as int) == a@),
            decreases n - i + (if ext { 1int } else { 0int }),
        {
            if a[i] != b[i] {
                assert(b@.subrange(0, n as int)[i as int] == b@[i as int]);
                ext = false;
            } else {
                assert(a@.subrange(0, i + 1) =~= a@.subrange(0, i as int).push(a@[i as int]));
                assert(b@.subrange(0, i + 1) =~= b@.subrange(0, i as int).push(b@[i as int]));
                i = i + 1;
            }
        }
        let mut key: Vec<u8> = Vec::new();
        if !ext {
            let mut k: usize = 0;
            while k < n
                invariant
                    k <= n,
                    n == a@.len(),
                    key@ == a@.subrange(0, k as int),
                decreases n - k,
            {
                key.push(a[k]);
                k = k + 1;
                assert(key@ =~= a@.subrange(0, k as int));
            }
            key.push(122u8);
            proof {
                assert(key@.subrange(0, n as int) =~= a@);
                let j = choose|j: int| 0 <= j < a@.len() && j < b@.len() && a@.subrange(0, j) == b@.subrange(0, j) && #[trigger] a@[j] < b@[j];
                assert(key@.subrange(0, j) =~= a@.subrange(0, j));
                assert(key@[j] == a@[j]);
                assert(key_lt(key@, b@));
                assert forall|q: int| 0 <= q < key@.len() implies 97u8 <= #[trigger] key@[q] <= 122u8 by {
                    if q < n {
                        assert(key@[q] == a@[q]);
                    }
                }
            }
        } else {
            proof {
                assert(a@.subrange(0, n as int) =~= a@);
            }
            // The first letter of `b` past `a` that is not `a`.
            let mut j: usize = n;
            while j < b.len() && b[j] == 97u8
                invariant
                    n <= j <= b@.len(),
                    n == a@.len(),
                    n < b@.len(),
                    forall|q: int| n <= q < j ==> b@[q] == 97u8,
                decreases b@.len() - j,
            {
                j = j + 1;
            }
            proof {
                if j == b@.len() {
                    assert(b@.last() == 97u8);
                    assert(b@.len() > 1);
                }
            }
            let mut k: usize = 0;
            while k < j
                invariant
                    k <= j,
                    j < b@.len(),
                    key@ == b@.subrange(0, k as int),
                decreases j - k,
            {
                key.push(b[k]);
                k = k + 1;
                assert(key@ =~= b@.subrange(0, k as int));
            }
            key.push(97u8);
            key.push(122u8);
            proof {
                assert(key@.subrange(0, n as int) =~= b@.subrange(0, n as int));
                assert(key@.subrange(0, j as int) =~= b@.subrange(0, j as int));
                assert(key@[j as int] == 97u8);
                assert(b@[j as int] != 97u8);
                assert(key_lt(key@, b@));
                assert forall|q: int| 0 <= q < key@.len() implies 97u8 <= #[trigger] key@[q] <= 122u8 by {
                    if q < j {
                        assert(key@[q] == b@[q]);
                    }
                }
            }
        }
        FractionalIndex { key }
    }

    /// Whether the key is well formed (see [`key_shape`]).
    pub fn is_well_formed(&self) -> (b: bool)
        ensures
            b == self.wf(),
    {
        let n = self.key.len();
        if n == 0 {
            return false;
        }
        let mut i: usize = 0;
        while i < n
            invariant
                i <= n,
                n == self.key@.len(),
                forall|q: int| 0 <= q < i ==> 97u8 <= #[trigger] self.key@[q] <= 122u8,
            decreases n - i,
        {
            if self.key[i] < 97u8 || self.key[i] > 122u8 {
                return false;
            }
            i = i + 1;
        }
        !(self.key[n - 1] == 97u8 && n > 1)
    }

    /// The key as text.
    pub fn to_string(&self) -> (s: String)
        ensures
            s@ == self.key().map_values(|b: u8| b as char),
    {
        let mut cs: Vec<char> = Vec::new();
        let mut i: usize = 0;
        while i < self.key.len()
            invariant
                i <= self.key@.len(),
                cs@ == self.key@.subrange(0, i as int).map_values(|b: u8| b as char),
            decreases self.key@.len() - i,
        {
            cs.push(self.key[i] as char);
            i = i + 1;
            assert(cs@ =~= self.key@.subrange(0, i as int).map_values(|b: u8| b as char));
        }
        assert(self.key@.subrange(0, self.key@.len() as int) =~= self.key@);
        crate::text::string_from_chars(&cs)
    }

    /// The position whose key is the text `s`: `Some` exactly when `s` is a
    /// non-empty run of the letters `a` to `z` that ends in `a` only when it
    /// is `a` (the text of [`FractionalIndex::to_string`]).
    pub fn parse(s: &str) -> (r: Option<FractionalIndex>)
        ensures
            r is Some <==> is_key_text(s@),
            r matches Some(x) ==> x.wf() && x.key().map_values(|b: u8| b as char) == s@,
    {
        let cs = crate::text::chars_of(s);
        if cs.len() == 0 {
            return None;
        }
        let mut key: Vec<u8> = Vec::new();
        let mut i: usize = 0;
        while i < cs.len()
            invariant
                i <= cs@.len(),
                cs@ == s@,
                key@.len() == i,
                forall|j: int| 0 <= j < i ==> 'a' <= #[trigger] cs@[j] <= 'z',
                forall|j: int| 0 <= j < i ==> 97u8 <= #[trigger] key@[j] <= 122u8 && key@[j] as char == cs@[j],
            decreases cs@.len() - i,
        {
            let c = cs[i];
            if c < 'a' || c > 'z' {
                return None;
            }
            key.push(c as u8);
            i = i + 1;
        }
        if cs.len() > 1 && cs[cs.len() - 1] == 'a' {
            return None;
        }
        let r = FractionalIndex { key };
        assert(r.key().map_values(|b: u8| b as char) =~= s@);
        Some(r)
    }

    /// Whether this position comes strictly before `other`.
    pub fn precedes(&self, other: &FractionalIndex) -> (b: bool)
        ensures
            b == key_lt(self.key(), other.key()),
    {
        let a = &self.key;
        let c = &other.key;
        let n = if a.len() < c.len() {
            a.len()
        } else {
            c.len()
        };
        let mut i: usize = 0;
        while i < n
            invariant
                i <= n,
                n <= a@.len(),
                n <= c@.len(),
                n == a@.len() || n == c@.len(),
                a@ == self.key@,
                c@ == other.key@,
                a@.subrange(0, i as int) == c@.subrange(0, i as int),
            decreases n - i,
        {
            if a[i] < c[i] {
                assert(a@[i as int] < c@[i as int]);
                assert(key_lt(a@, c@));
                return true;
            }
            if a[i] > c[i] {
                proof {
                    if key_lt(a@, c@) {
                        if a@.len() < c@.len() && c@.subrange(0, a@.len() as int) == a@ {
                            assert(c@[i as int] == c@.subrange(0, a@.len() as int)[i as int]);
                        } else {
                            let j = choose|j: int| 0 <= j < a@.len() && j < c@.len() && a@.subrange(0, j) == c@.subrange(0, j) && #[trigger] a@[j] < c@[j];
                            if j < i {
                                assert(a@[j] == a@.subrange(0, i as int)[j]);
                                assert(c@[j] == c@.subrange(0, i as int)[j]);
                            } else if j > i {
                                assert(a@[i as int] == a@.subrange(0, j)[i as int]);
                                assert(c@[i as int] == c@.subrange(0, j)[i as int]);
                            }
                        }
                    }
                }
                return false;
            }
            assert(a@.subrange(0, i + 1) =~= a@.subrange(0, i as int).push(a@[i as int]));
            assert(c@.subrange(0, i + 1) =~= c@.subrange(0, i as int).push(c@[i as int]));
            i = i + 1;
        }
        proof {
            if a@.len() < c@.len() {
                assert(a@.subrange(0, a@.len() as int) =~= a@);
            } else if key_lt(a@, c@) {
                let j = choose|j: int| 0 <= j < a@.len() && j < c@.len() && a@.subrange(0, j) == c@.subrange(0, j) && #[trigger] a@[j] < c@[j];
                assert(a@[j] == a@.subrange(0, n as int)[j]);
                assert(c@[j] == c@.subrange(0, n as int)[j]);
            }
        }
        a.len() < c.len()
    }

    /// A copy of the position.
    pub fn copy_index(&self) -> (r: FractionalIndex)
        ensures
            r.key() == self.key(),
            r.wf() == self.wf(),
    {
        let mut key: Vec<u8> = Vec::new();
        let mut i: usize = 0;
        while i < self.key.len()
            invariant
                i <= self.key@.len(),
                key@ == self.key@.subrange(0, i as int),
            decreases self.key@.len() - i,
        {
            key.push(self.key[i]);
            i = i + 1;
            assert(key@ =~= self.key@.subrange(0, i as int));
        }
        assert(self.key@.subrange(0, self.key@.len() as int) =~= self.key@);
        FractionalIndex { key }
    }

    /// Whether two positions are the same.
    pub fn same_as(&self, other: &FractionalIndex) -> (b: bool)
        ensures
            b == (self.key() == other.key()),
    {
        if self.key.len() != other.key.len() {
            return false;
        }
        let mut i: usize = 0;
        while i < self.key.len()
            invariant
                self.key@.len() == other.key@.len(),
                i <= self.key@.len(),
                forall|j: int| 0 <= j < i ==> self.key@[j] == other.key@[j],
            decreases self.key@.len() - i,
        {
            if self.key[i] != other.key[i] {
                return false;
            }
            i = i + 1;
        }
        assert(self.key@ =~= other.key@);
        true
    }
}

/// Text that names a position: non-empty, lowercase letters only, ending in
/// `a` only when it is `a`.
pub open spec fn is_key_text(s: Seq<char>) -> bool {
    &&& s.len() > 0
    &&& forall|i: int| 0 <= i < s.len() ==> 'a' <= #[trigger] s[i] <= 'z'
    &&& (s.last() == 'a' ==> s.len() == 1)
}

/// The key of the position after `k` (see [`FractionalIndex::after_last`]).
pub open spec fn key_after(k: Seq<u8>) -> Seq<u8> {
    if k.last() < 122u8 {
        k.update(k.len() - 1, (k.last() + 1) as u8)
    } else {
        k.push(98u8)
    }
}

/// The key reached from `a` after `n` steps.
pub open spec fn key_after_steps(n: nat) -> Seq<u8>
    decreases n,
{
    if n == 0 {
        seq![97u8]
    } else {
        key_after(key_after_steps((n - 1) as nat))
    }
}

/// The position `n` steps after the first one.
pub fn position_after_steps(n: usize) -> (r: FractionalIndex)
    ensures
        r.wf(),
        r.key() == key_after_steps(n as nat),
        n > 0 ==> key_lt(seq![97u8], r.key()),
{
    let mut idx = FractionalIndex::first();
    let mut i: usize = 0;
    while i < n
        invariant
            i <= n,
            idx.wf(),
            idx.key() == key_after_steps(i as nat),
            i > 0 ==> key_lt(seq![97u8], idx.key()),
        decreases n - i,
    {
        let next = FractionalIndex::after_last(&idx);
        proof {
            if i > 0 {
                lemma_key_lt_transitive(seq![97u8], idx.key(), next.key());
            }
        }
        idx = next;
        i = i + 1;
    }
    idx
}

/// A typed, ordered link from one block to another.
#[derive(Debug, Clone)]
pub struct Edge {
    pub id: u128,
    pub from: u128,
    pub to: u128,
    pub link_type: LinkType,
    pub sequence_weight: FractionalIndex,
    pub context: Option<String>,
}

impl Edge {
    /// A new link at the first position, without context.
    pub fn new(from: u128, to: u128, link_type: LinkType) -> (e: Edge)
        ensures
            e.from == from,
            e.to == to,
            e.link_type == link_type,
            e.sequence_weight.wf(),
            e.sequence_weight.key() == seq![97u8],
            e.context is None,
    {
        Edge { id: new_ulid(), from, to, link_type, sequence_weight: FractionalIndex::first(), context: None }
    }

    /// The link moved to position `w`.
    pub fn with_weight(self, w: FractionalIndex) -> (e: Edge)
        ensures
            e.id == self.id,
            e.from == self.from,
            e.to == self.to,
            e.link_type == self.link_type,
            e.sequence_weight == w,
            e.context == self.context,
    {
        Edge { sequence_weight: w, ..self }
    }
}

/// No position comes before itself.
pub proof fn lemma_key_lt_irreflexive(a: Seq<u8>)
    ensures
        !key_lt(a, a),
{
}

/// Of two different positions, one comes before the other.
pub proof fn lemma_key_lt_total(a: Seq<u8>, b: Seq<u8>)
    requires
        a != b,
    ensures
        key_lt(a, b) || key_lt(b, a),
    decreases a.len(),
{
    if a.len() == 0 {
        assert(b.len() > 0) by {
            if b.len() == 0 {
                assert(a =~= b);
            }
        }
        assert(b.subrange(0, 0) =~= a);
        assert(key_lt(a, b));
    } else if b.len() == 0 {
        assert(a.subrange(0, 0) =~= b);
        assert(key_lt(b, a));
    } else if a[0] != b[0] {
        assert(a.subrange(0, 0) =~= b.subrange(0, 0));
        if a[0] < b[0] {
            assert(key_lt(a, b));
        } else {
            assert(key_lt(b, a));
        }
    } else {
        let a1 = a.drop_first();
        let b1 = b.drop_first();
        assert(a =~= seq![a[0]] + a1);
        assert(b =~= seq![b[0]] + b1);
        assert(a1 != b1);
        lemma_key_lt_total(a1, b1);
        if key_lt(a1, b1) {
            lemma_key_lt_cons(a[0], a1, b1);
            assert(key_lt(a, b));
        } else {
            lemma_key_lt_cons(a[0], b1, a1);
            assert(key_lt(b, a));
        }
    }
}

proof fn lemma_key_lt_cons(c: u8, a: Seq<u8>, b: Seq<u8>)
    requires
        key_lt(a, b),
    ensures
        key_lt(seq![c] + a, seq![c] + b),
{
    let ca = seq![c] + a;
    let cb = seq![c] + b;
    if a.len() < b.len() && b.subrange(0, a.len() as int) == a {
        assert(cb.subrange(0, ca.len() as int) =~= ca);
    } else {
        let j = choose|j: int| 0 <= j < a.len() && j < b.len() && a.subrange(0, j) == b.subrange(0, j) && #[trigger] a[j] < b[j];
        assert(ca.subrange(0, j + 1) =~= seq![c] + a.subrange(0, j));
        assert(cb.subrange(0, j + 1) =~= seq![c] + b.subrange(0, j));
        assert(ca[j + 1] == a[j]);
        assert(cb[j + 1] == b[j]);
    }
}

/// Two links agree in every field (positions by their keys).
pub open spec fn same_edge(a: Edge, b: Edge) -> bool {
    &&& a.id == b.id
    &&& a.from == b.from
    &&& a.to == b.to
    &&& a.link_type == b.link_type
    &&& a.sequence_weight.key() == b.sequence_weight.key()
    &&& a.sequence_weight.wf() == b.sequence_weight.wf()
    &&& a.context == b.context
}

impl Edge {
    /// A copy of the link.
    pub fn copy_edge(&self) -> (e: Edge)
        ensures
            same_edge(e, *self),
    {
        let context = match &self.context {
            Some(c) => Some(c.clone()),
            None => None,
        };
        Edge {
            id: self.id,
            from: self.from,
            to: self.to,
            link_type: self.link_type,
            sequence_weight: self.sequence_weight.copy_index(),
            context,
        }
    }
}

/// The order of positions is transitive; since `after_last` always moves
/// forward, a run of positions started from `first` is strictly increasing.
pub proof fn lemma_key_lt_transitive(a: Seq<u8>, b: Seq<u8>, c: Seq<u8>)
    requires
        key_lt(a, b),
        key_lt(b, c),
    ensures
        key_lt(a, c),
{
    if a.len() < b.len() && b.subrange(0, a.len() as int) == a {
        if b.len() < c.len() && c.subrange(0, b.len() as int) == b {
            assert(c.subrange(0, a.len() as int) =~= b.subrange(0, a.len() as int));
        } else {
            let j = choose|j: int| 0 <= j < b.len() && j < c.len() && b.subrange(0, j) == c.subrange(0, j) && #[trigger] b[j] < c[j];
            if j < a.len() {
                assert(a[j] == b[j]);
                assert(a.subrange(0, j) =~= b.subrange(0, j));
            } else {
                assert(c.subrange(0, a.len() as int) =~= b.subrange(0, j).subrange(0, a.len() as int));
                assert(b.subrange(0, j).subrange(0, a.len() as int) =~= a);
                if a.len() < c.len() {
                } else {
                    assert(false);
                }
            }
        }
    } else {
        let i = choose|i: int| 0 <= i < a.len() && i < b.len() && a.subrange(0, i) == b.subrange(0, i) && #[trigger] a[i] < b[i];
        if b.len() < c.len() && c.subrange(0, b.len() as int) == b {
            assert(c[i] == b[i]);
            assert(c.subrange(0, i) =~= b.subrange(0, i));
        } else {
            let j = choose|j: int| 0 <= j < b.len() && j < c.len() && b.subrange(0, j) == c.subrange(0, j) && #[trigger] b[j] < c[j];
            if i < j {
                assert(b.subrange(0, j)[i] == c.subrange(0, j)[i]);
                assert(b.subrange(0, i) =~= c.subrange(0, i)) by {
                    assert forall|k: int| 0 <= k < i implies b.subrange(0, i)[k] == c.subrange(0, i)[k] by {
                        assert(b.subrange(0, j)[k] == c.subrange(0, j)[k]);
                    }
                }
                assert(a.subrange(0, i) =~= c.subrange(0, i));
                assert(0 <= i < a.len() && i < c.len() && a.subrange(0, i) == c.subrange(0, i) && a[i] < c[i]);
            } else if j < i {
                assert(a.subrange(0, i)[j] == b.subrange(0, i)[j]);
                assert(a.subrange(0, j) =~= b.subrange(0, j)) by {
                    assert forall|k: int| 0 <= k < j implies a.subrange(0, j)[k] == b.subrange(0, j)[k] by {
                        assert(a.subrange(0, i)[k] == b.subrange(0, i)[k]);
                    }
                }
                assert(a.subrange(0, j) =~= c.subrange(0, j));
                assert(0 <= j < a.len() && j < c.len() && a.subrange(0, j) == c.subrange(0, j) && a[j] < c[j]);
            } else {
                assert(a.subrange(0, i) =~= c.subrange(0, i));
                assert(0 <= i < a.len() && i < c.len() && a.subrange(0, i) == c.subrange(0, i) && a[i] < c[i]);
            }
        }
    }
}

} // verus!
