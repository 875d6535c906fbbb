//! Guessing a block's kind from the words of its title and content.

use vstd::prelude::*;
use crate::model::BlockType;
use crate::text::{chars_of, concat, contains_chars, contains_seq, lowercase, starts_with_chars, starts_with_seq, to_lowercase};

verus! {

/// Words that suggest a task.
pub const TASK_KEYWORDS: [&'static str; 20] = [
    "todo", "task", "tarea", "hacer", "pending", "pending", "action",
    "deadline", "due", "complete", "finish", "implement", "fix", "bug",
    "refactor", "add", "create", "update", "delete", "remove",
];

/// Words that suggest a reference.
pub const REFERENCE_KEYWORDS: [&'static str; 18] = [
    "quote", "cita", "reference", "referencia", "book", "libro",
    "article", "artículo", "paper", "paper", "source", "fuente",
    "chapter", "capítulo", "page", "página", "author", "autor",
];

/// Words that suggest a literature note.
pub const LITERATURE_KEYWORDS: [&'static str; 10] = [
    "idea", "note", "nota", "thought", "pensamiento", "insight",
    "observation", "observation", "brainstorm", "collection",
];

/// Words that suggest a structure note.
pub const STRUCTURE_KEYWORDS: [&'static str; 11] = [
    "index", "structure", "estructura", "moc", "map", "overview",
    "summary", "resumen", "toc", "table of contents", "directory",
];

/// How many entries of `kws` occur in `text` (a keyword listed twice counts twice).
pub open spec fn keyword_hits(text: Seq<char>, kws: Seq<&str>) -> nat
    decreases kws.len(),
{
    if kws.len() == 0 {
        0
    } else {
        keyword_hits(text, kws.drop_last()) + if contains_seq(text, kws.last()@) {
            1nat
        } else {
            0nat
        }
    }
}

/// Counts the entries of `kws` that occur in `text`.
pub fn count_keyword_hits(text: &[char], kws: &[&str]) -> (n: usize)
    ensures
        n == keyword_hits(text@, kws@),
        n <= kws@.len(),
{
    let mut n: usize = 0;
    let mut i: usize = 0;
    while i < kws.len()
        invariant
            i <= kws@.len(),
            n == keyword_hits(text@, kws@.subrange(0, i as int)),
            n <= i,
        decreases kws@.len() - i,
    {
        let kw = chars_of(kws[i]);
        let hit = contains_chars(text, &kw);
        assert(kws@.subrange(0, i + 1).drop_last() =~= kws@.subrange(0, i as int));
        if hit {
            n = n + 1;
        }
        i = i + 1;
    }
    assert(kws@.subrange(0, kws@.len() as int) =~= kws@);
    n
}

/// The task score: task keywords in the text, plus 3 for a title that opens
/// like a to-do item.
pub open spec fn task_score(title_lower: Seq<char>, text_lower: Seq<char>) -> nat {
    keyword_hits(text_lower, TASK_KEYWORDS@) + if starts_with_seq(title_lower, "todo:"@)
        || starts_with_seq(title_lower, "todo "@) || starts_with_seq(title_lower, "[ ]"@) {
        3nat
    } else {
        0nat
    }
}

/// The reference score: reference keywords in the text, plus 2 for a title
/// that mentions a chapter or page.
pub open spec fn reference_score(title_lower: Seq<char>, text_lower: Seq<char>) -> nat {
    keyword_hits(text_lower, REFERENCE_KEYWORDS@) + if contains_seq(title_lower, "chapter"@)
        || contains_seq(title_lower, "page "@) || contains_seq(title_lower, "page:"@) {
        2nat
    } else {
        0nat
    }
}

/// The kind suggested by the scores: none when every score is zero, else the
/// highest score, ties going to task, then reference, then structure, then
/// literature.
pub open spec fn detected_type(title_lower: Seq<char>, text_lower: Seq<char>) -> Option<BlockType> {
    let task = task_score(title_lower, text_lower);
    let reference = reference_score(title_lower, text_lower);
    let literature = keyword_hits(text_lower, LITERATURE_KEYWORDS@);
    let structure = keyword_hits(text_lower, STRUCTURE_KEYWORDS@);
    let m1 = if task >= reference { task } else { reference };
    let m2 = if m1 >= literature { m1 } else { literature };
    let max = if m2 >= structure { m2 } else { structure };
    if max == 0 {
        None
    } else if task == max {
        Some(BlockType::Task)
    } else if reference == max {
        Some(BlockType::Reference)
    } else if structure == max {
        Some(BlockType::Structure)
    } else if literature == max {
        Some(BlockType::Literature)
    } else {
        None
    }
}

/// A title that opens like a to-do item (`todo:`, `todo ` or `[ ]`) always
/// gets a kind; and it is a task whenever the text holds at most one
/// reference keyword (with a title naming no chapter or page) and at most
/// three literature and three structure keywords, since the opening alone
/// is worth three.
pub proof fn lemma_todo_titles_are_tasks(title_lower: Seq<char>, text_lower: Seq<char>)
    requires
        starts_with_seq(title_lower, "todo:"@) || starts_with_seq(title_lower, "todo "@) || starts_with_seq(
            title_lower,
            "[ ]"@,
        ),
    ensures
        detected_type(title_lower, text_lower) is Some,
        task_score(title_lower, text_lower) >= keyword_hits(text_lower, TASK_KEYWORDS@) + 3,
        keyword_hits(text_lower, REFERENCE_KEYWORDS@) <= 1 && !contains_seq(title_lower, "chapter"@) && !contains_seq(
            title_lower,
            "page "@,
        ) && !contains_seq(title_lower, "page:"@) && keyword_hits(text_lower, LITERATURE_KEYWORDS@) <= 3 && keyword_hits(
            text_lower,
            STRUCTURE_KEYWORDS@,
        ) <= 3 ==> detected_type(title_lower, text_lower) == Some(BlockType::Task),
{
}

/// Kind detection on text that is already lowercased: `title_lower` is the
/// lowercased title, `text_lower` the lowercased title and content.
pub fn detect_block_type_lowered(title_lower: &str, text_lower: &str) -> (r: Option<BlockType>)
    ensures
        r == detected_type(title_lower@, text_lower@),
{
    let title = chars_of(title_lower);
    let text = chars_of(text_lower);
    let task_kw = count_keyword_hits(&text, &TASK_KEYWORDS);
    let reference_kw = count_keyword_hits(&text, &REFERENCE_KEYWORDS);
    let literature = count_keyword_hits(&text, &LITERATURE_KEYWORDS);
    let structure = count_keyword_hits(&text, &STRUCTURE_KEYWORDS);
    let todo1 = chars_of("todo:");
    let todo2 = chars_of("todo ");
    let todo3 = chars_of("[ ]");
    let task = if starts_with_chars(&title, &todo1) || starts_with_chars(&title, &todo2)
        || starts_with_chars(&title, &todo3) {
        task_kw + 3
    } else {
        task_kw
    };
    let chapter = chars_of("chapter");
    let page1 = chars_of("page ");
    let page2 = chars_of("page:");
    let reference = if contains_chars(&title, &chapter) || contains_chars(&title, &page1)
        || contains_chars(&title, &page2) {
        reference_kw + 2
    } else {
        reference_kw
    };
    let m1 = if task >= reference { task } else { reference };
    let m2 = if m1 >= literature { m1 } else { literature };
    let max = if m2 >= structure { m2 } else { structure };
    if max == 0 {
        None
    } else if task == max {
        Some(BlockType::Task)
    } else if reference == max {
        Some(BlockType::Reference)
    } else if structure == max {
        Some(BlockType::Structure)
    } else if literature == max {
        Some(BlockType::Literature)
    } else {
        None
    }
}

/// The text that kind detection reads: the title, followed by a space and the
/// content when there is content.
pub open spec fn detection_text(title: Seq<char>, content: Option<Seq<char>>) -> Seq<char> {
    match content {
        Some(c) => title + " "@ + c,
        None => title,
    }
}

/// Guesses a block kind from its title and optional content, by keyword
/// scores over the lowercased text (see [`detected_type`]).
pub fn detect_block_type(title: &str, content: &Option<String>) -> (r: Option<BlockType>)
    ensures
        r == detected_type(
            lowercase(title@),
            lowercase(detection_text(title@, match content { Some(c) => Some(c@), None => None })),
        ),
{
    let text = match content {
        Some(c) => {
            let t = concat(title, " ");
            let full = concat(t.as_str(), c.as_str());
            to_lowercase(full.as_str())
        },
        None => to_lowercase(title),
    };
    let title_lower = to_lowercase(title);
    detect_block_type_lowered(title_lower.as_str(), text.as_str())
}

} // verus!
