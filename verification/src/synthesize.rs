//! Choices made before a document is synthesised: the output format and
//! the name of the file written.

use vstd::prelude::*;
use crate::text::{char_is_alphanumeric, chars_of, is_alphanumeric, lowercase, owned, push_str, str_eq, string_from_chars, to_lowercase};

verus! {

/// A document format.
#[derive(Debug, Clone, Copy, PartialEq, Eq, Structural)]
pub enum OutputFormat {
    Pdf,
    Html,
    Markdown,
    Typst,
}

/// The format named by a lowercased name or abbreviation.
pub open spec fn format_of_name(n: Seq<char>) -> Option<OutputFormat> {
    if n == "pdf"@ {
        Some(OutputFormat::Pdf)
    } else if n == "html"@ || n == "htm"@ {
        Some(OutputFormat::Html)
    } else if n == "markdown"@ || n == "md"@ {
        Some(OutputFormat::Markdown)
    } else if n == "typst"@ || n == "typ"@ {
        Some(OutputFormat::Typst)
    } else {
        None
    }
}

/// Parses a format name, ignoring case.
pub fn parse_output_format(s: &str) -> (r: Result<OutputFormat, String>)
    ensures
        match r {
            Ok(f) => format_of_name(lowercase(s@)) == Some(f),
            Err(m) => format_of_name(lowercase(s@)) is None && m@ == "Unknown format: "@ + s@
                + ". Use pdf, html, markdown, or typst"@,
        },
{
    let lower = to_lowercase(s);
    let n = lower.as_str();
    if str_eq(n, "pdf") {
        Ok(OutputFormat::Pdf)
    } else if str_eq(n, "html") || str_eq(n, "htm") {
        Ok(OutputFormat::Html)
    } else if str_eq(n, "markdown") || str_eq(n, "md") {
        Ok(OutputFormat::Markdown)
    } else if str_eq(n, "typst") || str_eq(n, "typ") {
        Ok(OutputFormat::Typst)
    } else {
        let mut m = owned("Unknown format: ");
        push_str(&mut m, s);
        push_str(&mut m, ". Use pdf, html, markdown, or typst");
        Err(m)
    }
}

/// A character as kept in a file name: letters, digits, `-` and `_` stay,
/// anything else becomes `_`.
pub open spec fn filename_char(c: char) -> char {
    if is_alphanumeric(c) || c == '-' || c == '_' {
        c
    } else {
        '_'
    }
}

/// A name made safe for a file.
pub fn sanitize_filename(name: &str) -> (out: String)
    ensures
        out@ == name@.map_values(|c: char| filename_char(c)),
{
    let cs = chars_of(name);
    let mut v: Vec<char> = Vec::new();
    let mut i: usize = 0;
    while i < cs.len()
        invariant
            i <= cs@.len(),
            cs@ == name@,
            v@ == cs@.subrange(0, i as int).map_values(|c: char| filename_char(c)),
        decreases cs@.len() - i,
    {
        let c = cs[i];
        let d = if char_is_alphanumeric(c) || c == '-' || c == '_' {
            c
        } else {
            '_'
        };
        v.push(d);
        i = i + 1;
        assert(v@ =~= cs@.subrange(0, i as int).map_values(|c: char| filename_char(c)));
    }
    assert(cs@.subrange(0, cs@.len() as int) =~= cs@);
    string_from_chars(&v)
}

} // verus!
