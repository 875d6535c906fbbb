//! Structural lint results: issues, their severities and the overall score.

use vstd::prelude::*;
use crate::ids::{encode_ulid, ulid_encode};
use crate::size::{decimal_digits, decimal_string};
use crate::text::{first_chars, owned, push_str, str_eq, to_uppercase, uppercase};

verus! {

/// How serious a lint issue is.
#[derive(Debug, Clone, Copy, PartialEq, Eq, Structural)]
pub enum LintSeverity {
    Error,
    Warning,
    Info,
}

/// One finding of the structural linter.
#[derive(Debug, Clone)]
pub struct LintIssue {
    pub code: String,
    pub severity: LintSeverity,
    pub message: String,
    pub block_id: Option<u128>,
    pub context: Option<String>,
}

/// The number of issues of a severity.
pub open spec fn severity_count(issues: Seq<LintIssue>, s: LintSeverity) -> nat
    decreases issues.len(),
{
    if issues.len() == 0 {
        0
    } else {
        severity_count(issues.drop_last(), s) + if issues.last().severity == s {
            1nat
        } else {
            0nat
        }
    }
}

/// The number of issues of a severity carrying a code.
pub open spec fn code_count(issues: Seq<LintIssue>, s: LintSeverity, code: Seq<char>) -> nat
    decreases issues.len(),
{
    if issues.len() == 0 {
        0
    } else {
        code_count(issues.drop_last(), s, code) + if issues.last().severity == s
            && issues.last().code@ == code {
            1nat
        } else {
            0nat
        }
    }
}

/// The lint score out of 100: 100 with no issues, otherwise 100 less 15 per
/// error, 5 per warning and 1 per note, but never below 0.
pub open spec fn lint_score(issues: Seq<LintIssue>) -> int {
    if issues.len() == 0 {
        100
    } else {
        let penalty = 15 * severity_count(issues, LintSeverity::Error) + 5 * severity_count(
            issues,
            LintSeverity::Warning,
        ) + severity_count(issues, LintSeverity::Info);
        if penalty >= 100 {
            0
        } else {
            100 - penalty
        }
    }
}

/// Counts the issues of a severity.
pub fn count_severity(issues: &[LintIssue], s: LintSeverity) -> (n: usize)
    ensures
        n == severity_count(issues@, s),
{
    let mut n: usize = 0;
    let mut i: usize = 0;
    while i < issues.len()
        invariant
            i <= issues@.len(),
            n == severity_count(issues@.subrange(0, i as int), s),
            n <= i,
        decreases issues@.len() - i,
    {
        assert(issues@.subrange(0, i + 1).drop_last() =~= issues@.subrange(0, i as int));
        if issues[i].severity == s {
            n = n + 1;
        }
        i = i + 1;
    }
    assert(issues@.subrange(0, issues@.len() as int) =~= issues@);
    n
}

/// Counts the issues of a severity that carry a code.
pub fn count_code(issues: &[LintIssue], s: LintSeverity, code: &str) -> (n: usize)
    ensures
        n == code_count(issues@, s, code@),
{
    let mut n: usize = 0;
    let mut i: usize = 0;
    while i < issues.len()
        invariant
            i <= issues@.len(),
            n == code_count(issues@.subrange(0, i as int), s, code@),
            n <= i,
        decreases issues@.len() - i,
    {
        assert(issues@.subrange(0, i + 1).drop_last() =~= issues@.subrange(0, i as int));
        if issues[i].severity == s && str_eq(issues[i].code.as_str(), code) {
            n = n + 1;
        }
        i = i + 1;
    }
    assert(issues@.subrange(0, issues@.len() as int) =~= issues@);
    n
}

/// The lint score (see [`lint_score`]).
pub fn calculate_score(issues: &[LintIssue]) -> (score: u32)
    ensures
        score == lint_score(issues@),
        score <= 100,
{
    if issues.len() == 0 {
        return 100;
    }
    let e = count_severity(issues, LintSeverity::Error) as u128;
    let w = count_severity(issues, LintSeverity::Warning) as u128;
    let f = count_severity(issues, LintSeverity::Info) as u128;
    let penalty: u128 = 15 * e + 5 * w + f;
    if penalty >= 100 {
        0
    } else {
        (100 - penalty) as u32
    }
}

/// The marker shown beside a score: good from 90, fair from 70, poor below.
pub open spec fn score_marker_spec(score: int) -> Seq<char> {
    if score >= 90 {
        "✅"@
    } else if score >= 70 {
        "⚠️"@
    } else {
        "❌"@
    }
}

/// The marker shown beside a score.
pub fn score_marker(score: u32) -> (s: &'static str)
    ensures
        s@ == score_marker_spec(score as int),
{
    if score >= 90 {
        "✅"
    } else if score >= 70 {
        "⚠️"
    } else {
        "❌"
    }
}

/// The figures of a lint report: counts per severity, the score, and the
/// counts behind each recommendation.
#[derive(Debug, Clone, Copy, PartialEq, Eq, Structural)]
pub struct LintSummary {
    pub errors: usize,
    pub warnings: usize,
    pub infos: usize,
    pub score: u32,
    pub orphan_errors: usize,
    pub circular_errors: usize,
    pub forward_refs: usize,
    pub gap_warnings: usize,
    pub unbalanced_warnings: usize,
    pub anachronisms: usize,
}

/// Summarizes a list of lint issues for the report.
pub fn summarize(issues: &[LintIssue]) -> (s: LintSummary)
    ensures
        s.errors == severity_count(issues@, LintSeverity::Error),
        s.warnings == severity_count(issues@, LintSeverity::Warning),
        s.infos == severity_count(issues@, LintSeverity::Info),
        s.score == lint_score(issues@),
        s.orphan_errors == code_count(issues@, LintSeverity::Error, "orphan"@),
        s.circular_errors == code_count(issues@, LintSeverity::Error, "circular-ref"@),
        s.forward_refs == code_count(issues@, LintSeverity::Error, "forward-ref"@),
        s.gap_warnings == code_count(issues@, LintSeverity::Warning, "gap"@),
        s.unbalanced_warnings == code_count(issues@, LintSeverity::Warning, "unbalanced"@),
        s.anachronisms == code_count(issues@, LintSeverity::Warning, "anachronism"@),
{
    LintSummary {
        errors: count_severity(issues, LintSeverity::Error),
        warnings: count_severity(issues, LintSeverity::Warning),
        infos: count_severity(issues, LintSeverity::Info),
        score: calculate_score(issues),
        orphan_errors: count_code(issues, LintSeverity::Error, "orphan"),
        circular_errors: count_code(issues, LintSeverity::Error, "circular-ref"),
        forward_refs: count_code(issues, LintSeverity::Error, "forward-ref"),
        gap_warnings: count_code(issues, LintSeverity::Warning, "gap"),
        unbalanced_warnings: count_code(issues, LintSeverity::Warning, "unbalanced"),
        anachronisms: count_code(issues, LintSeverity::Warning, "anachronism"),
    }
}

// ---------------------------------------------------------------------------
// The report as text
// ---------------------------------------------------------------------------

/// The rule printed between the report's parts.
pub open spec fn rule_line() -> Seq<char> {
    "━━━━━━━━━━━━━━━━━━━━━━━━━━━━━━━━━━━━━━━━━━━━━━━━━━━━━━━━━━━━"@
}

/// The icon of a severity.
pub open spec fn severity_icon_text(s: LintSeverity) -> Seq<char> {
    match s {
        LintSeverity::Error => "❌"@,
        LintSeverity::Warning => "⚠️"@,
        LintSeverity::Info => "ℹ️"@,
    }
}

/// The lines shown for one issue: icon, upper-cased code and message; the
/// first eight characters of the block identifier and the context when
/// present; then a blank line.
pub open spec fn issue_text_spec(i: LintIssue) -> Seq<char> {
    "  "@ + severity_icon_text(i.severity) + " ["@ + uppercase(i.code@) + "] "@ + i.message@ + "\n"@
        + match i.block_id {
        Some(id) => "     Block: "@ + ulid_encode(id).take(8) + "\n"@,
        None => Seq::<char>::empty(),
    } + match i.context {
        Some(c) => "     💡 "@ + c@ + "\n"@,
        None => Seq::<char>::empty(),
    } + "\n"@
}

/// The lines of the issues of one severity, in order.
pub open spec fn issues_of_text(issues: Seq<LintIssue>, s: LintSeverity) -> Seq<char>
    decreases issues.len(),
{
    if issues.len() == 0 {
        Seq::<char>::empty()
    } else {
        issues_of_text(issues.drop_last(), s) + if issues.last().severity == s {
            issue_text_spec(issues.last())
        } else {
            Seq::<char>::empty()
        }
    }
}

/// The section of one severity: nothing when it has no issue, otherwise a
/// rule, the title with the count, the issues and a blank line.
pub open spec fn section_text(issues: Seq<LintIssue>, s: LintSeverity, title: Seq<char>) -> Seq<char> {
    let n = severity_count(issues, s);
    if n == 0 {
        Seq::<char>::empty()
    } else {
        rule_line() + "\n"@ + title + " ("@ + decimal_digits(n) + ")\n\n"@ + issues_of_text(issues, s) + "\n"@
    }
}

/// One recommendation: nothing when no issue calls for it.
pub open spec fn recommendation_text(n: nat, what: Seq<char>, hint: Seq<char>) -> Seq<char> {
    if n == 0 {
        Seq::<char>::empty()
    } else {
        "   - "@ + decimal_digits(n) + what + "\n     "@ + hint + "\n"@
    }
}

/// The recommendations that the issues call for.
pub open spec fn recommendations_text(issues: Seq<LintIssue>) -> Seq<char> {
    recommendation_text(
        code_count(issues, LintSeverity::Error, "orphan"@),
        " orphan block(s) need linking"@,
        "Run `nexus lint --fix` to auto-fix"@,
    ) + recommendation_text(
        code_count(issues, LintSeverity::Error, "circular-ref"@),
        " circular reference(s) detected"@,
        "Remove one link to break the cycle"@,
    ) + recommendation_text(
        code_count(issues, LintSeverity::Error, "forward-ref"@),
        " forward reference(s) detected"@,
        "Move referenced blocks earlier or remove links"@,
    ) + recommendation_text(
        code_count(issues, LintSeverity::Warning, "gap"@),
        " sequence gap(s) detected"@,
        "Consider renumbering to fill gaps"@,
    ) + recommendation_text(
        code_count(issues, LintSeverity::Warning, "unbalanced"@),
        " section(s) with unbalanced load"@,
        "Consider refactoring with `nexus refactor split`"@,
    ) + recommendation_text(
        code_count(issues, LintSeverity::Warning, "anachronism"@),
        " anachronism(s) detected"@,
        "Some sections reference content before it's introduced"@,
    ) + if severity_count(issues, LintSeverity::Error) == 0 && severity_count(
        issues,
        LintSeverity::Warning,
    ) == 0 {
        "   - No critical issues. Keep up the good work!\n"@
    } else {
        Seq::<char>::empty()
    }
}

/// The score block of the report.
pub open spec fn score_text(issues: Seq<LintIssue>) -> Seq<char> {
    rule_line() + "\n\n📊 Score: "@ + score_marker_spec(lint_score(issues)) + " "@ + decimal_digits(
        lint_score(issues) as nat,
    ) + "/100\n\n   Errors: "@ + decimal_digits(severity_count(issues, LintSeverity::Error))
        + " (15 pts each)\n   Warnings: "@ + decimal_digits(severity_count(issues, LintSeverity::Warning))
        + " (5 pts each)\n   Info: "@ + decimal_digits(severity_count(issues, LintSeverity::Info))
        + " (1 pt each)\n\n💡 Recommendations:\n"@
}

/// The whole lint report: the sections of errors, warnings and notes; then
/// either the all-clear, or the score, the counts and the recommendations
/// followed by the closing tip.
pub open spec fn report_text(issues: Seq<LintIssue>) -> Seq<char> {
    let sections = section_text(issues, LintSeverity::Error, "❌ ERRORS"@) + section_text(
        issues,
        LintSeverity::Warning,
        "⚠️  WARNINGS"@,
    ) + section_text(issues, LintSeverity::Info, "ℹ️  INFO"@);
    if issues.len() == 0 {
        sections + "✅ No structural issues found!\n\n📊 Your knowledge graph is well-structured.\n"@
    } else {
        sections + score_text(issues) + recommendations_text(issues)
            + "\n💡 Tip: Run `nexus lint --fix` to auto-fix fixable issues\n"@
    }
}

/// The icon of a severity.
pub fn severity_icon(s: LintSeverity) -> (t: &'static str)
    ensures
        t@ == severity_icon_text(s),
{
    match s {
        LintSeverity::Error => "❌",
        LintSeverity::Warning => "⚠️",
        LintSeverity::Info => "ℹ️",
    }
}

/// The lines shown for one issue (see [`issue_text_spec`]).
pub fn issue_text(issue: &LintIssue) -> (t: String)
    ensures
        t@ == issue_text_spec(*issue),
{
    let mut t = owned("  ");
    push_str(&mut t, severity_icon(issue.severity));
    push_str(&mut t, " [");
    let code = to_uppercase(issue.code.as_str());
    push_str(&mut t, code.as_str());
    push_str(&mut t, "] ");
    push_str(&mut t, issue.message.as_str());
    push_str(&mut t, "\n");
    let ghost head = t@;
    match issue.block_id {
        Some(id) => {
            push_str(&mut t, "     Block: ");
            let full = encode_ulid(id);
            let short = first_chars(full.as_str(), 8);
            push_str(&mut t, short.as_str());
            push_str(&mut t, "\n");
        },
        None => {},
    }
    let ghost mid = t@;
    match &issue.context {
        Some(c) => {
            push_str(&mut t, "     💡 ");
            push_str(&mut t, c.as_str());
            push_str(&mut t, "\n");
        },
        None => {},
    }
    push_str(&mut t, "\n");
    assert(t@ =~= issue_text_spec(*issue));
    t
}

/// Appends the section of one severity (see [`section_text`]).
fn push_section(out: &mut String, issues: &[LintIssue], s: LintSeverity, title: &str)
    ensures
        final(out)@ == old(out)@ + section_text(issues@, s, title@),
{
    let n = count_severity(issues, s);
    if n == 0 {
        assert(out@ =~= old(out)@ + section_text(issues@, s, title@));
        return;
    }
    let ghost start = out@;
    push_str(out, "━━━━━━━━━━━━━━━━━━━━━━━━━━━━━━━━━━━━━━━━━━━━━━━━━━━━━━━━━━━━");
    push_str(out, "\n");
    push_str(out, title);
    push_str(out, " (");
    let digits = decimal_string(n as u128);
    push_str(out, digits.as_str());
    push_str(out, ")\n\n");
    let ghost head = out@;
    let mut i: usize = 0;
    while i < issues.len()
        invariant
            i <= issues@.len(),
            out@ == head + issues_of_text(issues@.subrange(0, i as int), s),
        decreases issues@.len() - i,
    {
        assert(issues@.subrange(0, i + 1).drop_last() =~= issues@.subrange(0, i as int));
        if issues[i].severity == s {
            let t = issue_text(&issues[i]);
            push_str(out, t.as_str());
        }
        i = i + 1;
        assert(out@ =~= head + issues_of_text(issues@.subrange(0, i as int), s));
    }
    assert(issues@.subrange(0, issues@.len() as int) =~= issues@);
    push_str(out, "\n");
    assert(out@ =~= start + section_text(issues@, s, title@));
}

/// Appends one recommendation (see [`recommendation_text`]).
fn push_recommendation(out: &mut String, n: usize, what: &str, hint: &str)
    ensures
        final(out)@ == old(out)@ + recommendation_text(n as nat, what@, hint@),
{
    if n == 0 {
        assert(out@ =~= old(out)@ + recommendation_text(n as nat, what@, hint@));
        return;
    }
    push_str(out, "   - ");
    let digits = decimal_string(n as u128);
    push_str(out, digits.as_str());
    push_str(out, what);
    push_str(out, "\n     ");
    push_str(out, hint);
    push_str(out, "\n");
    assert(out@ =~= old(out)@ + recommendation_text(n as nat, what@, hint@));
}

/// Appends a number in decimal.
fn push_count(out: &mut String, n: usize)
    ensures
        final(out)@ == old(out)@ + decimal_digits(n as nat),
{
    let digits = decimal_string(n as u128);
    push_str(out, digits.as_str());
}

/// Appends the score block (see [`score_text`]).
fn push_score(out: &mut String, issues: &[LintIssue], sum: LintSummary)
    requires
        sum.errors == severity_count(issues@, LintSeverity::Error),
        sum.warnings == severity_count(issues@, LintSeverity::Warning),
        sum.infos == severity_count(issues@, LintSeverity::Info),
        sum.score == lint_score(issues@),
    ensures
        final(out)@ == old(out)@ + score_text(issues@),
{
    push_str(out, "━━━━━━━━━━━━━━━━━━━━━━━━━━━━━━━━━━━━━━━━━━━━━━━━━━━━━━━━━━━━");
    push_str(out, "\n\n📊 Score: ");
    push_str(out, score_marker(sum.score));
    push_str(out, " ");
    let digits = decimal_string(sum.score as u128);
    push_str(out, digits.as_str());
    push_str(out, "/100\n\n   Errors: ");
    push_count(out, sum.errors);
    push_str(out, " (15 pts each)\n   Warnings: ");
    push_count(out, sum.warnings);
    push_str(out, " (5 pts each)\n   Info: ");
    push_count(out, sum.infos);
    push_str(out, " (1 pt each)\n\n💡 Recommendations:\n");
    assert(out@ =~= old(out)@ + score_text(issues@));
}

/// Appends the recommendations (see [`recommendations_text`]).
#[verifier::rlimit(40)]
fn push_recommendations(out: &mut String, issues: &[LintIssue], sum: LintSummary)
    requires
        sum.errors == severity_count(issues@, LintSeverity::Error),
        sum.warnings == severity_count(issues@, LintSeverity::Warning),
        sum.orphan_errors == code_count(issues@, LintSeverity::Error, "orphan"@),
        sum.circular_errors == code_count(issues@, LintSeverity::Error, "circular-ref"@),
        sum.forward_refs == code_count(issues@, LintSeverity::Error, "forward-ref"@),
        sum.gap_warnings == code_count(issues@, LintSeverity::Warning, "gap"@),
        sum.unbalanced_warnings == code_count(issues@, LintSeverity::Warning, "unbalanced"@),
        sum.anachronisms == code_count(issues@, LintSeverity::Warning, "anachronism"@),
    ensures
        final(out)@ == old(out)@ + recommendations_text(issues@),
{
    push_recommendation(out, sum.orphan_errors, " orphan block(s) need linking", "Run `nexus lint --fix` to auto-fix");
    push_recommendation(out, sum.circular_errors, " circular reference(s) detected", "Remove one link to break the cycle");
    push_recommendation(out, sum.forward_refs, " forward reference(s) detected", "Move referenced blocks earlier or remove links");
    push_recommendation(out, sum.gap_warnings, " sequence gap(s) detected", "Consider renumbering to fill gaps");
    push_recommendation(out, sum.unbalanced_warnings, " section(s) with unbalanced load", "Consider refactoring with `nexus refactor split`");
    push_recommendation(out, sum.anachronisms, " anachronism(s) detected", "Some sections reference content before it's introduced");
    if sum.errors == 0 && sum.warnings == 0 {
        push_str(out, "   - No critical issues. Keep up the good work!\n");
    }
    assert(out@ =~= old(out)@ + recommendations_text(issues@));
}

/// The lint report as printed (see [`report_text`]).
pub fn issues_summary(issues: &[LintIssue]) -> (t: String)
    ensures
        t@ == report_text(issues@),
{
    let mut t = String::new();
    push_section(&mut t, issues, LintSeverity::Error, "❌ ERRORS");
    push_section(&mut t, issues, LintSeverity::Warning, "⚠️  WARNINGS");
    push_section(&mut t, issues, LintSeverity::Info, "ℹ️  INFO");
    let ghost sections = t@;
    if issues.len() == 0 {
        push_str(&mut t, "✅ No structural issues found!\n\n📊 Your knowledge graph is well-structured.\n");
        assert(t@ =~= report_text(issues@));
        return t;
    }
    let sum = summarize(issues);
    push_score(&mut t, issues, sum);
    let ghost scored = t@;
    push_recommendations(&mut t, issues, sum);
    let ghost advised = t@;
    push_str(&mut t, "\n💡 Tip: Run `nexus lint --fix` to auto-fix fixable issues\n");
    assert(t@ =~= advised + "\n💡 Tip: Run `nexus lint --fix` to auto-fix fixable issues\n"@);
    assert(t@ =~= report_text(issues@));
    t
}

/// Each issue is an error, a warning or a note, so the three counts add up
/// to the number of issues.
pub proof fn lemma_severities_partition(issues: Seq<LintIssue>)
    ensures
        severity_count(issues, LintSeverity::Error) + severity_count(issues, LintSeverity::Warning)
            + severity_count(issues, LintSeverity::Info) == issues.len(),
    decreases issues.len(),
{
    if issues.len() > 0 {
        lemma_severities_partition(issues.drop_last());
    }
}

/// More issues never raise the score: appending an issue keeps the score
/// the same or lowers it.
pub proof fn lemma_score_monotone(issues: Seq<LintIssue>, extra: LintIssue)
    ensures
        lint_score(issues.push(extra)) <= lint_score(issues),
{
    assert(issues.push(extra).drop_last() =~= issues);
}

} // verus!
