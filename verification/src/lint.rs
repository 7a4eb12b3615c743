//! Lint findings and the fixes attached to them.
use vstd::prelude::*;

verus! {

/// Severity level of a finding
#[derive(Debug, Clone, Copy, PartialEq, Eq, Structural)]
pub enum Severity {
    Error,
    Warning,
    Info,
}

/// A change that resolves a finding.
///
/// A fix either works on a line (replace it, replace some text in it, delete
/// it, or insert a line after it) or on a byte range of the file
/// (`start_offset..end_offset`), which it replaces with `new_text`.
#[derive(Debug, Clone)]
pub struct Fix {
    /// Line the fix applies to (1-indexed; 0 for range fixes)
    pub line: usize,
    /// Text to replace within the line (the whole line when `None`)
    pub old_text: Option<String>,
    /// Replacement text
    pub new_text: String,
    /// Delete the whole line
    pub delete_line: bool,
    /// Insert `new_text` as a new line after `line`
    pub insert_after: bool,
    /// Start of the replaced byte range
    pub start_offset: Option<usize>,
    /// End of the replaced byte range
    pub end_offset: Option<usize>,
}

/// Model of a [`Fix`]
pub ghost struct FixV {
    pub line: nat,
    pub old_text: Option<Seq<char>>,
    pub new_text: Seq<char>,
    pub delete_line: bool,
    pub insert_after: bool,
    pub start_offset: Option<nat>,
    pub end_offset: Option<nat>,
}

pub open spec fn opt_text(s: Option<String>) -> Option<Seq<char>> {
    match s {
        Some(s) => Some(s@),
        None => None,
    }
}

pub open spec fn opt_nat(u: Option<usize>) -> Option<nat> {
    match u {
        Some(u) => Some(u as nat),
        None => None,
    }
}

impl View for Fix {
    type V = FixV;

    open spec fn view(&self) -> FixV {
        FixV {
            line: self.line as nat,
            old_text: opt_text(self.old_text),
            new_text: self.new_text@,
            delete_line: self.delete_line,
            insert_after: self.insert_after,
            start_offset: opt_nat(self.start_offset),
            end_offset: opt_nat(self.end_offset),
        }
    }
}

/// The fix that deletes line `line`
pub open spec fn delete_fix(line: nat) -> FixV {
    FixV {
        line,
        old_text: None,
        new_text: seq![],
        delete_line: true,
        insert_after: false,
        start_offset: None,
        end_offset: None,
    }
}

/// The fix that replaces line `line` with `text`
pub open spec fn replace_line_fix(line: nat, text: Seq<char>) -> FixV {
    FixV {
        line,
        old_text: None,
        new_text: text,
        delete_line: false,
        insert_after: false,
        start_offset: None,
        end_offset: None,
    }
}

/// The fix that replaces the bytes `start..end` with `text`
pub open spec fn range_fix(start: nat, end: nat, text: Seq<char>) -> FixV {
    FixV {
        line: 0,
        old_text: None,
        new_text: text,
        delete_line: false,
        insert_after: false,
        start_offset: Some(start),
        end_offset: Some(end),
    }
}

pub open spec fn opt_fix_view(f: Option<Fix>) -> Option<FixV> {
    match f {
        Some(f) => Some(f@),
        None => None,
    }
}

impl Fix {
    /// Delete the whole line `line`
    pub fn delete(line: usize) -> (f: Fix)
        ensures
            f@ == delete_fix(line as nat),
    {
        Fix {
            line,
            old_text: None,
            new_text: String::new(),
            delete_line: true,
            insert_after: false,
            start_offset: None,
            end_offset: None,
        }
    }

    /// Replace the whole line `line` with `new_content`
    pub fn replace_line(line: usize, new_content: &str) -> (f: Fix)
        ensures
            f@ == replace_line_fix(line as nat, new_content@),
    {
        Fix {
            line,
            old_text: None,
            new_text: new_content.to_owned(),
            delete_line: false,
            insert_after: false,
            start_offset: None,
            end_offset: None,
        }
    }

    /// Replace the bytes `start..end` of the file with `new_text`
    pub fn replace_range(start: usize, end: usize, new_text: &str) -> (f: Fix)
        ensures
            f@ == range_fix(start as nat, end as nat, new_text@),
    {
        Fix {
            line: 0,
            old_text: None,
            new_text: new_text.to_owned(),
            delete_line: false,
            insert_after: false,
            start_offset: Some(start),
            end_offset: Some(end),
        }
    }
}

/// A finding of a rule
#[derive(Debug, Clone)]
pub struct LintError {
    /// Name of the rule
    pub rule: String,
    /// Category of the rule
    pub category: String,
    pub message: String,
    pub severity: Severity,
    /// Line (1-indexed), when known
    pub line: Option<usize>,
    /// Column (1-indexed), when known
    pub column: Option<usize>,
    /// How to fix it, when a fix is known
    pub fix: Option<Fix>,
}

/// Model of a [`LintError`]
pub ghost struct LintErrorV {
    pub rule: Seq<char>,
    pub category: Seq<char>,
    pub message: Seq<char>,
    pub severity: Severity,
    pub line: Option<nat>,
    pub column: Option<nat>,
    pub fix: Option<FixV>,
}

impl View for LintError {
    type V = LintErrorV;

    open spec fn view(&self) -> LintErrorV {
        LintErrorV {
            rule: self.rule@,
            category: self.category@,
            message: self.message@,
            severity: self.severity,
            line: opt_nat(self.line),
            column: opt_nat(self.column),
            fix: opt_fix_view(self.fix),
        }
    }
}

pub open spec fn errors_view(s: Seq<LintError>) -> Seq<LintErrorV> {
    s.map_values(|e: LintError| e@)
}

pub proof fn lemma_errors_view_push(s: Seq<LintError>, e: LintError)
    ensures
        errors_view(s.push(e)) == errors_view(s).push(e@),
{
    assert(errors_view(s.push(e)) =~= errors_view(s).push(e@));
}

impl LintError {
    /// A finding with no location and no fix
    pub fn new(rule: &str, category: &str, message: &str, severity: Severity) -> (e: LintError)
        ensures
            e@ == (LintErrorV {
                rule: rule@,
                category: category@,
                message: message@,
                severity,
                line: None,
                column: None,
                fix: None,
            }),
    {
        LintError {
            rule: rule.to_owned(),
            category: category.to_owned(),
            message: message.to_owned(),
            severity,
            line: None,
            column: None,
            fix: None,
        }
    }

    /// The same finding at `line`, `column`
    pub fn with_location(self, line: usize, column: usize) -> (e: LintError)
        ensures
            e@ == (LintErrorV { line: Some(line as nat), column: Some(column as nat), ..self@ }),
    {
        LintError { line: Some(line), column: Some(column), ..self }
    }

    /// The same finding with `fix`
    pub fn with_fix(self, fix: Fix) -> (e: LintError)
        ensures
            e@ == (LintErrorV { fix: Some(fix@), ..self@ }),
    {
        LintError { fix: Some(fix), ..self }
    }
}

/// The warning of rule `rule` (in `category`) at `line`, `column`, without a fix
pub open spec fn warning_spec(
    rule: Seq<char>,
    category: Seq<char>,
    message: Seq<char>,
    line: nat,
    column: nat,
) -> LintErrorV {
    LintErrorV {
        rule,
        category,
        message,
        severity: Severity::Warning,
        line: Some(line),
        column: Some(column),
        fix: None,
    }
}

/// The warning of rule `rule` (in `category`) at `line`, `column`, without a fix
pub fn warning(rule: &str, category: &str, message: &str, line: usize, column: usize) -> (e: LintError)
    ensures
        e@ == warning_spec(rule@, category@, message@, line as nat, column as nat),
{
    LintError::new(rule, category, message, Severity::Warning).with_location(line, column)
}

/// The error of rule `rule` (in `category`) at `line`, `column`, without a fix
pub open spec fn error_spec(
    rule: Seq<char>,
    category: Seq<char>,
    message: Seq<char>,
    line: nat,
    column: nat,
) -> LintErrorV {
    LintErrorV { severity: Severity::Error, ..warning_spec(rule, category, message, line, column) }
}

impl LintError {
    /// The error of rule `rule` (in `category`) at `line`, `column`, without a fix
    pub fn error(rule: &str, category: &str, message: &str, line: usize, column: usize) -> (e: LintError)
        ensures
            e@ == error_spec(rule@, category@, message@, line as nat, column as nat),
    {
        LintError::new(rule, category, message, Severity::Error).with_location(line, column)
    }
}

} // verus!
