//! Errors reported by the lexer and the parser.
use vstd::prelude::*;
use crate::ast::Position;
use crate::lint::{LintError, LintErrorV, Severity, error_spec};

verus! {

/// Why a configuration could not be parsed
#[derive(Debug, Clone)]
pub enum ParseError {
    /// A token that cannot stand where it was found
    UnexpectedToken { expected: String, found: String, position: Position },
    /// A `}` with no open block
    UnmatchedCloseBrace { position: Position },
    /// A directive that does not start with a name
    ExpectedDirectiveName { position: Position },
    /// A `{` that is never closed
    UnclosedBlock { position: Position },
    /// The file ends inside a directive
    UnexpectedEof { position: Position },
    /// A directive followed by `}` without its `;`
    MissingSemicolon { position: Position },
    /// A quoted string that is never closed
    UnterminatedString { position: Position },
    /// The file could not be read
    IoError(String),
}

/// Model of [`ParseError`]
pub ghost enum ParseErrorV {
    UnexpectedToken { expected: Seq<char>, found: Seq<char>, position: Position },
    UnmatchedCloseBrace { position: Position },
    ExpectedDirectiveName { position: Position },
    UnclosedBlock { position: Position },
    UnexpectedEof { position: Position },
    MissingSemicolon { position: Position },
    UnterminatedString { position: Position },
    IoError(Seq<char>),
}

impl View for ParseError {
    type V = ParseErrorV;

    open spec fn view(&self) -> ParseErrorV {
        match self {
            ParseError::UnexpectedToken { expected, found, position } => ParseErrorV::UnexpectedToken {
                expected: expected@,
                found: found@,
                position: *position,
            },
            ParseError::UnmatchedCloseBrace { position } => ParseErrorV::UnmatchedCloseBrace {
                position: *position,
            },
            ParseError::ExpectedDirectiveName { position } => ParseErrorV::ExpectedDirectiveName {
                position: *position,
            },
            ParseError::UnclosedBlock { position } => ParseErrorV::UnclosedBlock {
                position: *position,
            },
            ParseError::UnexpectedEof { position } => ParseErrorV::UnexpectedEof {
                position: *position,
            },
            ParseError::MissingSemicolon { position } => ParseErrorV::MissingSemicolon {
                position: *position,
            },
            ParseError::UnterminatedString { position } => ParseErrorV::UnterminatedString {
                position: *position,
            },
            ParseError::IoError(m) => ParseErrorV::IoError(m@),
        }
    }
}

/// What a parse error says
pub open spec fn parse_error_text(e: ParseErrorV) -> Seq<char> {
    match e {
        ParseErrorV::UnexpectedToken { expected, found, .. } => "unexpected token: expected "@
            + expected + ", found "@ + found,
        ParseErrorV::UnmatchedCloseBrace { .. } => "unmatched closing brace"@,
        ParseErrorV::ExpectedDirectiveName { .. } => "expected directive name"@,
        ParseErrorV::UnclosedBlock { .. } => "unclosed block"@,
        ParseErrorV::UnexpectedEof { .. } => "unexpected end of file"@,
        ParseErrorV::MissingSemicolon { .. } => "missing semicolon"@,
        ParseErrorV::UnterminatedString { .. } => "unterminated string"@,
        ParseErrorV::IoError(m) => "I/O error: "@ + m,
    }
}

/// Where a parse error stands in the file, if it stands anywhere
pub open spec fn parse_error_position(e: ParseErrorV) -> Option<Position> {
    match e {
        ParseErrorV::UnexpectedToken { position, .. } => Some(position),
        ParseErrorV::UnmatchedCloseBrace { position } => Some(position),
        ParseErrorV::ExpectedDirectiveName { position } => Some(position),
        ParseErrorV::UnclosedBlock { position } => Some(position),
        ParseErrorV::UnexpectedEof { position } => Some(position),
        ParseErrorV::MissingSemicolon { position } => Some(position),
        ParseErrorV::UnterminatedString { position } => Some(position),
        ParseErrorV::IoError(_) => None,
    }
}

/// The finding that reports a parse error: rule `syntax-error`, an error
/// at the error's position
pub open spec fn syntax_error_spec(e: ParseErrorV) -> LintErrorV {
    match parse_error_position(e) {
        Some(p) => error_spec(
            "syntax-error"@,
            "syntax"@,
            parse_error_text(e),
            p.line as nat,
            p.column as nat,
        ),
        None => LintErrorV {
            rule: "syntax-error"@,
            category: "syntax"@,
            message: parse_error_text(e),
            severity: Severity::Error,
            line: None,
            column: None,
            fix: None,
        },
    }
}

impl ParseError {
    /// What the error says
    pub fn message(&self) -> (s: String)
        ensures
            s@ == parse_error_text(self@),
    {
        match self {
            ParseError::UnexpectedToken { expected, found, .. } => {
                let mut s = "unexpected token: expected ".to_owned();
                s.append(expected.as_str());
                s.append(", found ");
                s.append(found.as_str());
                s
            },
            ParseError::UnmatchedCloseBrace { .. } => "unmatched closing brace".to_owned(),
            ParseError::ExpectedDirectiveName { .. } => "expected directive name".to_owned(),
            ParseError::UnclosedBlock { .. } => "unclosed block".to_owned(),
            ParseError::UnexpectedEof { .. } => "unexpected end of file".to_owned(),
            ParseError::MissingSemicolon { .. } => "missing semicolon".to_owned(),
            ParseError::UnterminatedString { .. } => "unterminated string".to_owned(),
            ParseError::IoError(m) => {
                let mut s = "I/O error: ".to_owned();
                s.append(m.as_str());
                s
            },
        }
    }

    /// The finding that reports this error
    pub fn to_lint_error(&self) -> (e: LintError)
        ensures
            e@ == syntax_error_spec(self@),
    {
        let message = self.message();
        let position = match self {
            ParseError::UnexpectedToken { position, .. } => Some(*position),
            ParseError::UnmatchedCloseBrace { position } => Some(*position),
            ParseError::ExpectedDirectiveName { position } => Some(*position),
            ParseError::UnclosedBlock { position } => Some(*position),
            ParseError::UnexpectedEof { position } => Some(*position),
            ParseError::MissingSemicolon { position } => Some(*position),
            ParseError::UnterminatedString { position } => Some(*position),
            ParseError::IoError(_) => None,
        };
        match position {
            Some(p) => LintError::error("syntax-error", "syntax", message.as_str(), p.line, p.column),
            None => LintError::new("syntax-error", "syntax", message.as_str(), Severity::Error),
        }
    }
}

} // verus!
