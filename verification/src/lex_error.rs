//! Errors produced while lexing.

use vstd::prelude::*;

use crate::diagnostics::{plain_diag, DiagModel, DiagSpan, Diagnostic, Severity};
use crate::text::{decimal, push_char, push_decimal};

verus! {

/// An error produced during lexing.
///
/// Stored inside `LexResult` so the caller can handle all the errors after
/// tokenisation rather than stopping at the first problem.
#[derive(Debug, Clone, Copy, PartialEq, Eq)]
pub enum LexError {
    /// A lone backslash at the very end of the file with nothing after it.
    UnexpectedEndAfterBackslash { pos: usize },
    /// A character outside the ASCII range; `pos` is its byte offset.
    NonAsciiChar { pos: usize, ch: char },
}

/// Byte offset at which a lexing error was found.
pub open spec fn error_pos(e: LexError) -> usize {
    match e {
        LexError::UnexpectedEndAfterBackslash { pos } => pos,
        LexError::NonAsciiChar { pos, .. } => pos,
    }
}

/// The message of a lexing error.
pub open spec fn lex_error_text(e: LexError) -> Seq<char> {
    match e {
        LexError::UnexpectedEndAfterBackslash { pos } => "unexpected end of input after '\\' at byte "@
            + decimal(pos as nat),
        LexError::NonAsciiChar { pos, ch } => "non-ASCII character '"@ + seq![ch] + "' at byte "@
            + decimal(pos as nat) + " (Unicode support coming soon!)"@,
    }
}

/// The diagnostic for a lexing error: code E010, pointing at the one byte
/// at its position (the span's end wraps to 0 for a position of
/// `usize::MAX`, as `+` does without overflow checks).
pub open spec fn lex_error_diag(e: LexError) -> DiagModel {
    let pos = error_pos(e);
    DiagModel {
        span: Some(DiagSpan { start: pos, end: if pos < usize::MAX { (pos + 1) as usize } else { 0 } }),
        ..plain_diag(Severity::Error, "E010"@, lex_error_text(e))
    }
}

impl LexError {
    /// The message of this error.
    pub fn to_string(&self) -> (r: String)
        ensures
            r@ == lex_error_text(*self),
    {
        match self {
            LexError::UnexpectedEndAfterBackslash { pos } => {
                let mut out = "unexpected end of input after '\\' at byte ".to_owned();
                push_decimal(&mut out, *pos);
                out
            },
            LexError::NonAsciiChar { pos, ch } => {
                let mut out = "non-ASCII character '".to_owned();
                push_char(&mut out, *ch);
                out.append("' at byte ");
                push_decimal(&mut out, *pos);
                out.append(" (Unicode support coming soon!)");
                proof {
                    assert(out@ =~= lex_error_text(*self));
                }
                out
            },
        }
    }
}

impl From<LexError> for Diagnostic {
    fn from(e: LexError) -> (r: Diagnostic)
        ensures
            r@ == lex_error_diag(e),
    {
        let pos = match e {
            LexError::UnexpectedEndAfterBackslash { pos } => pos,
            LexError::NonAsciiChar { pos, .. } => pos,
        };
        let span = DiagSpan::new(pos, pos.wrapping_add(1));
        let msg = e.to_string();
        Diagnostic::error("E010", msg.as_str()).with_span(span)
    }
}

/// `Diagnostic::from` is specified by its own `ensures` on the diagnostic's
/// value; no claim is made about equality of whole `Diagnostic` values.
impl vstd::std_specs::convert::FromSpecImpl<LexError> for Diagnostic {
    open spec fn obeys_from_spec() -> bool {
        false
    }

    open spec fn from_spec(v: LexError) -> Diagnostic {
        arbitrary()
    }
}

} // verus!
