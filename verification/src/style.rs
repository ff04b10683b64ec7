//! ANSI styling for rendered output.
//!
//! `Plain` writes no escape codes; `Ansi` wraps pieces of output in SGR
//! sequences. Colours follow rustc: bold red for errors, yellow for
//! warnings, cyan for notes and bold blue for gutter elements.

use vstd::prelude::*;

use crate::diagnostics::Severity;

verus! {

#[derive(Debug, Clone, Copy, PartialEq, Eq)]
pub enum Style {
    Plain,
    Ansi,
}

pub const RESET: &'static str = "\x1b[0m";
pub const BOLD: &'static str = "\x1b[1m";
pub const RED: &'static str = "\x1b[1;31m";
pub const YELLOW: &'static str = "\x1b[1;33m";
pub const CYAN: &'static str = "\x1b[1;36m";
pub const BLUE: &'static str = "\x1b[1;34m";

/// `s` as `style` shows it in colour `code`: unchanged when plain, else
/// between `code` and the reset sequence.
pub open spec fn painted(style: Style, code: Seq<char>, s: Seq<char>) -> Seq<char> {
    match style {
        Style::Plain => s,
        Style::Ansi => code + s + RESET@,
    }
}

/// The colour of a severity.
pub open spec fn severity_code(sev: Severity) -> Seq<char> {
    match sev {
        Severity::Error => RED@,
        Severity::Warning => YELLOW@,
        Severity::Note => CYAN@,
    }
}

/// `s` in `code` when `style` is `Ansi`.
pub(crate) fn wrap(style: Style, code: &str, s: &str) -> (r: String)
    ensures
        r@ == painted(style, code@, s@),
{
    match style {
        Style::Plain => s.to_owned(),
        Style::Ansi => {
            let mut out = code.to_owned();
            out.append(s);
            out.append(RESET);
            proof {
                assert(out@ =~= code@ + s@ + RESET@);
            }
            out
        },
    }
}

impl Style {
    /// Wrap `s` in the colour used for the given severity.
    pub fn severity(self, sev: Severity, s: &str) -> (r: String)
        ensures
            r@ == painted(self, severity_code(sev), s@),
    {
        wrap(self, sev_color(sev), s)
    }

    /// Wrap `s` in bold (used for the diagnostic code and the message).
    pub fn bold(self, s: &str) -> (r: String)
        ensures
            r@ == painted(self, BOLD@, s@),
    {
        wrap(self, BOLD, s)
    }

    /// Wrap `s` in the gutter colour (used for `-->`, `|` and line numbers).
    pub fn gutter(self, s: &str) -> (r: String)
        ensures
            r@ == painted(self, BLUE@, s@),
    {
        wrap(self, BLUE, s)
    }

    /// Wrap `s` in the caret colour, which is that of the severity.
    pub fn caret(self, sev: Severity, s: &str) -> (r: String)
        ensures
            r@ == painted(self, severity_code(sev), s@),
    {
        self.severity(sev, s)
    }
}

pub fn sev_color(sev: Severity) -> (r: &'static str)
    ensures
        r@ == severity_code(sev),
{
    match sev {
        Severity::Error => RED,
        Severity::Warning => YELLOW,
        Severity::Note => CYAN,
    }
}

} // verus!
