//! Diagnostics: severity, location and message of a problem in the source,
//! and their rendering as text.

use vstd::prelude::*;
use vstd::string::StringSliceAdditionalSpecFns;

use crate::source::{column_of, line_chars, line_of, line_range, Source};
use crate::style::{painted, severity_code, Style, BLUE, BOLD};
use crate::text::{decimal, push_decimal, push_repeated, repeat_char};

verus! {

/// How serious a diagnostic is.
#[derive(Debug, Clone, Copy, PartialEq, Eq)]
pub enum Severity {
    Error,
    Warning,
    Note,
}

/// A byte range used to point at source text in a diagnostic.
#[derive(Debug, Clone, Copy, PartialEq, Eq)]
pub struct DiagSpan {
    pub start: usize,
    pub end: usize,
}

impl DiagSpan {
    pub fn new(start: usize, end: usize) -> (r: Self)
        ensures
            r == (DiagSpan { start, end }),
    {
        DiagSpan { start, end }
    }
}

/// A single compiler diagnostic with an optional source location.
#[derive(Debug)]
pub struct Diagnostic {
    pub severity: Severity,
    /// Short alphanumeric code, e.g. "E001".
    pub code: &'static str,
    pub message: String,
    /// Byte range in the source file, if known.
    pub span: Option<DiagSpan>,
    /// A short extract of the source shown below the message, if provided.
    pub source_hint: Option<String>,
    /// Follow-up lines, in the order they were attached.
    pub notes: Vec<String>,
}

/// Mathematical value of a `Diagnostic`.
pub struct DiagModel {
    pub severity: Severity,
    pub code: Seq<char>,
    pub message: Seq<char>,
    pub span: Option<DiagSpan>,
    pub source_hint: Option<Seq<char>>,
    pub notes: Seq<Seq<char>>,
}

pub open spec fn strings_model(v: Seq<String>) -> Seq<Seq<char>> {
    v.map_values(|s: String| s@)
}

impl View for Diagnostic {
    type V = DiagModel;

    open spec fn view(&self) -> DiagModel {
        DiagModel {
            severity: self.severity,
            code: self.code@,
            message: self.message@,
            span: self.span,
            source_hint: match self.source_hint {
                Some(h) => Some(h@),
                None => None,
            },
            notes: strings_model(self.notes@),
        }
    }
}

impl Clone for Diagnostic {
    fn clone(&self) -> (r: Self)
        ensures
            r@ == self@,
    {
        let notes = self.notes.clone();
        proof {
            assert forall|i: int| 0 <= i < notes@.len() implies notes@[i] == self.notes@[i] by {
                assert(vstd::pervasive::cloned::<String>(self.notes[i], notes[i]));
            }
            assert(strings_model(notes@) =~= strings_model(self.notes@));
        }
        Diagnostic {
            severity: self.severity,
            code: self.code,
            message: self.message.clone(),
            span: self.span,
            source_hint: match &self.source_hint {
                Some(h) => Some(h.clone()),
                None => None,
            },
            notes,
        }
    }
}

/// The values of a sequence of diagnostics.
pub open spec fn diags_model(v: Seq<Diagnostic>) -> Seq<DiagModel> {
    v.map_values(|d: Diagnostic| d@)
}

/// A fresh diagnostic: no span, no hint, no notes.
pub open spec fn plain_diag(severity: Severity, code: Seq<char>, message: Seq<char>) -> DiagModel {
    DiagModel { severity, code, message, span: None, source_hint: None, notes: Seq::empty() }
}

impl Diagnostic {
    pub fn error(code: &'static str, message: &str) -> (r: Self)
        ensures
            r@ == plain_diag(Severity::Error, code@, message@),
    {
        let d = Diagnostic {
            severity: Severity::Error,
            code,
            message: message.to_owned(),
            span: None,
            source_hint: None,
            notes: Vec::new(),
        };
        proof {
            assert(strings_model(d.notes@) =~= Seq::<Seq<char>>::empty());
        }
        d
    }

    pub fn warning(code: &'static str, message: &str) -> (r: Self)
        ensures
            r@ == plain_diag(Severity::Warning, code@, message@),
    {
        let d = Diagnostic {
            severity: Severity::Warning,
            code,
            message: message.to_owned(),
            span: None,
            source_hint: None,
            notes: Vec::new(),
        };
        proof {
            assert(strings_model(d.notes@) =~= Seq::<Seq<char>>::empty());
        }
        d
    }

    pub fn with_span(self, span: DiagSpan) -> (r: Self)
        ensures
            r@ == (DiagModel { span: Some(span), ..self@ }),
    {
        let mut d = self;
        d.span = Some(span);
        d
    }

    pub fn with_source_hint(self, hint: &str) -> (r: Self)
        ensures
            r@ == (DiagModel { source_hint: Some(hint@), ..self@ }),
    {
        let mut d = self;
        d.source_hint = Some(hint.to_owned());
        d
    }

    /// Attach a follow-up note; notes keep the order in which they are added.
    pub fn with_note(self, msg: &str) -> (r: Self)
        ensures
            r@ == (DiagModel { notes: self@.notes.push(msg@), ..self@ }),
    {
        let mut d = self;
        let ghost old_notes = d.notes@;
        d.notes.push(msg.to_owned());
        proof {
            assert(strings_model(d.notes@) =~= strings_model(old_notes).push(msg@));
        }
        d
    }
}

/// The word naming a severity.
pub open spec fn severity_word(sev: Severity) -> Seq<char> {
    match sev {
        Severity::Error => "error"@,
        Severity::Warning => "warning"@,
        Severity::Note => "note"@,
    }
}

impl Severity {
    /// The word naming this severity.
    pub fn to_string(&self) -> (r: String)
        ensures
            r@ == severity_word(*self),
    {
        match self {
            Severity::Error => "error".to_owned(),
            Severity::Warning => "warning".to_owned(),
            Severity::Note => "note".to_owned(),
        }
    }
}

/// `start..end` in decimal.
pub open spec fn span_text(s: DiagSpan) -> Seq<char> {
    decimal(s.start as nat) + ".."@ + decimal(s.end as nat)
}

impl DiagSpan {
    /// `start..end` in decimal.
    pub fn to_string(&self) -> (r: String)
        ensures
            r@ == span_text(*self),
    {
        let mut out = String::new();
        push_decimal(&mut out, self.start);
        out.append("..");
        push_decimal(&mut out, self.end);
        proof {
            assert(out@ =~= span_text(*self));
        }
        out
    }
}

/// Each note on a line of its own, each line starting with `prefix`.
pub open spec fn notes_text(notes: Seq<Seq<char>>, prefix: Seq<char>) -> Seq<char>
    decreases notes.len(),
{
    if notes.len() == 0 {
        Seq::empty()
    } else {
        notes_text(notes.drop_last(), prefix) + prefix + notes.last()
    }
}

/// The text form of a diagnostic, used where no source is at hand:
/// `severity [code]: message`, then ` (at start..end)` when it has a span,
/// a `|` line with the hint and a `= note:` line per note.
pub open spec fn display_text(d: DiagModel) -> Seq<char> {
    severity_word(d.severity) + " ["@ + d.code + "]: "@ + d.message + match d.span {
        Some(s) => " (at "@ + span_text(s) + ")"@,
        None => Seq::empty(),
    } + match d.source_hint {
        Some(h) => "\n  | "@ + h,
        None => Seq::empty(),
    } + notes_text(d.notes, "\n  = note: "@)
}

/// The location shown after the arrow: `name:line:col`, or `line line:col`
/// for an unnamed source.
pub open spec fn location_text(name: Option<Seq<char>>, line: nat, col: nat) -> Seq<char> {
    match name {
        Some(n) => n + ":"@ + decimal(line) + ":"@ + decimal(col),
        None => "line "@ + decimal(line) + ":"@ + decimal(col),
    }
}

/// Number of carets under a span of `span_len` bytes starting at 1-based
/// column `col` of a line of `line_len` bytes: the span length, at least
/// one, and at most what is left of the line (but at least one).
pub open spec fn caret_count(span_len: int, line_len: int, col: int) -> int {
    let room = if line_len >= col - 1 { line_len - (col - 1) } else { 0 };
    let wanted = if span_len >= 1 { span_len } else { 1 };
    let room1 = if room >= 1 { room } else { 1 };
    if wanted <= room1 { wanted } else { room1 }
}

/// The note lines of a rendered diagnostic.
pub open spec fn rendered_notes(notes: Seq<Seq<char>>, blank: Seq<char>, style: Style) -> Seq<char>
    decreases notes.len(),
{
    if notes.len() == 0 {
        Seq::empty()
    } else {
        rendered_notes(notes.drop_last(), blank, style) + "\n"@ + blank + " "@ + painted(
            style,
            BLUE@,
            "="@,
        ) + " "@ + painted(style, severity_code(Severity::Note), "note:"@) + " "@ + notes.last()
    }
}

/// The gutter filler: as many spaces as the line number has digits.
pub open spec fn gutter_blank(b: Seq<u8>, span: DiagSpan) -> Seq<char> {
    repeat_char(' ', decimal((line_of(b, span.start as int) + 1) as nat).len())
}

/// The header, location, source line and caret line of a diagnostic with
/// span `span`, rendered against the source bytes `b`.
pub open spec fn rendered_head(
    d: DiagModel,
    span: DiagSpan,
    b: Seq<u8>,
    name: Option<Seq<char>>,
    style: Style,
) -> Seq<char> {
    let line = line_of(b, span.start as int) + 1;
    let col = column_of(b, span.start as int);
    let range = line_range(b, line);
    let blank = gutter_blank(b, span);
    let carets = repeat_char('^', caret_count(span.end - span.start, range.1 - range.0, col) as nat);
    let bar = painted(style, BLUE@, "|"@);
    painted(style, severity_code(d.severity), severity_word(d.severity)) + " "@
        + painted(style, BOLD@, "["@ + d.code + "]"@) + ": "@ + painted(style, BOLD@, d.message)
        + "\n"@ + blank + " "@ + painted(style, BLUE@, "-->"@) + " "@
        + location_text(name, line as nat, col as nat) + "\n"@ + blank + " "@ + bar + "\n"@
        + painted(style, BLUE@, decimal(line as nat)) + " "@ + bar + " "@ + line_chars(b, line)
        + "\n"@ + blank + " "@ + bar + " "@ + repeat_char(' ', (col - 1) as nat)
        + painted(style, severity_code(d.severity), carets)
}

/// A diagnostic rendered against the source bytes `b` (with display name
/// `name`): header, location, the source line and a caret line under the
/// span, then a line per note. Without a span it is `display_text`.
pub open spec fn render_text(d: DiagModel, b: Seq<u8>, name: Option<Seq<char>>, style: Style) -> Seq<char> {
    match d.span {
        None => display_text(d),
        Some(span) => rendered_head(d, span, b, name, style) + rendered_notes(
            d.notes,
            gutter_blank(b, span),
            style,
        ),
    }
}

impl Diagnostic {
    /// The diagnostic as text, for callers without a source at hand.
    pub fn to_string(&self) -> (r: String)
        ensures
            r@ == display_text(self@),
    {
        let mut out = self.severity.to_string();
        out.append(" [");
        out.append(self.code);
        out.append("]: ");
        out.append(self.message.as_str());
        let ghost head = out@;
        match &self.span {
            Some(span) => {
                out.append(" (at ");
                let st = span.to_string();
                out.append(st.as_str());
                out.append(")");
            },
            None => {},
        }
        let ghost with_span = out@;
        proof {
            assert(with_span =~= head + match self.span {
                Some(s) => " (at "@ + span_text(s) + ")"@,
                None => Seq::<char>::empty(),
            });
        }
        match &self.source_hint {
            Some(hint) => {
                out.append("\n  | ");
                out.append(hint.as_str());
            },
            None => {},
        }
        let ghost with_hint = out@;
        proof {
            assert(with_hint =~= with_span + match self@.source_hint {
                Some(h) => "\n  | "@ + h,
                None => Seq::<char>::empty(),
            });
        }
        let mut i: usize = 0;
        while i < self.notes.len()
            invariant
                i <= self.notes@.len(),
                out@ == with_hint + notes_text(strings_model(self.notes@).take(i as int), "\n  = note: "@),
            decreases self.notes@.len() - i,
        {
            out.append("\n  = note: ");
            out.append(self.notes[i].as_str());
            proof {
                let ns = strings_model(self.notes@);
                assert(ns.take(i + 1).drop_last() =~= ns.take(i as int));
                assert(out@ =~= with_hint + notes_text(ns.take(i + 1), "\n  = note: "@));
            }
            i = i + 1;
        }
        proof {
            assert(strings_model(self.notes@).take(i as int) =~= self@.notes);
            assert(out@ =~= display_text(self@));
        }
        out
    }

    /// Render without escape codes (for files and pipes).
    pub fn render(&self, source: &Source) -> (r: String)
        requires
            self.span matches Some(s) ==> s.start <= s.end,
        ensures
            r@ == render_text(self@, source.bytes(), source.display_name(), Style::Plain),
    {
        self.render_styled(source, Style::Plain)
    }

    /// Render with a source listing and a caret under the span; without a
    /// span, the text form.
    pub fn render_styled(&self, source: &Source, style: Style) -> (r: String)
        requires
            self.span matches Some(s) ==> s.start <= s.end,
        ensures
            r@ == render_text(self@, source.bytes(), source.display_name(), style),
    {
        let span = match self.span {
            Some(s) => s,
            None => return self.to_string(),
        };
        let ghost b = source.bytes();
        let (mut out, blank) = self.render_head(span, source, style);
        let ghost head = out@;

        // notes follow the caret line, in the order they were added
        let mut i: usize = 0;
        while i < self.notes.len()
            invariant
                i <= self.notes@.len(),
                blank@ == gutter_blank(b, span),
                out@ == head + rendered_notes(strings_model(self.notes@).take(i as int), blank@, style),
            decreases self.notes@.len() - i,
        {
            let eq = style.gutter("=");
            let note_word = style.severity(Severity::Note, "note:");
            out.append("\n");
            out.append(blank.as_str());
            out.append(" ");
            out.append(eq.as_str());
            out.append(" ");
            out.append(note_word.as_str());
            out.append(" ");
            out.append(self.notes[i].as_str());
            proof {
                let ns = strings_model(self.notes@);
                assert(ns.take(i + 1).drop_last() =~= ns.take(i as int));
                assert(out@ =~= head + rendered_notes(ns.take(i + 1), blank@, style));
            }
            i = i + 1;
        }
        proof {
            assert(strings_model(self.notes@).take(i as int) =~= self@.notes);
        }
        out
    }

    /// Everything but the notes of the rendering, and the gutter filler.
    fn render_head(&self, span: DiagSpan, source: &Source, style: Style) -> (r: (String, String))
        requires
            span.start <= span.end,
        ensures
            r.0@ == rendered_head(self@, span, source.bytes(), source.display_name(), style),
            r.1@ == gutter_blank(source.bytes(), span),
    {
        let ghost b = source.bytes();
        let (line, col) = source.line_col(span.start);
        let line_text = source.line_text(line);
        let line_str = crate::text::usize_to_string(line);
        let line_s = line_str.as_str();
        let gutter_w = line_s.len();
        proof {
            crate::text::lemma_decimal_ascii(line as nat);
            crate::text::lemma_decimal_len(line as nat);
            vstd::utf8::is_ascii_chars_encode_utf8(line_s@);
            assert(line_s@ == decimal(line as nat));
            assert(gutter_w == decimal(line as nat).len());
            assert(line == line_of(b, span.start as int) + 1);
        }
        // clamp the caret length so it never overflows the displayed line
        let caret_len = caret_length(span.end - span.start, line_text.len(), col);

        let mut carets_raw = String::new();
        push_repeated(&mut carets_raw, '^', caret_len);
        let mut blank = String::new();
        push_repeated(&mut blank, ' ', gutter_w);
        proof {
            assert(carets_raw@ =~= repeat_char('^', caret_len as nat));
            assert(blank@ =~= gutter_blank(b, span));
        }

        let location = location_string(source.name(), line, col);
        let sev_text = self.severity.to_string();
        let sev_word = style.severity(self.severity, sev_text.as_str());
        let mut code_text = "[".to_owned();
        code_text.append(self.code);
        code_text.append("]");
        let code_word = style.bold(code_text.as_str());
        let msg_word = style.bold(self.message.as_str());
        let arrow = style.gutter("-->");
        let bar = style.gutter("|");
        let line_num = style.gutter(line_str.as_str());
        let carets = style.caret(self.severity, carets_raw.as_str());

        proof {
            let range = line_range(b, line as int);
            assert(line_text.spec_bytes().len() == range.1 - range.0);
            assert(location@ == location_text(source.display_name(), line as nat, col as nat));
            assert(col == column_of(b, span.start as int));
            assert(code_text@ == "["@ + self@.code + "]"@);
            assert(line_num@ == painted(style, BLUE@, decimal(line as nat)));
            assert(carets@ == painted(style, severity_code(self.severity), repeat_char('^', caret_count(span.end - span.start, range.1 - range.0, col as int) as nat)));
        }
        let mut out = sev_word;
        out.append(" ");
        out.append(code_word.as_str());
        out.append(": ");
        out.append(msg_word.as_str());
        out.append("\n");
        out.append(blank.as_str());
        out.append(" ");
        out.append(arrow.as_str());
        out.append(" ");
        out.append(location.as_str());
        out.append("\n");
        out.append(blank.as_str());
        out.append(" ");
        out.append(bar.as_str());
        out.append("\n");
        out.append(line_num.as_str());
        out.append(" ");
        out.append(bar.as_str());
        out.append(" ");
        out.append(line_text);
        out.append("\n");
        out.append(blank.as_str());
        out.append(" ");
        out.append(bar.as_str());
        out.append(" ");
        push_repeated(&mut out, ' ', col - 1);
        out.append(carets.as_str());
        (out, blank)
    }
}

/// Number of carets: see `caret_count`.
fn caret_length(span_len: usize, line_len: usize, col: usize) -> (r: usize)
    requires
        col >= 1,
    ensures
        r == caret_count(span_len as int, line_len as int, col as int),
{
    let pad = col - 1;
    let visible_room = if line_len >= pad { line_len - pad } else { 0 };
    let wanted = if span_len >= 1 { span_len } else { 1 };
    let room = if visible_room >= 1 { visible_room } else { 1 };
    if wanted <= room { wanted } else { room }
}

/// `name:line:col`, or `line line:col` without a name.
fn location_string(name: Option<&str>, line: usize, col: usize) -> (r: String)
    ensures
        r@ == location_text(
            match name {
                Some(n) => Some(n@),
                None => None,
            },
            line as nat,
            col as nat,
        ),
{
    let mut location = String::new();
    match name {
        Some(n) => {
            location.append(n);
            location.append(":");
        },
        None => {
            location.append("line ");
        },
    }
    push_decimal(&mut location, line);
    location.append(":");
    push_decimal(&mut location, col);
    proof {
        assert(location@ =~= location_text(
            match name {
                Some(n) => Some(n@),
                None => None,
            },
            line as nat,
            col as nat,
        ));
    }
    location
}

} // verus!
