//! Properties of diagnostic rendering.

use vstd::prelude::*;

use crate::diagnostics::{
    display_text, gutter_blank, location_text, notes_text, render_text, rendered_head, rendered_notes,
    severity_word, DiagModel,
};
use crate::source::{lemma_line_bytes, line_chars, line_of, line_range};
use crate::dump::{
    arg_lines, args_lines, ast_dump, ast_line, node_lines, nodes_lines, pad_left, pad_right, token_dump,
    token_line,
};
use crate::ast::{ArgModel, NodeModel};
use crate::lexer::{lexeme_text, TokenModel};
use crate::style::{severity_code, Style};
use crate::diagnostics::{caret_count, Severity};
use crate::text::{decimal, digit_char, repeat_char};
use vstd::utf8::{
    decode_utf8, decode_utf8_encode_utf8, encode_scalar, encode_utf8, valid_utf8,
};

verus! {

/// `s` holds no escape character (the byte that starts an ANSI sequence).
pub open spec fn escape_free(s: Seq<char>) -> bool {
    forall|i: int| 0 <= i < s.len() ==> s[i] != '\x1b'
}

pub broadcast proof fn lemma_escape_free_add(a: Seq<char>, b: Seq<char>)
    requires
        escape_free(a),
        escape_free(b),
    ensures
        #[trigger] escape_free(a + b),
{
    assert forall|i: int| 0 <= i < (a + b).len() implies (a + b)[i] != '\x1b' by {
        if i >= a.len() {
            assert((a + b)[i] == b[i - a.len()]);
        }
    }
}

/// `b` holds no escape byte.
pub open spec fn bytes_escape_free(b: Seq<u8>) -> bool {
    forall|i: int| 0 <= i < b.len() ==> b[i] != 0x1b
}

/// An escape character among `chars` shows up as an escape byte in their
/// UTF-8 encoding.
proof fn lemma_encode_keeps_escape(chars: Seq<char>, i: int)
    requires
        0 <= i < chars.len(),
        chars[i] == '\x1b',
    ensures
        !bytes_escape_free(encode_utf8(chars)),
    decreases i,
{
    let e = encode_utf8(chars);
    let first = encode_scalar(chars[0] as u32);
    let rest = encode_utf8(chars.drop_first());
    assert(e == first + rest);
    if i == 0 {
        assert(('\x1b' as u32) == 0x1b);
        assert((0x1bu32 & 0x7f) as u8 == 0x1b) by (bit_vector);
        assert(first == seq![0x1bu8]);
        assert(e[0] == 0x1b);
    } else {
        lemma_encode_keeps_escape(chars.drop_first(), i - 1);
        let j = choose|j: int| 0 <= j < rest.len() && rest[j] == 0x1b;
        assert(e[first.len() + j] == rest[j]);
    }
}

/// Valid UTF-8 without an escape byte decodes to text without an escape
/// character.
proof fn lemma_decode_escape_free(b: Seq<u8>)
    requires
        valid_utf8(b),
        bytes_escape_free(b),
    ensures
        escape_free(decode_utf8(b)),
{
    let chars = decode_utf8(b);
    if !escape_free(chars) {
        let i = choose|i: int| 0 <= i < chars.len() && chars[i] == '\x1b';
        lemma_encode_keeps_escape(chars, i);
        decode_utf8_encode_utf8(b);
    }
}

proof fn lemma_escape_free_repeat(c: char, n: nat)
    requires
        c != '\x1b',
    ensures
        escape_free(repeat_char(c, n)),
{
}

proof fn lemma_escape_free_decimal(n: nat)
    ensures
        escape_free(decimal(n)),
    decreases n,
{
    if n >= 10 {
        lemma_escape_free_decimal(n / 10);
        let d = digit_char(n % 10);
        assert(escape_free(seq![d]));
        assert(decimal(n) == decimal(n / 10) + seq![d]);
        lemma_escape_free_add(decimal(n / 10), seq![d]);
    } else {
        assert(escape_free(seq![digit_char(n)]));
    }
}

proof fn lemma_escape_free_notes_text(notes: Seq<Seq<char>>, prefix: Seq<char>)
    requires
        escape_free(prefix),
        forall|k: int| 0 <= k < notes.len() ==> escape_free(#[trigger] notes[k]),
    ensures
        escape_free(notes_text(notes, prefix)),
    decreases notes.len(),
{
    broadcast use lemma_escape_free_add;

    if notes.len() > 0 {
        lemma_escape_free_notes_text(notes.drop_last(), prefix);
        assert(escape_free(notes.last()));
    }
}

proof fn lemma_escape_free_rendered_notes(notes: Seq<Seq<char>>, blank: Seq<char>)
    requires
        escape_free(blank),
        forall|k: int| 0 <= k < notes.len() ==> escape_free(#[trigger] notes[k]),
    ensures
        escape_free(rendered_notes(notes, blank, Style::Plain)),
    decreases notes.len(),
{
    broadcast use lemma_escape_free_add;

    if notes.len() > 0 {
        lemma_escape_free_rendered_notes(notes.drop_last(), blank);
        assert(escape_free(notes.last()));
        lemma_escape_free_literals();
    }
}

/// The fixed pieces of text that rendering puts around the parts of a
/// diagnostic.
proof fn lemma_escape_free_literals()
    ensures
        escape_free(" "@),
        escape_free("\n"@),
        escape_free(" ["@),
        escape_free("]: "@),
        escape_free("["@),
        escape_free("]"@),
        escape_free(": "@),
        escape_free(" (at "@),
        escape_free(")"@),
        escape_free("\n  | "@),
        escape_free("\n  = note: "@),
        escape_free("-->"@),
        escape_free("|"@),
        escape_free("="@),
        escape_free("note:"@),
        escape_free("line "@),
        escape_free(":"@),
        escape_free(".."@),
        escape_free("error"@),
        escape_free("warning"@),
        escape_free("note"@),
{
    reveal_strlit(" ");
    reveal_strlit("\n");
    reveal_strlit(" [");
    reveal_strlit("]: ");
    reveal_strlit("[");
    reveal_strlit("]");
    reveal_strlit(": ");
    reveal_strlit(" (at ");
    reveal_strlit(")");
    reveal_strlit("\n  | ");
    reveal_strlit("\n  = note: ");
    reveal_strlit("-->");
    reveal_strlit("|");
    reveal_strlit("=");
    reveal_strlit("note:");
    reveal_strlit("line ");
    reveal_strlit(":");
    reveal_strlit("..");
    reveal_strlit("error");
    reveal_strlit("warning");
    reveal_strlit("note");
}

/// Plain rendering adds no escape codes: when the diagnostic's code,
/// message, source hint and notes, the source's name and the source text
/// (valid UTF-8 bytes `b`) hold no escape character, neither does the
/// plainly rendered diagnostic.
pub proof fn lemma_plain_render_escape_free(d: DiagModel, b: Seq<u8>, name: Option<Seq<char>>)
    requires
        escape_free(d.code),
        escape_free(d.message),
        d.source_hint matches Some(h) ==> escape_free(h),
        forall|k: int| 0 <= k < d.notes.len() ==> escape_free(#[trigger] d.notes[k]),
        name matches Some(n) ==> escape_free(n),
        valid_utf8(b),
        bytes_escape_free(b),
    ensures
        escape_free(render_text(d, b, name, Style::Plain)),
{
    broadcast use lemma_escape_free_add;

    lemma_escape_free_literals();
    assert(escape_free(severity_word(d.severity)));
    match d.span {
        None => {
            lemma_escape_free_notes_text(d.notes, "\n  = note: "@);
            assert(escape_free(Seq::<char>::empty()));
            assert(escape_free(display_text(d)));
        },
        Some(span) => {
            let line = line_of(b, span.start as int) + 1;
            let blank = gutter_blank(b, span);
            lemma_line_bytes(b, line);
            let seg = b.subrange(line_range(b, line).0, line_range(b, line).1);
            assert(bytes_escape_free(seg)) by {
                assert forall|i: int| 0 <= i < seg.len() implies seg[i] != 0x1b by {
                    assert(seg[i] == b[line_range(b, line).0 + i]);
                }
            }
            lemma_decode_escape_free(seg);
            assert(escape_free(line_chars(b, line)));
            lemma_escape_free_repeat(' ', decimal(line as nat).len());
            lemma_escape_free_decimal(line as nat);
            lemma_escape_free_decimal(crate::source::column_of(b, span.start as int) as nat);
            assert(escape_free(location_text(name, line as nat, crate::source::column_of(b, span.start as int) as nat)));
            lemma_escape_free_repeat(' ', (crate::source::column_of(b, span.start as int) - 1) as nat);
            lemma_escape_free_repeat(
                '^',
                crate::diagnostics::caret_count(
                    span.end - span.start,
                    crate::source::line_range(b, line).1 - crate::source::line_range(b, line).0,
                    crate::source::column_of(b, span.start as int),
                ) as nat,
            );
            assert(escape_free(rendered_head(d, span, b, name, Style::Plain)));
            lemma_escape_free_rendered_notes(d.notes, blank);
        },
    }
}

/// Without a span there is nothing to point at: rendering gives the text
/// form of the diagnostic, whatever the source and style.
pub proof fn lemma_render_without_span(d: DiagModel, b: Seq<u8>, name: Option<Seq<char>>, style: Style)
    requires
        d.span is None,
    ensures
        render_text(d, b, name, style) == display_text(d),
{
}

/// A plain token dump adds no escape codes: when no token's text holds an
/// escape character, no line of the dump does.
pub proof fn lemma_plain_token_dump_escape_free(ts: Seq<TokenModel>)
    requires
        forall|k: int| 0 <= k < ts.len() ==> escape_free(lexeme_text(#[trigger] ts[k].kind)),
    ensures
        forall|k: int|
            0 <= k < token_dump(ts, Style::Plain).len() ==> escape_free(
                #[trigger] token_dump(ts, Style::Plain)[k],
            ),
{
    broadcast use lemma_escape_free_add;

    lemma_escape_free_literals();
    reveal_strlit("  ");
    reveal_strlit("=== tokens (");
    reveal_strlit(") ===");
    assert(escape_free("  "@));
    assert(escape_free("=== tokens ("@));
    assert(escape_free(") ==="@));
    let lines = token_dump(ts, Style::Plain);
    assert forall|k: int| 0 <= k < lines.len() implies escape_free(#[trigger] lines[k]) by {
        if k == 0 {
            lemma_escape_free_decimal(ts.len());
        } else {
            let t = ts[k - 1];
            assert(lines[k] == token_line(t, Style::Plain));
            assert(escape_free(lexeme_text(t.kind)));
            let a = decimal(t.span.start as nat);
            let b = decimal(t.span.end as nat);
            lemma_escape_free_decimal(t.span.start as nat);
            lemma_escape_free_decimal(t.span.end as nat);
            if a.len() < 6 {
                lemma_escape_free_repeat(' ', (6 - a.len()) as nat);
            }
            if b.len() < 6 {
                lemma_escape_free_repeat(' ', (6 - b.len()) as nat);
            }
            assert(escape_free(pad_left(a, 6)));
            assert(escape_free(pad_right(b, 6)));
        }
    }
}

/// `s` begins with `p`.
pub open spec fn starts_with_text(s: Seq<char>, p: Seq<char>) -> bool {
    p.len() <= s.len() && s.subrange(0, p.len() as int) == p
}

/// `s` ends with `p`.
pub open spec fn ends_with_text(s: Seq<char>, p: Seq<char>) -> bool {
    p.len() <= s.len() && s.subrange(s.len() - p.len(), s.len() as int) == p
}

/// The colours of the severities: bold red for errors, bold yellow for
/// warnings, bold cyan for notes.
pub proof fn lemma_severity_colours()
    ensures
        severity_code(Severity::Error) == "\x1b[1;31m"@,
        severity_code(Severity::Warning) == "\x1b[1;33m"@,
        severity_code(Severity::Note) == "\x1b[1;36m"@,
{
}

pub broadcast proof fn lemma_starts_with_extend(a: Seq<char>, c: Seq<char>, p: Seq<char>)
    requires
        starts_with_text(a, p),
    ensures
        #[trigger] starts_with_text(a + c, p),
{
    assert((a + c).subrange(0, p.len() as int) =~= a.subrange(0, p.len() as int));
}

/// A rendered diagnostic with a span starts with its severity word in the
/// severity's colour.
proof fn lemma_head_starts(d: DiagModel, span: crate::diagnostics::DiagSpan, b: Seq<u8>, name: Option<Seq<char>>)
    ensures
        starts_with_text(
            rendered_head(d, span, b, name, Style::Ansi),
            severity_code(d.severity) + crate::diagnostics::severity_word(d.severity) + crate::style::RESET@,
        ),
{
    broadcast use lemma_starts_with_extend;

    let p = severity_code(d.severity) + crate::diagnostics::severity_word(d.severity) + crate::style::RESET@;
    assert(starts_with_text(p, p)) by {
        assert(p.subrange(0, p.len() as int) =~= p);
    }
}

/// A rendered diagnostic with a span ends with its carets (at least one)
/// in the severity's colour, followed by its notes.
proof fn lemma_head_ends(d: DiagModel, span: crate::diagnostics::DiagSpan, b: Seq<u8>, name: Option<Seq<char>>)
    ensures
        exists|n: nat|
            n >= 1 && ends_with_text(
                rendered_head(d, span, b, name, Style::Ansi),
                #[trigger] (severity_code(d.severity) + repeat_char('^', n) + crate::style::RESET@),
            ),
{
    let line = line_of(b, span.start as int) + 1;
    let col = crate::source::column_of(b, span.start as int);
    let range = line_range(b, line);
    let n = caret_count(span.end - span.start, range.1 - range.0, col);
    let last = severity_code(d.severity) + repeat_char('^', n as nat) + crate::style::RESET@;
    let head = rendered_head(d, span, b, name, Style::Ansi);
    let init = head.subrange(0, head.len() - last.len());
    assert(head.subrange(head.len() - last.len(), head.len() as int) =~= last);
    assert(ends_with_text(head, last));
}

/// In ANSI style a rendered error starts with the word `error` in bold red
/// and a warning with `warning` in bold yellow; when there are no notes,
/// the rendering ends with the carets (at least one) in that same colour.
pub proof fn lemma_ansi_render_colours(d: DiagModel, b: Seq<u8>, name: Option<Seq<char>>)
    requires
        d.span is Some,
    ensures
        d.severity == Severity::Error ==> starts_with_text(
            render_text(d, b, name, Style::Ansi),
            "\x1b[1;31merror\x1b[0m"@,
        ),
        d.severity == Severity::Warning ==> starts_with_text(
            render_text(d, b, name, Style::Ansi),
            "\x1b[1;33mwarning\x1b[0m"@,
        ),
        d.severity == Severity::Error && d.notes.len() == 0 ==> exists|n: nat|
            n >= 1 && ends_with_text(
                render_text(d, b, name, Style::Ansi),
                #[trigger] ("\x1b[1;31m"@ + repeat_char('^', n) + "\x1b[0m"@),
            ),
        d.severity == Severity::Warning && d.notes.len() == 0 ==> exists|n: nat|
            n >= 1 && ends_with_text(
                render_text(d, b, name, Style::Ansi),
                #[trigger] ("\x1b[1;33m"@ + repeat_char('^', n) + "\x1b[0m"@),
            ),
{
    reveal_strlit("\x1b[1;31merror\x1b[0m");
    reveal_strlit("\x1b[1;33mwarning\x1b[0m");
    reveal_strlit("\x1b[1;31m");
    reveal_strlit("\x1b[1;33m");
    reveal_strlit("\x1b[0m");
    reveal_strlit("error");
    reveal_strlit("warning");
    let span = d.span->0;
    let r = render_text(d, b, name, Style::Ansi);
    let head = rendered_head(d, span, b, name, Style::Ansi);
    let notes = rendered_notes(d.notes, gutter_blank(b, span), Style::Ansi);
    assert(r == head + notes);
    lemma_head_starts(d, span, b, name);
    lemma_starts_with_extend(head, notes, severity_code(d.severity) + crate::diagnostics::severity_word(d.severity) + crate::style::RESET@);
    if d.severity == Severity::Error {
        assert(severity_code(d.severity) + crate::diagnostics::severity_word(d.severity) + crate::style::RESET@ =~= "\x1b[1;31merror\x1b[0m"@);
    }
    if d.severity == Severity::Warning {
        assert(severity_code(d.severity) + crate::diagnostics::severity_word(d.severity) + crate::style::RESET@ =~= "\x1b[1;33mwarning\x1b[0m"@);
    }
    if d.notes.len() == 0 {
        assert(notes =~= Seq::<char>::empty());
        assert(r =~= head);
        lemma_head_ends(d, span, b, name);
        let n = choose|n: nat| n >= 1 && ends_with_text(head, #[trigger] (severity_code(d.severity) + repeat_char('^', n) + crate::style::RESET@));
        if d.severity == Severity::Error {
            assert(severity_code(d.severity) + repeat_char('^', n) + crate::style::RESET@ =~= "\x1b[1;31m"@ + repeat_char('^', n) + "\x1b[0m"@);
        }
        if d.severity == Severity::Warning {
            assert(severity_code(d.severity) + repeat_char('^', n) + crate::style::RESET@ =~= "\x1b[1;33m"@ + repeat_char('^', n) + "\x1b[0m"@);
        }
    }
}

/// Number of nodes and arguments in the tree of `n`, `n` included.
pub open spec fn node_count(n: NodeModel) -> nat
    decreases n,
{
    1 + match n {
        NodeModel::Command { args, .. } => args_count(args),
        NodeModel::Group(c, _) => nodes_count(c),
        NodeModel::Math(c, _) => nodes_count(c),
        NodeModel::DisplayMath(c, _) => nodes_count(c),
        NodeModel::Environment { args, body, .. } => args_count(args) + nodes_count(body),
        _ => 0,
    }
}

pub open spec fn nodes_count(ns: Seq<NodeModel>) -> nat
    decreases ns,
{
    if ns.len() == 0 {
        0
    } else {
        nodes_count(ns.drop_last()) + node_count(ns.last())
    }
}

pub open spec fn arg_count(a: ArgModel) -> nat
    decreases a,
{
    1 + match a {
        ArgModel::Mandatory(c) => nodes_count(c),
        ArgModel::Optional(c) => nodes_count(c),
    }
}

pub open spec fn args_count(args: Seq<ArgModel>) -> nat
    decreases args,
{
    if args.len() == 0 {
        0
    } else {
        args_count(args.drop_last()) + arg_count(args.last())
    }
}

/// Every line of `lines` starts with `indent`.
pub open spec fn all_start_with(lines: Seq<Seq<char>>, indent: Seq<char>) -> bool {
    forall|k: int| 0 <= k < lines.len() ==> starts_with_text(#[trigger] lines[k], indent)
}

proof fn lemma_starts_with_shorter(s: Seq<char>, a: Seq<char>, b: Seq<char>)
    requires
        starts_with_text(s, a + b),
    ensures
        starts_with_text(s, a),
{
    let whole = s.subrange(0, (a + b).len() as int);
    assert(whole == a + b);
    assert forall|i: int| 0 <= i < a.len() implies s.subrange(0, a.len() as int)[i] == a[i] by {
        assert(s[i] == whole[i]);
        assert((a + b)[i] == a[i]);
    }
    assert(s.subrange(0, a.len() as int) =~= a);
}

proof fn lemma_ast_line_starts(indent: Seq<char>, variant: Seq<char>, detail: Option<Seq<char>>, span: crate::lexer::Span, style: Style)
    ensures
        starts_with_text(ast_line(indent, variant, detail, span, style), indent),
{
    broadcast use lemma_starts_with_extend;

    let p = indent + crate::style::painted(style, crate::dump::CYAN@, variant);
    assert(p.subrange(0, indent.len() as int) =~= indent);
}

proof fn lemma_all_start_with_add(x: Seq<Seq<char>>, y: Seq<Seq<char>>, indent: Seq<char>)
    requires
        all_start_with(x, indent),
        all_start_with(y, indent),
    ensures
        all_start_with(x + y, indent),
{
    assert forall|k: int| 0 <= k < (x + y).len() implies starts_with_text(#[trigger] (x + y)[k], indent) by {
        if k >= x.len() {
            assert((x + y)[k] == y[k - x.len()]);
        }
    }
}

proof fn lemma_all_start_with_shorter(x: Seq<Seq<char>>, a: Seq<char>, b: Seq<char>)
    requires
        all_start_with(x, a + b),
    ensures
        all_start_with(x, a),
{
    assert forall|k: int| 0 <= k < x.len() implies starts_with_text(#[trigger] x[k], a) by {
        lemma_starts_with_shorter(x[k], a, b);
    }
}

proof fn lemma_header_starts(first: Seq<char>, indent: Seq<char>, rest: Seq<char>)
    requires
        first == indent + rest,
    ensures
        starts_with_text(first, indent),
{
    assert(first.subrange(0, indent.len() as int) =~= indent);
}

/// The head line and the lines under it, for a node whose dump is
/// `seq![head] + below`.
proof fn lemma_head_and_below(head: Seq<char>, below: Seq<Seq<char>>, indent: Seq<char>)
    requires
        starts_with_text(head, indent),
        all_start_with(below, indent + "  "@),
    ensures
        ({
            let lines = seq![head] + below;
            &&& all_start_with(lines, indent)
            &&& forall|k: int| 1 <= k < lines.len() ==> starts_with_text(#[trigger] lines[k], indent + "  "@)
        }),
{
    let lines = seq![head] + below;
    lemma_all_start_with_shorter(below, indent, "  "@);
    assert forall|k: int| 0 <= k < lines.len() implies starts_with_text(#[trigger] lines[k], indent) by {
        if k > 0 {
            assert(lines[k] == below[k - 1]);
        }
    }
    assert forall|k: int| 1 <= k < lines.len() implies starts_with_text(#[trigger] lines[k], indent + "  "@) by {
        assert(lines[k] == below[k - 1]);
    }
}

proof fn lemma_node_lines_shape(n: NodeModel, indent: Seq<char>, style: Style)
    ensures
        node_lines(n, indent, style).len() == node_count(n),
        all_start_with(node_lines(n, indent, style), indent),
        forall|k: int|
            1 <= k < node_lines(n, indent, style).len() ==> starts_with_text(
                #[trigger] node_lines(n, indent, style)[k],
                indent + "  "@,
            ),
    decreases n,
{
    let inner = indent + "  "@;
    let span = crate::ast::node_span(n);
    match n {
        NodeModel::Text(t, _) => {
            lemma_ast_line_starts(indent, "Text"@, Some(crate::dump::debug_text(t)), span, style);
        },
        NodeModel::Command { name, args, .. } => {
            lemma_args_lines_shape(args, inner, style);
            let head = ast_line(indent, "Command"@, Some("\"\\"@ + name + "\""@), span, style);
            lemma_ast_line_starts(indent, "Command"@, Some("\"\\"@ + name + "\""@), span, style);
            lemma_head_and_below(head, args_lines(args, inner, style), indent);
        },
        NodeModel::Group(c, _) => {
            lemma_nodes_lines_shape(c, inner, style);
            let head = ast_line(indent, "Group"@, None, span, style);
            lemma_ast_line_starts(indent, "Group"@, None, span, style);
            lemma_head_and_below(head, nodes_lines(c, inner, style), indent);
        },
        NodeModel::Math(c, _) => {
            lemma_nodes_lines_shape(c, inner, style);
            let head = ast_line(indent, "Math"@, None, span, style);
            lemma_ast_line_starts(indent, "Math"@, None, span, style);
            lemma_head_and_below(head, nodes_lines(c, inner, style), indent);
        },
        NodeModel::DisplayMath(c, _) => {
            lemma_nodes_lines_shape(c, inner, style);
            let head = ast_line(indent, "DisplayMath"@, None, span, style);
            lemma_ast_line_starts(indent, "DisplayMath"@, None, span, style);
            lemma_head_and_below(head, nodes_lines(c, inner, style), indent);
        },
        NodeModel::Environment { name, args, body, .. } => {
            lemma_args_lines_shape(args, inner, style);
            lemma_nodes_lines_shape(body, inner, style);
            lemma_all_start_with_add(args_lines(args, inner, style), nodes_lines(body, inner, style), inner);
            let head = ast_line(indent, "Environment"@, Some(crate::dump::debug_text(name)), span, style);
            lemma_ast_line_starts(indent, "Environment"@, Some(crate::dump::debug_text(name)), span, style);
            lemma_head_and_below(head, args_lines(args, inner, style) + nodes_lines(body, inner, style), indent);
            assert(seq![head] + args_lines(args, inner, style) + nodes_lines(body, inner, style)
                =~= seq![head] + (args_lines(args, inner, style) + nodes_lines(body, inner, style)));
        },
        NodeModel::Comment(b, _) => {
            let head = ast_line(indent, "Comment"@, Some(crate::dump::debug_text(b)), span, style);
            lemma_ast_line_starts(indent, "Comment"@, Some(crate::dump::debug_text(b)), span, style);
        },
        NodeModel::ParagraphBreak(_) => {
            let head = ast_line(indent, "ParagraphBreak"@, None, span, style);
            lemma_ast_line_starts(indent, "ParagraphBreak"@, None, span, style);
        },
        NodeModel::AlignTab(_) => {
            let head = ast_line(indent, "AlignTab"@, None, span, style);
            lemma_ast_line_starts(indent, "AlignTab"@, None, span, style);
        },
        NodeModel::Tilde(_) => {
            let head = ast_line(indent, "Tilde"@, None, span, style);
            lemma_ast_line_starts(indent, "Tilde"@, None, span, style);
        },
    }
}

proof fn lemma_nodes_lines_shape(ns: Seq<NodeModel>, indent: Seq<char>, style: Style)
    ensures
        nodes_lines(ns, indent, style).len() == nodes_count(ns),
        all_start_with(nodes_lines(ns, indent, style), indent),
    decreases ns,
{
    if ns.len() > 0 {
        lemma_nodes_lines_shape(ns.drop_last(), indent, style);
        lemma_node_lines_shape(ns.last(), indent, style);
        lemma_all_start_with_add(nodes_lines(ns.drop_last(), indent, style), node_lines(ns.last(), indent, style), indent);
    }
}

proof fn lemma_arg_lines_shape(a: ArgModel, indent: Seq<char>, style: Style)
    ensures
        arg_lines(a, indent, style).len() == arg_count(a),
        all_start_with(arg_lines(a, indent, style), indent),
    decreases a,
{
    match a {
        ArgModel::Mandatory(c) => {
            lemma_nodes_lines_shape(c, indent + "  "@, style);
            let head = indent + crate::style::painted(style, crate::dump::MAGENTA@, "Mandatory"@);
            lemma_header_starts(head, indent, crate::style::painted(style, crate::dump::MAGENTA@, "Mandatory"@));
            lemma_head_and_below(head, nodes_lines(c, indent + "  "@, style), indent);
        },
        ArgModel::Optional(c) => {
            lemma_nodes_lines_shape(c, indent + "  "@, style);
            let head = indent + crate::style::painted(style, crate::dump::MAGENTA@, "Optional"@);
            lemma_header_starts(head, indent, crate::style::painted(style, crate::dump::MAGENTA@, "Optional"@));
            lemma_head_and_below(head, nodes_lines(c, indent + "  "@, style), indent);
        },
    }
}

proof fn lemma_args_lines_shape(args: Seq<ArgModel>, indent: Seq<char>, style: Style)
    ensures
        args_lines(args, indent, style).len() == args_count(args),
        all_start_with(args_lines(args, indent, style), indent),
    decreases args,
{
    if args.len() > 0 {
        lemma_args_lines_shape(args.drop_last(), indent, style);
        lemma_arg_lines_shape(args.last(), indent, style);
        lemma_all_start_with_add(args_lines(args.drop_last(), indent, style), arg_lines(args.last(), indent, style), indent);
    }
}

/// Every node of the tree, at every depth, shows in the AST dump: the dump
/// has a header line and one line per node and per argument. The lines of
/// a node start with its indentation, and those of everything under it
/// (its arguments, children and body) with two spaces more.
pub proof fn lemma_ast_dump_shows_every_node(ns: Seq<NodeModel>, style: Style)
    ensures
        ast_dump(ns, style).len() == 1 + nodes_count(ns),
        forall|n: NodeModel, indent: Seq<char>, k: int|
            1 <= k < node_lines(n, indent, style).len() ==> starts_with_text(
                #[trigger] node_lines(n, indent, style)[k],
                indent + "  "@,
            ),
        forall|n: NodeModel, indent: Seq<char>|
            #[trigger] node_lines(n, indent, style).len() == node_count(n),
{
    lemma_nodes_lines_shape(ns, "  "@, style);
    assert forall|n: NodeModel, indent: Seq<char>, k: int|
        1 <= k < node_lines(n, indent, style).len() implies starts_with_text(
        #[trigger] node_lines(n, indent, style)[k],
        indent + "  "@,
    ) by {
        lemma_node_lines_shape(n, indent, style);
    }
    assert forall|n: NodeModel, indent: Seq<char>| #[trigger] node_lines(n, indent, style).len() == node_count(n) by {
        lemma_node_lines_shape(n, indent, style);
    }
}

} // verus!
