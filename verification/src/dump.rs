//! Text of the token and AST dumps (`--dump-tokens`, `--dump-ast`).
//!
//! Token dumps colour by token kind: control sequences magenta, group
//! markers yellow, `$` cyan, `& # ^ _ ~` blue, comments green, spaces and
//! paragraph breaks dim, characters plain; spans are dim and the header
//! bold. AST dumps show variant names in cyan, argument kinds in magenta,
//! embedded strings in green and spans dim.

use vstd::prelude::*;

use crate::diagnostics::strings_model;
use crate::ast::{
    args_model, lemma_args_model, lemma_nodes_model, node_span, nodes_model, Arg, ArgModel, Node,
    NodeModel,
};
use crate::lexer::{lexeme_text, tokens_model, Lexeme, Span, Token, TokenKind, TokenModel};
use crate::style::{painted, wrap, Style};
use crate::text::{decimal, lemma_decimal_ascii, lemma_decimal_len, push_decimal, push_repeated, repeat_char};

verus! {

broadcast use {lemma_args_model, lemma_nodes_model};

pub const RESET: &'static str = "\x1b[0m";
pub const BOLD: &'static str = "\x1b[1m";
pub const DIM: &'static str = "\x1b[2m";
pub const GREEN: &'static str = "\x1b[32m";
pub const YELLOW: &'static str = "\x1b[1;33m";
pub const BLUE: &'static str = "\x1b[1;34m";
pub const MAGENTA: &'static str = "\x1b[1;35m";
pub const CYAN: &'static str = "\x1b[1;36m";

/// Wrap `s` in `code` ... reset when the style is ANSI; else pass it through.
pub fn paint(style: Style, code: &str, s: &str) -> (r: String)
    ensures
        r@ == painted(style, code@, s@),
{
    wrap(style, code, s)
}

/// The colour of a token kind in a token dump; characters have none.
pub open spec fn kind_colour(k: Lexeme) -> Option<Seq<char>> {
    match k {
        Lexeme::ControlSeq(_) => Some(MAGENTA@),
        Lexeme::BeginGroup | Lexeme::EndGroup => Some(YELLOW@),
        Lexeme::MathShift => Some(CYAN@),
        Lexeme::AlignTab | Lexeme::Parameter | Lexeme::Superscript | Lexeme::Subscript
        | Lexeme::Tilde => Some(BLUE@),
        Lexeme::Comment(_) => Some(GREEN@),
        Lexeme::Space | Lexeme::ParagraphBreak => Some(DIM@),
        Lexeme::Char(_) => None,
    }
}

/// SGR code for a given token kind.
pub fn kind_code(kind: &TokenKind) -> (r: Option<&'static str>)
    ensures
        match r {
            Some(c) => kind_colour(kind@) == Some(c@),
            None => kind_colour(kind@) is None,
        },
{
    match kind {
        TokenKind::ControlSeq(_) => Some(MAGENTA),
        TokenKind::BeginGroup | TokenKind::EndGroup => Some(YELLOW),
        TokenKind::MathShift => Some(CYAN),
        TokenKind::AlignTab | TokenKind::Parameter | TokenKind::Superscript | TokenKind::Subscript
        | TokenKind::Tilde => Some(BLUE),
        TokenKind::Comment(_) => Some(GREEN),
        TokenKind::Space | TokenKind::ParagraphBreak => Some(DIM),
        TokenKind::Char(_) => None,
    }
}

/// `@ start..end`.
pub open spec fn span_label(s: Span) -> Seq<char> {
    "@ "@ + decimal(s.start as nat) + ".."@ + decimal(s.end as nat)
}

pub fn format_span(span: Span) -> (r: String)
    ensures
        r@ == span_label(span),
{
    let mut out = "@ ".to_owned();
    push_decimal(&mut out, span.start);
    out.append("..");
    push_decimal(&mut out, span.end);
    out
}

/// `s` right-aligned in a field of `width` characters.
pub open spec fn pad_left(s: Seq<char>, width: nat) -> Seq<char> {
    if s.len() < width { repeat_char(' ', (width - s.len()) as nat) + s } else { s }
}

/// `s` left-aligned in a field of `width` characters.
pub open spec fn pad_right(s: Seq<char>, width: nat) -> Seq<char> {
    if s.len() < width { s + repeat_char(' ', (width - s.len()) as nat) } else { s }
}

/// Number of characters in the decimal form of `n` (its digits are ASCII,
/// so this is also its byte length).
fn decimal_width(n: usize) -> (r: usize)
    ensures
        r == decimal(n as nat).len(),
{
    let s = crate::text::usize_to_string(n);
    let t = s.as_str();
    proof {
        lemma_decimal_ascii(n as nat);
        lemma_decimal_len(n as nat);
        vstd::utf8::is_ascii_chars_encode_utf8(t@);
        if n == 0 {
            assert(decimal(0) == seq!['0']);
        }
    }
    t.len()
}

/// One token line of a token dump: the span (start right-aligned and end
/// left-aligned in six columns, dim) and the token's text in its colour.
pub open spec fn token_line(t: TokenModel, style: Style) -> Seq<char> {
    "  "@ + painted(
        style,
        DIM@,
        pad_left(decimal(t.span.start as nat), 6) + ".."@ + pad_right(decimal(t.span.end as nat), 6),
    ) + "  "@ + match kind_colour(t.kind) {
        Some(code) => painted(style, code, lexeme_text(t.kind)),
        None => lexeme_text(t.kind),
    }
}

/// Lines of a token dump: a bold header with the token count, then a line
/// per token.
pub open spec fn token_dump(ts: Seq<TokenModel>, style: Style) -> Seq<Seq<char>> {
    seq![painted(style, BOLD@, "=== tokens ("@ + decimal(ts.len()) + ") ==="@)] + ts.map_values(
        |t: TokenModel| token_line(t, style),
    )
}

fn token_line_string(tok: &Token, style: Style) -> (r: String)
    ensures
        r@ == token_line(tok@, style),
{
    let sw = decimal_width(tok.span.start);
    let ew = decimal_width(tok.span.end);
    let mut span_text = String::new();
    if sw < 6 {
        push_repeated(&mut span_text, ' ', 6 - sw);
    }
    push_decimal(&mut span_text, tok.span.start);
    span_text.append("..");
    push_decimal(&mut span_text, tok.span.end);
    if ew < 6 {
        push_repeated(&mut span_text, ' ', 6 - ew);
    }
    proof {
        assert(span_text@ =~= pad_left(decimal(tok.span.start as nat), 6) + ".."@ + pad_right(
            decimal(tok.span.end as nat),
            6,
        ));
    }
    let span = paint(style, DIM, span_text.as_str());
    let kind_text = tok.kind.to_string();
    let kind = match kind_code(&tok.kind) {
        Some(code) => paint(style, code, kind_text.as_str()),
        None => kind_text,
    };
    let mut line = "  ".to_owned();
    line.append(span.as_str());
    line.append("  ");
    line.append(kind.as_str());
    line
}

/// The lines of the token dump for `--dump-tokens`.
pub fn dump_tokens_lines(tokens: &Vec<Token>, style: Style) -> (r: Vec<String>)
    ensures
        r@.map_values(|s: String| s@) == token_dump(tokens_model(tokens@), style),
{
    let mut header_text = "=== tokens (".to_owned();
    push_decimal(&mut header_text, tokens.len());
    header_text.append(") ===");
    let header = paint(style, BOLD, header_text.as_str());
    let mut lines: Vec<String> = Vec::new();
    lines.push(header);
    let ghost tm = tokens_model(tokens@);
    let mut i: usize = 0;
    while i < tokens.len()
        invariant
            i <= tokens@.len(),
            tm == tokens_model(tokens@),
            lines@.len() == i + 1,
            lines@[0]@ == painted(style, BOLD@, "=== tokens ("@ + decimal(tokens@.len() as nat) + ") ==="@),
            forall|k: int| 0 <= k < i ==> #[trigger] lines@[k + 1]@ == token_line(tm[k], style),
        decreases tokens@.len() - i,
    {
        let line = token_line_string(&tokens[i], style);
        lines.push(line);
        i = i + 1;
    }
    proof {
        let want = token_dump(tm, style);
        let got = lines@.map_values(|s: String| s@);
        assert forall|j: int| 0 <= j < want.len() implies got[j] == want[j] by {
            if j > 0 {
                assert(lines@[(j - 1) + 1]@ == token_line(tm[j - 1], style));
            }
        }
        assert(got =~= want);
    }
    lines
}

/// The debug form of a string, as `format!("{:?}", s)` writes it: in double
/// quotes, with Rust's escapes.
pub uninterp spec fn debug_text(s: Seq<char>) -> Seq<char>;

/// `format!("{:?}", s)` on a string slice. Its contract names the result
/// (`debug_text`) and says nothing of its characters.
#[verifier::external_body]
fn debug_string(s: &str) -> (r: String)
    ensures
        r@ == debug_text(s@),
{
    format!("{:?}", s)
}

/// One header line of an AST dump: indentation, variant name, optional
/// detail and the node's span.
pub open spec fn ast_line(indent: Seq<char>, variant: Seq<char>, detail: Option<Seq<char>>, span: Span, style: Style) -> Seq<char> {
    indent + painted(style, CYAN@, variant) + match detail {
        Some(d) => " "@ + painted(style, GREEN@, d),
        None => Seq::empty(),
    } + " "@ + painted(style, DIM@, span_label(span))
}

/// Lines of the AST dump of a node at indentation `indent`; children are
/// indented two more spaces.
pub open spec fn node_lines(n: NodeModel, indent: Seq<char>, style: Style) -> Seq<Seq<char>>
    decreases n,
{
    let inner = indent + "  "@;
    let span = node_span(n);
    match n {
        NodeModel::Text(t, _) => seq![ast_line(indent, "Text"@, Some(debug_text(t)), span, style)],
        NodeModel::ParagraphBreak(_) => seq![ast_line(indent, "ParagraphBreak"@, None, span, style)],
        NodeModel::Command { name, args, .. } => seq![
            ast_line(indent, "Command"@, Some("\"\\"@ + name + "\""@), span, style),
        ] + args_lines(args, inner, style),
        NodeModel::Group(c, _) => seq![ast_line(indent, "Group"@, None, span, style)] + nodes_lines(c, inner, style),
        NodeModel::Math(c, _) => seq![ast_line(indent, "Math"@, None, span, style)] + nodes_lines(c, inner, style),
        NodeModel::DisplayMath(c, _) => seq![ast_line(indent, "DisplayMath"@, None, span, style)]
            + nodes_lines(c, inner, style),
        NodeModel::Comment(b, _) => seq![ast_line(indent, "Comment"@, Some(debug_text(b)), span, style)],
        NodeModel::AlignTab(_) => seq![ast_line(indent, "AlignTab"@, None, span, style)],
        NodeModel::Tilde(_) => seq![ast_line(indent, "Tilde"@, None, span, style)],
        NodeModel::Environment { name, args, body, .. } => seq![
            ast_line(indent, "Environment"@, Some(debug_text(name)), span, style),
        ] + args_lines(args, inner, style) + nodes_lines(body, inner, style),
    }
}

pub open spec fn nodes_lines(ns: Seq<NodeModel>, indent: Seq<char>, style: Style) -> Seq<Seq<char>>
    decreases ns,
{
    if ns.len() == 0 {
        Seq::empty()
    } else {
        nodes_lines(ns.drop_last(), indent, style) + node_lines(ns.last(), indent, style)
    }
}

/// Lines of the AST dump of an argument: its kind, then its children.
pub open spec fn arg_lines(a: ArgModel, indent: Seq<char>, style: Style) -> Seq<Seq<char>>
    decreases a,
{
    match a {
        ArgModel::Mandatory(c) => seq![indent + painted(style, MAGENTA@, "Mandatory"@)] + nodes_lines(
            c,
            indent + "  "@,
            style,
        ),
        ArgModel::Optional(c) => seq![indent + painted(style, MAGENTA@, "Optional"@)] + nodes_lines(
            c,
            indent + "  "@,
            style,
        ),
    }
}

pub open spec fn args_lines(args: Seq<ArgModel>, indent: Seq<char>, style: Style) -> Seq<Seq<char>>
    decreases args,
{
    if args.len() == 0 {
        Seq::empty()
    } else {
        args_lines(args.drop_last(), indent, style) + arg_lines(args.last(), indent, style)
    }
}

/// Lines of an AST dump: a bold header with the number of top-level
/// nodes, then each node at an indentation of two spaces.
pub open spec fn ast_dump(ns: Seq<NodeModel>, style: Style) -> Seq<Seq<char>> {
    seq![painted(style, BOLD@, "=== AST ("@ + decimal(ns.len()) + " top-level node(s)) ==="@)]
        + nodes_lines(ns, "  "@, style)
}

/// Appends `line` to `out`.
fn emit(out: &mut Vec<String>, line: String)
    ensures
        strings_model(final(out)@) == strings_model(old(out)@).push(line@),
{
    let ghost before = strings_model(out@);
    out.push(line);
    proof {
        assert(strings_model(out@) =~= before.push(line@));
    }
}

/// One header line of an AST dump (see `ast_line`); `detail` is the
/// node's quoted text, if it shows one.
pub fn header_line(indent: &String, variant: &str, detail: Option<String>, span: Span, style: Style) -> (r: String)
    ensures
        r@ == ast_line(
            indent@,
            variant@,
            match detail {
                Some(d) => Some(d@),
                None => None,
            },
            span,
            style,
        ),
{
    let mut line = indent.clone();
    let v = paint(style, CYAN, variant);
    line.append(v.as_str());
    match &detail {
        Some(d) => {
            line.append(" ");
            let g = paint(style, GREEN, d.as_str());
            line.append(g.as_str());
        },
        None => {},
    }
    line.append(" ");
    let sp = format_span(span);
    let dim = paint(style, DIM, sp.as_str());
    line.append(dim.as_str());
    proof {
        assert(line@ =~= ast_line(
            indent@,
            variant@,
            match detail {
                Some(d) => Some(d@),
                None => None,
            },
            span,
            style,
        ));
    }
    line
}

fn deeper(indent: &String) -> (r: String)
    ensures
        r@ == indent@ + "  "@,
{
    let mut s = indent.clone();
    s.append("  ");
    s
}

/// Appends the AST dump lines of `node` at indentation `indent` to `out`.
fn print_node(node: &Node, indent: &String, style: Style, out: &mut Vec<String>)
    ensures
        strings_model(final(out)@) == strings_model(old(out)@) + node_lines(node@, indent@, style),
    decreases node,
{
    let ghost before = strings_model(out@);
    let span = node.span();
    let inner = deeper(indent);
    match node {
        Node::Text(text, _) => {
            let d = debug_string(text.as_str());
            emit(out, header_line(indent, "Text", Some(d), span, style));
        },
        Node::ParagraphBreak(_) => emit(out, header_line(indent, "ParagraphBreak", None, span, style)),
        Node::Command { name, args, .. } => {
            let mut d = "\"\\".to_owned();
            d.append(name.as_str());
            d.append("\"");
            emit(out, header_line(indent, "Command", Some(d), span, style));
            print_args(args, &inner, style, out);
        },
        Node::Group(children, _) => {
            emit(out, header_line(indent, "Group", None, span, style));
            print_nodes(children, &inner, style, out);
        },
        Node::Math(children, _) => {
            emit(out, header_line(indent, "Math", None, span, style));
            print_nodes(children, &inner, style, out);
        },
        Node::DisplayMath(children, _) => {
            emit(out, header_line(indent, "DisplayMath", None, span, style));
            print_nodes(children, &inner, style, out);
        },
        Node::Comment(body, _) => {
            let d = debug_string(body.as_str());
            emit(out, header_line(indent, "Comment", Some(d), span, style));
        },
        Node::AlignTab(_) => emit(out, header_line(indent, "AlignTab", None, span, style)),
        Node::Tilde(_) => emit(out, header_line(indent, "Tilde", None, span, style)),
        Node::Environment { name, args, body, .. } => {
            let d = debug_string(name.as_str());
            emit(out, header_line(indent, "Environment", Some(d), span, style));
            print_args(args, &inner, style, out);
            print_nodes(body, &inner, style, out);
        },
    }
    proof {
        assert(strings_model(out@) =~= before + node_lines(node@, indent@, style));
    }
}

/// Appends the AST dump lines of each node to `out`.
fn print_nodes(nodes: &Vec<Node>, indent: &String, style: Style, out: &mut Vec<String>)
    ensures
        strings_model(final(out)@) == strings_model(old(out)@) + nodes_lines(nodes_model(nodes@), indent@, style),
    decreases nodes,
{
    let ghost before = strings_model(out@);
    let ghost nm = nodes_model(nodes@);
    let mut i: usize = 0;
    proof {
        assert(nm.take(0) =~= Seq::<NodeModel>::empty());
        assert(before + nodes_lines(nm.take(0), indent@, style) =~= before);
    }
    while i < nodes.len()
        invariant
            i <= nodes@.len(),
            nm == nodes_model(nodes@),
            strings_model(out@) == before + nodes_lines(nm.take(i as int), indent@, style),
        decreases nodes@.len() - i,
    {
        proof {
            assert(decreases_to!(nodes => nodes@[i as int]));
        }
        print_node(&nodes[i], indent, style, out);
        proof {
            assert(nm.take(i + 1).drop_last() =~= nm.take(i as int));
            assert(nm.take(i + 1).last() == nodes@[i as int]@);
            assert(strings_model(out@) =~= before + nodes_lines(nm.take(i + 1), indent@, style));
        }
        i = i + 1;
    }
    proof {
        assert(nm.take(i as int) =~= nm);
    }
}

/// Appends the AST dump lines of an argument to `out`.
fn print_arg(arg: &Arg, indent: &String, style: Style, out: &mut Vec<String>)
    ensures
        strings_model(final(out)@) == strings_model(old(out)@) + arg_lines(arg@, indent@, style),
    decreases arg,
{
    let ghost before = strings_model(out@);
    let inner = deeper(indent);
    match arg {
        Arg::Mandatory(children) => {
            let mut label = indent.clone();
            let l = paint(style, MAGENTA, "Mandatory");
            label.append(l.as_str());
            emit(out, label);
            print_nodes(children, &inner, style, out);
        },
        Arg::Optional(children) => {
            let mut label = indent.clone();
            let l = paint(style, MAGENTA, "Optional");
            label.append(l.as_str());
            emit(out, label);
            print_nodes(children, &inner, style, out);
        },
    }
    proof {
        assert(strings_model(out@) =~= before + arg_lines(arg@, indent@, style));
    }
}

/// Appends the AST dump lines of each argument to `out`.
fn print_args(args: &Vec<Arg>, indent: &String, style: Style, out: &mut Vec<String>)
    ensures
        strings_model(final(out)@) == strings_model(old(out)@) + args_lines(args_model(args@), indent@, style),
    decreases args,
{
    let ghost before = strings_model(out@);
    let ghost am = args_model(args@);
    let mut i: usize = 0;
    proof {
        assert(am.take(0) =~= Seq::<ArgModel>::empty());
        assert(before + args_lines(am.take(0), indent@, style) =~= before);
    }
    while i < args.len()
        invariant
            i <= args@.len(),
            am == args_model(args@),
            strings_model(out@) == before + args_lines(am.take(i as int), indent@, style),
        decreases args@.len() - i,
    {
        proof {
            assert(decreases_to!(args => args@[i as int]));
        }
        print_arg(&args[i], indent, style, out);
        proof {
            assert(am.take(i + 1).drop_last() =~= am.take(i as int));
            assert(am.take(i + 1).last() == args@[i as int]@);
            assert(strings_model(out@) =~= before + args_lines(am.take(i + 1), indent@, style));
        }
        i = i + 1;
    }
    proof {
        assert(am.take(i as int) =~= am);
    }
}

/// The lines of the AST dump for `--dump-ast`.
pub fn dump_ast_lines(nodes: &Vec<Node>, style: Style) -> (r: Vec<String>)
    ensures
        strings_model(r@) == ast_dump(nodes_model(nodes@), style),
{
    let mut header_text = "=== AST (".to_owned();
    push_decimal(&mut header_text, nodes.len());
    header_text.append(" top-level node(s)) ===");
    let header = paint(style, BOLD, header_text.as_str());
    let mut lines: Vec<String> = Vec::new();
    emit(&mut lines, header);
    let indent = "  ".to_owned();
    print_nodes(nodes, &indent, style, &mut lines);
    proof {
        assert(strings_model(lines@) =~= ast_dump(nodes_model(nodes@), style));
    }
    lines
}

} // verus!
