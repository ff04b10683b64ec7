//! What the parser computes, as functions on token values.
//!
//! The functions below are a recursive-descent definition over the token
//! sequence `t`. A `PState` carries the index of the next token and the
//! diagnostics reported so far. Positions never move backwards; where a
//! definition continues from a position returned by a nested call it uses
//! `advanced(.., p)`, which leaves a state at or beyond `p` unchanged and
//! makes the decreasing measure visible.

use vstd::prelude::*;

use crate::ast::{node_span, ArgModel, NodeModel};
use crate::diagnostics::{plain_diag, DiagModel, DiagSpan, Severity};
use crate::lexer::{span_union, Lexeme, Span, TokenModel};
use crate::text::trim;

verus! {

/// Where a run of nodes ends (the stopping token itself is not consumed).
#[derive(Clone, Copy, Debug, PartialEq, Eq)]
pub enum Stop {
    /// Only at the end of the token stream.
    Never,
    /// At `}`.
    EndGroup,
    /// At `$`.
    MathShift,
    /// At the character `]`.
    CloseBracket,
    /// At the control symbol `\]`.
    CloseDisplay,
    /// At the control word `\end`.
    End,
}

pub open spec fn is_control_seq(k: Lexeme, name: Seq<char>) -> bool {
    k matches Lexeme::ControlSeq(n) && n == name
}

pub open spec fn stops_at(stop: Stop, k: Lexeme) -> bool {
    match stop {
        Stop::Never => false,
        Stop::EndGroup => k is EndGroup,
        Stop::MathShift => k is MathShift,
        Stop::CloseBracket => k == Lexeme::Char(']'),
        Stop::CloseDisplay => is_control_seq(k, "]"@),
        Stop::End => is_control_seq(k, "end"@),
    }
}

/// Parser state: index of the next token and diagnostics so far.
pub struct PState {
    pub pos: int,
    pub errors: Seq<DiagModel>,
}

pub open spec fn diag_span_of(s: Span) -> DiagSpan {
    DiagSpan { start: s.start, end: s.end }
}

/// An error diagnostic pointing at `span`.
pub open spec fn error_at(code: Seq<char>, message: Seq<char>, span: Span) -> DiagModel {
    DiagModel { span: Some(diag_span_of(span)), ..plain_diag(Severity::Error, code, message) }
}

pub open spec fn report(st: PState, d: DiagModel) -> PState {
    PState { errors: st.errors.push(d), ..st }
}

pub open spec fn skip(st: PState) -> PState {
    PState { pos: st.pos + 1, ..st }
}

/// Number of tokens left after `st.pos` (zero once past the end).
pub open spec fn remaining(t: Seq<TokenModel>, st: PState) -> int {
    if st.pos <= t.len() {
        t.len() - st.pos
    } else {
        0
    }
}

/// `st`, with its position raised to at least `p`.
pub open spec fn advanced(st: PState, p: int) -> PState {
    PState { pos: if st.pos >= p { st.pos } else { p }, ..st }
}

/// Appends character `c` (at `span`) to the trailing text node, or starts a
/// new text node.
pub open spec fn push_text(nodes: Seq<NodeModel>, c: char, span: Span) -> Seq<NodeModel> {
    if nodes.len() > 0 && nodes.last() is Text {
        match nodes.last() {
            NodeModel::Text(t, s) => nodes.update(
                nodes.len() - 1,
                NodeModel::Text(t.push(c), span_union(s, span)),
            ),
            _ => nodes,
        }
    } else {
        nodes.push(NodeModel::Text(seq![c], span))
    }
}

/// Span of the last node of `ns`, if any.
pub open spec fn last_span(ns: Seq<NodeModel>) -> Option<Span> {
    if ns.len() > 0 {
        Some(node_span(ns.last()))
    } else {
        None
    }
}

pub open spec fn extend(span: Span, other: Option<Span>) -> Span {
    match other {
        Some(s) => span_union(span, s),
        None => span,
    }
}

/// Every node is a text node.
pub open spec fn all_text(ns: Seq<NodeModel>) -> bool {
    forall|k: int| 0 <= k < ns.len() ==> #[trigger] ns[k] is Text
}

/// Concatenated text of the text nodes in `ns`.
pub open spec fn text_concat(ns: Seq<NodeModel>) -> Seq<char>
    decreases ns.len(),
{
    if ns.len() == 0 {
        Seq::empty()
    } else {
        text_concat(ns.drop_last()) + match ns.last() {
            NodeModel::Text(t, _) => t,
            _ => Seq::empty(),
        }
    }
}

/// The environment name among `args[i..]`: the first mandatory argument
/// whose children are all text and whose trimmed text is non-empty, with
/// its index. Arguments holding anything but text are passed over.
pub open spec fn env_name_from(args: Seq<ArgModel>, i: int) -> Option<(int, Seq<char>)>
    decreases args.len() - i,
{
    if i < 0 || i >= args.len() {
        None
    } else {
        match args[i] {
            ArgModel::Mandatory(ch) => if !all_text(ch) {
                env_name_from(args, i + 1)
            } else if trim(text_concat(ch)).len() > 0 {
                Some((i, trim(text_concat(ch))))
            } else {
                env_name_from(args, i + 1)
            },
            ArgModel::Optional(_) => env_name_from(args, i + 1),
        }
    }
}

pub open spec fn env_name(args: Seq<ArgModel>) -> Option<(int, Seq<char>)> {
    env_name_from(args, 0)
}

pub proof fn lemma_env_name_index(args: Seq<ArgModel>, i: int)
    requires
        0 <= i,
    ensures
        env_name_from(args, i) matches Some((j, _)) ==> i <= j < args.len(),
    decreases args.len() - i,
{
    if i < args.len() {
        lemma_env_name_index(args, i + 1);
    }
}

/// Message of the error for an `\end{close}` that does not match `\begin{name}`.
pub open spec fn mismatch_message(close: Seq<char>, name: Seq<char>) -> Seq<char> {
    "'\\end{"@ + close + "}' does not match '\\begin{"@ + name + "}'"@
}

pub open spec fn mismatch_note(name: Seq<char>) -> Seq<char> {
    "the matching '\\begin' opened the '"@ + name + "' environment"@
}

pub open spec fn unclosed_env_message(name: Seq<char>) -> Seq<char> {
    "unclosed '\\begin{"@ + name + "}'"@
}

/// The name found by `env_name`, or the empty text.
pub open spec fn name_or_empty(n: Option<(int, Seq<char>)>) -> Seq<char> {
    match n {
        Some((_, s)) => s,
        None => Seq::empty(),
    }
}

/// Nodes from `st.pos` until the end of the tokens or a token at which
/// `stop` stops, appended to `acc`.
pub open spec fn parse_nodes_spec(
    t: Seq<TokenModel>,
    stop: Stop,
    st: PState,
    acc: Seq<NodeModel>,
) -> (Seq<NodeModel>, PState)
    decreases remaining(t, st), 0int,
{
    if st.pos < 0 || st.pos >= t.len() || stops_at(stop, t[st.pos].kind) {
        (acc, st)
    } else {
        let (acc2, st2) = token_spec(t, t[st.pos], skip(st), acc);
        parse_nodes_spec(t, stop, advanced(st2, st.pos + 1), acc2)
    }
}

/// A delimited run (`{...}`, `$...$`, `\[...\]`) whose opening token, at
/// `open`, has been consumed: the children, whether the closer was found,
/// and the state after it.
pub open spec fn delimited_spec(t: Seq<TokenModel>, stop: Stop, st: PState) -> (
    Seq<NodeModel>,
    Option<Span>,
    PState,
)
    decreases remaining(t, st), 1int,
{
    let (ch, st2) = parse_nodes_spec(t, stop, st, Seq::empty());
    if 0 <= st2.pos < t.len() && stops_at(stop, t[st2.pos].kind) {
        (ch, Some(t[st2.pos].span), skip(st2))
    } else {
        (ch, None, st2)
    }
}

/// The nodes after handling token `tok`, which has just been consumed
/// (`st.pos` is the index after it).
pub open spec fn token_spec(t: Seq<TokenModel>, tok: TokenModel, st: PState, acc: Seq<NodeModel>) -> (
    Seq<NodeModel>,
    PState,
)
    decreases remaining(t, st), 5int,
{
    let span = tok.span;
    match tok.kind {
        Lexeme::Char(c) => (push_text(acc, c, span), st),
        Lexeme::Space => (push_text(acc, ' ', span), st),
        Lexeme::ParagraphBreak => (acc.push(NodeModel::ParagraphBreak(span)), st),
        Lexeme::Comment(b) => (acc.push(NodeModel::Comment(b, span)), st),
        Lexeme::ControlSeq(name) => if name == "begin"@ {
            let (n, st2) = env_spec(t, span, st);
            (acc.push(n), st2)
        } else if name == "end"@ {
            let st1 = report(
                st,
                error_at("E043"@, "stray '\\end' (no matching '\\begin')"@, span),
            );
            let (_a, st2) = args_spec(t, st1, Seq::empty());
            (acc, st2)
        } else if name == "["@ {
            let (ch, close, st2) = delimited_spec(t, Stop::CloseDisplay, st);
            match close {
                Some(c) => (acc.push(NodeModel::DisplayMath(ch, span_union(span, c))), st2),
                None => (
                    acc.push(NodeModel::DisplayMath(ch, span)),
                    report(st2, error_at("E031"@, "unclosed '\\[' (display math)"@, span)),
                ),
            }
        } else if name == "]"@ {
            (acc, report(st, error_at("E032"@, "stray '\\]' (no matching '\\[')"@, span)))
        } else {
            let (args, st2) = args_spec(t, st, Seq::empty());
            (
                acc.push(
                    NodeModel::Command { name, args, span: extend(span, args_reach(t, st, None)) },
                ),
                st2,
            )
        },
        Lexeme::BeginGroup => {
            let (ch, close, st2) = delimited_spec(t, Stop::EndGroup, st);
            match close {
                Some(c) => (acc.push(NodeModel::Group(ch, span_union(span, c))), st2),
                None => (
                    acc.push(NodeModel::Group(ch, span)),
                    report(st2, error_at("E020"@, "unclosed '{'"@, span)),
                ),
            }
        },
        Lexeme::MathShift => {
            let (ch, close, st2) = delimited_spec(t, Stop::MathShift, st);
            match close {
                Some(c) => (acc.push(NodeModel::Math(ch, span_union(span, c))), st2),
                None => (
                    acc.push(NodeModel::Math(ch, span)),
                    report(st2, error_at("E030"@, "unclosed '$' (math mode)"@, span)),
                ),
            }
        },
        Lexeme::AlignTab => (acc.push(NodeModel::AlignTab(span)), st),
        Lexeme::Tilde => (acc.push(NodeModel::Tilde(span)), st),
        _ => (acc, st),
    }
}

/// Arguments `[...]` / `{...}` directly following (a single space token
/// before each is skipped), appended to `acc`.
pub open spec fn args_spec(t: Seq<TokenModel>, st: PState, acc: Seq<ArgModel>) -> (
    Seq<ArgModel>,
    PState,
)
    decreases remaining(t, st), 3int,
{
    let st1 = if 0 <= st.pos < t.len() && t[st.pos].kind is Space {
        skip(st)
    } else {
        st
    };
    if 0 <= st1.pos < t.len() && t[st1.pos].kind is BeginGroup {
        let (a, st2) = arg_spec(t, st1, true);
        args_spec(t, advanced(st2, st1.pos + 1), acc.push(a))
    } else if 0 <= st1.pos < t.len() && t[st1.pos].kind == Lexeme::Char('[') {
        let (a, st2) = arg_spec(t, st1, false);
        args_spec(t, advanced(st2, st1.pos + 1), acc.push(a))
    } else {
        (acc, st1)
    }
}

/// How far the argument whose opening token is at `st.pos` reaches: from
/// its opener to its closer, or, when it is left open, to its last child.
pub open spec fn arg_reach(t: Seq<TokenModel>, st: PState, mandatory: bool) -> Span
    decreases remaining(t, st), 2int,
{
    let open = t[st.pos].span;
    let (ch, close, _st2) = delimited_spec(
        t,
        if mandatory { Stop::EndGroup } else { Stop::CloseBracket },
        skip(st),
    );
    match close {
        Some(c) => span_union(open, c),
        None => extend(open, last_span(ch)),
    }
}

/// How far the last of the arguments read by `args_spec` from `st` reaches
/// (`last` when there is none).
pub open spec fn args_reach(t: Seq<TokenModel>, st: PState, last: Option<Span>) -> Option<Span>
    decreases remaining(t, st), 3int,
{
    let st1 = if 0 <= st.pos < t.len() && t[st.pos].kind is Space {
        skip(st)
    } else {
        st
    };
    if 0 <= st1.pos < t.len() && t[st1.pos].kind is BeginGroup {
        let (_a, st2) = arg_spec(t, st1, true);
        args_reach(t, advanced(st2, st1.pos + 1), Some(arg_reach(t, st1, true)))
    } else if 0 <= st1.pos < t.len() && t[st1.pos].kind == Lexeme::Char('[') {
        let (_a, st2) = arg_spec(t, st1, false);
        args_reach(t, advanced(st2, st1.pos + 1), Some(arg_reach(t, st1, false)))
    } else {
        last
    }
}

/// One argument whose opening token (`{` when `mandatory`, else `[`) is at
/// `st.pos`.
pub open spec fn arg_spec(t: Seq<TokenModel>, st: PState, mandatory: bool) -> (ArgModel, PState)
    decreases remaining(t, st), 2int,
{
    let open = t[st.pos].span;
    if mandatory {
        let (ch, close, st2) = delimited_spec(t, Stop::EndGroup, skip(st));
        (
            ArgModel::Mandatory(ch),
            if close is Some {
                st2
            } else {
                report(st2, error_at("E021"@, "unclosed mandatory argument"@, open))
            },
        )
    } else {
        let (ch, close, st2) = delimited_spec(t, Stop::CloseBracket, skip(st));
        (
            ArgModel::Optional(ch),
            if close is Some {
                st2
            } else {
                report(st2, error_at("E022"@, "unclosed optional argument"@, open))
            },
        )
    }
}

/// `\begin{name} ... \end{name}` whose `\begin` token (at `begin_span`) has
/// been consumed.
pub open spec fn env_spec(t: Seq<TokenModel>, begin_span: Span, st: PState) -> (NodeModel, PState)
    decreases remaining(t, st), 4int,
{
    let (args, st1) = args_spec(t, st, Seq::empty());
    match env_name(args) {
        None => (
            NodeModel::Command { name: "begin"@, args, span: begin_span },
            report(st1, error_at("E040"@, "'\\begin' missing environment name"@, begin_span)),
        ),
        Some((idx, name)) => {
            let rest = args.remove(idx);
            let (body, st2r) = parse_nodes_spec(t, Stop::End, advanced(st1, st.pos), Seq::empty());
            let st2 = advanced(st2r, st.pos);
            if 0 <= st2.pos < t.len() && is_control_seq(t[st2.pos].kind, "end"@) {
                let end_span = t[st2.pos].span;
                let (end_args, st3) = args_spec(t, skip(st2), Seq::empty());
                let close = env_name(end_args);
                let st4 = if close matches Some((_, c)) && c == name {
                    st3
                } else {
                    report(
                        st3,
                        DiagModel {
                            notes: seq![mismatch_note(name)],
                            ..error_at("E042"@, mismatch_message(name_or_empty(close), name), end_span)
                        },
                    )
                };
                (
                    NodeModel::Environment {
                        name,
                        args: rest,
                        body,
                        span: span_union(begin_span, extend(end_span, args_reach(t, skip(st2), None))),
                    },
                    st4,
                )
            } else {
                let st3 = report(st2, error_at("E041"@, unclosed_env_message(name), begin_span));
                let close = if body.len() > 0 { node_span(body.last()) } else { begin_span };
                (
                    NodeModel::Environment { name, args: rest, body, span: span_union(begin_span, close) },
                    st3,
                )
            }
        },
    }
}

/// Document body and diagnostics produced by parsing the token values `t`.
pub open spec fn parse_tokens(t: Seq<TokenModel>) -> (Seq<NodeModel>, Seq<DiagModel>) {
    let (body, st) = parse_nodes_spec(t, Stop::Never, PState { pos: 0, errors: Seq::empty() }, Seq::empty());
    (body, st.errors)
}

} // verus!
