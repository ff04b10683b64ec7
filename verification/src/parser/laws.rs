//! Properties of parsing that hold for every token sequence.
//!
//! Each group of lemmas below follows the recursive structure of the
//! definitions in `spec`, one lemma per definition, and carries one
//! invariant through all of them. The first: the position stays within the
//! tokens and never moves back, and every diagnostic reported so far is a
//! parser error that points at a token. The second: every node built so
//! far, at every depth, covers bytes that the tokens cover. The third:
//! text is gathered into runs, with no empty or adjacent text nodes.

use vstd::prelude::*;

use crate::diagnostics::{DiagModel, DiagSpan, Severity};
use crate::lexer::TokenModel;

use super::spec::{
    advanced, arg_spec, args_spec, delimited_spec, diag_span_of, env_name, env_spec, error_at, extend,
    is_control_seq, arg_reach, args_reach, last_span, lemma_env_name_index, mismatch_message, mismatch_note,
    name_or_empty, parse_nodes_spec, parse_tokens, push_text, remaining, skip, stops_at, token_spec,
    unclosed_env_message, PState, Stop,
};
use crate::ast::{node_span, ArgModel, NodeModel};
use crate::lexer::{lex, span_union, Span};
use crate::lexer_laws::lemma_tokens_cover_source;
use crate::text::byte_len;

verus! {

/// One of the codes that the parser reports.
pub open spec fn is_parser_code(c: Seq<char>) -> bool {
    ||| c == "E020"@
    ||| c == "E021"@
    ||| c == "E022"@
    ||| c == "E030"@
    ||| c == "E031"@
    ||| c == "E032"@
    ||| c == "E040"@
    ||| c == "E041"@
    ||| c == "E042"@
    ||| c == "E043"@
}

/// `sp` is the span of one of the tokens `t`.
pub open spec fn points_at_token(t: Seq<TokenModel>, sp: Option<DiagSpan>) -> bool {
    exists|k: int| 0 <= k < t.len() && sp == Some(diag_span_of(#[trigger] t[k].span))
}

/// An error with a parser code that points at one of the tokens `t`.
pub open spec fn parser_diag(t: Seq<TokenModel>, d: DiagModel) -> bool {
    &&& d.severity == Severity::Error
    &&& is_parser_code(d.code)
    &&& points_at_token(t, d.span)
}

pub open spec fn good_state(t: Seq<TokenModel>, st: PState) -> bool {
    &&& 0 <= st.pos <= t.len()
    &&& forall|i: int| 0 <= i < st.errors.len() ==> parser_diag(t, #[trigger] st.errors[i])
}

proof fn lemma_report(t: Seq<TokenModel>, st: PState, d: DiagModel)
    requires
        good_state(t, st),
        parser_diag(t, d),
    ensures
        good_state(t, PState { errors: st.errors.push(d), ..st }),
{
    let e = st.errors.push(d);
    assert forall|i: int| 0 <= i < e.len() implies parser_diag(t, #[trigger] e[i]) by {
        if i < st.errors.len() {
            assert(e[i] == st.errors[i]);
        }
    }
}

proof fn lemma_nodes(t: Seq<TokenModel>, stop: Stop, st: PState, acc: Seq<NodeModel>)
    requires
        good_state(t, st),
    ensures
        good_state(t, parse_nodes_spec(t, stop, st, acc).1),
        st.pos <= parse_nodes_spec(t, stop, st, acc).1.pos,
        ({
            let p = parse_nodes_spec(t, stop, st, acc).1.pos;
            p == t.len() || stops_at(stop, t[p].kind)
        }),
    decreases t.len() - st.pos, 0int,
{
    if !(st.pos < 0 || st.pos >= t.len() || stops_at(stop, t[st.pos].kind)) {
        let (acc2, st2) = token_spec(t, t[st.pos], skip(st), acc);
        lemma_token(t, t[st.pos], skip(st), acc);
        lemma_nodes(t, stop, st2, acc2);
    }
}

proof fn lemma_delimited(t: Seq<TokenModel>, stop: Stop, st: PState)
    requires
        good_state(t, st),
    ensures
        good_state(t, delimited_spec(t, stop, st).2),
        st.pos <= delimited_spec(t, stop, st).2.pos,
    decreases t.len() - st.pos, 1int,
{
    lemma_nodes(t, stop, st, Seq::empty());
}

proof fn lemma_token(t: Seq<TokenModel>, tok: TokenModel, st: PState, acc: Seq<NodeModel>)
    requires
        good_state(t, st),
        1 <= st.pos,
        tok == t[st.pos - 1],
    ensures
        good_state(t, token_spec(t, tok, st, acc).1),
        st.pos <= token_spec(t, tok, st, acc).1.pos,
    decreases t.len() - st.pos, 5int,
{
    let span = tok.span;
    let here = Some(diag_span_of(span));
    assert(points_at_token(t, here)) by {
        assert(here == Some(diag_span_of(t[st.pos - 1].span)));
    }
    match tok.kind {
        crate::lexer::Lexeme::ControlSeq(name) => {
            if name == "begin"@ {
                lemma_env(t, span, st);
            } else if name == "end"@ {
                let d = error_at("E043"@, "stray '\\end' (no matching '\\begin')"@, span);
                lemma_report(t, st, d);
                lemma_args(t, PState { errors: st.errors.push(d), ..st }, Seq::empty());
            } else if name == "["@ {
                lemma_delimited(t, Stop::CloseDisplay, st);
                let st2 = delimited_spec(t, Stop::CloseDisplay, st).2;
                lemma_report(t, st2, error_at("E031"@, "unclosed '\\[' (display math)"@, span));
            } else if name == "]"@ {
                lemma_report(t, st, error_at("E032"@, "stray '\\]' (no matching '\\[')"@, span));
            } else {
                lemma_args(t, st, Seq::empty());
            }
        },
        crate::lexer::Lexeme::BeginGroup => {
            lemma_delimited(t, Stop::EndGroup, st);
            let st2 = delimited_spec(t, Stop::EndGroup, st).2;
            lemma_report(t, st2, error_at("E020"@, "unclosed '{'"@, span));
        },
        crate::lexer::Lexeme::MathShift => {
            lemma_delimited(t, Stop::MathShift, st);
            let st2 = delimited_spec(t, Stop::MathShift, st).2;
            lemma_report(t, st2, error_at("E030"@, "unclosed '$' (math mode)"@, span));
        },
        _ => {},
    }
}

proof fn lemma_args(t: Seq<TokenModel>, st: PState, acc: Seq<ArgModel>)
    requires
        good_state(t, st),
    ensures
        good_state(t, args_spec(t, st, acc).1),
        st.pos <= args_spec(t, st, acc).1.pos,
    decreases t.len() - st.pos, 3int,
{
    let st1 = if 0 <= st.pos < t.len() && t[st.pos].kind is Space {
        skip(st)
    } else {
        st
    };
    if 0 <= st1.pos < t.len() && t[st1.pos].kind is BeginGroup {
        let (a, st2) = arg_spec(t, st1, true);
        lemma_arg(t, st1, true);
        lemma_args(t, st2, acc.push(a));
    } else if 0 <= st1.pos < t.len() && t[st1.pos].kind == crate::lexer::Lexeme::Char('[') {
        let (a, st2) = arg_spec(t, st1, false);
        lemma_arg(t, st1, false);
        lemma_args(t, st2, acc.push(a));
    }
}

proof fn lemma_arg(t: Seq<TokenModel>, st: PState, mandatory: bool)
    requires
        good_state(t, st),
        st.pos < t.len(),
    ensures
        good_state(t, arg_spec(t, st, mandatory).1),
        st.pos < arg_spec(t, st, mandatory).1.pos,
    decreases t.len() - st.pos, 2int,
{
    let open = t[st.pos].span;
    assert(points_at_token(t, Some(diag_span_of(open)))) by {
        assert(Some(diag_span_of(open)) == Some(diag_span_of(t[st.pos].span)));
    }
    if mandatory {
        lemma_delimited(t, Stop::EndGroup, skip(st));
        let st2 = delimited_spec(t, Stop::EndGroup, skip(st)).2;
        lemma_report(t, st2, error_at("E021"@, "unclosed mandatory argument"@, open));
    } else {
        lemma_delimited(t, Stop::CloseBracket, skip(st));
        let st2 = delimited_spec(t, Stop::CloseBracket, skip(st)).2;
        lemma_report(t, st2, error_at("E022"@, "unclosed optional argument"@, open));
    }
}

proof fn lemma_env(t: Seq<TokenModel>, begin_span: Span, st: PState)
    requires
        good_state(t, st),
        points_at_token(t, Some(diag_span_of(begin_span))),
    ensures
        good_state(t, env_spec(t, begin_span, st).1),
        st.pos <= env_spec(t, begin_span, st).1.pos,
    decreases t.len() - st.pos, 4int,
{
    let (args, st1) = args_spec(t, st, Seq::empty());
    lemma_args(t, st, Seq::empty());
    match env_name(args) {
        None => {
            lemma_report(t, st1, error_at("E040"@, "'\\begin' missing environment name"@, begin_span));
        },
        Some((idx, name)) => {
            let (body, st2) = parse_nodes_spec(t, Stop::End, advanced(st1, st.pos), Seq::empty());
            lemma_nodes(t, Stop::End, advanced(st1, st.pos), Seq::empty());
            if 0 <= st2.pos < t.len() && is_control_seq(t[st2.pos].kind, "end"@) {
                let end_span = t[st2.pos].span;
                let (end_args, st3) = args_spec(t, skip(st2), Seq::empty());
                lemma_args(t, skip(st2), Seq::empty());
                let close = env_name(end_args);
                assert(points_at_token(t, Some(diag_span_of(end_span)))) by {
                    assert(Some(diag_span_of(end_span)) == Some(diag_span_of(t[st2.pos].span)));
                }
                lemma_report(
                    t,
                    st3,
                    DiagModel {
                        notes: seq![mismatch_note(name)],
                        ..error_at("E042"@, mismatch_message(name_or_empty(close), name), end_span)
                    },
                );
            } else {
                lemma_report(t, st2, error_at("E041"@, unclosed_env_message(name), begin_span));
            }
        },
    }
}

/// Parsing never fails and reads every token: whatever the tokens, it
/// produces a document, and each diagnostic it reports is an error whose
/// code is one of the parser's codes and whose span is the span of one of
/// the tokens.
pub proof fn lemma_parse_diagnostics(t: Seq<TokenModel>)
    ensures
        forall|i: int|
            0 <= i < parse_tokens(t).1.len() ==> parser_diag(t, #[trigger] parse_tokens(t).1[i]),
        parse_nodes_spec(t, Stop::Never, PState { pos: 0, errors: Seq::empty() }, Seq::empty()).1.pos
            == t.len(),
{
    lemma_nodes(t, Stop::Never, PState { pos: 0, errors: Seq::empty() }, Seq::empty());
}


// ----------------------------------------------------------------------
// Node spans
// ----------------------------------------------------------------------

/// `sp` covers at least one byte, all of them within `[lo, hi)`.
pub open spec fn span_within(sp: Span, lo: int, hi: int) -> bool {
    lo <= sp.start < sp.end <= hi
}

/// The span of `n`, and those of all nodes and arguments under it, lie
/// within `[lo, hi)` and are not empty.
pub open spec fn node_within(n: NodeModel, lo: int, hi: int) -> bool
    decreases n,
{
    &&& span_within(node_span(n), lo, hi)
    &&& match n {
        NodeModel::Command { args, .. } => forall|k: int|
            0 <= k < args.len() ==> arg_within(#[trigger] args[k], lo, hi),
        NodeModel::Group(c, _) => forall|k: int| 0 <= k < c.len() ==> node_within(#[trigger] c[k], lo, hi),
        NodeModel::Math(c, _) => forall|k: int| 0 <= k < c.len() ==> node_within(#[trigger] c[k], lo, hi),
        NodeModel::DisplayMath(c, _) => forall|k: int|
            0 <= k < c.len() ==> node_within(#[trigger] c[k], lo, hi),
        NodeModel::Environment { args, body, .. } => {
            &&& forall|k: int| 0 <= k < args.len() ==> arg_within(#[trigger] args[k], lo, hi)
            &&& forall|k: int| 0 <= k < body.len() ==> node_within(#[trigger] body[k], lo, hi)
        },
        _ => true,
    }
}

pub open spec fn arg_within(a: ArgModel, lo: int, hi: int) -> bool
    decreases a,
{
    match a {
        ArgModel::Mandatory(c) => forall|k: int| 0 <= k < c.len() ==> node_within(#[trigger] c[k], lo, hi),
        ArgModel::Optional(c) => forall|k: int| 0 <= k < c.len() ==> node_within(#[trigger] c[k], lo, hi),
    }
}

pub open spec fn nodes_within(ns: Seq<NodeModel>, lo: int, hi: int) -> bool {
    forall|k: int| 0 <= k < ns.len() ==> node_within(#[trigger] ns[k], lo, hi)
}

pub open spec fn args_within(args: Seq<ArgModel>, lo: int, hi: int) -> bool {
    forall|k: int| 0 <= k < args.len() ==> arg_within(#[trigger] args[k], lo, hi)
}

/// Every token covers at least one byte within `[lo, hi)`.
pub open spec fn tokens_within(t: Seq<TokenModel>, lo: int, hi: int) -> bool {
    forall|k: int| 0 <= k < t.len() ==> span_within(#[trigger] t[k].span, lo, hi)
}

proof fn lemma_push_within(ns: Seq<NodeModel>, n: NodeModel, lo: int, hi: int)
    requires
        nodes_within(ns, lo, hi),
        node_within(n, lo, hi),
    ensures
        nodes_within(ns.push(n), lo, hi),
{
    assert forall|k: int| 0 <= k < ns.push(n).len() implies node_within(#[trigger] ns.push(n)[k], lo, hi) by {
        if k < ns.len() {
            assert(ns.push(n)[k] == ns[k]);
        }
    }
}

proof fn lemma_push_text_within(ns: Seq<NodeModel>, c: char, span: Span, lo: int, hi: int)
    requires
        nodes_within(ns, lo, hi),
        span_within(span, lo, hi),
    ensures
        nodes_within(push_text(ns, c, span), lo, hi),
{
    if ns.len() > 0 && ns.last() is Text {
        let r = push_text(ns, c, span);
        assert(node_within(ns[ns.len() - 1], lo, hi));
        assert forall|k: int| 0 <= k < r.len() implies node_within(#[trigger] r[k], lo, hi) by {
            if k < ns.len() - 1 {
                assert(r[k] == ns[k]);
            }
        }
    } else {
        lemma_push_within(ns, NodeModel::Text(seq![c], span), lo, hi);
    }
}

proof fn lemma_extend_within(span: Span, other: Option<Span>, lo: int, hi: int)
    requires
        span_within(span, lo, hi),
        other matches Some(o) ==> span_within(o, lo, hi),
    ensures
        span_within(extend(span, other), lo, hi),
{
}

proof fn lemma_arg_reach_within(t: Seq<TokenModel>, st: PState, mandatory: bool, lo: int, hi: int)
    requires
        tokens_within(t, lo, hi),
        0 <= st.pos < t.len(),
    ensures
        span_within(arg_reach(t, st, mandatory), lo, hi),
    decreases remaining(t, st), 2int,
{
    let stop = if mandatory { Stop::EndGroup } else { Stop::CloseBracket };
    lemma_delimited_within(t, stop, skip(st), lo, hi);
    let open = t[st.pos].span;
    let (ch, close, _st2) = delimited_spec(t, stop, skip(st));
    match close {
        Some(c) => {
            let p = parse_nodes_spec(t, stop, skip(st), Seq::empty()).1.pos;
            assert(c == t[p].span);
        },
        None => {
            if ch.len() > 0 {
                assert(node_within(ch[ch.len() - 1], lo, hi));
            }
            lemma_extend_within(open, last_span(ch), lo, hi);
        },
    }
}

proof fn lemma_args_reach_within(t: Seq<TokenModel>, st: PState, last: Option<Span>, lo: int, hi: int)
    requires
        tokens_within(t, lo, hi),
        last matches Some(l) ==> span_within(l, lo, hi),
    ensures
        args_reach(t, st, last) matches Some(r) ==> span_within(r, lo, hi),
    decreases remaining(t, st), 3int,
{
    let st1 = if 0 <= st.pos < t.len() && t[st.pos].kind is Space {
        skip(st)
    } else {
        st
    };
    if 0 <= st1.pos < t.len() && (t[st1.pos].kind is BeginGroup || t[st1.pos].kind
        == crate::lexer::Lexeme::Char('[')) {
        let mandatory = t[st1.pos].kind is BeginGroup;
        let (_a, st2) = arg_spec(t, st1, mandatory);
        lemma_arg_reach_within(t, st1, mandatory, lo, hi);
        lemma_args_reach_within(t, advanced(st2, st1.pos + 1), Some(arg_reach(t, st1, mandatory)), lo, hi);
    }
}

proof fn lemma_nodes_within(t: Seq<TokenModel>, stop: Stop, st: PState, acc: Seq<NodeModel>, lo: int, hi: int)
    requires
        tokens_within(t, lo, hi),
        nodes_within(acc, lo, hi),
    ensures
        nodes_within(parse_nodes_spec(t, stop, st, acc).0, lo, hi),
    decreases remaining(t, st), 0int,
{
    if !(st.pos < 0 || st.pos >= t.len() || stops_at(stop, t[st.pos].kind)) {
        let (acc2, st2) = token_spec(t, t[st.pos], skip(st), acc);
        lemma_token_within(t, t[st.pos], skip(st), acc, lo, hi);
        lemma_nodes_within(t, stop, advanced(st2, st.pos + 1), acc2, lo, hi);
    }
}

proof fn lemma_delimited_within(t: Seq<TokenModel>, stop: Stop, st: PState, lo: int, hi: int)
    requires
        tokens_within(t, lo, hi),
    ensures
        nodes_within(delimited_spec(t, stop, st).0, lo, hi),
    decreases remaining(t, st), 1int,
{
    lemma_nodes_within(t, stop, st, Seq::empty(), lo, hi);
}

proof fn lemma_token_within(t: Seq<TokenModel>, tok: TokenModel, st: PState, acc: Seq<NodeModel>, lo: int, hi: int)
    requires
        tokens_within(t, lo, hi),
        span_within(tok.span, lo, hi),
        nodes_within(acc, lo, hi),
    ensures
        nodes_within(token_spec(t, tok, st, acc).0, lo, hi),
    decreases remaining(t, st), 5int,
{
    let span = tok.span;
    match tok.kind {
        crate::lexer::Lexeme::Char(c) => lemma_push_text_within(acc, c, span, lo, hi),
        crate::lexer::Lexeme::Space => lemma_push_text_within(acc, ' ', span, lo, hi),
        crate::lexer::Lexeme::ControlSeq(name) => {
            if name == "begin"@ {
                lemma_env_within(t, span, st, lo, hi);
                lemma_push_within(acc, env_spec(t, span, st).0, lo, hi);
            } else if name == "end"@ {
            } else if name == "["@ {
                lemma_delimited_within(t, Stop::CloseDisplay, st, lo, hi);
                let (ch, close, _st2) = delimited_spec(t, Stop::CloseDisplay, st);
                match close {
                    Some(c) => {
                        assert(span_within(c, lo, hi)) by {
                            let p = parse_nodes_spec(t, Stop::CloseDisplay, st, Seq::empty()).1.pos;
                            assert(c == t[p].span);
                        }
                        lemma_push_within(acc, NodeModel::DisplayMath(ch, span_union(span, c)), lo, hi);
                    },
                    None => lemma_push_within(acc, NodeModel::DisplayMath(ch, span), lo, hi),
                }
            } else if name == "]"@ {
            } else {
                lemma_args_within(t, st, Seq::empty(), lo, hi);
                let args = args_spec(t, st, Seq::empty()).0;
                lemma_args_reach_within(t, st, None, lo, hi);
                lemma_extend_within(span, args_reach(t, st, None), lo, hi);
                lemma_push_within(
                    acc,
                    NodeModel::Command { name, args, span: extend(span, args_reach(t, st, None)) },
                    lo,
                    hi,
                );
            }
        },
        crate::lexer::Lexeme::BeginGroup => {
            lemma_delimited_within(t, Stop::EndGroup, st, lo, hi);
            let (ch, close, _st2) = delimited_spec(t, Stop::EndGroup, st);
            match close {
                Some(c) => {
                    assert(span_within(c, lo, hi)) by {
                        let p = parse_nodes_spec(t, Stop::EndGroup, st, Seq::empty()).1.pos;
                        assert(c == t[p].span);
                    }
                    lemma_push_within(acc, NodeModel::Group(ch, span_union(span, c)), lo, hi);
                },
                None => lemma_push_within(acc, NodeModel::Group(ch, span), lo, hi),
            }
        },
        crate::lexer::Lexeme::MathShift => {
            lemma_delimited_within(t, Stop::MathShift, st, lo, hi);
            let (ch, close, _st2) = delimited_spec(t, Stop::MathShift, st);
            match close {
                Some(c) => {
                    assert(span_within(c, lo, hi)) by {
                        let p = parse_nodes_spec(t, Stop::MathShift, st, Seq::empty()).1.pos;
                        assert(c == t[p].span);
                    }
                    lemma_push_within(acc, NodeModel::Math(ch, span_union(span, c)), lo, hi);
                },
                None => lemma_push_within(acc, NodeModel::Math(ch, span), lo, hi),
            }
        },
        crate::lexer::Lexeme::ParagraphBreak => lemma_push_within(acc, NodeModel::ParagraphBreak(span), lo, hi),
        crate::lexer::Lexeme::Comment(b) => lemma_push_within(acc, NodeModel::Comment(b, span), lo, hi),
        crate::lexer::Lexeme::AlignTab => lemma_push_within(acc, NodeModel::AlignTab(span), lo, hi),
        crate::lexer::Lexeme::Tilde => lemma_push_within(acc, NodeModel::Tilde(span), lo, hi),
        _ => {},
    }
}

proof fn lemma_args_within(t: Seq<TokenModel>, st: PState, acc: Seq<ArgModel>, lo: int, hi: int)
    requires
        tokens_within(t, lo, hi),
        args_within(acc, lo, hi),
    ensures
        args_within(args_spec(t, st, acc).0, lo, hi),
    decreases remaining(t, st), 3int,
{
    let st1 = if 0 <= st.pos < t.len() && t[st.pos].kind is Space {
        skip(st)
    } else {
        st
    };
    if 0 <= st1.pos < t.len() && (t[st1.pos].kind is BeginGroup || t[st1.pos].kind
        == crate::lexer::Lexeme::Char('[')) {
        let mandatory = t[st1.pos].kind is BeginGroup;
        let (a, st2) = arg_spec(t, st1, mandatory);
        lemma_arg_within(t, st1, mandatory, lo, hi);
        assert forall|k: int| 0 <= k < acc.push(a).len() implies arg_within(#[trigger] acc.push(a)[k], lo, hi) by {
            if k < acc.len() {
                assert(acc.push(a)[k] == acc[k]);
            }
        }
        lemma_args_within(t, advanced(st2, st1.pos + 1), acc.push(a), lo, hi);
    }
}

proof fn lemma_arg_within(t: Seq<TokenModel>, st: PState, mandatory: bool, lo: int, hi: int)
    requires
        tokens_within(t, lo, hi),
        0 <= st.pos < t.len(),
    ensures
        arg_within(arg_spec(t, st, mandatory).0, lo, hi),
    decreases remaining(t, st), 2int,
{
    if mandatory {
        lemma_delimited_within(t, Stop::EndGroup, skip(st), lo, hi);
    } else {
        lemma_delimited_within(t, Stop::CloseBracket, skip(st), lo, hi);
    }
}

proof fn lemma_env_within(t: Seq<TokenModel>, begin_span: Span, st: PState, lo: int, hi: int)
    requires
        tokens_within(t, lo, hi),
        span_within(begin_span, lo, hi),
    ensures
        node_within(env_spec(t, begin_span, st).0, lo, hi),
    decreases remaining(t, st), 4int,
{
    let (args, st1) = args_spec(t, st, Seq::empty());
    lemma_args_within(t, st, Seq::empty(), lo, hi);
    match env_name(args) {
        None => {},
        Some((idx, name)) => {
            lemma_env_name_index(args, 0);
            let rest = args.remove(idx);
            assert forall|k: int| 0 <= k < rest.len() implies arg_within(#[trigger] rest[k], lo, hi) by {
                if k < idx {
                    assert(rest[k] == args[k]);
                } else {
                    assert(rest[k] == args[k + 1]);
                }
            }
            let (body, st2r) = parse_nodes_spec(t, Stop::End, advanced(st1, st.pos), Seq::empty());
            lemma_nodes_within(t, Stop::End, advanced(st1, st.pos), Seq::empty(), lo, hi);
            let st2 = advanced(st2r, st.pos);
            if 0 <= st2.pos < t.len() && is_control_seq(t[st2.pos].kind, "end"@) {
                let end_span = t[st2.pos].span;
                let end_args = args_spec(t, skip(st2), Seq::empty()).0;
                lemma_args_within(t, skip(st2), Seq::empty(), lo, hi);
                lemma_args_reach_within(t, skip(st2), None, lo, hi);
                lemma_extend_within(end_span, args_reach(t, skip(st2), None), lo, hi);
            } else {
                if body.len() > 0 {
                    assert(node_within(body[body.len() - 1], lo, hi));
                }
            }
        },
    }
}

/// Every node of a parse, at every depth, covers at least one byte, and
/// lies within the bytes covered by the tokens: when each token covers
/// bytes in `[lo, hi)`, so does each node.
pub proof fn lemma_parse_spans_within(t: Seq<TokenModel>, lo: int, hi: int)
    requires
        tokens_within(t, lo, hi),
    ensures
        nodes_within(parse_tokens(t).0, lo, hi),
{
    lemma_nodes_within(t, Stop::Never, PState { pos: 0, errors: Seq::empty() }, Seq::empty(), lo, hi);
}

/// The document parsed from the tokens of a source text points into that
/// text: every node, at every depth, covers a non-empty byte range of the
/// source.
pub proof fn lemma_document_spans_in_source(s: Seq<char>)
    requires
        byte_len(s) <= usize::MAX,
    ensures
        nodes_within(parse_tokens(lex(s).0).0, 0, byte_len(s) as int),
{
    lemma_tokens_cover_source(s);
    lemma_parse_spans_within(lex(s).0, 0, byte_len(s) as int);
}


// ----------------------------------------------------------------------
// Text runs
// ----------------------------------------------------------------------

/// No text node of `ns` is empty, and no two text nodes follow each other.
pub open spec fn well_joined(ns: Seq<NodeModel>) -> bool {
    &&& forall|k: int| 0 <= k < ns.len() ==> (#[trigger] ns[k] matches NodeModel::Text(t, _) ==> t.len() > 0)
    &&& forall|k: int, l: int|
        0 <= k && l == k + 1 && l < ns.len() ==> !(#[trigger] ns[k] is Text && #[trigger] ns[l] is Text)
}

/// Every node list under `n`, at every depth, is `well_joined`.
pub open spec fn texts_joined(n: NodeModel) -> bool
    decreases n,
{
    match n {
        NodeModel::Command { args, .. } => forall|k: int| 0 <= k < args.len() ==> arg_texts_joined(#[trigger] args[k]),
        NodeModel::Group(c, _) => well_joined(c) && forall|k: int| 0 <= k < c.len() ==> texts_joined(#[trigger] c[k]),
        NodeModel::Math(c, _) => well_joined(c) && forall|k: int| 0 <= k < c.len() ==> texts_joined(#[trigger] c[k]),
        NodeModel::DisplayMath(c, _) => well_joined(c) && forall|k: int|
            0 <= k < c.len() ==> texts_joined(#[trigger] c[k]),
        NodeModel::Environment { args, body, .. } => {
            &&& forall|k: int| 0 <= k < args.len() ==> arg_texts_joined(#[trigger] args[k])
            &&& well_joined(body)
            &&& forall|k: int| 0 <= k < body.len() ==> texts_joined(#[trigger] body[k])
        },
        _ => true,
    }
}

pub open spec fn arg_texts_joined(a: ArgModel) -> bool
    decreases a,
{
    match a {
        ArgModel::Mandatory(c) => well_joined(c) && forall|k: int| 0 <= k < c.len() ==> texts_joined(#[trigger] c[k]),
        ArgModel::Optional(c) => well_joined(c) && forall|k: int| 0 <= k < c.len() ==> texts_joined(#[trigger] c[k]),
    }
}

/// `ns` is `well_joined`, and so is every node list under it.
pub open spec fn list_joined(ns: Seq<NodeModel>) -> bool {
    &&& well_joined(ns)
    &&& forall|k: int| 0 <= k < ns.len() ==> texts_joined(#[trigger] ns[k])
}

pub open spec fn args_joined(args: Seq<ArgModel>) -> bool {
    forall|k: int| 0 <= k < args.len() ==> arg_texts_joined(#[trigger] args[k])
}

proof fn lemma_push_joined(ns: Seq<NodeModel>, n: NodeModel)
    requires
        list_joined(ns),
        texts_joined(n),
        !(n is Text),
    ensures
        list_joined(ns.push(n)),
{
    let r = ns.push(n);
    assert forall|k: int| 0 <= k < r.len() implies texts_joined(#[trigger] r[k]) && (r[k] matches NodeModel::Text(
        t,
        _,
    ) ==> t.len() > 0) by {
        if k < ns.len() {
            assert(r[k] == ns[k]);
        }
    }
    assert forall|k: int, l: int| 0 <= k && l == k + 1 && l < r.len() implies !(#[trigger] r[k] is Text
        && #[trigger] r[l] is Text) by {
        if l < ns.len() {
            assert(r[k] == ns[k] && r[l] == ns[l]);
        }
    }
}

proof fn lemma_push_text_joined(ns: Seq<NodeModel>, c: char, span: Span)
    requires
        list_joined(ns),
    ensures
        list_joined(push_text(ns, c, span)),
{
    let r = push_text(ns, c, span);
    if ns.len() > 0 && ns.last() is Text {
        let m = ns.len() - 1;
        assert forall|k: int| 0 <= k < r.len() implies texts_joined(#[trigger] r[k]) && (r[k] matches NodeModel::Text(
            t,
            _,
        ) ==> t.len() > 0) by {
            if k < m {
                assert(r[k] == ns[k]);
            }
        }
        assert forall|k: int, l: int| 0 <= k && l == k + 1 && l < r.len() implies !(#[trigger] r[k] is Text
            && #[trigger] r[l] is Text) by {
            assert(r[k] == ns[k]);
            assert(ns[k] is Text ==> !(ns[l] is Text));
        }
    } else {
        let n = NodeModel::Text(seq![c], span);
        assert forall|k: int| 0 <= k < r.len() implies texts_joined(#[trigger] r[k]) && (r[k] matches NodeModel::Text(
            t,
            _,
        ) ==> t.len() > 0) by {
            if k < ns.len() {
                assert(r[k] == ns[k]);
            }
        }
        assert forall|k: int, l: int| 0 <= k && l == k + 1 && l < r.len() implies !(#[trigger] r[k] is Text
            && #[trigger] r[l] is Text) by {
            if l < ns.len() {
                assert(r[k] == ns[k] && r[l] == ns[l]);
            } else {
                assert(r[k] == ns.last());
            }
        }
    }
}

proof fn lemma_nodes_joined(t: Seq<TokenModel>, stop: Stop, st: PState, acc: Seq<NodeModel>)
    requires
        list_joined(acc),
    ensures
        list_joined(parse_nodes_spec(t, stop, st, acc).0),
    decreases remaining(t, st), 0int,
{
    if !(st.pos < 0 || st.pos >= t.len() || stops_at(stop, t[st.pos].kind)) {
        let (acc2, st2) = token_spec(t, t[st.pos], skip(st), acc);
        lemma_token_joined(t, t[st.pos], skip(st), acc);
        lemma_nodes_joined(t, stop, advanced(st2, st.pos + 1), acc2);
    }
}

proof fn lemma_delimited_joined(t: Seq<TokenModel>, stop: Stop, st: PState)
    ensures
        list_joined(delimited_spec(t, stop, st).0),
    decreases remaining(t, st), 1int,
{
    lemma_nodes_joined(t, stop, st, Seq::empty());
}

proof fn lemma_token_joined(t: Seq<TokenModel>, tok: TokenModel, st: PState, acc: Seq<NodeModel>)
    requires
        list_joined(acc),
    ensures
        list_joined(token_spec(t, tok, st, acc).0),
    decreases remaining(t, st), 5int,
{
    let span = tok.span;
    match tok.kind {
        crate::lexer::Lexeme::Char(c) => lemma_push_text_joined(acc, c, span),
        crate::lexer::Lexeme::Space => lemma_push_text_joined(acc, ' ', span),
        crate::lexer::Lexeme::ControlSeq(name) => {
            if name == "begin"@ {
                lemma_env_joined(t, span, st);
                lemma_push_joined(acc, env_spec(t, span, st).0);
            } else if name == "end"@ {
            } else if name == "["@ {
                lemma_delimited_joined(t, Stop::CloseDisplay, st);
                let (ch, close, _st2) = delimited_spec(t, Stop::CloseDisplay, st);
                lemma_push_joined(acc, NodeModel::DisplayMath(ch, extend(span, close)));
            } else if name == "]"@ {
            } else {
                lemma_args_joined(t, st, Seq::empty());
                let args = args_spec(t, st, Seq::empty()).0;
                lemma_push_joined(acc, NodeModel::Command { name, args, span: extend(span, args_reach(t, st, None)) });
            }
        },
        crate::lexer::Lexeme::BeginGroup => {
            lemma_delimited_joined(t, Stop::EndGroup, st);
            let (ch, close, _st2) = delimited_spec(t, Stop::EndGroup, st);
            lemma_push_joined(acc, NodeModel::Group(ch, extend(span, close)));
        },
        crate::lexer::Lexeme::MathShift => {
            lemma_delimited_joined(t, Stop::MathShift, st);
            let (ch, close, _st2) = delimited_spec(t, Stop::MathShift, st);
            lemma_push_joined(acc, NodeModel::Math(ch, extend(span, close)));
        },
        crate::lexer::Lexeme::ParagraphBreak => lemma_push_joined(acc, NodeModel::ParagraphBreak(span)),
        crate::lexer::Lexeme::Comment(b) => lemma_push_joined(acc, NodeModel::Comment(b, span)),
        crate::lexer::Lexeme::AlignTab => lemma_push_joined(acc, NodeModel::AlignTab(span)),
        crate::lexer::Lexeme::Tilde => lemma_push_joined(acc, NodeModel::Tilde(span)),
        _ => {},
    }
}

proof fn lemma_args_joined(t: Seq<TokenModel>, st: PState, acc: Seq<ArgModel>)
    requires
        args_joined(acc),
    ensures
        args_joined(args_spec(t, st, acc).0),
    decreases remaining(t, st), 3int,
{
    let st1 = if 0 <= st.pos < t.len() && t[st.pos].kind is Space {
        skip(st)
    } else {
        st
    };
    if 0 <= st1.pos < t.len() && (t[st1.pos].kind is BeginGroup || t[st1.pos].kind
        == crate::lexer::Lexeme::Char('[')) {
        let mandatory = t[st1.pos].kind is BeginGroup;
        let (a, st2) = arg_spec(t, st1, mandatory);
        lemma_arg_joined(t, st1, mandatory);
        assert forall|k: int| 0 <= k < acc.push(a).len() implies arg_texts_joined(#[trigger] acc.push(a)[k]) by {
            if k < acc.len() {
                assert(acc.push(a)[k] == acc[k]);
            }
        }
        lemma_args_joined(t, advanced(st2, st1.pos + 1), acc.push(a));
    }
}

proof fn lemma_arg_joined(t: Seq<TokenModel>, st: PState, mandatory: bool)
    requires
        0 <= st.pos < t.len(),
    ensures
        arg_texts_joined(arg_spec(t, st, mandatory).0),
    decreases remaining(t, st), 2int,
{
    if mandatory {
        lemma_delimited_joined(t, Stop::EndGroup, skip(st));
    } else {
        lemma_delimited_joined(t, Stop::CloseBracket, skip(st));
    }
}

proof fn lemma_env_joined(t: Seq<TokenModel>, begin_span: Span, st: PState)
    ensures
        texts_joined(env_spec(t, begin_span, st).0),
        !(env_spec(t, begin_span, st).0 is Text),
    decreases remaining(t, st), 4int,
{
    let (args, st1) = args_spec(t, st, Seq::empty());
    lemma_args_joined(t, st, Seq::empty());
    match env_name(args) {
        None => {},
        Some((idx, name)) => {
            lemma_env_name_index(args, 0);
            let rest = args.remove(idx);
            assert forall|k: int| 0 <= k < rest.len() implies arg_texts_joined(#[trigger] rest[k]) by {
                if k < idx {
                    assert(rest[k] == args[k]);
                } else {
                    assert(rest[k] == args[k + 1]);
                }
            }
            lemma_nodes_joined(t, Stop::End, advanced(st1, st.pos), Seq::empty());
        },
    }
}

/// Parsing gathers text into runs: in every node list of the document, at
/// every depth, no text node is empty and no two text nodes are adjacent.
pub proof fn lemma_parse_text_runs(t: Seq<TokenModel>)
    ensures
        list_joined(parse_tokens(t).0),
{
    assert(list_joined(Seq::<NodeModel>::empty()));
    lemma_nodes_joined(t, Stop::Never, PState { pos: 0, errors: Seq::empty() }, Seq::empty());
}


// ----------------------------------------------------------------------
// Arguments
// ----------------------------------------------------------------------

/// `k` opens an argument: `{` or the character `[`.
pub open spec fn opens_argument(k: crate::lexer::Lexeme) -> bool {
    k is BeginGroup || k == crate::lexer::Lexeme::Char('[')
}

/// Arguments are taken greedily, in any order of `{...}` and `[...]`:
/// reading arguments from `st` ends only where the next token (after at
/// most one space) opens no argument, and every argument read is kept.
pub proof fn lemma_args_maximal(t: Seq<TokenModel>, st: PState, acc: Seq<ArgModel>)
    ensures
        ({
            let (args, st2) = args_spec(t, st, acc);
            &&& !(0 <= st2.pos < t.len() && opens_argument(t[st2.pos].kind))
            &&& args.len() >= acc.len()
            &&& args.subrange(0, acc.len() as int) == acc
            &&& st2.pos >= st.pos
            &&& (0 <= st.pos < t.len() && opens_argument(t[st.pos].kind)) ==> args.len() > acc.len()
            &&& (0 <= st.pos < t.len() && t[st.pos].kind is Space && st.pos + 1 < t.len() && opens_argument(
                t[st.pos + 1].kind,
            )) ==> args.len() > acc.len()
        }),
    decreases remaining(t, st),
{
    let st1 = if 0 <= st.pos < t.len() && t[st.pos].kind is Space {
        skip(st)
    } else {
        st
    };
    if 0 <= st1.pos < t.len() && opens_argument(t[st1.pos].kind) {
        let mandatory = t[st1.pos].kind is BeginGroup;
        let (a, st2) = arg_spec(t, st1, mandatory);
        lemma_args_maximal(t, advanced(st2, st1.pos + 1), acc.push(a));
        let args = args_spec(t, st, acc).0;
        assert(args.subrange(0, acc.len() as int) =~= args.subrange(0, acc.len() + 1int).subrange(0, acc.len() as int));
        assert(acc.push(a).subrange(0, acc.len() as int) =~= acc);
    } else {
        assert(acc.subrange(0, acc.len() as int) =~= acc);
    }
}

} // verus!
