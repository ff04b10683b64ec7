//! The parser turns the flat token stream into a tree of nodes.
//!
//! - commands greedily pick up `[...]` (optional) and `{...}` (mandatory)
//!   arguments, skipping one space before each;
//! - `$ ... $` wraps a math node and `\[ ... \]` a display math node;
//! - `\begin{name} ... \end{name}` produces an environment whose body is
//!   parsed recursively;
//! - comments, `&` and `~` become nodes of their own;
//! - every error carries a span pointing at the token that caused it.
//!
//! What it computes is defined in `spec`.

pub mod spec;
pub mod helpers;
pub mod laws;

use vstd::prelude::*;

use crate::ast::{
    args_model, lemma_args_model, lemma_nodes_model, node_span, nodes_model, Arg, ArgModel, Document,
    Node, NodeModel,
};
use crate::diagnostics::{diags_model, DiagModel, Diagnostic};
use crate::lexer::{span_union, tokens_model, Lexeme, Span, Token, TokenKind, TokenModel};
use crate::text::{push_char, str_eq};

use helpers::{diag_span, find_env_name, is_display_math_close, is_end_control_seq};
use spec::{
    arg_reach, arg_spec, args_reach, args_spec, delimited_spec, env_spec, extend, last_span, parse_nodes_spec,
    push_text, skip, stops_at, token_spec, PState, Stop,
};

verus! {

broadcast use {lemma_args_model, lemma_nodes_model};

/// Returned by `Parser::parse`. The document is always produced; errors are
/// collected alongside it so the caller sees everything at once.
#[derive(Debug)]
pub struct ParseResult {
    pub document: Document,
    pub errors: Vec<Diagnostic>,
}

pub struct Parser {
    tokens: Vec<Token>,
    pos: usize,
    errors: Vec<Diagnostic>,
}

/// Whether a run of nodes stops at a token of kind `k`.
fn stops(stop: Stop, k: &TokenKind) -> (r: bool)
    ensures
        r == stops_at(stop, k@),
{
    match stop {
        Stop::Never => false,
        Stop::EndGroup => match k {
            TokenKind::EndGroup => true,
            _ => false,
        },
        Stop::MathShift => match k {
            TokenKind::MathShift => true,
            _ => false,
        },
        Stop::CloseBracket => match k {
            TokenKind::Char(c) => *c == ']',
            _ => false,
        },
        Stop::CloseDisplay => is_display_math_close(k),
        Stop::End => is_end_control_seq(k),
    }
}

impl Parser {
    /// Values of the tokens being parsed.
    pub closed spec fn token_values(&self) -> Seq<TokenModel> {
        tokens_model(self.tokens@)
    }

    /// Position and diagnostics so far.
    pub closed spec fn state(&self) -> PState {
        PState { pos: self.pos as int, errors: diags_model(self.errors@) }
    }

    pub closed spec fn wf(&self) -> bool {
        self.pos <= self.tokens@.len()
    }

    pub fn new(tokens: Vec<Token>) -> (r: Self)
        ensures
            r.wf(),
            r.token_values() == tokens_model(tokens@),
            r.state() == (PState { pos: 0, errors: Seq::empty() }),
    {
        let p = Parser { tokens, pos: 0, errors: Vec::new() };
        proof {
            assert(diags_model(p.errors@) =~= Seq::<DiagModel>::empty());
        }
        p
    }

    /// Parse the token stream.
    pub fn parse(self) -> (r: ParseResult)
        requires
            self.wf(),
        ensures
            ({
                let (body, st) = parse_nodes_spec(
                    self.token_values(),
                    Stop::Never,
                    self.state(),
                    Seq::empty(),
                );
                nodes_model(r.document.body@) == body && diags_model(r.errors@) == st.errors
            }),
    {
        let mut p = self;
        let body = p.parse_nodes(Stop::Never);
        ParseResult { document: Document { body }, errors: p.errors }
    }

    fn peek(&self) -> (r: Option<&Token>)
        requires
            self.wf(),
        ensures
            self.pos < self.tokens@.len() ==> r == Some(&self.tokens@[self.pos as int]),
            self.pos >= self.tokens@.len() ==> r is None,
    {
        if self.pos < self.tokens.len() {
            Some(&self.tokens[self.pos])
        } else {
            None
        }
    }

    fn peek_kind(&self) -> (r: Option<&TokenKind>)
        requires
            self.wf(),
        ensures
            self.pos < self.tokens@.len() ==> r == Some(&self.tokens@[self.pos as int].kind),
            self.pos >= self.tokens@.len() ==> r is None,
    {
        match self.peek() {
            Some(t) => Some(&t.kind),
            None => None,
        }
    }

    fn bump(&mut self) -> (r: Option<Token>)
        requires
            old(self).wf(),
        ensures
            final(self).wf(),
            final(self).tokens == old(self).tokens,
            final(self).errors == old(self).errors,
            old(self).pos < old(self).tokens@.len() ==> r == Some(old(self).tokens@[old(self).pos as int]) && final(self).pos == old(self).pos + 1,
            old(self).pos >= old(self).tokens@.len() ==> r is None && final(self).pos == old(self).pos,
    {
        if self.pos < self.tokens.len() {
            let tok = self.tokens[self.pos].clone();
            self.pos = self.pos + 1;
            Some(tok)
        } else {
            None
        }
    }

    fn report(&mut self, d: Diagnostic)
        ensures
            final(self).tokens == old(self).tokens,
            final(self).pos == old(self).pos,
            final(self).state() == spec::report(old(self).state(), d@),
    {
        let ghost before = self.errors@;
        self.errors.push(d);
        proof {
            assert(diags_model(self.errors@) =~= diags_model(before).push(d@));
        }
    }

    /// Append a character to the last `Text` node, or start a new one.
    fn push_char(&self, nodes: &mut Vec<Node>, c: char, span: Span)
        ensures
            nodes_model(final(nodes)@) == push_text(nodes_model(old(nodes)@), c, span),
    {
        let ghost before = nodes_model(nodes@);
        match nodes.pop() {
            Some(Node::Text(s, existing)) => {
                let mut s = s;
                push_char(&mut s, c);
                nodes.push(Node::Text(s, existing.merge(span)));
                proof {
                    assert(nodes_model(nodes@) =~= push_text(before, c, span));
                }
            },
            Some(other) => {
                nodes.push(other);
                let mut s = String::new();
                push_char(&mut s, c);
                nodes.push(Node::Text(s, span));
                proof {
                    assert(nodes_model(nodes@) =~= push_text(before, c, span));
                }
            },
            None => {
                let mut s = String::new();
                push_char(&mut s, c);
                nodes.push(Node::Text(s, span));
                proof {
                    assert(nodes_model(nodes@) =~= push_text(before, c, span));
                }
            },
        }
    }
}


fn push_node(nodes: &mut Vec<Node>, n: Node)
    ensures
        nodes_model(final(nodes)@) == nodes_model(old(nodes)@).push(n@),
{
    let ghost before = nodes_model(nodes@);
    nodes.push(n);
    proof {
        assert(nodes_model(nodes@) =~= before.push(n@));
    }
}

/// `span`, stretched over `other` if there is one.
fn stretch(span: Span, other: Option<Span>) -> (r: Span)
    ensures
        r == extend(span, other),
{
    match other {
        Some(o) => span.merge(o),
        None => span,
    }
}

impl Parser {
    /// Parse a run of nodes until the token stream is exhausted or `stop`
    /// holds of the next token's kind; the stopping token is left unconsumed.
    fn parse_nodes(&mut self, stop: Stop) -> (r: Vec<Node>)
        requires
            old(self).wf(),
        ensures
            final(self).wf(),
            final(self).tokens@ == old(self).tokens@,
            final(self).pos >= old(self).pos,
            ({
                let (m, st) = parse_nodes_spec(
                    old(self).token_values(),
                    stop,
                    old(self).state(),
                    Seq::empty(),
                );
                nodes_model(r@) == m && final(self).state() == st
            }),
        decreases old(self).tokens@.len() - old(self).pos, 0int,
    {
        let ghost t = self.token_values();
        let ghost toks = self.tokens@;
        let ghost st0 = self.state();
        let ghost p0 = self.pos;
        let mut nodes: Vec<Node> = Vec::new();
        proof {
            assert(nodes_model(nodes@) =~= Seq::<NodeModel>::empty());
        }
        loop
            invariant
                self.wf(),
                self.tokens@ == toks,
                t == tokens_model(toks),
                self.pos >= p0,
                toks.len() - p0 == old(self).tokens@.len() - old(self).pos,
                parse_nodes_spec(t, stop, self.state(), nodes_model(nodes@)) == parse_nodes_spec(
                    t,
                    stop,
                    st0,
                    Seq::empty(),
                ),
            ensures
                self.wf(),
                self.tokens@ == toks,
                self.pos >= p0,
                parse_nodes_spec(t, stop, st0, Seq::empty()) == (nodes_model(nodes@), self.state()),
            decreases self.tokens@.len() - self.pos,
        {
            match self.peek() {
                None => {
                    break;
                },
                Some(tok) => {
                    if stops(stop, &tok.kind) {
                        break;
                    }
                },
            }
            let ghost st = self.state();
            let tok = self.bump().unwrap();
            proof {
                assert(self.state() == skip(st));
                assert(t[st.pos] == tok@);
            }
            self.parse_token(tok, &mut nodes);
        }
        nodes
    }

    /// Handle token `tok`, which has just been consumed, appending what it
    /// produces to `nodes`.
    fn parse_token(&mut self, tok: Token, nodes: &mut Vec<Node>)
        requires
            old(self).wf(),
        ensures
            final(self).wf(),
            final(self).tokens@ == old(self).tokens@,
            final(self).pos >= old(self).pos,
            (nodes_model(final(nodes)@), final(self).state()) == token_spec(
                old(self).token_values(),
                tok@,
                old(self).state(),
                nodes_model(old(nodes)@),
            ),
        decreases old(self).tokens@.len() - old(self).pos, 5int,
    {
        let span = tok.span;
        match tok.kind {
            TokenKind::Char(c) => self.push_char(nodes, c, span),
            TokenKind::Space => self.push_char(nodes, ' ', span),
            TokenKind::ParagraphBreak => push_node(nodes, Node::ParagraphBreak(span)),
            TokenKind::Comment(body) => push_node(nodes, Node::Comment(body, span)),
            TokenKind::ControlSeq(name) => {
                if str_eq(name.as_str(), "begin") {
                    let env = self.parse_environment(span);
                    push_node(nodes, env);
                } else if str_eq(name.as_str(), "end") {
                    // a bare `\end` outside an environment; its name is
                    // consumed so that it causes no further errors
                    self.report(
                        Diagnostic::error("E043", "stray '\\end' (no matching '\\begin')").with_span(
                            diag_span(span),
                        ),
                    );
                    let _ = self.parse_args();
                } else if str_eq(name.as_str(), "[") {
                    let (children, close) = self.parse_delimited(Stop::CloseDisplay);
                    match close {
                        Some(c) => push_node(nodes, Node::DisplayMath(children, span.merge(c))),
                        None => {
                            self.report(
                                Diagnostic::error("E031", "unclosed '\\[' (display math)").with_span(
                                    diag_span(span),
                                ),
                            );
                            push_node(nodes, Node::DisplayMath(children, span));
                        },
                    }
                } else if str_eq(name.as_str(), "]") {
                    self.report(
                        Diagnostic::error("E032", "stray '\\]' (no matching '\\[')").with_span(
                            diag_span(span),
                        ),
                    );
                } else {
                    let (args, reach) = self.parse_args();
                    let full_span = stretch(span, reach);
                    push_node(nodes, Node::Command { name, args, span: full_span });
                }
            },
            TokenKind::BeginGroup => {
                let (children, close) = self.parse_delimited(Stop::EndGroup);
                match close {
                    Some(c) => push_node(nodes, Node::Group(children, span.merge(c))),
                    None => {
                        self.report(
                            Diagnostic::error("E020", "unclosed '{'").with_span(diag_span(span)),
                        );
                        push_node(nodes, Node::Group(children, span));
                    },
                }
            },
            TokenKind::MathShift => {
                let (children, close) = self.parse_delimited(Stop::MathShift);
                match close {
                    Some(c) => push_node(nodes, Node::Math(children, span.merge(c))),
                    None => {
                        self.report(
                            Diagnostic::error("E030", "unclosed '$' (math mode)").with_span(
                                diag_span(span),
                            ),
                        );
                        push_node(nodes, Node::Math(children, span));
                    },
                }
            },
            TokenKind::AlignTab => push_node(nodes, Node::AlignTab(span)),
            TokenKind::Tilde => push_node(nodes, Node::Tilde(span)),
            // everything else is left unhandled for now
            _ => {},
        }
    }

    /// The children of a delimited run whose opener has been consumed, and
    /// the span of its closer, which is consumed when present.
    fn parse_delimited(&mut self, stop: Stop) -> (r: (Vec<Node>, Option<Span>))
        requires
            old(self).wf(),
        ensures
            final(self).wf(),
            final(self).tokens@ == old(self).tokens@,
            final(self).pos >= old(self).pos,
            (nodes_model(r.0@), r.1, final(self).state()) == delimited_spec(
                old(self).token_values(),
                stop,
                old(self).state(),
            ),
        decreases old(self).tokens@.len() - old(self).pos, 1int,
    {
        let children = self.parse_nodes(stop);
        let close = match self.peek() {
            Some(tok) => if stops(stop, &tok.kind) {
                Some(tok.span)
            } else {
                None
            },
            None => None,
        };
        if close.is_some() {
            self.bump();
        }
        (children, close)
    }

    /// Consume all immediately following `[...]` and `{...}` groups as
    /// arguments, skipping a space before each; also returns how far the
    /// last of them reaches.
    fn parse_args(&mut self) -> (r: (Vec<Arg>, Option<Span>))
        requires
            old(self).wf(),
        ensures
            final(self).wf(),
            final(self).tokens@ == old(self).tokens@,
            final(self).pos >= old(self).pos,
            (args_model(r.0@), final(self).state()) == args_spec(
                old(self).token_values(),
                old(self).state(),
                Seq::empty(),
            ),
            r.1 == args_reach(old(self).token_values(), old(self).state(), None),
        decreases old(self).tokens@.len() - old(self).pos, 3int,
    {
        let ghost t = self.token_values();
        let ghost toks = self.tokens@;
        let ghost st0 = self.state();
        let ghost p0 = self.pos;
        let mut args: Vec<Arg> = Vec::new();
        let mut reach: Option<Span> = None;
        proof {
            assert(args_model(args@) =~= Seq::<ArgModel>::empty());
        }
        loop
            invariant_except_break
                args_spec(t, self.state(), args_model(args@)) == args_spec(t, st0, Seq::empty()),
                args_reach(t, self.state(), reach) == args_reach(t, st0, None),
            invariant
                self.wf(),
                self.tokens@ == toks,
                t == tokens_model(toks),
                self.pos >= p0,
                toks.len() - p0 == old(self).tokens@.len() - old(self).pos,
            ensures
                self.wf(),
                self.tokens@ == toks,
                self.pos >= p0,
                args_spec(t, st0, Seq::empty()) == (args_model(args@), self.state()),
                args_reach(t, st0, None) == reach,
            decreases self.tokens@.len() - self.pos,
        {
            let ghost st = self.state();
            let is_space = match self.peek_kind() {
                Some(k) => match k {
                    TokenKind::Space => true,
                    _ => false,
                },
                None => false,
            };
            if is_space {
                self.bump();
            }
            let ghost st1 = self.state();
            proof {
                assert(st1 == (if 0 <= st.pos < t.len() && t[st.pos].kind is Space {
                    skip(st)
                } else {
                    st
                }));
            }
            let which: u8 = match self.peek_kind() {
                Some(k) => match k {
                    TokenKind::BeginGroup => 1,
                    TokenKind::Char(c) => if *c == '[' {
                        2
                    } else {
                        0
                    },
                    _ => 0,
                },
                None => 0,
            };
            if which == 1 {
                let (a, r) = self.parse_mandatory_arg();
                reach = Some(r);
                let ghost before = args_model(args@);
                args.push(a);
                proof {
                    assert(args_model(args@) =~= before.push(a@));
                }
            } else if which == 2 {
                let (a, r) = self.parse_optional_arg();
                reach = Some(r);
                let ghost before = args_model(args@);
                args.push(a);
                proof {
                    assert(args_model(args@) =~= before.push(a@));
                }
            } else {
                proof {
                    assert(args_spec(t, st, args_model(args@)) == (args_model(args@), st1));
                    assert(args_reach(t, st, reach) == reach);
                }
                break;
            }
        }
        (args, reach)
    }

    fn parse_mandatory_arg(&mut self) -> (r: (Arg, Span))
        requires
            old(self).wf(),
            old(self).pos < old(self).tokens@.len(),
        ensures
            final(self).wf(),
            final(self).tokens@ == old(self).tokens@,
            final(self).pos > old(self).pos,
            (r.0@, final(self).state()) == arg_spec(old(self).token_values(), old(self).state(), true),
            r.1 == arg_reach(old(self).token_values(), old(self).state(), true),
        decreases old(self).tokens@.len() - old(self).pos, 2int,
    {
        // consume the opening brace, remembering its span for diagnostics
        let open_span = self.bump().unwrap().span;
        let (children, close) = self.parse_delimited(Stop::EndGroup);
        if close.is_none() {
            self.report(
                Diagnostic::error("E021", "unclosed mandatory argument").with_span(
                    diag_span(open_span),
                ),
            );
        }
        let reach = match close {
            Some(c) => open_span.merge(c),
            None => {
                proof {
                    if children.len() > 0 {
                        assert(nodes_model(children@).last() == children@[children.len() - 1]@);
                    }
                }
                if children.len() > 0 {
                    open_span.merge(children[children.len() - 1].span())
                } else {
                    open_span
                }
            },
        };
        (Arg::Mandatory(children), reach)
    }

    fn parse_optional_arg(&mut self) -> (r: (Arg, Span))
        requires
            old(self).wf(),
            old(self).pos < old(self).tokens@.len(),
        ensures
            final(self).wf(),
            final(self).tokens@ == old(self).tokens@,
            final(self).pos > old(self).pos,
            (r.0@, final(self).state()) == arg_spec(old(self).token_values(), old(self).state(), false),
            r.1 == arg_reach(old(self).token_values(), old(self).state(), false),
        decreases old(self).tokens@.len() - old(self).pos, 2int,
    {
        // consume the opening `[`, remembering its span for diagnostics
        let open_span = self.bump().unwrap().span;
        let (children, close) = self.parse_delimited(Stop::CloseBracket);
        if close.is_none() {
            self.report(
                Diagnostic::error("E022", "unclosed optional argument").with_span(
                    diag_span(open_span),
                ),
            );
        }
        let reach = match close {
            Some(c) => open_span.merge(c),
            None => {
                proof {
                    if children.len() > 0 {
                        assert(nodes_model(children@).last() == children@[children.len() - 1]@);
                    }
                }
                if children.len() > 0 {
                    open_span.merge(children[children.len() - 1].span())
                } else {
                    open_span
                }
            },
        };
        (Arg::Optional(children), reach)
    }

    /// Parse `\begin{name} body \end{name}`; the `\begin` token, at
    /// `begin_span`, has already been consumed.
    fn parse_environment(&mut self, begin_span: Span) -> (r: Node)
        requires
            old(self).wf(),
        ensures
            final(self).wf(),
            final(self).tokens@ == old(self).tokens@,
            final(self).pos >= old(self).pos,
            (r@, final(self).state()) == env_spec(old(self).token_values(), begin_span, old(self).state()),
        decreases old(self).tokens@.len() - old(self).pos, 4int,
    {
        let ghost t = self.token_values();
        let ghost st0 = self.state();
        let (mut args, _) = self.parse_args();

        // the first mandatory argument is the environment name; without one
        // the construct stays a plain command
        let (name_idx, env_name) = match find_env_name(&args) {
            Some(x) => x,
            None => {
                self.report(
                    Diagnostic::error("E040", "'\\begin' missing environment name").with_span(
                        diag_span(begin_span),
                    ),
                );
                return Node::Command { name: "begin".to_owned(), args, span: begin_span };
            },
        };
        proof {
            spec::lemma_env_name_index(args_model(args@), 0);
        }
        let ghost before_args = args_model(args@);
        args.remove(name_idx);
        proof {
            assert(args_model(args@) =~= before_args.remove(name_idx as int));
        }

        let body = self.parse_nodes(Stop::End);

        // try to consume the matching `\end`
        let at_end = match self.peek_kind() {
            Some(k) => is_end_control_seq(k),
            None => false,
        };
        let close_span = if at_end {
            let end_tok = self.bump().unwrap();
            let (end_args, end_reach) = self.parse_args();
            let close_name = find_env_name(&end_args);
            let matched = match &close_name {
                Some((_, n)) => str_eq(n.as_str(), env_name.as_str()),
                None => false,
            };
            if !matched {
                let mut msg = "'\\end{".to_owned();
                match &close_name {
                    Some((_, n)) => msg.append(n.as_str()),
                    None => {},
                }
                msg.append("}' does not match '\\begin{");
                msg.append(env_name.as_str());
                msg.append("}'");
                let mut note = "the matching '\\begin' opened the '".to_owned();
                note.append(env_name.as_str());
                note.append("' environment");
                let d = Diagnostic::error("E042", msg.as_str()).with_span(diag_span(end_tok.span)).with_note(
                    note.as_str(),
                );
                self.report(d);
            }
            // stretch the span over the last argument of `\end`, if any
            stretch(end_tok.span, end_reach)
        } else {
            let mut msg = "unclosed '\\begin{".to_owned();
            msg.append(env_name.as_str());
            msg.append("}'");
            self.report(Diagnostic::error("E041", msg.as_str()).with_span(diag_span(begin_span)));
            if body.len() > 0 {
                body[body.len() - 1].span()
            } else {
                begin_span
            }
        };

        Node::Environment { name: env_name, args, body, span: begin_span.merge(close_span) }
    }
}

} // verus!
