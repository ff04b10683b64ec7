use oxyl::dump::{dump_ast_lines, dump_tokens_lines, format_span, kind_code, paint, MAGENTA, RESET};
use oxyl::{Arg, Lexer, Node, Parser, Span, Style, Token, TokenKind};

fn tok(kind: TokenKind) -> Token {
    Token::new(kind, Span::new(0, 1))
}

fn s() -> Span {
    Span::new(0, 0)
}

#[test]
fn plain_passes_through_kind_text() {
    assert_eq!(paint(Style::Plain, MAGENTA, "\\foo"), "\\foo");
}

#[test]
fn ansi_wraps_in_escape_codes() {
    let out = paint(Style::Ansi, MAGENTA, "\\foo");
    assert!(out.starts_with("\x1b["));
    assert!(out.ends_with(RESET));
    assert!(out.contains("\\foo"));
}

#[test]
fn every_kind_has_colour() {
    assert!(kind_code(&TokenKind::ControlSeq("x".into())).is_some());

    assert!(kind_code(&TokenKind::BeginGroup).is_some());
    assert!(kind_code(&TokenKind::EndGroup).is_some());

    assert!(kind_code(&TokenKind::MathShift).is_some());

    assert!(kind_code(&TokenKind::AlignTab).is_some());
    assert!(kind_code(&TokenKind::Parameter).is_some());
    assert!(kind_code(&TokenKind::Superscript).is_some());
    assert!(kind_code(&TokenKind::Subscript).is_some());
    assert!(kind_code(&TokenKind::Tilde).is_some());

    assert!(kind_code(&TokenKind::Comment("x".into())).is_some());

    assert!(kind_code(&TokenKind::Space).is_some());
    assert!(kind_code(&TokenKind::ParagraphBreak).is_some());
    assert!(kind_code(&TokenKind::Char('a')).is_none());
}

#[test]
fn group_kinds_share_colour() {
    assert_eq!(kind_code(&TokenKind::BeginGroup), kind_code(&TokenKind::EndGroup));
}

#[test]
fn structural_kinds_share_colour() {
    let blue = kind_code(&TokenKind::AlignTab);

    assert_eq!(blue, kind_code(&TokenKind::Parameter));
    assert_eq!(blue, kind_code(&TokenKind::Superscript));
    assert_eq!(blue, kind_code(&TokenKind::Subscript));
    assert_eq!(blue, kind_code(&TokenKind::Tilde));
}

#[test]
fn dump_tokens_doesnt_panic_on_empty() {
    dump_tokens_lines(&vec![], Style::Plain);
    dump_tokens_lines(&vec![], Style::Ansi);
}

#[test]
fn dump_tokens_handles_mixed_input() {
    let toks = vec![
        tok(TokenKind::ControlSeq("foo".into())),
        tok(TokenKind::BeginGroup),
        tok(TokenKind::Char('a')),
        tok(TokenKind::EndGroup),
        tok(TokenKind::Comment(" hi".into())),
    ];
    assert_eq!(dump_tokens_lines(&toks, Style::Plain).len(), 6);
    assert_eq!(dump_tokens_lines(&toks, Style::Ansi).len(), 6);
}

#[test]
fn dump_ast_doesnt_panic_empty() {
    dump_ast_lines(&vec![], Style::Plain);
    dump_ast_lines(&vec![], Style::Ansi);
}

fn nested_tree() -> Vec<Node> {
    vec![
        Node::Command {
            name: "section".into(),
            args: vec![Arg::Mandatory(vec![Node::Text("Intro".to_string(), s())])],
            span: s(),
        },
        Node::ParagraphBreak(s()),
        Node::Environment {
            name: "tabular".into(),
            args: vec![Arg::Mandatory(vec![Node::Text("cc".to_string(), s())])],
            body: vec![
                Node::Text("a".into(), s()),
                Node::AlignTab(s()),
                Node::Text("b".into(), s()),
            ],
            span: s(),
        },
    ]
}

#[test]
fn ast_handles_nested_tree() {
    let nodes = nested_tree();
    dump_ast_lines(&nodes, Style::Plain);
    dump_ast_lines(&nodes, Style::Ansi);
}

#[test]
fn dump_ast_every_node() {
    let nodes = vec![
        Node::Text("t".into(), s()),
        Node::ParagraphBreak(s()),
        Node::Command { name: "x".into(), args: vec![], span: s() },
        Node::Group(vec![], s()),
        Node::Math(vec![], s()),
        Node::DisplayMath(vec![], s()),
        Node::Comment("c".into(), s()),
        Node::AlignTab(s()),
        Node::Tilde(s()),
        Node::Environment { name: "e".into(), args: vec![], body: vec![], span: s() },
    ];
    assert_eq!(dump_ast_lines(&nodes, Style::Plain).len(), 11);
}

// Exact dump lines.

#[test]
fn token_dump_lines_exact() {
    let toks = vec![
        Token::new(TokenKind::ControlSeq("foo".into()), Span::new(0, 5)),
        Token::new(TokenKind::Char('a'), Span::new(123456, 1234567)),
    ];
    assert_eq!(
        dump_tokens_lines(&toks, Style::Plain),
        vec![
            "=== tokens (2) ===".to_string(),
            "       0..5       \\foo".to_string(),
            "  123456..1234567  a".to_string(),
        ]
    );
}

#[test]
fn token_dump_lines_ansi() {
    let toks = vec![Token::new(TokenKind::Space, Span::new(3, 4)), Token::new(TokenKind::Char('x'), Span::new(4, 5))];
    assert_eq!(
        dump_tokens_lines(&toks, Style::Ansi),
        vec![
            "\x1b[1m=== tokens (2) ===\x1b[0m".to_string(),
            "  \x1b[2m     3..4     \x1b[0m  \x1b[2m<space>\x1b[0m".to_string(),
            "  \x1b[2m     4..5     \x1b[0m  x".to_string(),
        ]
    );
}

#[test]
fn ast_dump_lines_exact() {
    assert_eq!(
        dump_ast_lines(&nested_tree(), Style::Plain),
        vec![
            "=== AST (3 top-level node(s)) ===",
            "  Command \"\\section\" @ 0..0",
            "    Mandatory",
            "      Text \"Intro\" @ 0..0",
            "  ParagraphBreak @ 0..0",
            "  Environment \"tabular\" @ 0..0",
            "    Mandatory",
            "      Text \"cc\" @ 0..0",
            "    Text \"a\" @ 0..0",
            "    AlignTab @ 0..0",
            "    Text \"b\" @ 0..0",
        ]
    );
}

#[test]
fn ast_dump_quotes_text_with_escapes() {
    // text and comment bodies are shown in their escaped, quoted form
    let nodes = vec![
        Node::Text("say \"hi\"\\".into(), Span::new(1, 2)),
        Node::Comment(" c\t".into(), Span::new(2, 3)),
        Node::Group(vec![Node::Tilde(Span::new(4, 5))], Span::new(3, 6)),
        Node::Math(vec![], Span::new(6, 8)),
        Node::DisplayMath(vec![], Span::new(8, 12)),
    ];
    assert_eq!(
        dump_ast_lines(&nodes, Style::Plain),
        vec![
            "=== AST (5 top-level node(s)) ===",
            "  Text \"say \\\"hi\\\"\\\\\" @ 1..2",
            "  Comment \" c\\t\" @ 2..3",
            "  Group @ 3..6",
            "    Tilde @ 4..5",
            "  Math @ 6..8",
            "  DisplayMath @ 8..12",
        ]
    );
}

#[test]
fn ast_dump_ansi_colours() {
    let nodes = vec![Node::Command {
        name: "x".into(),
        args: vec![Arg::Optional(vec![])],
        span: Span::new(0, 2),
    }];
    assert_eq!(
        dump_ast_lines(&nodes, Style::Ansi),
        vec![
            "\x1b[1m=== AST (1 top-level node(s)) ===\x1b[0m",
            "  \x1b[1;36mCommand\x1b[0m \x1b[32m\"\\x\"\x1b[0m \x1b[2m@ 0..2\x1b[0m",
            "    \x1b[1;35mOptional\x1b[0m",
        ]
    );
}

#[test]
fn ast_dump_of_parsed_source() {
    let tokens = Lexer::new("\\sqrt[3]{x}").tokenise().tokens;
    let r = Parser::new(tokens).parse();
    assert_eq!(
        dump_ast_lines(&r.document.body, Style::Plain),
        vec![
            "=== AST (1 top-level node(s)) ===",
            "  Command \"\\sqrt\" @ 0..11",
            "    Optional",
            "      Text \"3\" @ 6..7",
            "    Mandatory",
            "      Text \"x\" @ 9..10",
        ]
    );
}

#[test]
fn format_span_text() {
    assert_eq!(format_span(Span::new(7, 42)), "@ 7..42");
}
