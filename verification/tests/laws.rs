use oxyl::dump::header_line;
use oxyl::{Arg, DiagSpan, Diagnostic, Lexer, Node, Parser, Severity, Source, Span, Style};

const SAMPLE: &str = "\\section[s]{Intro} text $a^2$ % note\n\n\\begin{tabular}{cc}\n A & B \\\\\n\\end{tabular}\n\\[ x \\] {g ~ h}";

fn walk_nodes(nodes: &[Node], f: &mut dyn FnMut(&Node)) {
    for n in nodes {
        f(n);
        match n {
            Node::Command { args, .. } => walk_args(args, f),
            Node::Group(c, _) | Node::Math(c, _) | Node::DisplayMath(c, _) => walk_nodes(c, f),
            Node::Environment { args, body, .. } => {
                walk_args(args, f);
                walk_nodes(body, f);
            }
            _ => {}
        }
    }
}

fn walk_args(args: &[Arg], f: &mut dyn FnMut(&Node)) {
    for a in args {
        match a {
            Arg::Mandatory(c) | Arg::Optional(c) => walk_nodes(c, f),
        }
    }
}

#[test]
fn tokens_of_clean_source_tile_it() {
    let r = Lexer::new(SAMPLE).tokenise();
    assert!(!r.has_errors());
    let mut at = 0;
    for t in &r.tokens {
        assert_eq!(t.span.start, at);
        assert!(t.span.start < t.span.end);
        at = t.span.end;
    }
    assert_eq!(at, SAMPLE.len());
}

#[test]
fn every_node_points_into_the_source() {
    let tokens = Lexer::new(SAMPLE).tokenise().tokens;
    let r = Parser::new(tokens).parse();
    let mut count = 0;
    walk_nodes(&r.document.body, &mut |n| {
        let sp = n.span();
        assert!(sp.start < sp.end && sp.end <= SAMPLE.len(), "{n:?}");
        count += 1;
    });
    assert!(count > 10);
}

#[test]
fn every_parser_error_points_at_a_token() {
    let src = "\\end{x} {a $b \\[ c \\begin{d}e\\end{f} \\] \\begin g \\cmd[h";
    let tokens = Lexer::new(src).tokenise().tokens;
    let spans: Vec<(usize, usize)> = tokens.iter().map(|t| (t.span.start, t.span.end)).collect();
    let r = Parser::new(tokens).parse();
    assert!(r.errors.len() >= 5);
    for e in &r.errors {
        assert_eq!(e.severity, Severity::Error);
        assert!(e.code.starts_with("E0"));
        let sp = e.span.unwrap();
        assert!(spans.contains(&(sp.start, sp.end)), "{e:?}");
    }
}

#[test]
fn line_and_column_locate_every_byte() {
    let text = "ab\n\ncde\nf";
    let src = Source::new(text);
    let starts = [0usize, 3, 4, 8];
    for byte in 0..=text.len() {
        let (line, col) = src.line_col(byte);
        let start = starts[line - 1];
        assert_eq!(start + col - 1, byte);
        assert!(byte <= start + src.line_text(line).len());
    }
}

#[test]
fn plain_render_of_escape_free_parts_has_no_escape() {
    let src = Source::with_name("x {y\nz\n", "f.tex");
    let d = Diagnostic::warning("W9", "m").with_span(DiagSpan::new(2, 3)).with_note("n");
    assert!(!d.render(&src).contains('\x1b'));
    assert!(d.render_styled(&src, Style::Ansi).contains('\x1b'));
}

#[test]
fn header_line_exact() {
    let indent = "    ".to_string();
    assert_eq!(
        header_line(&indent, "Text", Some("\"x\"".to_string()), Span::new(0, 1), Style::Plain),
        "    Text \"x\" @ 0..1"
    );
    assert_eq!(
        header_line(&indent, "Tilde", None, Span::new(5, 6), Style::Ansi),
        "    \x1b[1;36mTilde\x1b[0m \x1b[2m@ 5..6\x1b[0m"
    );
}


#[test]
fn plain_token_dump_has_no_escape() {
    let tokens = Lexer::new(SAMPLE).tokenise().tokens;
    let plain = oxyl::dump::dump_tokens_lines(&tokens, Style::Plain);
    assert_eq!(plain.len(), tokens.len() + 1);
    assert!(plain.iter().all(|l| !l.contains('\x1b')));
    let ansi = oxyl::dump::dump_tokens_lines(&tokens, Style::Ansi);
    assert!(ansi.iter().all(|l| l.contains('\x1b')));
}

fn check_runs(nodes: &[Node]) {
    for (k, n) in nodes.iter().enumerate() {
        if let Node::Text(s, _) = n {
            assert!(!s.is_empty());
            if k + 1 < nodes.len() {
                assert!(!matches!(nodes[k + 1], Node::Text(_, _)), "{nodes:?}");
            }
        }
        match n {
            Node::Command { args, .. } => args.iter().for_each(|a| match a {
                Arg::Mandatory(c) | Arg::Optional(c) => check_runs(c),
            }),
            Node::Group(c, _) | Node::Math(c, _) | Node::DisplayMath(c, _) => check_runs(c),
            Node::Environment { args, body, .. } => {
                args.iter().for_each(|a| match a {
                    Arg::Mandatory(c) | Arg::Optional(c) => check_runs(c),
                });
                check_runs(body);
            }
            _ => {}
        }
    }
}

#[test]
fn text_is_gathered_into_runs() {
    for src in [SAMPLE, "a}b^c", "x \\] y {p}q $r _ s$", "\\end{z} w"] {
        let tokens = Lexer::new(src).tokenise().tokens;
        let r = Parser::new(tokens).parse();
        check_runs(&r.document.body);
    }
}
