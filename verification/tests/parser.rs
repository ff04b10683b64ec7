use oxyl::{Arg, DiagSpan, Lexer, Node, ParseResult, Parser, Severity, Span};

fn parse(src: &str) -> ParseResult {
    let tokens = Lexer::new(src).tokenise().tokens;
    Parser::new(tokens).parse()
}

fn first_command(src: &str) -> (String, Vec<Arg>) {
    let r = parse(src);
    for node in &r.document.body {
        if let Node::Command { name, args, .. } = node {
            return (name.clone(), args.clone());
        }
    }
    panic!("no command found in: {src}");
}

fn codes(src: &str) -> Vec<&'static str> {
    parse(src).errors.iter().map(|e| e.code).collect()
}

#[test]
fn command_no_args() {
    let (name, args) = first_command("\\LaTeX");
    assert_eq!(name, "LaTeX");
    assert!(args.is_empty());
}

#[test]
fn command_one_mandatory_arg() {
    let (name, args) = first_command("\\textbf{hello}");
    assert_eq!(name, "textbf");
    assert_eq!(args.len(), 1);
    assert!(matches!(&args[0], Arg::Mandatory(children)
        if matches!(&children[0], Node::Text(s, _) if s == "hello")));
}

#[test]
fn command_two_mandatory_args() {
    let (name, args) = first_command("\\frac{a}{b}");
    assert_eq!(name, "frac");
    assert_eq!(args.len(), 2);
}

#[test]
fn unclosed_arg_produces_error() {
    let r = parse("\\cmd{oops");
    assert!(!r.errors.is_empty());
}

#[test]
fn paragraph_break_still_works() {
    let r = parse("line one\n\nline two");
    let has_par = r.document.body.iter().any(|n| matches!(n, Node::ParagraphBreak(_)));
    assert!(has_par);
}

#[test]
fn nested_command_in_arg() {
    let r = parse("\\outer{\\inner{x}}");
    assert!(r.errors.is_empty());
    if let Node::Command { args, .. } = &r.document.body[0] {
        if let Arg::Mandatory(inner) = &args[0] {
            assert!(matches!(&inner[0], Node::Command { name, .. } if name == "inner"));
        } else {
            panic!("expected mandatory arg");
        }
    } else {
        panic!("expected command");
    }
}

#[test]
fn command_with_optional_arg() {
    let (name, args) = first_command("\\sqrt[3]{27}");
    assert_eq!(name, "sqrt");
    assert_eq!(args.len(), 2);
    assert!(matches!(&args[0], Arg::Optional(children)
        if matches!(&children[0], Node::Text(s, _) if s == "3")));
    assert!(matches!(&args[1], Arg::Mandatory(children)
        if matches!(&children[0], Node::Text(s, _) if s == "27")));
}

#[test]
fn command_with_only_optional_arg() {
    let (name, args) = first_command("\\foo[opt]");
    assert_eq!(name, "foo");
    assert_eq!(args.len(), 1);
    assert!(matches!(&args[0], Arg::Optional(_)));
}

#[test]
fn optional_then_two_mandatory() {
    let (_, args) = first_command("\\section[short]{long}{extra}");
    assert_eq!(args.len(), 3);
    assert!(matches!(&args[0], Arg::Optional(_)));
    assert!(matches!(&args[1], Arg::Mandatory(_)));
    assert!(matches!(&args[2], Arg::Mandatory(_)));
}

#[test]
fn unclosed_optional_arg_produces_error() {
    let r = parse("\\cmd[oops");
    assert!(!r.errors.is_empty());
}

#[test]
fn bracket_outside_command_is_text() {
    let r = parse("hello [world]");
    assert!(r.errors.is_empty());
    assert!(matches!(&r.document.body[0], Node::Text(s, _) if s == "hello [world]"));
}

#[test]
fn inline_math_simple() {
    let r = parse("$x+1$");
    assert!(r.errors.is_empty());
    assert_eq!(r.document.body.len(), 1);
    assert!(matches!(&r.document.body[0], Node::Math(children, _)
        if matches!(&children[0], Node::Text(s, _) if s == "x+1")));
}

#[test]
fn inline_math_with_command() {
    let r = parse("$\\alpha + \\beta$");
    assert!(r.errors.is_empty());
    if let Node::Math(children, _) = &r.document.body[0] {
        let names: Vec<_> = children
            .iter()
            .filter_map(|n| match n {
                Node::Command { name, .. } => Some(name.as_str()),
                _ => None,
            })
            .collect();
        assert_eq!(names, vec!["alpha", "beta"]);
    } else {
        panic!("expected math node");
    }
}

#[test]
fn unclosed_math_produces_error() {
    let r = parse("text $oops");
    assert!(!r.errors.is_empty());
}

#[test]
fn parser_errors_carry_spans() {
    let cases = [
        "\\cmd{oops", // E021
        "\\cmd[oops", // E022
        "{",          // E020
        "$oops",      // E030
    ];
    for src in cases {
        let r = parse(src);
        assert!(!r.errors.is_empty(), "expected error for {src:?}");
        for e in &r.errors {
            assert!(e.span.is_some(), "error for {src:?} has no span: {e:?}");
        }
    }
}

#[test]
fn math_after_text() {
    let r = parse("hello $x$");
    assert!(r.errors.is_empty());
    assert_eq!(r.document.body.len(), 2);
    assert!(matches!(&r.document.body[0], Node::Text(s, _) if s == "hello "));
    assert!(matches!(&r.document.body[1], Node::Math(_, _)));
}

#[test]
fn display_math_simple() {
    let r = parse("\\[x+1\\]");
    assert!(r.errors.is_empty(), "{:?}", r.errors);
    assert_eq!(r.document.body.len(), 1);
    assert!(matches!(&r.document.body[0], Node::DisplayMath(children, _)
        if matches!(&children[0], Node::Text(s, _) if s == "x+1")));
}

#[test]
fn display_math_with_command() {
    let r = parse("\\[ \\sum_{i=0}^n i \\]");
    assert!(r.errors.is_empty(), "{:?}", r.errors);
    assert!(matches!(&r.document.body[0], Node::DisplayMath(_, _)));
}

#[test]
fn unclosed_display_math_produces_error() {
    let r = parse("\\[ a + b");
    assert!(r.errors.iter().any(|e| e.code == "E031"));
}

#[test]
fn stray_close_display_math_produces_error() {
    let r = parse("oops \\] more");
    assert!(r.errors.iter().any(|e| e.code == "E032"));
}

#[test]
fn comment_preserved() {
    let r = parse("% hello\nworld");
    assert!(r.errors.is_empty());
    assert!(matches!(&r.document.body[0], Node::Comment(s, _) if s == " hello"));
    assert!(matches!(&r.document.body[1], Node::Text(s, _) if s == "world"));
}

#[test]
fn comment_inside_command_arg() {
    let r = parse("\\textbf{foo % drop?\nbar}");
    assert!(r.errors.is_empty(), "{:?}", r.errors);
    if let Node::Command { args, .. } = &r.document.body[0] {
        if let Arg::Mandatory(children) = &args[0] {
            assert!(children.iter().any(|n| matches!(n, Node::Comment(_, _))));
        } else {
            panic!("expected mandatory arg");
        }
    } else {
        panic!("expected command");
    }
}

#[test]
fn environment_simple() {
    let r = parse("\\begin{quote}hello\\end{quote}");
    assert!(r.errors.is_empty(), "{:?}", r.errors);
    if let Node::Environment { name, args, body, .. } = &r.document.body[0] {
        assert_eq!(name, "quote");
        assert!(args.is_empty());
        assert!(matches!(&body[0], Node::Text(s, _) if s == "hello"));
    } else {
        panic!("expected environment, got {:?}", r.document.body[0]);
    }
}

#[test]
fn environment_with_starred_name() {
    let r = parse("\\begin{equation*}x = 1\\end{equation*}");
    assert!(r.errors.is_empty(), "{:?}", r.errors);
    assert!(matches!(&r.document.body[0], Node::Environment { name, .. } if name == "equation*"));
}

#[test]
fn environment_with_extra_args() {
    let r = parse("\\begin{tabular}{cc}A & B\\end{tabular}");
    assert!(r.errors.is_empty(), "{:?}", r.errors);
    if let Node::Environment { name, args, .. } = &r.document.body[0] {
        assert_eq!(name, "tabular");
        assert_eq!(args.len(), 1);
        assert!(matches!(&args[0], Arg::Mandatory(_)));
    } else {
        panic!("expected environment");
    }
}

#[test]
fn nested_environments() {
    let r = parse("\\begin{outer}\\begin{inner}x\\end{inner}\\end{outer}");
    assert!(r.errors.is_empty(), "{:?}", r.errors);
    if let Node::Environment { name, body, .. } = &r.document.body[0] {
        assert_eq!(name, "outer");
        assert!(matches!(&body[0], Node::Environment { name, .. } if name == "inner"));
    } else {
        panic!("expected outer environment");
    }
}

#[test]
fn mismatched_end_produces_error() {
    let r = parse("\\begin{a}x\\end{b}");
    assert!(r.errors.iter().any(|e| e.code == "E042"));
}

#[test]
fn unclosed_begin_produces_error() {
    let r = parse("\\begin{a}body");
    assert!(r.errors.iter().any(|e| e.code == "E041"));
}

#[test]
fn stray_end_produces_error() {
    let r = parse("\\end{a}");
    assert!(r.errors.iter().any(|e| e.code == "E043"));
}

#[test]
fn begin_without_name_produces_error() {
    let r = parse("\\begin foo");
    assert!(r.errors.iter().any(|e| e.code == "E040"));
}

#[test]
fn align_tab_becomes_node() {
    let r = parse("a & b");
    assert!(r.errors.is_empty());
    let kinds: Vec<_> = r
        .document
        .body
        .iter()
        .map(|n| match n {
            Node::Text(s, _) => format!("T({s})"),
            Node::AlignTab(_) => "&".to_owned(),
            other => format!("{other:?}"),
        })
        .collect();
    assert_eq!(kinds, vec!["T(a )", "&", "T( b)"]);
}

#[test]
fn tilde_becomes_node() {
    let r = parse("oxyl.~isthebest");
    assert!(r.errors.is_empty());
    assert!(matches!(&r.document.body[1], Node::Tilde(_)));
}

#[test]
fn align_tab_inside_tabular_body() {
    let r = parse("\\begin{tabular}{cc}A & B\\end{tabular}");
    assert!(r.errors.is_empty(), "{:?}", r.errors);
    if let Node::Environment { body, .. } = &r.document.body[0] {
        assert!(body.iter().any(|n| matches!(n, Node::AlignTab(_))));
    } else {
        panic!("expected environment");
    }
}

// Spans, exact diagnostics and recovery.

#[test]
fn math_span_covers_both_dollars() {
    let r = parse("ab $x$ c");
    assert!(matches!(&r.document.body[1], Node::Math(_, sp) if *sp == Span::new(3, 6)));
}

#[test]
fn display_math_span_covers_both_delimiters() {
    let r = parse("\\[x\\]");
    assert_eq!(r.document.body[0].span(), Span::new(0, 5));
}

#[test]
fn text_node_span_grows_with_each_char() {
    let r = parse("abc {d}");
    assert!(matches!(&r.document.body[0], Node::Text(s, sp) if s == "abc " && *sp == Span::new(0, 4)));
    assert!(matches!(&r.document.body[1], Node::Group(_, sp) if *sp == Span::new(4, 7)));
}

#[test]
fn command_span_covers_last_argument() {
    // the span runs over the last argument, its closing brace included
    let r = parse("\\textbf{hi}");
    assert_eq!(r.document.body[0].span(), Span::new(0, 11));
    let r = parse("\\foo{}");
    assert_eq!(r.document.body[0].span(), Span::new(0, 6));
    let r = parse("\\frac{a}{b}");
    assert_eq!(r.document.body[0].span(), Span::new(0, 11));
    let r = parse("\\sqrt[3] x");
    assert_eq!(r.document.body[0].span(), Span::new(0, 8));
}

#[test]
fn command_span_over_unclosed_argument() {
    // an unclosed argument reaches to its last child
    let r = parse("\\foo{ab");
    assert_eq!(r.document.body[0].span(), Span::new(0, 7));
    let r = parse("\\foo{");
    assert_eq!(r.document.body[0].span(), Span::new(0, 5));
}

#[test]
fn environment_span_covers_begin_to_end() {
    let r = parse("\\begin{a}x\\end{a}");
    assert!(r.errors.is_empty());
    assert_eq!(r.document.body[0].span(), Span::new(0, 17));
    let r = parse("\\begin{quote}hello\\end{quote}");
    assert_eq!(r.document.body[0].span(), Span::new(0, 29));
}

#[test]
fn environment_name_skips_non_text_argument() {
    let r = parse("\\begin{$x$}{a}b\\end{a}");
    assert!(r.errors.is_empty(), "{:?}", r.errors);
    if let Node::Environment { name, args, body, .. } = &r.document.body[0] {
        assert_eq!(name, "a");
        assert_eq!(args.len(), 1);
        assert!(matches!(&args[0], Arg::Mandatory(c) if matches!(&c[0], Node::Math(_, _))));
        assert!(matches!(&body[0], Node::Text(s, _) if s == "b"));
    } else {
        panic!("expected environment");
    }
}

#[test]
fn document_clone_keeps_body() {
    let r = parse("a $b$");
    let d = r.document.clone();
    assert_eq!(format!("{:?}", d), format!("{:?}", r.document));
}

#[test]
fn unclosed_group_diagnostic_exact() {
    let r = parse("ab {c");
    assert_eq!(r.errors.len(), 1);
    let e = &r.errors[0];
    assert_eq!(e.code, "E020");
    assert_eq!(e.severity, Severity::Error);
    assert_eq!(e.message, "unclosed '{'");
    assert_eq!(e.span, Some(DiagSpan::new(3, 4)));
    assert!(matches!(&r.document.body[1], Node::Group(ch, sp)
        if ch.len() == 1 && *sp == Span::new(3, 4)));
}

#[test]
fn each_unclosed_opener_has_its_code() {
    assert_eq!(codes("\\cmd{oops"), vec!["E021"]);
    assert_eq!(codes("\\cmd[oops"), vec!["E022"]);
    assert_eq!(codes("{"), vec!["E020"]);
    assert_eq!(codes("$oops"), vec!["E030"]);
    assert_eq!(codes("\\[ a"), vec!["E031"]);
    assert_eq!(codes("\\]"), vec!["E032"]);
    assert_eq!(codes("\\begin x"), vec!["E040"]);
    assert_eq!(codes("\\begin{a}x"), vec!["E041"]);
    assert_eq!(codes("\\begin{a}x\\end{b}"), vec!["E042"]);
    assert_eq!(codes("\\end{a}"), vec!["E043"]);
}

#[test]
fn mismatched_end_message_and_note() {
    let r = parse("\\begin{a}x\\end{b}");
    let e = &r.errors[0];
    assert_eq!(e.message, "'\\end{b}' does not match '\\begin{a}'");
    assert_eq!(e.notes, vec!["the matching '\\begin' opened the 'a' environment".to_string()]);
    assert_eq!(e.span, Some(DiagSpan::new(10, 14)));
}

#[test]
fn unclosed_begin_message() {
    let r = parse("\\begin{abc}x");
    assert_eq!(r.errors[0].message, "unclosed '\\begin{abc}'");
    assert_eq!(r.errors[0].span, Some(DiagSpan::new(0, 6)));
}

#[test]
fn environment_name_is_trimmed() {
    let r = parse("\\begin{ itemize }x\\end{itemize}");
    assert!(r.errors.is_empty(), "{:?}", r.errors);
    assert!(matches!(&r.document.body[0], Node::Environment { name, .. } if name == "itemize"));
}

#[test]
fn parsing_recovers_after_errors() {
    let r = parse("\\] a $b");
    assert_eq!(codes("\\] a $b"), vec!["E032", "E030"]);
    assert!(matches!(&r.document.body[0], Node::Text(s, _) if s == " a "));
    assert!(matches!(&r.document.body[1], Node::Math(ch, _) if ch.len() == 1));
}

#[test]
fn stray_closing_brace_is_dropped() {
    // the `}` is skipped, so the text on both sides joins into one node
    let r = parse("a}b");
    assert!(r.errors.is_empty());
    assert_eq!(r.document.body.len(), 1);
    assert!(matches!(&r.document.body[0], Node::Text(s, sp) if s == "ab" && *sp == Span::new(0, 3)));
}

#[test]
fn empty_input_gives_empty_document() {
    let r = parse("");
    assert!(r.document.body.is_empty());
    assert!(r.errors.is_empty());
}

#[test]
fn cloned_nodes_are_equal_in_shape() {
    let r = parse("\\sqrt[3]{x}");
    let copy = r.document.body.clone();
    assert_eq!(format!("{:?}", copy), format!("{:?}", r.document.body));
}
