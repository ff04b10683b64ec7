use oxyl::{LexError, LexResult, Lexer, Span, Token, TokenKind};

fn lex(src: &str) -> LexResult {
    Lexer::new(src).tokenise()
}

fn kinds(src: &str) -> Vec<TokenKind> {
    lex(src).tokens.into_iter().map(|t| t.kind).collect()
}

fn spans(src: &str) -> Vec<(usize, usize)> {
    lex(src).tokens.into_iter().map(|t| (t.span.start, t.span.end)).collect()
}

#[test]
fn empty() {
    assert_eq!(kinds(""), vec![]);
}

#[test]
fn plain_chars() {
    assert_eq!(kinds("ab"), vec![TokenKind::Char('a'), TokenKind::Char('b')]);
}

#[test]
fn control_seq() {
    assert_eq!(kinds("\\hello"), vec![TokenKind::ControlSeq("hello".into())]);
}

#[test]
fn control_seq_skips_trailing_space() {
    let ks = kinds("\\foo bar");
    assert_eq!(ks[0], TokenKind::ControlSeq("foo".into()));
    assert_eq!(ks[1], TokenKind::Char('b'));
}

#[test]
fn paragraph_break_detected() {
    assert!(kinds("a\n\nb").contains(&TokenKind::ParagraphBreak));
}

#[test]
fn single_newline_is_space() {
    assert_eq!(
        kinds("a\nb"),
        vec![TokenKind::Char('a'), TokenKind::Space, TokenKind::Char('b')]
    );
}

#[test]
fn comment() {
    let ks = kinds("a% hi\nb");
    assert_eq!(ks[1], TokenKind::Comment(" hi".into()));
}

#[test]
fn special_chars() {
    assert_eq!(
        kinds("$^_~&#"),
        vec![
            TokenKind::MathShift,
            TokenKind::Superscript,
            TokenKind::Subscript,
            TokenKind::Tilde,
            TokenKind::AlignTab,
            TokenKind::Parameter,
        ]
    );
}

#[test]
fn non_ascii_error() {
    assert!(lex("é").has_errors());
}

#[test]
fn lone_backslash_error() {
    assert!(lex("\\").has_errors());
}

#[test]
fn control_symbol_emits_control_seq() {
    assert_eq!(kinds("\\$"), vec![TokenKind::ControlSeq("$".into())]);
    assert_eq!(kinds("\\\\"), vec![TokenKind::ControlSeq("\\".into())]);
    assert_eq!(kinds("\\#"), vec![TokenKind::ControlSeq("#".into())]);
    assert_eq!(kinds("\\["), vec![TokenKind::ControlSeq("[".into())]);
}

#[test]
fn control_symbol_does_not_skip_trailing_space() {
    assert_eq!(
        kinds("\\$ x"),
        vec![TokenKind::ControlSeq("$".into()), TokenKind::Space, TokenKind::Char('x')]
    );
}

// Spans, errors and the remaining token kinds.

#[test]
fn spans_tile_the_source() {
    // every byte of an error-free source is covered by exactly one token
    assert_eq!(
        spans("\\foo  {x}% c\n\n \ny"),
        vec![(0, 6), (6, 7), (7, 8), (8, 9), (9, 13), (13, 16), (16, 17)]
    );
}

#[test]
fn comment_at_end_without_newline() {
    let r = lex("%abc");
    assert_eq!(r.tokens, vec![Token::new(TokenKind::Comment("abc".into()), Span::new(0, 4))]);
}

#[test]
fn paragraph_break_swallows_blank_lines() {
    let r = lex("a\n \t\n\n  b");
    assert_eq!(
        r.tokens,
        vec![
            Token::new(TokenKind::Char('a'), Span::new(0, 1)),
            Token::new(TokenKind::ParagraphBreak, Span::new(1, 8)),
            Token::new(TokenKind::Char('b'), Span::new(8, 9)),
        ]
    );
}

#[test]
fn newline_then_indent_is_one_space() {
    let r = lex("a\n   b");
    assert_eq!(r.tokens[1], Token::new(TokenKind::Space, Span::new(1, 5)));
}

#[test]
fn braces_and_tabs() {
    assert_eq!(
        kinds("{\t}"),
        vec![TokenKind::BeginGroup, TokenKind::Space, TokenKind::EndGroup]
    );
}

#[test]
fn non_ascii_error_records_byte_offset_and_char() {
    let r = lex("aé b");
    assert_eq!(r.errors, vec![LexError::NonAsciiChar { pos: 1, ch: 'é' }]);
    // lexing goes on after the error; the offsets stay byte offsets
    assert_eq!(
        r.tokens,
        vec![
            Token::new(TokenKind::Char('a'), Span::new(0, 1)),
            Token::new(TokenKind::Space, Span::new(3, 4)),
            Token::new(TokenKind::Char('b'), Span::new(4, 5)),
        ]
    );
}

#[test]
fn lone_backslash_error_position() {
    let r = lex("ab\\");
    assert_eq!(r.errors, vec![LexError::UnexpectedEndAfterBackslash { pos: 2 }]);
    assert_eq!(r.tokens.len(), 2);
}

#[test]
fn backslash_before_non_ascii_is_error() {
    let r = lex("\\é x");
    assert_eq!(r.errors, vec![LexError::NonAsciiChar { pos: 1, ch: 'é' }]);
    assert_eq!(
        r.tokens,
        vec![
            Token::new(TokenKind::Space, Span::new(3, 4)),
            Token::new(TokenKind::Char('x'), Span::new(4, 5)),
        ]
    );
}

#[test]
fn non_ascii_in_comment_is_error() {
    let r = lex("%aé€\nx");
    assert_eq!(
        r.errors,
        vec![
            LexError::NonAsciiChar { pos: 2, ch: 'é' },
            LexError::NonAsciiChar { pos: 4, ch: '€' },
        ]
    );
    assert_eq!(
        r.tokens,
        vec![
            Token::new(TokenKind::Comment("aé€".into()), Span::new(0, 8)),
            Token::new(TokenKind::Char('x'), Span::new(8, 9)),
        ]
    );
}

#[test]
fn ascii_comment_has_no_error() {
    assert!(!lex("% plain\n").has_errors());
}

#[test]
fn token_text_forms() {
    assert_eq!(TokenKind::ControlSeq("foo".into()).to_string(), "\\foo");
    assert_eq!(TokenKind::BeginGroup.to_string(), "{");
    assert_eq!(TokenKind::EndGroup.to_string(), "}");
    assert_eq!(TokenKind::Space.to_string(), "<space>");
    assert_eq!(TokenKind::ParagraphBreak.to_string(), "<par>");
    assert_eq!(TokenKind::Comment(" x".into()).to_string(), "% x");
    assert_eq!(TokenKind::Char('q').to_string(), "q");
    assert_eq!(Token::new(TokenKind::Tilde, Span::new(3, 4)).to_string(), "~ @ 3..4");
}

#[test]
fn span_operations() {
    let a = Span::new(2, 5);
    let b = Span::new(4, 9);
    assert_eq!(a.len(), 3);
    assert!(!a.is_empty());
    assert!(Span::new(4, 4).is_empty());
    assert_eq!(a.merge(b), Span::new(2, 9));
    assert_eq!(b.merge(a), Span::new(2, 9));
    assert_eq!(a.merge(a), a);
    assert_eq!(a.to_string(), "2..5");
}
