use oxyl::{DiagSpan, Diagnostic, LexError, Severity, Source, Style};

#[test]
fn error_display_no_span() {
    let d = Diagnostic::error("E001", "undefined control sequence");
    assert_eq!(d.to_string(), "error [E001]: undefined control sequence");
}

#[test]
fn error_display_with_span() {
    let d = Diagnostic::error("E001", "bad input").with_span(DiagSpan::new(4, 9));
    assert!(d.to_string().contains("at 4..9"));
}

#[test]
fn error_display_with_hint() {
    let d = Diagnostic::error("E001", "bad input")
        .with_span(DiagSpan::new(0, 3))
        .with_source_hint("abc");
    assert!(d.to_string().contains("| abc"));
}

#[test]
fn lex_error_into_diagnostic_carries_span() {
    let e = LexError::UnexpectedEndAfterBackslash { pos: 7 };
    let d: Diagnostic = e.into();
    assert!(d.span.is_some());
}

#[test]
fn source_line_col_first_line() {
    let s = Source::new("hello\nworld\n");
    assert_eq!(s.line_col(0), (1, 1));
    assert_eq!(s.line_col(4), (1, 5));
}

#[test]
fn source_line_col_subsequent_lines() {
    let s = Source::new("hello\nworld\n!");
    assert_eq!(s.line_col(6), (2, 1)); // w
    assert_eq!(s.line_col(10), (2, 5)); // d
    assert_eq!(s.line_col(12), (3, 1)); // !
}

#[test]
fn source_line_text() {
    let s = Source::new("hello\nworld\n!");
    assert_eq!(s.line_text(1), "hello");
    assert_eq!(s.line_text(2), "world");
    assert_eq!(s.line_text(3), "!");
}

#[test]
fn render_include_caret_and_line_number() {
    let src = Source::new("foo {bar\n");
    let d = Diagnostic::error("E020", "unclosed '{'").with_span(DiagSpan::new(4, 5));
    let out = d.render(&src);
    assert!(out.contains("line 1:5"));
    assert!(out.contains("foo {bar"));
    assert!(out.contains("^"));
}

#[test]
fn render_falls_back_when_no_span() {
    let src = Source::new("anything");
    let d = Diagnostic::error("E001", "no location");
    // Without a span, render should match the text form.
    assert_eq!(d.render(&src), d.to_string());
}

#[test]
fn render_uses_source_name() {
    let src = Source::with_name("foo {bar\n", "main.tex");
    let d = Diagnostic::error("E020", "unclosed '{'").with_span(DiagSpan::new(4, 5));
    let out = d.render(&src);
    assert!(out.contains("main.tex:1:5"), "got: {out}");
}

#[test]
fn render_drops_name_prefix_when_unnamed() {
    let src = Source::new("foo {bar\n");
    let d = Diagnostic::error("E020", "unclosed '{'").with_span(DiagSpan::new(4, 5));
    let out = d.render(&src);
    assert!(out.contains("line 1:5"));
    assert!(!out.contains("foo {bar:"), "name should not leak");
}

#[test]
fn render_plain_has_no_escape_codes() {
    let src = Source::new("foo {bar\n");
    let d = Diagnostic::error("E020", "unclosed '{'").with_span(DiagSpan::new(4, 5));
    let plain = d.render(&src);
    assert!(!plain.contains('\x1b'), "plain render should not contain ESC: {plain:?}");
}

#[test]
fn render_ansi_paints_severity_and_carets() {
    let src = Source::new("foo {bar\n");
    let d = Diagnostic::error("E020", "unclosed '{'").with_span(DiagSpan::new(4, 5));
    let ansi = d.render_styled(&src, Style::Ansi);
    assert!(ansi.contains('\x1b'), "ansi render should contain ESC");
    assert!(ansi.contains("error"));
    assert!(ansi.contains("line 1:5"));
    assert!(ansi.contains('^'));
}

#[test]
fn render_warning_uses_yellow_not_red() {
    let src = Source::new("foo\n");
    let err = Diagnostic::error("E001", "x")
        .with_span(DiagSpan::new(0, 1))
        .render_styled(&src, Style::Ansi);
    let warn = Diagnostic::warning("W001", "x")
        .with_span(DiagSpan::new(0, 1))
        .render_styled(&src, Style::Ansi);
    assert_ne!(err, warn, "error and warning should pick different colours");
}

#[test]
fn render_includes_notes_after_caret() {
    let src = Source::new("foo {bar\n");
    let d = Diagnostic::error("E020", "unclosed '{'")
        .with_span(DiagSpan::new(4, 5))
        .with_note("braces must be balanced")
        .with_note("did you forget a '}'?");
    let out = d.render(&src);
    assert!(out.contains("= note: braces must be balanced"), "got: {out}");
    assert!(out.contains("= note: did you forget a '}'"));
    let caret_idx = out.find('^').unwrap();
    let note_idx = out.find("braces").unwrap();
    assert!(note_idx > caret_idx, "notes must follow the caret");
}

#[test]
fn ansi_render_paints_note_word() {
    let src = Source::new("x\n");
    let d = Diagnostic::error("E001", "boom")
        .with_span(DiagSpan::new(0, 1))
        .with_note("a follow-up");
    let ansi = d.render_styled(&src, Style::Ansi);
    let plain = d.render_styled(&src, Style::Plain);
    assert!(ansi.contains("a follow-up"));
    assert!(plain.contains("a follow-up"));
    assert!(ansi.contains("\x1b[1;36mnote:\x1b[0m"));
    assert!(!plain.contains('\x1b'));
}

#[test]
fn display_renders_notes_when_no_source_available() {
    let d = Diagnostic::error("E001", "x").with_note("hello");
    assert!(d.to_string().contains("= note: hello"));
}

#[test]
fn plain_style_passes_through() {
    assert_eq!(Style::Plain.severity(Severity::Error, "error"), "error");
    assert_eq!(Style::Plain.bold("hi"), "hi");
    assert_eq!(Style::Plain.gutter("-->"), "-->");
}

#[test]
fn ansi_style_wraps_with_escape_codes() {
    let out = Style::Ansi.severity(Severity::Error, "error");
    assert!(out.starts_with("\x1b["));
    assert!(out.ends_with("\x1b[0m"));
    assert!(out.contains("error"));
}

#[test]
fn ansi_severity_uses_distinct_colors() {
    let e = Style::Ansi.severity(Severity::Error, "x");
    let w = Style::Ansi.severity(Severity::Warning, "x");
    let n = Style::Ansi.severity(Severity::Note, "x");
    assert_ne!(e, w);
    assert_ne!(w, n);
    assert_ne!(e, n);
}

// Exact outputs of the renderer and of the text form.

#[test]
fn render_exact_plain_layout() {
    let src = Source::new("foo {bar\n");
    let d = Diagnostic::error("E020", "unclosed '{'").with_span(DiagSpan::new(4, 5));
    assert_eq!(
        d.render(&src),
        "error [E020]: unclosed '{'\n  --> line 1:5\n  |\n1 | foo {bar\n  |     ^"
    );
}

#[test]
fn render_exact_with_name_and_notes() {
    let src = Source::with_name("ab\ncdef\n", "x.tex");
    let d = Diagnostic::warning("W001", "careful")
        .with_span(DiagSpan::new(4, 6))
        .with_note("one")
        .with_note("two");
    assert_eq!(
        d.render(&src),
        "warning [W001]: careful\n  --> x.tex:2:2\n  |\n2 | cdef\n  |  ^^\n  = note: one\n  = note: two"
    );
}

#[test]
fn render_carets_clamped_to_line_end() {
    // a span running past the end of its line gets carets up to the line end
    let src = Source::new("abc\ndef\n");
    let d = Diagnostic::error("E001", "x").with_span(DiagSpan::new(1, 7));
    let out = d.render(&src);
    assert!(out.ends_with("1 | abc\n  |  ^^"), "got: {out}");
}

#[test]
fn render_empty_span_has_one_caret() {
    let src = Source::new("abc");
    let d = Diagnostic::error("E001", "x").with_span(DiagSpan::new(3, 3));
    let out = d.render(&src);
    assert!(out.ends_with("  |    ^"), "got: {out}");
}

#[test]
fn render_wide_gutter_for_line_ten() {
    let text = "1\n2\n3\n4\n5\n6\n7\n8\n9\nten\n";
    let src = Source::new(text);
    let d = Diagnostic::error("E001", "x").with_span(DiagSpan::new(18, 19));
    let out = d.render(&src);
    assert_eq!(out, "error [E001]: x\n   --> line 10:1\n   |\n10 | ten\n   | ^");
}

#[test]
fn display_exact_with_everything() {
    let d = Diagnostic::error("E001", "bad")
        .with_span(DiagSpan::new(1, 2))
        .with_source_hint("abc")
        .with_note("n1");
    assert_eq!(d.to_string(), "error [E001]: bad (at 1..2)\n  | abc\n  = note: n1");
}

#[test]
fn severity_and_span_text() {
    assert_eq!(Severity::Error.to_string(), "error");
    assert_eq!(Severity::Warning.to_string(), "warning");
    assert_eq!(Severity::Note.to_string(), "note");
    assert_eq!(DiagSpan::new(0, 12).to_string(), "0..12");
}

#[test]
fn lex_error_diagnostics_exact() {
    let d: Diagnostic = LexError::UnexpectedEndAfterBackslash { pos: 7 }.into();
    assert_eq!(d.code, "E010");
    assert_eq!(d.severity, Severity::Error);
    assert_eq!(d.span, Some(DiagSpan::new(7, 8)));
    assert_eq!(d.message, "unexpected end of input after '\\' at byte 7");
    let d: Diagnostic = LexError::NonAsciiChar { pos: 3, ch: 'é' }.into();
    assert_eq!(d.code, "E010");
    assert_eq!(d.span, Some(DiagSpan::new(3, 4)));
}

#[test]
fn lex_error_text() {
    assert_eq!(
        LexError::UnexpectedEndAfterBackslash { pos: 7 }.to_string(),
        "unexpected end of input after '\\' at byte 7"
    );
    assert_eq!(
        LexError::NonAsciiChar { pos: 3, ch: 'é' }.to_string(),
        "non-ASCII character 'é' at byte 3 (Unicode support coming soon!)"
    );
}

#[test]
fn source_clamps_offsets_past_end() {
    let s = Source::new("ab\ncd");
    assert_eq!(s.line_col(100), (2, 3));
    assert_eq!(s.line_col(2), (1, 3)); // the newline itself
    assert_eq!(s.line_text(0), "ab");
    assert_eq!(s.line_text(9), "cd");
}

#[test]
fn source_name_is_kept() {
    assert_eq!(Source::with_name("x", "a.tex").name(), Some("a.tex"));
    assert_eq!(Source::new("x").name(), None);
}
