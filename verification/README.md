# oxyl

A LaTeX front end (lexer, parser, diagnostics) written in Verus, with the
behaviour of each public function stated as a contract and proved.

## Layout

- `src/text.rs` - UTF-8 widths, byte offsets, decimal formatting, trimming.
- `src/lexer.rs` - tokens, spans and `Lexer`; `lex` is the specification
  of tokenising a character sequence and `Lexer::tokenise` computes it.
- `src/lexer_laws.rs` - token spans are ordered and tile an error-free
  source; every lexing error is explained by the source.
- `src/lex_error.rs` - lexing errors and their `E010` diagnostics.
- `src/diagnostics.rs`, `src/style.rs`, `src/source.rs` - diagnostics,
  ANSI styling, the line index and the rendered form with a caret line.
- `src/render_laws.rs` - plain rendering adds no escape codes; without a
  span rendering is the text form.
- `src/ast.rs`, `src/parser/` - the node tree and the recursive-descent
  parser (`parser/spec.rs` defines what it computes, `parser/laws.rs`
  proves that every diagnostic points at a token, every node into the
  source, and that text comes in runs with no empty or adjacent text nodes).
- `src/dump.rs` - the lines of the token and AST dumps.
- `src/cli.rs` - command-line flags and the colour decision.
- `app/` - the `oxyl` command: file and terminal I/O around the library.
- `tests/` - tests on concrete inputs.

## Usage

```sh
oxyl <file.tex>                 parse the file and report any errors
oxyl --dump-tokens <file.tex>   print every lexer token with its byte span
oxyl --dump-ast <file.tex>      print the parsed AST nodes
oxyl --help                     full flag list
```

## Diagnostic codes

| Code | Where  | Meaning                                  |
|------|--------|------------------------------------------|
| E010 | lexer  | lone backslash / non-ASCII character     |
| E020 | parser | unclosed `{`                             |
| E021 | parser | unclosed mandatory argument              |
| E022 | parser | unclosed optional argument               |
| E030 | parser | unclosed `$` (inline math)               |
| E031 | parser | unclosed `\[` (display math)             |
| E032 | parser | stray `\]` (no matching `\[`)            |
| E040 | parser | `\begin` without an environment name     |
| E041 | parser | unclosed `\begin{name}`                  |
| E042 | parser | `\end{..}` that does not match `\begin`  |
| E043 | parser | stray `\end`                             |
