//! A LaTeX front end: lexer, parser and diagnostics.
//!
//! Source text is tokenised by `Lexer`, the tokens are turned into a tree
//! of nodes by `Parser`, and problems found on the way are reported as
//! `Diagnostic`s, which render against a `Source` with a line listing and
//! a caret under the offending bytes.

pub mod text;
pub mod lex_error;
pub mod lexer;
pub mod lexer_laws;
pub mod diagnostics;
pub mod style;
pub mod source;
pub mod render_laws;
pub mod ast;
pub mod parser;
pub mod dump;
pub mod cli;

pub use ast::{Arg, Document, Node};
pub use diagnostics::{DiagSpan, Diagnostic, Severity};
pub use lex_error::LexError;
pub use lexer::{LexResult, Lexer, Span, Token, TokenKind};
pub use parser::{ParseResult, Parser};
pub use source::Source;
pub use style::Style;
