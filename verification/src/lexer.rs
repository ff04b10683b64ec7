//! The lexer: turns LaTeX source text into a flat stream of tokens.
//!
//! The behaviour is specified by `lex`, a function on the character sequence
//! of the source; `Lexer::tokenise` is proved to compute it.

use vstd::prelude::*;

use crate::lex_error::LexError;
use crate::text::{decimal, push_decimal, byte_len, byte_offset, is_ascii_char, is_ascii_letter, lemma_byte_len_is_encoded_len, lemma_byte_offset_mono, lemma_byte_offset_step, push_char, utf8_width};

verus! {

/// A half-open byte range `[start, end)` within a source file.
#[derive(Debug, Clone, Copy, PartialEq, Eq)]
pub struct Span {
    pub start: usize,
    pub end: usize,
}

/// The smallest span that covers both `a` and `b`.
pub open spec fn span_union(a: Span, b: Span) -> Span {
    Span {
        start: if a.start <= b.start { a.start } else { b.start },
        end: if a.end >= b.end { a.end } else { b.end },
    }
}

impl Span {
    pub fn new(start: usize, end: usize) -> (r: Self)
        ensures
            r == (Span { start, end }),
    {
        Span { start, end }
    }

    /// Number of bytes covered.
    pub fn len(&self) -> (r: usize)
        requires
            self.start <= self.end,
        ensures
            r == self.end - self.start,
    {
        self.end - self.start
    }

    pub fn is_empty(&self) -> (r: bool)
        ensures
            r == (self.start == self.end),
    {
        self.start == self.end
    }

    /// The smallest span covering both `self` and `other`.
    pub fn merge(self, other: Span) -> (r: Span)
        ensures
            r == span_union(self, other),
    {
        Span {
            start: if self.start <= other.start { self.start } else { other.start },
            end: if self.end >= other.end { self.end } else { other.end },
        }
    }
}

/// The kind of a single lexical token.
#[derive(Debug, PartialEq, Eq)]
pub enum TokenKind {
    ControlSeq(String),
    BeginGroup,
    EndGroup,
    MathShift,
    AlignTab,
    Parameter,
    Superscript,
    Subscript,
    Tilde,
    Comment(String),
    /// A blank line (two or more consecutive newlines). Signals a new
    /// paragraph - the parser does not need to count newlines itself.
    ParagraphBreak,
    Space,
    Char(char),
}

/// Mathematical value of a `TokenKind`: the same variants, with strings
/// replaced by their character sequences.
pub enum Lexeme {
    ControlSeq(Seq<char>),
    BeginGroup,
    EndGroup,
    MathShift,
    AlignTab,
    Parameter,
    Superscript,
    Subscript,
    Tilde,
    Comment(Seq<char>),
    ParagraphBreak,
    Space,
    Char(char),
}

impl View for TokenKind {
    type V = Lexeme;

    open spec fn view(&self) -> Lexeme {
        match self {
            TokenKind::ControlSeq(s) => Lexeme::ControlSeq(s@),
            TokenKind::BeginGroup => Lexeme::BeginGroup,
            TokenKind::EndGroup => Lexeme::EndGroup,
            TokenKind::MathShift => Lexeme::MathShift,
            TokenKind::AlignTab => Lexeme::AlignTab,
            TokenKind::Parameter => Lexeme::Parameter,
            TokenKind::Superscript => Lexeme::Superscript,
            TokenKind::Subscript => Lexeme::Subscript,
            TokenKind::Tilde => Lexeme::Tilde,
            TokenKind::Comment(s) => Lexeme::Comment(s@),
            TokenKind::ParagraphBreak => Lexeme::ParagraphBreak,
            TokenKind::Space => Lexeme::Space,
            TokenKind::Char(c) => Lexeme::Char(*c),
        }
    }
}

/// A token together with its location in the source.
#[derive(Debug, PartialEq, Eq)]
pub struct Token {
    pub kind: TokenKind,
    pub span: Span,
}

/// Mathematical value of a `Token`.
pub struct TokenModel {
    pub kind: Lexeme,
    pub span: Span,
}

impl View for Token {
    type V = TokenModel;

    open spec fn view(&self) -> TokenModel {
        TokenModel { kind: self.kind@, span: self.span }
    }
}

/// The values of a sequence of tokens.
pub open spec fn tokens_model(v: Seq<Token>) -> Seq<TokenModel> {
    v.map_values(|t: Token| t@)
}

impl Clone for TokenKind {
    fn clone(&self) -> (r: Self)
        ensures
            r == *self,
    {
        match self {
            TokenKind::ControlSeq(s) => TokenKind::ControlSeq(s.clone()),
            TokenKind::BeginGroup => TokenKind::BeginGroup,
            TokenKind::EndGroup => TokenKind::EndGroup,
            TokenKind::MathShift => TokenKind::MathShift,
            TokenKind::AlignTab => TokenKind::AlignTab,
            TokenKind::Parameter => TokenKind::Parameter,
            TokenKind::Superscript => TokenKind::Superscript,
            TokenKind::Subscript => TokenKind::Subscript,
            TokenKind::Tilde => TokenKind::Tilde,
            TokenKind::Comment(s) => TokenKind::Comment(s.clone()),
            TokenKind::ParagraphBreak => TokenKind::ParagraphBreak,
            TokenKind::Space => TokenKind::Space,
            TokenKind::Char(c) => TokenKind::Char(*c),
        }
    }
}

impl Clone for Token {
    fn clone(&self) -> (r: Self)
        ensures
            r == *self,
    {
        Token { kind: self.kind.clone(), span: self.span }
    }
}

impl Token {
    pub fn new(kind: TokenKind, span: Span) -> (r: Self)
        ensures
            r.kind == kind,
            r.span == span,
    {
        Token { kind, span }
    }
}

/// The result of tokenising a source file.
#[derive(Debug)]
pub struct LexResult {
    pub tokens: Vec<Token>,
    pub errors: Vec<LexError>,
}

impl LexResult {
    pub fn has_errors(&self) -> (r: bool)
        ensures
            r == (self.errors@.len() > 0),
    {
        self.errors.len() > 0
    }
}

/// `start..end` in decimal.
pub open spec fn span_text(s: Span) -> Seq<char> {
    decimal(s.start as nat) + ".."@ + decimal(s.end as nat)
}

impl Span {
    /// `start..end` in decimal.
    pub fn to_string(&self) -> (r: String)
        ensures
            r@ == span_text(*self),
    {
        let mut out = String::new();
        push_decimal(&mut out, self.start);
        out.append("..");
        push_decimal(&mut out, self.end);
        proof {
            assert(out@ =~= span_text(*self));
        }
        out
    }
}

/// How a token kind is written: the source text of a control sequence,
/// group, special character, comment or character; `<space>` and `<par>`
/// for white space.
pub open spec fn lexeme_text(k: Lexeme) -> Seq<char> {
    match k {
        Lexeme::ControlSeq(name) => "\\"@ + name,
        Lexeme::BeginGroup => "{"@,
        Lexeme::EndGroup => "}"@,
        Lexeme::MathShift => "$"@,
        Lexeme::AlignTab => "&"@,
        Lexeme::Parameter => "#"@,
        Lexeme::Superscript => "^"@,
        Lexeme::Subscript => "_"@,
        Lexeme::Tilde => "~"@,
        Lexeme::Space => "<space>"@,
        Lexeme::ParagraphBreak => "<par>"@,
        Lexeme::Comment(body) => "%"@ + body,
        Lexeme::Char(c) => seq![c],
    }
}

impl TokenKind {
    /// How this kind is written (see `lexeme_text`).
    pub fn to_string(&self) -> (r: String)
        ensures
            r@ == lexeme_text(self@),
    {
        match self {
            TokenKind::ControlSeq(name) => {
                let mut out = "\\".to_owned();
                out.append(name.as_str());
                out
            },
            TokenKind::BeginGroup => "{".to_owned(),
            TokenKind::EndGroup => "}".to_owned(),
            TokenKind::MathShift => "$".to_owned(),
            TokenKind::AlignTab => "&".to_owned(),
            TokenKind::Parameter => "#".to_owned(),
            TokenKind::Superscript => "^".to_owned(),
            TokenKind::Subscript => "_".to_owned(),
            TokenKind::Tilde => "~".to_owned(),
            TokenKind::Space => "<space>".to_owned(),
            TokenKind::ParagraphBreak => "<par>".to_owned(),
            TokenKind::Comment(body) => {
                let mut out = "%".to_owned();
                out.append(body.as_str());
                out
            },
            TokenKind::Char(c) => {
                let mut out = String::new();
                push_char(&mut out, *c);
                proof {
                    assert(out@ =~= seq![*c]);
                }
                out
            },
        }
    }
}

impl Token {
    /// `kind @ start..end`.
    pub fn to_string(&self) -> (r: String)
        ensures
            r@ == lexeme_text(self.kind@) + " @ "@ + span_text(self.span),
    {
        let mut out = self.kind.to_string();
        out.append(" @ ");
        let sp = self.span.to_string();
        out.append(sp.as_str());
        out
    }
}

// ----------------------------------------------------------------------
// Specification of lexing
// ----------------------------------------------------------------------

/// Classes of characters that the lexer consumes in runs.
#[derive(Clone, Copy)]
pub enum CharClass {
    /// Space or tab.
    HSpace,
    /// Newline, space or tab.
    Blank,
    /// ASCII letter.
    Letter,
    /// Anything but a newline.
    NotNewline,
}

pub open spec fn in_class(cls: CharClass, c: char) -> bool {
    match cls {
        CharClass::HSpace => c == ' ' || c == '\t',
        CharClass::Blank => c == '\n' || c == ' ' || c == '\t',
        CharClass::Letter => is_ascii_letter(c),
        CharClass::NotNewline => c != '\n',
    }
}

/// Index just past the longest run of `cls` characters starting at `i`.
pub open spec fn run_end(s: Seq<char>, i: int, cls: CharClass) -> int
    decreases s.len() - i,
{
    if 0 <= i < s.len() && in_class(cls, s[i]) {
        run_end(s, i + 1, cls)
    } else {
        i
    }
}

/// The error for the non-ASCII character at index `i` of `s`.
pub open spec fn non_ascii_at(s: Seq<char>, i: int) -> LexError {
    LexError::NonAsciiChar { pos: byte_offset(s, i) as usize, ch: s[i] }
}

/// An error for each non-ASCII character among `s[i..j]`, in order.
pub open spec fn non_ascii_errors(s: Seq<char>, i: int, j: int) -> Seq<LexError>
    decreases j - i,
{
    if i < 0 || i >= j {
        Seq::empty()
    } else {
        (if is_ascii_char(s[i]) {
            Seq::empty()
        } else {
            seq![non_ascii_at(s, i)]
        }) + non_ascii_errors(s, i + 1, j)
    }
}

/// Token kind of a single ASCII character that is none of `%`, `\`,
/// newline, space or tab.
pub open spec fn single_char_kind(c: char) -> Lexeme {
    if c == '{' {
        Lexeme::BeginGroup
    } else if c == '}' {
        Lexeme::EndGroup
    } else if c == '$' {
        Lexeme::MathShift
    } else if c == '&' {
        Lexeme::AlignTab
    } else if c == '#' {
        Lexeme::Parameter
    } else if c == '^' {
        Lexeme::Superscript
    } else if c == '_' {
        Lexeme::Subscript
    } else if c == '~' {
        Lexeme::Tilde
    } else {
        Lexeme::Char(c)
    }
}

/// One lexer step at character index `i` (with `0 <= i < s.len()`): the
/// token it produces, if any, the errors it reports, and the character
/// index at which the next step starts.
///
/// - a non-ASCII character is an error and is skipped;
/// - `%` starts a comment running to the end of the line, whose newline is
///   consumed too; each non-ASCII character in it is an error;
/// - a newline, with the spaces and tabs after it, is a space; if a further
///   newline follows, all following blank characters form a paragraph break;
/// - a run of spaces and tabs is a space;
/// - `\` followed by letters is a control word, which also swallows the
///   spaces and tabs after it; `\` followed by any other ASCII character is
///   a control symbol of that one character; `\` followed by a non-ASCII
///   character is an error for that character, and both are skipped; `\`
///   at the end is an error;
/// - any other character is a token of its own.
pub open spec fn lex_step(s: Seq<char>, i: int) -> (Option<Lexeme>, Seq<LexError>, int) {
    let c = s[i];
    if !is_ascii_char(c) {
        (None, seq![non_ascii_at(s, i)], i + 1)
    } else if c == '%' {
        let j = run_end(s, i + 1, CharClass::NotNewline);
        (
            Some(Lexeme::Comment(s.subrange(i + 1, j))),
            non_ascii_errors(s, i + 1, j),
            if j < s.len() { j + 1 } else { j },
        )
    } else if c == '\n' {
        let j = run_end(s, i + 1, CharClass::HSpace);
        if j < s.len() && s[j] == '\n' {
            (Some(Lexeme::ParagraphBreak), Seq::empty(), run_end(s, j, CharClass::Blank))
        } else {
            (Some(Lexeme::Space), Seq::empty(), j)
        }
    } else if c == ' ' || c == '\t' {
        (Some(Lexeme::Space), Seq::empty(), run_end(s, i, CharClass::HSpace))
    } else if c == '\\' {
        if i + 1 >= s.len() {
            (None, seq![LexError::UnexpectedEndAfterBackslash { pos: byte_offset(s, i) as usize }], i + 1)
        } else if is_ascii_letter(s[i + 1]) {
            let j = run_end(s, i + 1, CharClass::Letter);
            (Some(Lexeme::ControlSeq(s.subrange(i + 1, j))), Seq::empty(), run_end(s, j, CharClass::HSpace))
        } else if !is_ascii_char(s[i + 1]) {
            (None, seq![non_ascii_at(s, i + 1)], i + 2)
        } else {
            (Some(Lexeme::ControlSeq(seq![s[i + 1]])), Seq::empty(), i + 2)
        }
    } else {
        (Some(single_char_kind(c)), Seq::empty(), i + 1)
    }
}

/// `non_ascii_errors` grows at the back one character at a time.
pub proof fn lemma_non_ascii_errors_snoc(s: Seq<char>, i: int, j: int)
    requires
        0 <= i <= j,
    ensures
        non_ascii_errors(s, i, j + 1) == non_ascii_errors(s, i, j) + (if is_ascii_char(s[j]) {
            Seq::<LexError>::empty()
        } else {
            seq![non_ascii_at(s, j)]
        }),
    decreases j - i,
{
    if i < j {
        lemma_non_ascii_errors_snoc(s, i + 1, j);
    }
    let tail = if is_ascii_char(s[j]) {
        Seq::<LexError>::empty()
    } else {
        seq![non_ascii_at(s, j)]
    };
    if i < j {
        let head = if is_ascii_char(s[i]) {
            Seq::<LexError>::empty()
        } else {
            seq![non_ascii_at(s, i)]
        };
        assert(head + (non_ascii_errors(s, i + 1, j) + tail) =~= (head + non_ascii_errors(s, i + 1, j)) + tail);
    } else {
        assert(non_ascii_errors(s, j + 1, j + 1) =~= Seq::<LexError>::empty());
        assert(tail + Seq::<LexError>::empty() =~= Seq::<LexError>::empty() + tail);
    }
}

pub proof fn lemma_run_end(s: Seq<char>, i: int, cls: CharClass)
    requires
        0 <= i <= s.len(),
    ensures
        i <= run_end(s, i, cls) <= s.len(),
        forall|k: int| i <= k < run_end(s, i, cls) ==> in_class(cls, #[trigger] s[k]),
        run_end(s, i, cls) < s.len() ==> !in_class(cls, s[run_end(s, i, cls)]),
    decreases s.len() - i,
{
    if i < s.len() && in_class(cls, s[i]) {
        lemma_run_end(s, i + 1, cls);
    }
}

pub proof fn lemma_lex_step_advances(s: Seq<char>, i: int)
    requires
        0 <= i < s.len(),
    ensures
        i < lex_step(s, i).2 <= s.len(),
        lex_step(s, i).0 is None ==> lex_step(s, i).1.len() > 0,
{
    lemma_run_end(s, i + 1, CharClass::NotNewline);
    lemma_run_end(s, i + 1, CharClass::HSpace);
    lemma_run_end(s, i, CharClass::HSpace);
    if i + 1 < s.len() {
        lemma_run_end(s, i + 1, CharClass::Letter);
        lemma_run_end(s, run_end(s, i + 1, CharClass::Letter), CharClass::HSpace);
    }
    let j = run_end(s, i + 1, CharClass::HSpace);
    if j < s.len() {
        lemma_run_end(s, j, CharClass::Blank);
    }
}

/// The token built by a lexer step from index `i` to index `j`.
pub open spec fn token_at(s: Seq<char>, kind: Lexeme, i: int, j: int) -> TokenModel {
    TokenModel {
        kind,
        span: Span { start: byte_offset(s, i) as usize, end: byte_offset(s, j) as usize },
    }
}

/// Tokens and errors produced by lexing `s` from character index `i` on.
pub open spec fn lex_from(s: Seq<char>, i: int) -> (Seq<TokenModel>, Seq<LexError>)
    decreases s.len() - i,
{
    if i < 0 || i >= s.len() {
        (Seq::empty(), Seq::empty())
    } else {
        let (out, errs, j) = lex_step(s, i);
        proof {
            lemma_lex_step_advances(s, i);
        }
        let (ts, es) = lex_from(s, j);
        match out {
            Some(k) => (seq![token_at(s, k, i, j)] + ts, errs + es),
            None => (ts, errs + es),
        }
    }
}

/// Tokens and errors produced by lexing the whole of `s`.
pub open spec fn lex(s: Seq<char>) -> (Seq<TokenModel>, Seq<LexError>) {
    lex_from(s, 0)
}

// ----------------------------------------------------------------------
// Lexer
// ----------------------------------------------------------------------

fn char_in_class(cls: CharClass, c: char) -> (r: bool)
    ensures
        r == in_class(cls, c),
{
    match cls {
        CharClass::HSpace => c == ' ' || c == '\t',
        CharClass::Blank => c == '\n' || c == ' ' || c == '\t',
        CharClass::Letter => ('a' <= c && c <= 'z') || ('A' <= c && c <= 'Z'),
        CharClass::NotNewline => c != '\n',
    }
}

pub struct Lexer {
    chars: Vec<char>,
    idx: usize,
    pos: usize,
}

impl Lexer {
    /// The characters of the source being lexed.
    pub closed spec fn source(&self) -> Seq<char> {
        self.chars@
    }

    /// Index of the next character to be lexed.
    pub closed spec fn index(&self) -> int {
        self.idx as int
    }

    pub closed spec fn wf(&self) -> bool {
        &&& self.idx <= self.chars@.len()
        &&& self.pos == byte_offset(self.chars@, self.idx as int)
        &&& byte_len(self.chars@) <= usize::MAX
    }

    pub fn new(src: &str) -> (r: Self)
        ensures
            r.wf(),
            r.source() == src@,
            r.index() == 0,
    {
        let n_bytes = src.as_bytes().len();
        let mut chars: Vec<char> = Vec::new();
        for c in it: src.chars()
            invariant
                chars@ == it.seq().take(it.index() as int),
                it.seq() == src@,
        {
            chars.push(c);
        }
        proof {
            assert(chars@ =~= src@);
            lemma_byte_len_is_encoded_len(src@);
            assert(chars@.take(0) =~= Seq::<char>::empty());
        }
        Lexer { chars, idx: 0, pos: 0 }
    }

    /// Tokenise the rest of the source, collecting every error on the way.
    pub fn tokenise(&mut self) -> (r: LexResult)
        requires
            old(self).wf(),
        ensures
            final(self).wf(),
            final(self).source() == old(self).source(),
            final(self).index() == old(self).source().len(),
            tokens_model(r.tokens@) == lex_from(old(self).source(), old(self).index()).0,
            r.errors@ == lex_from(old(self).source(), old(self).index()).1,
    {
        let ghost s = self.chars@;
        let ghost start = self.idx as int;
        let mut tokens: Vec<Token> = Vec::new();
        let mut errors: Vec<LexError> = Vec::new();
        let len = self.chars.len();
        while self.idx < len
            invariant
                self.wf(),
                self.chars@ == s,
                len == s.len(),
                start <= self.idx,
                tokens_model(tokens@) + lex_from(s, self.idx as int).0 == lex_from(s, start).0,
                errors@ + lex_from(s, self.idx as int).1 == lex_from(s, start).1,
            decreases len - self.idx,
        {
            let ghost i = self.idx as int;
            let ghost before_t = tokens_model(tokens@);
            let ghost before_e = errors@;
            let ghost step = lex_step(s, i);
            let t = self.next_token(&mut errors);
            proof {
                lemma_lex_step_advances(s, i);
                assert(self.idx as int == step.2);
                assert(lex_from(s, i).1 == step.1 + lex_from(s, step.2).1);
                assert(lex_from(s, i).0 == match step.0 {
                    Some(k) => seq![token_at(s, k, i, step.2)] + lex_from(s, step.2).0,
                    None => lex_from(s, step.2).0,
                });
                assert(before_e + step.1 + lex_from(s, self.idx as int).1 =~= before_e + (step.1 + lex_from(
                    s,
                    self.idx as int,
                ).1));
            }
            match t {
                Some(tok) => {
                    tokens.push(tok);
                    proof {
                        assert(tokens_model(tokens@) =~= before_t.push(tok@));
                        assert(before_t.push(tok@) + lex_from(s, self.idx as int).0
                            =~= before_t + (seq![tok@] + lex_from(s, self.idx as int).0));
                    }
                },
                None => {},
            }
        }
        proof {
            assert(tokens_model(tokens@) =~= lex_from(s, start).0);
            assert(errors@ =~= lex_from(s, start).1);
        }
        LexResult { tokens, errors }
    }

    fn peek(&self) -> (r: Option<char>)
        requires
            self.wf(),
        ensures
            r == (if self.idx < self.chars@.len() {
                Some(self.chars@[self.idx as int])
            } else {
                None::<char>
            }),
    {
        if self.idx < self.chars.len() {
            Some(self.chars[self.idx])
        } else {
            None
        }
    }

    fn bump(&mut self) -> (r: Option<char>)
        requires
            old(self).wf(),
        ensures
            final(self).wf(),
            final(self).chars@ == old(self).chars@,
            old(self).idx < old(self).chars@.len() ==> final(self).idx == old(self).idx + 1 && r == Some(old(self).chars@[old(self).idx as int]),
            old(self).idx >= old(self).chars@.len() ==> final(self).idx == old(self).idx && r is None,
    {
        if self.idx < self.chars.len() {
            let c = self.chars[self.idx];
            proof {
                lemma_byte_offset_step(self.chars@, self.idx as int);
                lemma_byte_offset_mono(self.chars@, self.idx + 1, self.chars@.len() as int);
                assert(self.chars@.take(self.chars@.len() as int) =~= self.chars@);
            }
            self.pos = self.pos + utf8_width(c);
            self.idx = self.idx + 1;
            Some(c)
        } else {
            None
        }
    }

    fn take_while(&mut self, cls: CharClass)
        requires
            old(self).wf(),
        ensures
            final(self).wf(),
            final(self).chars@ == old(self).chars@,
            final(self).idx == run_end(old(self).chars@, old(self).idx as int, cls),
    {
        let ghost s = self.chars@;
        let ghost i0 = self.idx as int;
        proof {
            lemma_run_end(s, i0, cls);
        }
        loop
            invariant
                self.wf(),
                self.chars@ == s,
                i0 <= self.idx <= run_end(s, i0, cls),
                run_end(s, self.idx as int, cls) == run_end(s, i0, cls),
            ensures
                self.wf(),
                self.chars@ == s,
                self.idx == run_end(s, i0, cls),
            decreases s.len() - self.idx,
        {
            proof {
                lemma_run_end(s, self.idx as int, cls);
            }
            if self.idx >= self.chars.len() {
                assert(run_end(s, self.idx as int, cls) == self.idx);
                break;
            }
            let c = self.chars[self.idx];
            if !char_in_class(cls, c) {
                assert(run_end(s, self.idx as int, cls) == self.idx);
                break;
            }
            self.bump();
        }
    }

    /// The characters between indices `from` and `to`, as a string.
    fn collect(&self, from: usize, to: usize) -> (r: String)
        requires
            from <= to <= self.chars@.len(),
        ensures
            r@ == self.chars@.subrange(from as int, to as int),
    {
        let mut out = String::new();
        let mut k = from;
        while k < to
            invariant
                from <= k <= to <= self.chars@.len(),
                out@ == self.chars@.subrange(from as int, k as int),
            decreases to - k,
        {
            push_char(&mut out, self.chars[k]);
            proof {
                assert(self.chars@.subrange(from as int, k + 1) =~= self.chars@.subrange(from as int, k as int).push(self.chars@[k as int]));
            }
            k = k + 1;
        }
        out
    }

    /// Appends an error for each non-ASCII character among the characters
    /// at indices `from..to`; `from_pos` is the byte offset of index `from`.
    fn report_non_ascii(&self, from: usize, from_pos: usize, to: usize, errors: &mut Vec<LexError>)
        requires
            self.wf(),
            from <= to <= self.chars@.len(),
            from_pos == byte_offset(self.chars@, from as int),
        ensures
            final(errors)@ == old(errors)@ + non_ascii_errors(self.chars@, from as int, to as int),
    {
        let ghost s = self.chars@;
        let mut k = from;
        let mut p = from_pos;
        proof {
            assert(non_ascii_errors(s, from as int, from as int) =~= Seq::<LexError>::empty());
        }
        while k < to
            invariant
                self.wf(),
                s == self.chars@,
                from <= k <= to <= s.len(),
                p == byte_offset(s, k as int),
                errors@ == old(errors)@ + non_ascii_errors(s, from as int, k as int),
            decreases to - k,
        {
            let c = self.chars[k];
            proof {
                lemma_non_ascii_errors_snoc(s, from as int, k as int);
                lemma_byte_offset_step(s, k as int);
                lemma_byte_offset_mono(s, k + 1, s.len() as int);
                assert(s.take(s.len() as int) =~= s);
            }
            if !((c as u32) < 0x80) {
                errors.push(LexError::NonAsciiChar { pos: p, ch: c });
                proof {
                    assert(old(errors)@ + non_ascii_errors(s, from as int, k as int) + seq![non_ascii_at(s, k as int)]
                        =~= old(errors)@ + non_ascii_errors(s, from as int, k + 1));
                }
            } else {
                proof {
                    assert(old(errors)@ + non_ascii_errors(s, from as int, k as int)
                        =~= old(errors)@ + non_ascii_errors(s, from as int, k + 1));
                }
            }
            p = p + utf8_width(c);
            k = k + 1;
        }
    }

    /// One lexer step (see `lex_step`): returns its token and appends its
    /// errors to `errors`.
    fn next_token(&mut self, errors: &mut Vec<LexError>) -> (r: Option<Token>)
        requires
            old(self).wf(),
            old(self).idx < old(self).chars@.len(),
        ensures
            final(self).wf(),
            final(self).chars@ == old(self).chars@,
            ({
                let (out, errs, j) = lex_step(old(self).chars@, old(self).idx as int);
                &&& final(self).idx == j
                &&& final(errors)@ == old(errors)@ + errs
                &&& match out {
                    Some(k) => r matches Some(t) && t@ == token_at(old(self).chars@, k, old(self).idx as int, j),
                    None => r is None,
                }
            }),
    {
        let ghost s = self.chars@;
        let ghost i = self.idx as int;
        let start = self.pos;
        let c = self.chars[self.idx];
        proof {
            lemma_lex_step_advances(s, i);
            lemma_run_end(s, i + 1, CharClass::NotNewline);
            lemma_run_end(s, i + 1, CharClass::HSpace);
            lemma_run_end(s, i, CharClass::HSpace);
        }

        if !((c as u32) < 0x80) {
            self.bump();
            errors.push(LexError::NonAsciiChar { pos: start, ch: c });
            return None;
        }

        // line comments
        if c == '%' {
            self.bump();
            let body_start = self.idx;
            let body_pos = self.pos;
            self.take_while(CharClass::NotNewline);
            let body = self.collect(body_start, self.idx);
            self.report_non_ascii(body_start, body_pos, self.idx, errors);
            if self.peek() == Some('\n') {
                self.bump();
            }
            return Some(Token::new(TokenKind::Comment(body), Span::new(start, self.pos)));
        }

        // a newline: a paragraph break if a blank line follows, else a space
        if c == '\n' {
            self.bump();
            self.take_while(CharClass::HSpace);
            if self.peek() == Some('\n') {
                proof {
                    lemma_run_end(s, self.idx as int, CharClass::Blank);
                }
                self.take_while(CharClass::Blank);
                return Some(Token::new(TokenKind::ParagraphBreak, Span::new(start, self.pos)));
            }
            return Some(Token::new(TokenKind::Space, Span::new(start, self.pos)));
        }

        // horizontal whitespace
        if c == ' ' || c == '\t' {
            self.take_while(CharClass::HSpace);
            return Some(Token::new(TokenKind::Space, Span::new(start, self.pos)));
        }

        // control sequences: a control word (a run of letters, eating the
        // spaces after it) or a control symbol (exactly one character)
        if c == '\\' {
            self.bump();
            match self.peek() {
                None => {
                    errors.push(LexError::UnexpectedEndAfterBackslash { pos: start });
                    return None;
                },
                Some(next) => {
                    if ('a' <= next && next <= 'z') || ('A' <= next && next <= 'Z') {
                        let name_start = self.idx;
                        proof {
                            lemma_run_end(s, i + 1, CharClass::Letter);
                        }
                        self.take_while(CharClass::Letter);
                        let name = self.collect(name_start, self.idx);
                        proof {
                            lemma_run_end(s, self.idx as int, CharClass::HSpace);
                        }
                        self.take_while(CharClass::HSpace);
                        return Some(Token::new(TokenKind::ControlSeq(name), Span::new(start, self.pos)));
                    } else if !((next as u32) < 0x80) {
                        let sym_pos = self.pos;
                        self.bump();
                        errors.push(LexError::NonAsciiChar { pos: sym_pos, ch: next });
                        return None;
                    } else {
                        let sym_start = self.idx;
                        self.bump();
                        let name = self.collect(sym_start, self.idx);
                        proof {
                            assert(s.subrange(i + 1, i + 2) =~= seq![s[i + 1]]);
                        }
                        return Some(Token::new(TokenKind::ControlSeq(name), Span::new(start, self.pos)));
                    }
                },
            }
        }

        self.bump();
        let span = Span::new(start, self.pos);
        let kind = if c == '{' {
            TokenKind::BeginGroup
        } else if c == '}' {
            TokenKind::EndGroup
        } else if c == '$' {
            TokenKind::MathShift
        } else if c == '&' {
            TokenKind::AlignTab
        } else if c == '#' {
            TokenKind::Parameter
        } else if c == '^' {
            TokenKind::Superscript
        } else if c == '_' {
            TokenKind::Subscript
        } else if c == '~' {
            TokenKind::Tilde
        } else {
            TokenKind::Char(c)
        };
        Some(Token::new(kind, span))
    }
}

} // verus!
