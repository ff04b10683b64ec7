//! Properties of lexing that hold for every source text.

use vstd::prelude::*;

use crate::lex_error::LexError;
use crate::lexer::{
    lemma_lex_step_advances, lex, lex_from, lex_step, non_ascii_at, non_ascii_errors, span_union,
    token_at, lemma_run_end, run_end, single_char_kind, CharClass, Lexeme, Span, TokenModel,
};
use crate::text::{byte_len, byte_offset, is_ascii_char, is_ascii_letter, lemma_byte_offset_mono};
use crate::lexer::in_class;

verus! {

/// Every span lies in `[lo, hi]`, is non-empty, and each ends before the
/// next begins.
pub open spec fn spans_ordered(ts: Seq<TokenModel>, lo: int, hi: int) -> bool {
    &&& forall|k: int|
        0 <= k < ts.len() ==> lo <= #[trigger] ts[k].span.start < ts[k].span.end <= hi
    &&& forall|k: int, l: int|
        0 <= k < l < ts.len() ==> #[trigger] ts[k].span.end <= #[trigger] ts[l].span.start
}

/// The spans cover `[lo, hi)` exactly, one after the other.
pub open spec fn spans_tile(ts: Seq<TokenModel>, lo: int, hi: int) -> bool {
    if ts.len() == 0 {
        lo == hi
    } else {
        &&& ts[0].span.start == lo
        &&& ts.last().span.end == hi
        &&& forall|k: int| 0 <= k < ts.len() - 1 ==> #[trigger] ts[k].span.end == ts[k + 1].span.start
    }
}

proof fn lemma_lex_from_spans(s: Seq<char>, i: int)
    requires
        0 <= i <= s.len(),
        byte_len(s) <= usize::MAX,
    ensures
        spans_ordered(lex_from(s, i).0, byte_offset(s, i) as int, byte_len(s) as int),
        lex_from(s, i).1.len() == 0 ==> spans_tile(
            lex_from(s, i).0,
            byte_offset(s, i) as int,
            byte_len(s) as int,
        ),
    decreases s.len() - i,
{
    lemma_byte_offset_mono(s, i, s.len() as int);
    if i == s.len() {
        assert(s.take(s.len() as int) =~= s);
    } else {
        let (out, errs, j) = lex_step(s, i);
        lemma_lex_step_advances(s, i);
        lemma_lex_from_spans(s, j);
        lemma_byte_offset_mono(s, i, j);
        lemma_byte_offset_mono(s, j, s.len() as int);
        let rest = lex_from(s, j).0;
        match out {
            Some(k) => {
                let t = token_at(s, k, i, j);
                let all = seq![t] + rest;
                assert(lex_from(s, i).0 == all);
                assert(t.span.start == byte_offset(s, i));
                assert(t.span.end == byte_offset(s, j));
                assert forall|a: int| 0 <= a < all.len() implies byte_offset(s, i) <= #[trigger] all[a].span.start
                    < all[a].span.end <= byte_len(s) by {
                    if a == 0 {
                        assert(all[0] == t);
                    } else {
                        assert(all[a] == rest[a - 1]);
                    }
                }
                assert forall|a: int, b: int| 0 <= a < b < all.len() implies #[trigger] all[a].span.end
                    <= #[trigger] all[b].span.start by {
                    assert(all[b] == rest[b - 1]);
                    if a > 0 {
                        assert(all[a] == rest[a - 1]);
                    }
                }
                if lex_from(s, i).1.len() == 0 {
                    assert(lex_from(s, i).1 == errs + lex_from(s, j).1);
                    assert(lex_from(s, j).1.len() == 0);
                    if rest.len() > 0 {
                        assert forall|a: int| 0 <= a < all.len() - 1 implies #[trigger] all[a].span.end
                            == all[a + 1].span.start by {
                            assert(all[a + 1] == rest[a]);
                            if a > 0 {
                                assert(all[a] == rest[a - 1]);
                            }
                        }
                        assert(all.last() == rest.last());
                    }
                }
            },
            None => {
                assert(lex_from(s, i).0 == rest);
                assert(lex_from(s, i).1 == errs + lex_from(s, j).1);
                assert(lex_from(s, i).1.len() > 0);
            },
        }
    }
}

/// Tokens come in source order, each covers at least one byte of the
/// source, and no two overlap. When lexing reports no error, the tokens
/// cover the whole source, one after the other: no input is lost.
pub proof fn lemma_tokens_cover_source(s: Seq<char>)
    requires
        byte_len(s) <= usize::MAX,
    ensures
        spans_ordered(lex(s).0, 0, byte_len(s) as int),
        lex(s).1.len() == 0 ==> spans_tile(lex(s).0, 0, byte_len(s) as int),
{
    lemma_lex_from_spans(s, 0);
    assert(s.take(0) =~= Seq::<char>::empty());
}

/// Each error names what caused it: the byte offset and value of a
/// non-ASCII character of the source, or the byte offset of a backslash
/// that ends the source.
pub open spec fn error_explained(s: Seq<char>, e: LexError) -> bool {
    match e {
        LexError::NonAsciiChar { pos, ch } => exists|i: int|
            0 <= i < s.len() && #[trigger] s[i] == ch && !is_ascii_char(ch) && byte_offset(s, i) == pos,
        LexError::UnexpectedEndAfterBackslash { pos } => s.len() > 0 && s.last() == '\\'
            && byte_offset(s, s.len() - 1) == pos,
    }
}

proof fn lemma_non_ascii_at_explained(s: Seq<char>, m: int)
    requires
        0 <= m < s.len(),
        !is_ascii_char(s[m]),
        byte_len(s) <= usize::MAX,
    ensures
        error_explained(s, non_ascii_at(s, m)),
{
    lemma_byte_offset_mono(s, m, s.len() as int);
    assert(s[m] == s[m]);
}

proof fn lemma_non_ascii_errors_explained(s: Seq<char>, a: int, b: int)
    requires
        0 <= a,
        b <= s.len(),
        byte_len(s) <= usize::MAX,
    ensures
        forall|k: int|
            0 <= k < non_ascii_errors(s, a, b).len() ==> error_explained(s, #[trigger] non_ascii_errors(s, a, b)[k]),
        (forall|m: int| a <= m < b ==> is_ascii_char(#[trigger] s[m])) ==> non_ascii_errors(s, a, b).len() == 0,
    decreases b - a,
{
    if a < b {
        lemma_non_ascii_errors_explained(s, a + 1, b);
        let rest = non_ascii_errors(s, a + 1, b);
        if !is_ascii_char(s[a]) {
            lemma_non_ascii_at_explained(s, a);
            let all = seq![non_ascii_at(s, a)] + rest;
            assert(non_ascii_errors(s, a, b) == all);
            assert forall|k: int| 0 <= k < all.len() implies error_explained(s, #[trigger] all[k]) by {
                if k > 0 {
                    assert(all[k] == rest[k - 1]);
                }
            }
        } else {
            assert(non_ascii_errors(s, a, b) =~= rest);
        }
    }
}

proof fn lemma_lex_from_errors(s: Seq<char>, i: int)
    requires
        0 <= i <= s.len(),
        byte_len(s) <= usize::MAX,
    ensures
        forall|k: int| 0 <= k < lex_from(s, i).1.len() ==> error_explained(s, #[trigger] lex_from(s, i).1[k]),
        (forall|k: int| i <= k < s.len() ==> is_ascii_char(#[trigger] s[k])) ==> forall|k: int|
            0 <= k < lex_from(s, i).1.len() ==> #[trigger] lex_from(s, i).1[k] is UnexpectedEndAfterBackslash,
    decreases s.len() - i,
{
    if i < s.len() {
        let (out, errs, j) = lex_step(s, i);
        lemma_lex_step_advances(s, i);
        lemma_lex_from_errors(s, j);
        lemma_byte_offset_mono(s, i, s.len() as int);
        lemma_run_end(s, i + 1, CharClass::NotNewline);
        let rest = lex_from(s, j).1;
        let all = errs + rest;
        assert(lex_from(s, i).1 == all);
        let c = s[i];
        assert(forall|k: int| 0 <= k < errs.len() ==> error_explained(s, #[trigger] errs[k])) by {
            if !is_ascii_char(c) {
                lemma_non_ascii_at_explained(s, i);
            } else if c == '%' {
                lemma_non_ascii_errors_explained(s, i + 1, run_end(s, i + 1, CharClass::NotNewline));
            } else if c == '\\' && i + 1 < s.len() && !is_ascii_letter(s[i + 1]) && !is_ascii_char(s[i + 1]) {
                lemma_non_ascii_at_explained(s, i + 1);
            } else if c == '\\' && i + 1 >= s.len() {
                assert(i + 1 == s.len());
            }
        }
        assert forall|k: int| 0 <= k < all.len() implies error_explained(s, #[trigger] all[k]) by {
            if k < errs.len() {
                assert(all[k] == errs[k]);
            } else {
                assert(all[k] == rest[k - errs.len()]);
            }
        }
        if forall|k: int| i <= k < s.len() ==> is_ascii_char(#[trigger] s[k]) {
            assert(is_ascii_char(s[i]));
            if c == '%' {
                lemma_non_ascii_errors_explained(s, i + 1, run_end(s, i + 1, CharClass::NotNewline));
            }
            if c == '\\' && i + 1 < s.len() {
                assert(is_ascii_char(s[i + 1]));
            }
            assert forall|k: int| 0 <= k < all.len() implies #[trigger] all[k] is UnexpectedEndAfterBackslash by {
                if k < errs.len() {
                    assert(all[k] == errs[k]);
                } else {
                    assert(all[k] == rest[k - errs.len()]);
                }
            }
        }
    }
}

/// Every lexing error is explained by the source (see `error_explained`);
/// an ASCII source can only produce the error for a trailing lone
/// backslash, and at most once.
pub proof fn lemma_lex_errors_explained(s: Seq<char>)
    requires
        byte_len(s) <= usize::MAX,
    ensures
        forall|k: int| 0 <= k < lex(s).1.len() ==> error_explained(s, #[trigger] lex(s).1[k]),
        (forall|k: int| 0 <= k < s.len() ==> is_ascii_char(#[trigger] s[k])) ==> lex(s).1.len() <= 1
            && forall|k: int| 0 <= k < lex(s).1.len() ==> #[trigger] lex(s).1[k] is UnexpectedEndAfterBackslash,
{
    lemma_lex_from_errors(s, 0);
    lemma_lex_from_ascii_single_error(s, 0);
}

proof fn lemma_lex_from_ascii_single_error(s: Seq<char>, i: int)
    requires
        0 <= i <= s.len(),
    ensures
        (forall|k: int| i <= k < s.len() ==> is_ascii_char(#[trigger] s[k])) ==> lex_from(s, i).1.len() <= 1,
    decreases s.len() - i,
{
    if i < s.len() {
        let (out, errs, j) = lex_step(s, i);
        lemma_lex_step_advances(s, i);
        lemma_lex_from_ascii_single_error(s, j);
        lemma_run_end(s, i + 1, CharClass::NotNewline);
        if forall|k: int| i <= k < s.len() ==> is_ascii_char(#[trigger] s[k]) {
            assert(is_ascii_char(s[i]));
            assert(forall|k: int| j <= k < s.len() ==> is_ascii_char(#[trigger] s[k]));
            assert(lex_from(s, i).1 == errs + lex_from(s, j).1);
            if s[i] == '%' {
                lemma_non_ascii_errors_ascii_empty(s, i + 1, run_end(s, i + 1, CharClass::NotNewline));
            }
            if s[i] == '\\' && i + 1 < s.len() {
                assert(is_ascii_char(s[i + 1]));
            }
            if out is None {
                assert(j == s.len());
                assert(lex_from(s, j).1.len() == 0);
            } else {
                assert(errs.len() == 0);
            }
        }
    }
}

proof fn lemma_non_ascii_errors_ascii_empty(s: Seq<char>, a: int, b: int)
    requires
        0 <= a,
        b <= s.len(),
        forall|m: int| a <= m < b ==> is_ascii_char(#[trigger] s[m]),
    ensures
        non_ascii_errors(s, a, b).len() == 0,
    decreases b - a,
{
    if a < b {
        assert(is_ascii_char(s[a]));
        lemma_non_ascii_errors_ascii_empty(s, a + 1, b);
    }
}

/// `merge` is commutative, associative and idempotent, and the merged span
/// covers both spans.
pub proof fn lemma_span_union(a: Span, b: Span, c: Span)
    ensures
        span_union(a, b) == span_union(b, a),
        span_union(span_union(a, b), c) == span_union(a, span_union(b, c)),
        span_union(a, a) == a,
        span_union(a, b).start <= a.start && span_union(a, b).start <= b.start,
        span_union(a, b).end >= a.end && span_union(a, b).end >= b.end,
        span_union(a, b).start == a.start || span_union(a, b).start == b.start,
        span_union(a, b).end == a.end || span_union(a, b).end == b.end,
{
}

// ----------------------------------------------------------------------
// What each token covers
// ----------------------------------------------------------------------

pub open spec fn is_hspace(c: char) -> bool {
    c == ' ' || c == '\t'
}

pub open spec fn is_blank(c: char) -> bool {
    c == ' ' || c == '\t' || c == '\n'
}

/// A character that stands for itself as a `Char` token.
pub open spec fn is_plain_char(c: char) -> bool {
    &&& is_ascii_char(c)
    &&& c != '{' && c != '}' && c != '$' && c != '&' && c != '#' && c != '^' && c != '_' && c != '~'
    &&& c != '%' && c != '\\' && !is_blank(c)
}

/// The characters `s[i..j]` are what a token of kind `k` stands for:
/// - a control sequence: a backslash, its name, then only spaces and tabs;
/// - a space: blanks holding at most one newline;
/// - a paragraph break: blanks, starting with a newline and holding
///   another one;
/// - a comment: `%`, its body (no newline), then at most a newline;
/// - any other token: its one character.
pub open spec fn token_text(s: Seq<char>, k: Lexeme, i: int, j: int) -> bool {
    match k {
        Lexeme::ControlSeq(name) => {
            &&& s[i] == '\\'
            &&& i + 1 + name.len() <= j
            &&& s.subrange(i + 1, i + 1 + name.len()) == name
            &&& forall|m: int| i + 1 + name.len() <= m < j ==> is_hspace(#[trigger] s[m])
        },
        Lexeme::Space => {
            &&& forall|m: int| i <= m < j ==> is_blank(#[trigger] s[m])
            &&& forall|m: int, l: int| i <= m < l < j ==> !(#[trigger] s[m] == '\n' && #[trigger] s[l] == '\n')
        },
        Lexeme::ParagraphBreak => {
            &&& forall|m: int| i <= m < j ==> is_blank(#[trigger] s[m])
            &&& s[i] == '\n'
            &&& exists|m: int| i < m < j && #[trigger] s[m] == '\n'
        },
        Lexeme::Comment(body) => {
            &&& s[i] == '%'
            &&& i + 1 + body.len() <= j
            &&& s.subrange(i + 1, i + 1 + body.len()) == body
            &&& forall|m: int| 0 <= m < body.len() ==> #[trigger] body[m] != '\n'
            &&& (j == i + 1 + body.len() || (j == i + 2 + body.len() && s[j - 1] == '\n'))
        },
        Lexeme::Char(c) => j == i + 1 && s[i] == c && is_plain_char(c),
        Lexeme::BeginGroup => j == i + 1 && s[i] == '{',
        Lexeme::EndGroup => j == i + 1 && s[i] == '}',
        Lexeme::MathShift => j == i + 1 && s[i] == '$',
        Lexeme::AlignTab => j == i + 1 && s[i] == '&',
        Lexeme::Parameter => j == i + 1 && s[i] == '#',
        Lexeme::Superscript => j == i + 1 && s[i] == '^',
        Lexeme::Subscript => j == i + 1 && s[i] == '_',
        Lexeme::Tilde => j == i + 1 && s[i] == '~',
    }
}

/// Token `t` covers some characters `s[i..j]` (by their byte offsets),
/// and they are what it stands for.
pub open spec fn covers_its_text(s: Seq<char>, t: TokenModel) -> bool {
    exists|i: int, j: int|
        0 <= i < j <= s.len() && t.span.start == byte_offset(s, i) && t.span.end == byte_offset(s, j)
            && #[trigger] token_text(s, t.kind, i, j)
}

proof fn lemma_step_text(s: Seq<char>, i: int)
    requires
        0 <= i < s.len(),
    ensures
        lex_step(s, i).0 matches Some(k) ==> token_text(s, k, i, lex_step(s, i).2),
{
    let c = s[i];
    lemma_lex_step_advances(s, i);
    lemma_run_end(s, i + 1, CharClass::NotNewline);
    lemma_run_end(s, i + 1, CharClass::HSpace);
    lemma_run_end(s, i, CharClass::HSpace);
    if !is_ascii_char(c) {
    } else if c == '%' {
        let j = run_end(s, i + 1, CharClass::NotNewline);
        let body = s.subrange(i + 1, j);
        assert(s.subrange(i + 1, i + 1 + body.len()) =~= body);
        assert forall|m: int| 0 <= m < body.len() implies #[trigger] body[m] != '\n' by {
            assert(body[m] == s[i + 1 + m]);
            assert(in_class(CharClass::NotNewline, s[i + 1 + m]));
        }
    } else if c == '\n' {
        let j = run_end(s, i + 1, CharClass::HSpace);
        assert forall|m: int| i < m < j implies is_hspace(#[trigger] s[m]) by {
            assert(in_class(CharClass::HSpace, s[m]));
        }
        if j < s.len() && s[j] == '\n' {
            lemma_run_end(s, j, CharClass::Blank);
            let e = run_end(s, j, CharClass::Blank);
            assert forall|m: int| i <= m < e implies is_blank(#[trigger] s[m]) by {
                if m >= j {
                    assert(in_class(CharClass::Blank, s[m]));
                } else if m > i {
                    assert(is_hspace(s[m]));
                }
            }
            assert(i < j < e && s[j] == '\n');
        } else {
            assert forall|m: int| i <= m < j implies is_blank(#[trigger] s[m]) by {
                if m > i {
                    assert(is_hspace(s[m]));
                }
            }
            assert forall|m: int, l: int| i <= m < l < j implies !(#[trigger] s[m] == '\n' && #[trigger] s[l]
                == '\n') by {
                assert(is_hspace(s[l]));
            }
        }
    } else if c == ' ' || c == '\t' {
        let j = run_end(s, i, CharClass::HSpace);
        assert forall|m: int| i <= m < j implies is_blank(#[trigger] s[m]) by {
            assert(in_class(CharClass::HSpace, s[m]));
        }
        assert forall|m: int, l: int| i <= m < l < j implies !(#[trigger] s[m] == '\n' && #[trigger] s[l]
            == '\n') by {
            assert(in_class(CharClass::HSpace, s[l]));
        }
    } else if c == '\\' {
        if i + 1 >= s.len() {
        } else if is_ascii_letter(s[i + 1]) {
            lemma_run_end(s, i + 1, CharClass::Letter);
            let j = run_end(s, i + 1, CharClass::Letter);
            lemma_run_end(s, j, CharClass::HSpace);
            let e = run_end(s, j, CharClass::HSpace);
            let name = s.subrange(i + 1, j);
            assert(s.subrange(i + 1, i + 1 + name.len()) =~= name);
            assert forall|m: int| i + 1 + name.len() <= m < e implies is_hspace(#[trigger] s[m]) by {
                assert(in_class(CharClass::HSpace, s[m]));
            }
        } else if !is_ascii_char(s[i + 1]) {
        } else {
            assert(s.subrange(i + 1, i + 2) =~= seq![s[i + 1]]);
        }
    } else {
        assert(single_char_kind(c) matches Lexeme::Char(d) ==> is_plain_char(d));
    }
}

proof fn lemma_lex_from_text(s: Seq<char>, i: int)
    requires
        0 <= i <= s.len(),
        byte_len(s) <= usize::MAX,
    ensures
        forall|k: int| 0 <= k < lex_from(s, i).0.len() ==> covers_its_text(s, #[trigger] lex_from(s, i).0[k]),
    decreases s.len() - i,
{
    if i < s.len() {
        let (out, errs, j) = lex_step(s, i);
        lemma_lex_step_advances(s, i);
        lemma_lex_from_text(s, j);
        lemma_step_text(s, i);
        lemma_byte_offset_mono(s, i, j);
        lemma_byte_offset_mono(s, j, s.len() as int);
        let rest = lex_from(s, j).0;
        match out {
            Some(k) => {
                let t = token_at(s, k, i, j);
                let all = seq![t] + rest;
                assert(lex_from(s, i).0 == all);
                assert(token_text(s, t.kind, i, j));
                assert(covers_its_text(s, t));
                assert forall|m: int| 0 <= m < all.len() implies covers_its_text(s, #[trigger] all[m]) by {
                    if m > 0 {
                        assert(all[m] == rest[m - 1]);
                    }
                }
            },
            None => {
                assert(lex_from(s, i).0 == rest);
            },
        }
    }
}

/// Each token is exactly the source text it stands for (see
/// `token_text`). In particular a control word takes only the spaces and
/// tabs after its name, never a newline, and of all tokens only a
/// paragraph break covers two newlines, so a blank line outside comments
/// shows as one.
pub proof fn lemma_tokens_are_their_text(s: Seq<char>)
    requires
        byte_len(s) <= usize::MAX,
    ensures
        forall|k: int| 0 <= k < lex(s).0.len() ==> covers_its_text(s, #[trigger] lex(s).0[k]),
{
    lemma_lex_from_text(s, 0);
}

} // verus!
