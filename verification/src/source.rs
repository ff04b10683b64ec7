//! A view of source text with a precomputed line index.
//!
//! The line table is built once so that repeated `line_col` lookups (one
//! per diagnostic) take logarithmic time. Positions and columns are byte
//! offsets.

use vstd::prelude::*;
use vstd::string::StringSliceAdditionalSpecFns;
use vstd::utf8::{
    decode_utf8, encode_utf8_decode_utf8, encode_utf8_valid_utf8, is_char_boundary, is_char_boundary_iff_not_is_continuation_byte,
    is_char_boundary_start_end_of_seq, valid_utf8, valid_utf8_split,
};

verus! {

/// Byte offsets just past each newline in `b[i..]`.
pub open spec fn newline_starts(b: Seq<u8>, i: int) -> Seq<int>
    decreases b.len() - i,
{
    if i < 0 || i >= b.len() {
        Seq::empty()
    } else if b[i] == 10 {
        seq![i + 1] + newline_starts(b, i + 1)
    } else {
        newline_starts(b, i + 1)
    }
}

/// Byte offsets at which the lines of `b` start: 0, then just past each
/// newline.
pub open spec fn line_starts_of(b: Seq<u8>) -> Seq<int> {
    seq![0int] + newline_starts(b, 0)
}

/// `k` is the index of the line holding byte `byte`: the last line start
/// at or before it.
pub open spec fn is_line_of(starts: Seq<int>, byte: int, k: int) -> bool {
    &&& 0 <= k < starts.len()
    &&& starts[k] <= byte
    &&& (k + 1 == starts.len() || byte < starts[k + 1])
}

/// Byte range `[start, end)` of the text of 1-based line `line` (the last
/// line for a number past the end, the first for 0), without its newline.
pub open spec fn line_range(b: Seq<u8>, line: int) -> (int, int) {
    let starts = line_starts_of(b);
    let idx = if line - 1 < starts.len() - 1 {
        if line >= 1 { line - 1 } else { 0 }
    } else {
        starts.len() - 1
    };
    let start = starts[idx];
    let end = if idx + 1 < starts.len() { starts[idx + 1] - 1 } else { b.len() as int };
    (start, end)
}

/// 0-based index of the line holding byte `byte` of `b`.
pub open spec fn line_of(b: Seq<u8>, byte: int) -> int {
    choose|k: int| is_line_of(line_starts_of(b), byte, k)
}

/// 1-based byte column of byte `byte` of `b`, offsets past the end being
/// clamped to the end.
pub open spec fn column_of(b: Seq<u8>, byte: int) -> int {
    (if byte <= b.len() { byte } else { b.len() as int }) - line_starts_of(b)[line_of(b, byte)] + 1
}

/// The characters of 1-based line `line` of `b`, without its newline.
pub open spec fn line_chars(b: Seq<u8>, line: int) -> Seq<char> {
    decode_utf8(b.subrange(line_range(b, line).0, line_range(b, line).1))
}

pub proof fn lemma_newline_starts(b: Seq<u8>, i: int)
    requires
        0 <= i <= b.len(),
    ensures
        forall|k: int|
            0 <= k < newline_starts(b, i).len() ==> i < #[trigger] newline_starts(b, i)[k] <= b.len()
                && b[newline_starts(b, i)[k] - 1] == 10,
        forall|k: int, l: int|
            0 <= k < l < newline_starts(b, i).len() ==> #[trigger] newline_starts(b, i)[k]
                < #[trigger] newline_starts(b, i)[l],
    decreases b.len() - i,
{
    if i < b.len() {
        lemma_newline_starts(b, i + 1);
        let rest = newline_starts(b, i + 1);
        if b[i] == 10 {
            let all = seq![i + 1] + rest;
            assert forall|k: int, l: int| 0 <= k < l < all.len() implies #[trigger] all[k] < #[trigger] all[l] by {
                if k > 0 {
                    assert(all[k] == rest[k - 1]);
                }
                assert(all[l] == rest[l - 1]);
            }
            assert forall|k: int| 0 <= k < all.len() implies i < #[trigger] all[k] <= b.len() && b[all[k] - 1] == 10 by {
                if k > 0 {
                    assert(all[k] == rest[k - 1]);
                }
            }
        }
    }
}

pub proof fn lemma_line_starts(b: Seq<u8>)
    ensures
        line_starts_of(b).len() >= 1,
        line_starts_of(b)[0] == 0,
        forall|k: int| 0 <= k < line_starts_of(b).len() ==> 0 <= #[trigger] line_starts_of(b)[k] <= b.len(),
        forall|k: int| 0 < k < line_starts_of(b).len() ==> b[#[trigger] line_starts_of(b)[k] - 1] == 10,
        forall|k: int, l: int|
            0 <= k < l < line_starts_of(b).len() ==> #[trigger] line_starts_of(b)[k]
                < #[trigger] line_starts_of(b)[l],
{
    lemma_newline_starts(b, 0);
    let s = line_starts_of(b);
    let r = newline_starts(b, 0);
    assert forall|k: int| 0 < k < s.len() implies s[k] == r[k - 1] by {}
    assert forall|k: int, l: int| 0 <= k < l < s.len() implies #[trigger] s[k] < #[trigger] s[l] by {
        assert(s[l] == r[l - 1]);
        if k > 0 {
            assert(s[k] == r[k - 1]);
        }
    }
    assert forall|k: int| 0 < k < s.len() implies b[#[trigger] s[k] - 1] == 10 by {
        assert(s[k] == r[k - 1]);
    }
}

/// Sorted line starts determine the line of a byte uniquely.
pub proof fn lemma_line_of_unique(starts: Seq<int>, byte: int, k: int, l: int)
    requires
        forall|i: int, j: int| 0 <= i < j < starts.len() ==> #[trigger] starts[i] < #[trigger] starts[j],
        is_line_of(starts, byte, k),
        is_line_of(starts, byte, l),
    ensures
        k == l,
{
    if k < l {
        assert(starts[k + 1] <= starts[l]) by {
            if k + 1 < l {
                assert(starts[k + 1] < starts[l]);
            }
        }
    } else if l < k {
        assert(starts[l + 1] <= starts[k]) by {
            if l + 1 < k {
                assert(starts[l + 1] < starts[k]);
            }
        }
    }
}

proof fn lemma_line_of_exists(starts: Seq<int>, byte: int, k: int)
    requires
        0 <= k < starts.len(),
        starts[k] <= byte,
    ensures
        exists|l: int| is_line_of(starts, byte, l),
    decreases starts.len() - k,
{
    if !is_line_of(starts, byte, k) {
        lemma_line_of_exists(starts, byte, k + 1);
    }
}

/// Every offset up to the end of the text has a line, and its line and
/// column locate it within that line's text: the offset lies in the line's
/// byte range (its end included, where the newline or the end of the text
/// is), and the column counts from the line's first byte.
pub proof fn lemma_line_col_locates(b: Seq<u8>, byte: int)
    requires
        0 <= byte <= b.len(),
    ensures
        is_line_of(line_starts_of(b), byte, line_of(b, byte)),
        line_range(b, line_of(b, byte) + 1).0 <= byte <= line_range(b, line_of(b, byte) + 1).1,
        column_of(b, byte) == byte - line_range(b, line_of(b, byte) + 1).0 + 1,
{
    lemma_line_starts(b);
    lemma_line_of_exists(line_starts_of(b), byte, 0);
}

/// In valid UTF-8, the byte after an ASCII byte starts a character.
proof fn lemma_boundary_after_ascii(b: Seq<u8>, p: int)
    requires
        valid_utf8(b),
        0 <= p < b.len(),
        b[p] < 0x80,
    ensures
        is_char_boundary(b, p + 1),
{
    is_char_boundary_start_end_of_seq(b);
    if p + 1 < b.len() {
        is_char_boundary_iff_not_is_continuation_byte(b, p);
        valid_utf8_split(b, p);
        let suffix = b.subrange(p, b.len() as int);
        assert(suffix[0] == b[p]);
        let tail = suffix.subrange(1, suffix.len() as int);
        assert(valid_utf8(tail));
        assert(tail[0] == b[p + 1]);
        is_char_boundary_iff_not_is_continuation_byte(b, p + 1);
    }
}

/// The bytes of a line of valid UTF-8 text begin and end on character
/// boundaries, so they are valid UTF-8 themselves.
pub proof fn lemma_line_bytes(b: Seq<u8>, line: int)
    requires
        valid_utf8(b),
    ensures
        0 <= line_range(b, line).0 <= line_range(b, line).1 <= b.len(),
        is_char_boundary(b, line_range(b, line).0),
        is_char_boundary(
            b.subrange(line_range(b, line).0, b.len() as int),
            line_range(b, line).1 - line_range(b, line).0,
        ),
        valid_utf8(b.subrange(line_range(b, line).0, line_range(b, line).1)),
{
    lemma_line_starts(b);
    let st = line_starts_of(b);
    let n = st.len();
    let idx = if line - 1 < n - 1 {
        if line >= 1 { line - 1 } else { 0 }
    } else {
        n - 1
    };
    let start = line_range(b, line).0;
    let end = line_range(b, line).1;
    assert(start == st[idx]);
    if idx + 1 < n {
        assert(st[idx + 1] > st[idx]);
    }
    is_char_boundary_start_end_of_seq(b);
    if idx > 0 {
        lemma_boundary_after_ascii(b, start - 1);
    }
    valid_utf8_split(b, start);
    let rest = b.subrange(start, b.len() as int);
    is_char_boundary_start_end_of_seq(rest);
    if idx + 1 < n {
        assert(b[end] == 10);
        assert(rest[end - start] == b[end]);
        is_char_boundary_iff_not_is_continuation_byte(rest, end - start);
    }
    valid_utf8_split(rest, end - start);
    assert(rest.subrange(0, end - start) =~= b.subrange(start, end));
}

pub struct Source<'a> {
    text: &'a str,
    name: Option<String>,
    line_starts: Vec<usize>,
}

impl<'a> Source<'a> {
    #[verifier::type_invariant]
    closed spec fn inv(&self) -> bool {
        &&& self.line_starts@.map_values(|x: usize| x as int) == line_starts_of(self.text.spec_bytes())
        &&& self.text.spec_bytes().len() < usize::MAX
    }

    /// The characters of the source text.
    pub closed spec fn chars(&self) -> Seq<char> {
        self.text@
    }

    /// The UTF-8 bytes of the source text.
    pub closed spec fn bytes(&self) -> Seq<u8> {
        self.text.spec_bytes()
    }

    /// The display name, if any.
    pub closed spec fn display_name(&self) -> Option<Seq<char>> {
        match self.name {
            Some(n) => Some(n@),
            None => None,
        }
    }

    /// The bytes of a source are valid UTF-8.
    pub proof fn lemma_bytes_valid(&self)
        ensures
            valid_utf8(self.bytes()),
    {
        encode_utf8_valid_utf8(self.text@);
    }

    pub fn new(text: &'a str) -> (r: Self)
        requires
            text.spec_bytes().len() < usize::MAX,
        ensures
            r.chars() == text@,
            r.bytes() == text.spec_bytes(),
            r.display_name() is None,
    {
        let bytes = text.as_bytes();
        let mut line_starts: Vec<usize> = Vec::new();
        line_starts.push(0);
        let mut i: usize = 0;
        proof {
            assert(line_starts@.map_values(|x: usize| x as int) + newline_starts(bytes@, 0)
                =~= line_starts_of(bytes@));
        }
        while i < bytes.len()
            invariant
                i <= bytes@.len(),
                bytes@ == text.spec_bytes(),
                line_starts@.map_values(|x: usize| x as int) + newline_starts(bytes@, i as int)
                    == line_starts_of(bytes@),
            decreases bytes@.len() - i,
        {
            let ghost before = line_starts@.map_values(|x: usize| x as int);
            if bytes[i] == 10 {
                line_starts.push(i + 1);
                proof {
                    assert(line_starts@.map_values(|x: usize| x as int) =~= before.push(i + 1));
                    assert(before.push(i + 1) + newline_starts(bytes@, i + 1)
                        =~= before + newline_starts(bytes@, i as int));
                }
            }
            i = i + 1;
        }
        proof {
            assert(line_starts@.map_values(|x: usize| x as int) =~= line_starts_of(bytes@));
        }
        Source { text, name: None, line_starts }
    }

    /// A `Source` whose rendered diagnostics include `name` (usually a file
    /// path) in the location header.
    pub fn with_name(text: &'a str, name: &str) -> (r: Self)
        requires
            text.spec_bytes().len() < usize::MAX,
        ensures
            r.chars() == text@,
            r.bytes() == text.spec_bytes(),
            r.display_name() == Some(name@),
    {
        let s = Self::new(text);
        proof {
            use_type_invariant(&s);
        }
        Source { text: s.text, name: Some(name.to_owned()), line_starts: s.line_starts }
    }

    /// The display name attached to this source, if any.
    pub fn name(&self) -> (r: Option<&str>)
        ensures
            match r {
                Some(n) => self.display_name() == Some(n@),
                None => self.display_name() is None,
            },
    {
        match &self.name {
            Some(n) => Some(n.as_str()),
            None => None,
        }
    }

    /// Convert a byte offset into a 1-based `(line, column)`; columns count
    /// bytes, and offsets past the end are clamped to the end.
    pub fn line_col(&self, byte: usize) -> (r: (usize, usize))
        ensures
            r.0 == line_of(self.bytes(), byte as int) + 1,
            r.1 == column_of(self.bytes(), byte as int),
            r.0 >= 1,
            r.1 >= 1,
    {
        proof {
            use_type_invariant(self);
            lemma_line_starts(self.text.spec_bytes());
        }
        let ghost st = line_starts_of(self.text.spec_bytes());
        let n = self.line_starts.len();
        proof {
            assert(self.line_starts@[0] as int == st[0]);
        }
        let mut lo: usize = 0;
        let mut hi: usize = n;
        while hi - lo > 1
            invariant
                n == self.line_starts@.len() == st.len(),
                st == self.line_starts@.map_values(|x: usize| x as int),
                lo < hi <= n,
                st[lo as int] <= byte,
                hi == n || byte < st[hi as int],
            decreases hi - lo,
        {
            let mid = lo + (hi - lo) / 2;
            if self.line_starts[mid] <= byte {
                lo = mid;
            } else {
                hi = mid;
            }
        }
        let len = self.text.len();
        let line_start = self.line_starts[lo];
        proof {
            assert(st[lo as int] <= len);
        }
        let clamped = if byte <= len { byte } else { len };
        let col = clamped - line_start;
        proof {
            assert(is_line_of(st, byte as int, lo as int));
            let k = line_of(self.text.spec_bytes(), byte as int);
            lemma_line_of_unique(st, byte as int, k, lo as int);
        }
        (lo + 1, col + 1)
    }

    /// The text of a 1-based line, without its trailing newline.
    pub fn line_text(&self, line: usize) -> (r: &str)
        ensures
            r.spec_bytes() == self.bytes().subrange(
                line_range(self.bytes(), line as int).0,
                line_range(self.bytes(), line as int).1,
            ),
            r@ == line_chars(self.bytes(), line as int),
            0 <= line_range(self.bytes(), line as int).0 <= line_range(self.bytes(), line as int).1
                <= self.bytes().len() < usize::MAX,
    {
        proof {
            use_type_invariant(self);
            lemma_line_starts(self.text.spec_bytes());
            encode_utf8_valid_utf8(self.text@);
        }
        let ghost b = self.text.spec_bytes();
        let ghost st = line_starts_of(b);
        let n = self.line_starts.len();
        let below = if line >= 1 { line - 1 } else { 0 };
        let idx = if below < n - 1 { below } else { n - 1 };
        let start = self.line_starts[idx];
        let len = self.text.len();
        let end = if idx + 1 < n {
            let next = self.line_starts[idx + 1];
            proof {
                assert(st[idx + 1] > st[idx as int] >= 0);
            }
            next - 1
        } else {
            len
        };
        proof {
            assert(st[idx as int] == start);
            lemma_line_bytes(b, line as int);
        }
        let (_, rest) = self.text.split_at(start);
        let (text, _) = rest.split_at(end - start);
        proof {
            assert(text.spec_bytes() =~= b.subrange(start as int, end as int));
            encode_utf8_decode_utf8(text@);
        }
        text
    }
}

} // verus!
