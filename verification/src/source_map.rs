//! A model of the source map: files with line-addressed text, byte offsets
//! of lines, and conversion of character columns to byte offsets.
//!
//! Source text is held line by line, without newline characters; a file's
//! text is the lines joined by single newline bytes. All byte offsets below
//! are offsets into the UTF-8 encoding of that joined text.

use vstd::prelude::*;
use vstd::string::StrSliceExecFns;

verus! {

/// Number of bytes of the UTF-8 encoding of one character.
pub open spec fn char_utf8_len(c: char) -> int {
    if (c as u32) < 0x80 {
        1
    } else if (c as u32) < 0x800 {
        2
    } else if (c as u32) < 0x10000 {
        3
    } else {
        4
    }
}

/// Number of bytes of the UTF-8 encoding of a character sequence.
pub open spec fn utf8_len(s: Seq<char>) -> int
    decreases s.len(),
{
    if s.len() == 0 {
        0
    } else {
        char_utf8_len(s[0]) + utf8_len(s.drop_first())
    }
}

pub proof fn lemma_utf8_len_nonneg(s: Seq<char>)
    ensures
        utf8_len(s) >= 0,
    decreases s.len(),
{
    if s.len() != 0 {
        lemma_utf8_len_nonneg(s.drop_first());
    }
}

pub proof fn lemma_utf8_len_concat(a: Seq<char>, b: Seq<char>)
    ensures
        utf8_len(a + b) == utf8_len(a) + utf8_len(b),
    decreases a.len(),
{
    if a.len() == 0 {
        assert(a + b =~= b);
    } else {
        lemma_utf8_len_concat(a.drop_first(), b);
        assert((a + b).drop_first() =~= a.drop_first() + b);
    }
}

pub proof fn lemma_utf8_len_push(s: Seq<char>, c: char)
    ensures
        utf8_len(s.push(c)) == utf8_len(s) + char_utf8_len(c),
{
    lemma_utf8_len_concat(s, seq![c]);
    assert(s.push(c) =~= s + seq![c]);
    assert(utf8_len(seq![c]) == char_utf8_len(c) + utf8_len(seq![c].drop_first()));
    assert(seq![c].drop_first() =~= Seq::<char>::empty());
}

pub proof fn lemma_utf8_len_take_le(s: Seq<char>, i: int)
    requires
        0 <= i <= s.len(),
    ensures
        utf8_len(s.take(i)) <= utf8_len(s),
{
    assert(s.take(i) + s.skip(i) =~= s);
    lemma_utf8_len_concat(s.take(i), s.skip(i));
    lemma_utf8_len_nonneg(s.skip(i));
}

/// Byte offset of character column `c` within the sequence `s`: the byte
/// length of the first `c` characters. A column past the end of the
/// sequence saturates to the full byte length.
pub open spec fn char_to_byte(s: Seq<char>, c: int) -> int {
    utf8_len(s.take(if c <= s.len() { c } else { s.len() as int }))
}

pub proof fn lemma_char_to_byte_bounds(s: Seq<char>, c: int)
    requires
        c >= 0,
    ensures
        0 <= char_to_byte(s, c) <= utf8_len(s),
{
    let m = if c <= s.len() {
        c
    } else {
        s.len() as int
    };
    lemma_utf8_len_take_le(s, m);
    lemma_utf8_len_nonneg(s.take(m));
}

pub proof fn lemma_char_to_byte_mono(s: Seq<char>, a: int, b: int)
    requires
        0 <= a <= b,
    ensures
        char_to_byte(s, a) <= char_to_byte(s, b),
{
    let ma = if a <= s.len() {
        a
    } else {
        s.len() as int
    };
    let mb = if b <= s.len() {
        b
    } else {
        s.len() as int
    };
    assert(s.take(mb).take(ma) =~= s.take(ma));
    lemma_utf8_len_take_le(s.take(mb), ma);
}

/// Number of bytes of the UTF-8 encoding of one character, executable.
pub fn char_len_utf8(c: char) -> (r: usize)
    ensures
        r == char_utf8_len(c),
{
    let u = c as u32;
    if u < 0x80 {
        1
    } else if u < 0x800 {
        2
    } else if u < 0x10000 {
        3
    } else {
        4
    }
}

/// Converts a character position in `s` to the byte offset of that
/// character in the UTF-8 encoding of `s`. A position past the end of `s`
/// yields the full byte length of `s`.
pub fn char_to_byte_pos(s: &str, char_pos: usize) -> (r: usize)
    requires
        utf8_len(s@) <= usize::MAX,
    ensures
        r == char_to_byte(s@, char_pos as int),
{
    let n = s.unicode_len();
    let m = if char_pos < n {
        char_pos
    } else {
        n
    };
    let mut r: usize = 0;
    let mut i: usize = 0;
    while i < m
        invariant
            i <= m <= n,
            n == s@.len(),
            m == if char_pos as int <= s@.len() {
                char_pos as int
            } else {
                s@.len() as int
            },
            r == utf8_len(s@.take(i as int)),
            utf8_len(s@) <= usize::MAX,
        decreases m - i,
    {
        let c = s.get_char(i);
        proof {
            lemma_utf8_len_push(s@.take(i as int), s@[i as int]);
            assert(s@.take(i as int).push(s@[i as int]) =~= s@.take(i as int + 1));
            lemma_utf8_len_take_le(s@, i as int + 1);
            lemma_utf8_len_nonneg(s@.take(i as int));
        }
        r = r + char_len_utf8(c);
        i = i + 1;
    }
    proof {
        assert(s@.take(m as int) =~= s@.take(if char_pos as int <= s@.len() {
            char_pos as int
        } else {
            s@.len() as int
        }));
    }
    r
}

/// Byte length of the UTF-8 encoding of `s`.
pub fn str_byte_len(s: &str) -> (r: usize)
    requires
        utf8_len(s@) <= usize::MAX,
    ensures
        r == utf8_len(s@),
{
    let n = s.unicode_len();
    let r = char_to_byte_pos(s, n);
    proof {
        assert(s@.take(n as int) =~= s@);
    }
    r
}

/// The byte-length model above agrees with the UTF-8 encoding itself:
/// `utf8_len` of a character sequence is the length of its encoding.
pub proof fn lemma_utf8_len_is_encoding_len(s: Seq<char>)
    ensures
        utf8_len(s) == vstd::utf8::encode_utf8(s).len(),
    decreases s.len(),
{
    if s.len() > 0 {
        lemma_utf8_len_is_encoding_len(s.drop_first());
        vstd::utf8::char_is_scalar(s[0]);
    }
}

pub proof fn lemma_encode_utf8_concat(a: Seq<char>, b: Seq<char>)
    ensures
        vstd::utf8::encode_utf8(a + b) == vstd::utf8::encode_utf8(a) + vstd::utf8::encode_utf8(b),
    decreases a.len(),
{
    if a.len() == 0 {
        assert(a + b =~= b);
        assert(vstd::utf8::encode_utf8(a) + vstd::utf8::encode_utf8(b) =~= vstd::utf8::encode_utf8(
            b,
        ));
    } else {
        lemma_encode_utf8_concat(a.drop_first(), b);
        assert((a + b).drop_first() =~= a.drop_first() + b);
        assert(vstd::utf8::encode_utf8(a + b) =~= vstd::utf8::encode_utf8(a)
            + vstd::utf8::encode_utf8(b));
    }
}

/// The byte offset computed for a character column is exactly the byte
/// length of the UTF-8 encoding of the characters before that column.
pub proof fn lemma_char_to_byte_is_encoded_prefix(s: Seq<char>, c: int)
    requires
        0 <= c <= s.len(),
    ensures
        char_to_byte(s, c) == vstd::utf8::encode_utf8(s.take(c)).len(),
{
    lemma_utf8_len_is_encoding_len(s.take(c));
}

/// Slicing the UTF-8 encoding of a line at the byte offsets computed for
/// two character columns, and decoding the slice, yields exactly the
/// characters between the two columns.
pub proof fn lemma_column_range_decodes(s: Seq<char>, sc: int, ec: int)
    requires
        0 <= sc <= ec <= s.len(),
    ensures
        vstd::utf8::decode_utf8(
            vstd::utf8::encode_utf8(s).subrange(char_to_byte(s, sc), char_to_byte(s, ec)),
        ) == s.subrange(sc, ec),
{
    let mid = s.subrange(sc, ec);
    assert(s =~= s.take(sc) + (mid + s.skip(ec)));
    lemma_encode_utf8_concat(s.take(sc), mid + s.skip(ec));
    lemma_encode_utf8_concat(mid, s.skip(ec));
    lemma_utf8_len_is_encoding_len(s.take(sc));
    lemma_utf8_len_is_encoding_len(mid);
    assert(s.take(ec) =~= s.take(sc) + mid);
    lemma_utf8_len_is_encoding_len(s.take(ec));
    lemma_utf8_len_concat(s.take(sc), mid);
    assert(vstd::utf8::encode_utf8(s).subrange(char_to_byte(s, sc), char_to_byte(s, ec))
        =~= vstd::utf8::encode_utf8(mid));
    vstd::utf8::encode_utf8_decode_utf8(mid);
}

/// One source file: a diagnostics-facing name and the file's text, line by
/// line, without newline characters.
pub struct SourceFile {
    pub name: String,
    pub lines: Vec<String>,
}

impl SourceFile {
    /// Absolute byte offset of the start of line `i` (0-based) in the
    /// file's joined text, counting one newline byte after each line.
    pub open spec fn spec_line_start(self, i: int) -> int
        decreases i,
    {
        if i <= 0 {
            0
        } else {
            self.spec_line_start(i - 1) + utf8_len(self.lines@[i - 1]@) + 1
        }
    }

    /// Byte length of the file's joined text, counting a newline byte
    /// after every line, the last one included.
    pub open spec fn spec_byte_len(self) -> int {
        self.spec_line_start(self.lines@.len() as int)
    }

    /// The file's byte length fits the machine's address range.
    pub open spec fn wf(self) -> bool {
        self.spec_byte_len() <= usize::MAX
    }
}

/// For `i <= j`, line `i` starts no later than line `j`, and line `i`'s
/// text and its newline lie wholly before line `j`'s start.
pub proof fn lemma_line_start_mono(file: SourceFile, i: int, j: int)
    requires
        0 <= i <= j <= file.lines@.len(),
    ensures
        file.spec_line_start(i) <= file.spec_line_start(j),
        i < j ==> file.spec_line_start(i) + utf8_len(file.lines@[i]@) + 1 <= file.spec_line_start(j),
    decreases j - i,
{
    if i < j {
        lemma_line_start_mono(file, i + 1, j);
        lemma_utf8_len_nonneg(file.lines@[i]@);
    }
}

/// Returns the absolute byte offset of the start of line `line` (0-based).
/// `line` may equal the line count, in which case the file's total byte
/// length is returned.
pub fn line_position(file: &SourceFile, line: usize) -> (r: usize)
    requires
        file.wf(),
        line <= file.lines@.len(),
    ensures
        r == file.spec_line_start(line as int),
{
    let mut r: usize = 0;
    let mut i: usize = 0;
    while i < line
        invariant
            i <= line <= file.lines@.len(),
            file.wf(),
            r == file.spec_line_start(i as int),
        decreases line - i,
    {
        proof {
            lemma_line_start_mono(*file, 0, i as int);
            lemma_line_start_mono(*file, i as int, file.lines@.len() as int);
            lemma_utf8_len_nonneg(file.lines@[i as int]@);
        }
        let len_i = str_byte_len(file.lines[i].as_str());
        r = r + len_i + 1;
        i = i + 1;
    }
    r
}

/// The source map: every file loaded in a session, addressed by a stable
/// file identifier, its index in this list. Two files are the same file
/// exactly when they have the same identifier, even if their display
/// names collide.
pub struct SourceMap {
    pub files: Vec<SourceFile>,
}

impl SourceMap {
    pub open spec fn wf(self) -> bool {
        forall|i: int| 0 <= i < self.files@.len() ==> (#[trigger] self.files@[i]).wf()
    }
}

/// Returns copies of lines `first..=last` (0-based) of the file: the raw
/// excerpt text for a snippet.
pub fn excerpt(file: &SourceFile, first: usize, last: usize) -> (r: Vec<String>)
    requires
        first <= last < file.lines@.len(),
    ensures
        r@ == file.lines@.subrange(first as int, last as int + 1),
{
    let n = file.lines.len();
    let mut r: Vec<String> = Vec::new();
    let mut i: usize = first;
    while i <= last
        invariant
            first <= i <= last + 1,
            last < n == file.lines@.len(),
            r@ == file.lines@.subrange(first as int, i as int),
        decreases last + 1 - i,
    {
        r.push(file.lines[i].clone());
        proof {
            assert(r@ =~= file.lines@.subrange(first as int, i as int + 1));
        }
        i = i + 1;
    }
    r
}

} // verus!
