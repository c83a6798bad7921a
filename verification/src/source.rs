//! What a file's bytes give before any grammar is involved: the binary check,
//! the table of line starts, excerpts, and the identifier of a line span.

use vstd::prelude::*;
use vstd::slice::slice_subrange;
use vstd::slice::slice_to_vec;
use vstd::utf8::decode_utf8;
use vstd::utf8::encode_utf8;
use vstd::utf8::valid_utf8;

verus! {

/// How many leading bytes the binary check looks at.
pub const BINARY_SAMPLE: usize = 1024;

/// Whether a zero byte stands among the first `BINARY_SAMPLE` bytes.
pub open spec fn looks_binary(buf: Seq<u8>) -> bool {
    exists|i: int| 0 <= i < buf.len() && i < BINARY_SAMPLE && buf[i] == 0
}

/// Heuristic binary detector: a zero byte in the leading sample.
pub fn is_probably_binary(buf: &[u8]) -> (r: bool)
    ensures
        r == looks_binary(buf@),
{
    let limit = if buf.len() < BINARY_SAMPLE {
        buf.len()
    } else {
        BINARY_SAMPLE
    };
    let mut i: usize = 0;
    while i < limit
        invariant
            i <= limit <= buf.len(),
            limit <= BINARY_SAMPLE,
            limit == buf.len() || limit == BINARY_SAMPLE,
            forall|j: int| 0 <= j < i ==> buf@[j] != 0,
        decreases limit - i,
    {
        if buf[i] == 0 {
            return true;
        }
        i += 1;
    }
    false
}

/// The byte offsets at which the lines of `src` start: 0, and the offset
/// behind every line feed.
pub open spec fn line_starts(src: Seq<u8>) -> Seq<int>
    decreases src.len(),
{
    if src.len() == 0 {
        seq![0]
    } else if src.last() == 10 {
        line_starts(src.drop_last()).push(src.len() as int)
    } else {
        line_starts(src.drop_last())
    }
}

/// The line starts of a text begin with 0, grow strictly, and stay within
/// the text.
pub proof fn lemma_line_starts_sorted(src: Seq<u8>)
    ensures
        line_starts(src).len() >= 1,
        line_starts(src)[0] == 0,
        forall|i: int| 0 <= i < line_starts(src).len() ==> 0 <= #[trigger] line_starts(src)[i]
            <= src.len(),
        forall|i: int, j: int|
            0 <= i < j < line_starts(src).len() ==> #[trigger] line_starts(src)[i]
                < #[trigger] line_starts(src)[j],
    decreases src.len(),
{
    if src.len() > 0 {
        lemma_line_starts_sorted(src.drop_last());
    }
}

/// Line index for fast line number to byte offset mapping.
pub struct LineIndex {
    starts: Vec<usize>,
}

impl View for LineIndex {
    type V = Seq<int>;

    /// The byte offset at which each line starts, the first line first.
    closed spec fn view(&self) -> Seq<int> {
        self.starts@.map_values(|x: usize| x as int)
    }
}

/// The bytes that a range of 1-based lines covers in a table of line starts:
/// from the start of `start_line` to the start of the line behind `end_line`.
/// `None` means that `start_line` lies behind the last line; an end of
/// `usize::MAX` means that the range runs to the end of the text.
pub open spec fn line_range(starts: Seq<int>, start_line: u32, end_line: u32) -> Option<
    (int, int),
> {
    let first = if start_line == 0 {
        0
    } else {
        start_line - 1
    };
    if first >= starts.len() {
        None
    } else if end_line < starts.len() {
        Some((starts[first], starts[end_line as int]))
    } else {
        Some((starts[first], usize::MAX as int))
    }
}

impl LineIndex {
    /// Build a line index by scanning the source for line feeds.
    pub fn new(src: &[u8]) -> (r: LineIndex)
        ensures
            r@ == line_starts(src@),
    {
        let mut starts: Vec<usize> = Vec::new();
        starts.push(0);
        let mut i: usize = 0;
        assert(src@.subrange(0, 0) =~= Seq::<u8>::empty());
        assert(starts@.map_values(|x: usize| x as int) =~= line_starts(src@.subrange(0, 0)));
        while i < src.len()
            invariant
                i <= src.len(),
                starts@.map_values(|x: usize| x as int) == line_starts(src@.subrange(0, i as int)),
            decreases src.len() - i,
        {
            let ghost before = starts@.map_values(|x: usize| x as int);
            assert(src@.subrange(0, i + 1).drop_last() =~= src@.subrange(0, i as int));
            if src[i] == 10 {
                starts.push(i + 1);
                assert(starts@.map_values(|x: usize| x as int) =~= before.push(i + 1));
            }
            i += 1;
        }
        assert(src@.subrange(0, src.len() as int) =~= src@);
        LineIndex { starts }
    }

    /// Convert 1-based line numbers to a byte range.
    pub fn line_range_to_bytes(&self, start_line: u32, end_line: u32) -> (r: Option<(usize, usize)>)
        ensures
            match line_range(self@, start_line, end_line) {
                Some((lo, hi)) => r matches Some(range) && range.0 == lo && range.1 == hi,
                None => r is None,
            },
    {
        let first: usize = if start_line == 0 {
            0
        } else {
            (start_line - 1) as usize
        };
        let last: usize = end_line as usize;
        if first >= self.starts.len() {
            return None;
        }
        let start_byte = self.starts[first];
        if last < self.starts.len() {
            Some((start_byte, self.starts[last]))
        } else {
            Some((start_byte, usize::MAX))
        }
    }

    /// Get the total number of lines.
    pub fn line_count(&self) -> (r: usize)
        ensures
            r == self@.len(),
    {
        self.starts.len()
    }
}

/// `String::from_utf8`: the text that `bytes` encode, or nothing where they
/// are not valid UTF-8.
#[verifier::external_body]
fn utf8_text(bytes: Vec<u8>) -> (r: Option<String>)
    ensures
        match r {
            Some(s) => valid_utf8(bytes@) && s@ == decode_utf8(bytes@),
            None => !valid_utf8(bytes@),
        },
{
    String::from_utf8(bytes).ok()
}

/// What `String::from_utf8_lossy` makes of `bytes`.
pub uninterp spec fn lossy_text(bytes: Seq<u8>) -> Seq<char>;

/// `String::from_utf8_lossy`: the text of `bytes`, with U+FFFD in place of
/// what is not valid UTF-8.
#[verifier::external_body]
pub(crate) fn lossy_string(bytes: &[u8]) -> (r: String)
    ensures
        r@ == lossy_text(bytes@),
        valid_utf8(bytes@) ==> r@ == decode_utf8(bytes@),
{
    String::from_utf8_lossy(bytes).to_string()
}

/// The lines `start_line..=end_line` widened by `context` lines on both
/// sides, as a byte range of a text of `len` bytes. `None` where the first
/// line lies behind the text or the range would run backwards.
pub open spec fn excerpt_range(
    starts: Seq<int>,
    len: int,
    start_line: u32,
    end_line: u32,
    context: u32,
) -> Option<(int, int)> {
    let first = if start_line >= context {
        (start_line - context) as u32
    } else {
        0u32
    };
    let last = if end_line + context <= u32::MAX {
        (end_line + context) as u32
    } else {
        u32::MAX
    };
    match line_range(starts, first, last) {
        None => None,
        Some((lo, hi)) => {
            let end = if hi == usize::MAX || hi > len {
                len
            } else {
                hi
            };
            if 0 <= lo <= end {
                Some((lo, end))
            } else {
                None
            }
        },
    }
}

/// The text of an excerpt: the bytes of the range, where they are valid UTF-8.
pub open spec fn excerpt(
    src: Seq<u8>,
    starts: Seq<int>,
    start_line: u32,
    end_line: u32,
    context: u32,
) -> Option<Seq<char>> {
    match excerpt_range(starts, src.len() as int, start_line, end_line, context) {
        None => None,
        Some((lo, hi)) => if valid_utf8(src.subrange(lo, hi)) {
            Some(decode_utf8(src.subrange(lo, hi)))
        } else {
            None
        },
    }
}

/// Extract a slice of source with context lines around the target range
/// (1-based line numbers).
pub fn slice_with_context(
    src: &[u8],
    line_index: &LineIndex,
    start_line: u32,
    end_line: u32,
    context: u32,
) -> (r: Option<String>)
    ensures
        match excerpt(src@, line_index@, start_line, end_line, context) {
            Some(text) => r is Some && r->0@ == text,
            None => r is None,
        },
{
    let first = start_line.saturating_sub(context);
    let last = end_line.saturating_add(context);
    match line_index.line_range_to_bytes(first, last) {
        None => None,
        Some((start_byte, end_byte)) => {
            let end = if end_byte == usize::MAX || end_byte > src.len() {
                src.len()
            } else {
                end_byte
            };
            if start_byte > end {
                return None;
            }
            let bytes = slice_to_vec(slice_subrange(src, start_byte, end));
            utf8_text(bytes)
        },
    }
}

/// What BLAKE3 makes of `input`, as 64 lowercase hexadecimal digits.
pub uninterp spec fn blake3_hex(input: Seq<u8>) -> Seq<char>;

/// `blake3::hash` followed by `Hash::to_hex`. The digest depends on the input
/// bytes alone, so it is named by `blake3_hex`.
#[verifier::external_body]
fn hash_hex(input: &[u8]) -> (r: String)
    ensures
        r@ == blake3_hex(input@),
{
    blake3::hash(input).to_hex().to_string()
}

/// The decimal digits of `n` in ASCII, without leading zeros.
pub open spec fn decimal_digits(n: nat) -> Seq<u8>
    decreases n,
{
    if n < 10 {
        seq![(48 + n) as u8]
    } else {
        decimal_digits(n / 10).push((48 + n % 10) as u8)
    }
}

/// The bytes that identify a line span of a file: `path:start-end`.
pub open spec fn chunk_key(path: Seq<char>, start_line: u32, end_line: u32) -> Seq<u8> {
    encode_utf8(path) + seq![58u8] + decimal_digits(start_line as nat) + seq![45u8]
        + decimal_digits(end_line as nat)
}

/// The identifier of a line span of a file. It depends on the path and the
/// two line numbers and on nothing else.
pub open spec fn chunk_id(path: Seq<char>, start_line: u32, end_line: u32) -> Seq<char> {
    blake3_hex(chunk_key(path, start_line, end_line))
}

fn push_decimal(buf: &mut Vec<u8>, n: u32)
    ensures
        final(buf)@ == old(buf)@ + decimal_digits(n as nat),
    decreases n,
{
    if n < 10 {
        buf.push(48 + n as u8);
        assert(buf@ =~= old(buf)@ + decimal_digits(n as nat));
    } else {
        push_decimal(buf, n / 10);
        buf.push(48 + (n % 10) as u8);
        assert(buf@ =~= old(buf)@ + decimal_digits(n as nat));
    }
}

fn push_bytes(buf: &mut Vec<u8>, bytes: &[u8])
    ensures
        final(buf)@ == old(buf)@ + bytes@,
{
    let mut i: usize = 0;
    while i < bytes.len()
        invariant
            i <= bytes.len(),
            buf@ == old(buf)@ + bytes@.subrange(0, i as int),
        decreases bytes.len() - i,
    {
        buf.push(bytes[i]);
        i += 1;
    }
    assert(bytes@.subrange(0, bytes.len() as int) =~= bytes@);
}

/// Deterministic chunk id from path + line range.
pub fn make_chunk_id(path: &str, s: u32, e: u32) -> (r: String)
    ensures
        r@ == chunk_id(path@, s, e),
{
    let mut buf: Vec<u8> = Vec::new();
    push_bytes(&mut buf, path.as_bytes());
    buf.push(58);
    push_decimal(&mut buf, s);
    buf.push(45);
    push_decimal(&mut buf, e);
    assert(buf@ =~= chunk_key(path@, s, e));
    hash_hex(buf.as_slice())
}

} // verus!
