//! Character-level helpers shared by the query parser and the option parsers.

use vstd::prelude::*;
use vstd::string::StringSliceAdditionalSpecFns;
use vstd::utf8::encode_utf8_decode_utf8;

verus! {

/// Whether `c` has the Unicode `White_Space` property.
pub open spec fn is_space(c: char) -> bool {
    let u = c as u32;
    ||| 0x09 <= u <= 0x0D
    ||| u == 0x20
    ||| u == 0x85
    ||| u == 0xA0
    ||| u == 0x1680
    ||| 0x2000 <= u <= 0x200A
    ||| u == 0x2028
    ||| u == 0x2029
    ||| u == 0x202F
    ||| u == 0x205F
    ||| u == 0x3000
}

/// Whether `c` is one of the 52 ASCII letters.
pub open spec fn is_letter(c: char) -> bool {
    ('a' <= c <= 'z') || ('A' <= c <= 'Z')
}

/// Whether `c` is one of the ten ASCII digits.
pub open spec fn is_digit(c: char) -> bool {
    '0' <= c <= '9'
}

/// Index of the first character at or after `from` that is not whitespace,
/// or the length of `s` when only whitespace is left.
pub open spec fn skip_spaces(s: Seq<char>, from: int) -> int
    decreases s.len() - from,
{
    if 0 <= from < s.len() && is_space(s[from]) {
        skip_spaces(s, from + 1)
    } else {
        from
    }
}

/// The end of `s[..hi]` once trailing whitespace is dropped, never below `lo`.
pub open spec fn drop_trailing_spaces(s: Seq<char>, lo: int, hi: int) -> int
    decreases hi - lo,
{
    if lo < hi <= s.len() && is_space(s[hi - 1]) {
        drop_trailing_spaces(s, lo, hi - 1)
    } else {
        hi
    }
}

/// `s` without its leading and trailing whitespace.
pub open spec fn trimmed(s: Seq<char>) -> Seq<char> {
    let lo = skip_spaces(s, 0);
    let hi = drop_trailing_spaces(s, lo, s.len() as int);
    s.subrange(lo, hi)
}

/// Whether every character of `s` is whitespace.
pub open spec fn is_blank(s: Seq<char>) -> bool {
    forall|i: int| 0 <= i < s.len() ==> is_space(#[trigger] s[i])
}

pub proof fn lemma_skip_spaces_bounds(s: Seq<char>, from: int)
    requires
        0 <= from <= s.len(),
    ensures
        from <= skip_spaces(s, from) <= s.len(),
        forall|i: int| from <= i < skip_spaces(s, from) ==> is_space(#[trigger] s[i]),
        skip_spaces(s, from) < s.len() ==> !is_space(s[skip_spaces(s, from)]),
    decreases s.len() - from,
{
    if from < s.len() && is_space(s[from]) {
        lemma_skip_spaces_bounds(s, from + 1);
    }
}

pub proof fn lemma_drop_trailing_bounds(s: Seq<char>, lo: int, hi: int)
    requires
        0 <= lo <= hi <= s.len(),
    ensures
        lo <= drop_trailing_spaces(s, lo, hi) <= hi,
        forall|i: int| drop_trailing_spaces(s, lo, hi) <= i < hi ==> is_space(#[trigger] s[i]),
        lo < drop_trailing_spaces(s, lo, hi) ==> !is_space(s[drop_trailing_spaces(s, lo, hi) - 1]),
    decreases hi - lo,
{
    if lo < hi && is_space(s[hi - 1]) {
        lemma_drop_trailing_bounds(s, lo, hi - 1);
    }
}

/// A trimmed text neither starts nor ends with whitespace, and it is empty
/// exactly when the text it was taken from is blank.
pub proof fn lemma_trimmed_shape(s: Seq<char>)
    ensures
        trimmed(s).len() <= s.len(),
        trimmed(s).len() > 0 ==> !is_space(trimmed(s)[0]) && !is_space(trimmed(s).last()),
        trimmed(s).len() == 0 <==> is_blank(s),
{
    let lo = skip_spaces(s, 0);
    lemma_skip_spaces_bounds(s, 0);
    lemma_drop_trailing_bounds(s, lo, s.len() as int);
    let hi = drop_trailing_spaces(s, lo, s.len() as int);
    if lo < s.len() {
        assert(!is_space(s[lo]));
        if hi == lo {
            assert(is_space(s[lo]));
        }
    }
}

pub fn is_whitespace(c: char) -> (r: bool)
    ensures
        r == is_space(c),
{
    let u: u32 = c as u32;
    (0x09 <= u && u <= 0x0D) || u == 0x20 || u == 0x85 || u == 0xA0 || u == 0x1680 || (0x2000 <= u
        && u <= 0x200A) || u == 0x2028 || u == 0x2029 || u == 0x202F || u == 0x205F || u == 0x3000
}

pub fn is_ascii_letter(c: char) -> (r: bool)
    ensures
        r == is_letter(c),
{
    ('a' <= c && c <= 'z') || ('A' <= c && c <= 'Z')
}

/// The characters of `s`, in order.
pub fn chars_of(s: &str) -> (r: Vec<char>)
    ensures
        r@ == s@,
{
    let mut out: Vec<char> = Vec::new();
    for c in it: s.chars()
        invariant
            it.seq() == s@,
            out@ == it.seq().subrange(0, it.index() as int),
    {
        out.push(c);
    }
    out
}

/// `String::push`: appends one character to the end of the string.
#[verifier::external_body]
pub(crate) fn push_char(s: &mut String, c: char)
    ensures
        final(s)@ == old(s)@.push(c),
{
    s.push(c)
}

/// The string made of the characters `chars[lo..hi]`.
pub fn string_of_range(chars: &Vec<char>, lo: usize, hi: usize) -> (r: String)
    requires
        lo <= hi <= chars.len(),
    ensures
        r@ == chars@.subrange(lo as int, hi as int),
{
    let mut out = String::new();
    let mut i: usize = lo;
    while i < hi
        invariant
            lo <= i <= hi <= chars.len(),
            out@ == chars@.subrange(lo as int, i as int),
        decreases hi - i,
    {
        push_char(&mut out, chars[i]);
        i += 1;
    }
    out
}

/// The string made of all of `chars`.
pub fn string_of(chars: &Vec<char>) -> (r: String)
    ensures
        r@ == chars@,
{
    let r = string_of_range(chars, 0, chars.len());
    assert(chars@.subrange(0, chars.len() as int) == chars@);
    r
}

/// A fresh vector holding `chars[lo..hi]`.
pub fn copy_range(chars: &Vec<char>, lo: usize, hi: usize) -> (r: Vec<char>)
    requires
        lo <= hi <= chars.len(),
    ensures
        r@ == chars@.subrange(lo as int, hi as int),
{
    let mut out: Vec<char> = Vec::new();
    let mut i: usize = lo;
    while i < hi
        invariant
            lo <= i <= hi <= chars.len(),
            out@ == chars@.subrange(lo as int, i as int),
        decreases hi - i,
    {
        out.push(chars[i]);
        i += 1;
    }
    out
}

/// First index at or after `from` that holds no whitespace.
pub fn skip_whitespace(chars: &Vec<char>, from: usize) -> (r: usize)
    requires
        from <= chars.len(),
    ensures
        r == skip_spaces(chars@, from as int),
        from <= r <= chars.len(),
{
    let mut i: usize = from;
    while i < chars.len() && is_whitespace(chars[i])
        invariant
            from <= i <= chars.len(),
            skip_spaces(chars@, from as int) == skip_spaces(chars@, i as int),
        decreases chars.len() - i,
    {
        i += 1;
    }
    i
}

/// The bounds of `chars` without leading and trailing whitespace.
pub fn trim_bounds(chars: &Vec<char>) -> (r: (usize, usize))
    ensures
        r.0 <= r.1 <= chars.len(),
        chars@.subrange(r.0 as int, r.1 as int) == trimmed(chars@),
{
    let lo = skip_whitespace(chars, 0);
    let mut hi: usize = chars.len();
    while lo < hi && is_whitespace(chars[hi - 1])
        invariant
            lo <= hi <= chars.len(),
            drop_trailing_spaces(chars@, lo as int, chars.len() as int) == drop_trailing_spaces(
                chars@,
                lo as int,
                hi as int,
            ),
        decreases hi - lo,
    {
        hi -= 1;
    }
    (lo, hi)
}

/// `chars` without its leading and trailing whitespace.
pub fn trim(chars: &Vec<char>) -> (r: Vec<char>)
    ensures
        r@ == trimmed(chars@),
        r@.len() > 0 ==> !is_space(r@[0]) && !is_space(r@.last()),
        r@.len() == 0 <==> is_blank(chars@),
{
    proof {
        lemma_trimmed_shape(chars@);
    }
    let (lo, hi) = trim_bounds(chars);
    copy_range(chars, lo, hi)
}

/// Whether `chars` spells exactly `word`.
pub fn spells(chars: &Vec<char>, word: &str) -> (r: bool)
    ensures
        r == (chars@ == word@),
{
    let w = chars_of(word);
    if w.len() != chars.len() {
        return false;
    }
    let mut i: usize = 0;
    while i < w.len()
        invariant
            i <= w.len(),
            w.len() == chars.len(),
            w@ == word@,
            forall|j: int| 0 <= j < i ==> chars@[j] == w@[j],
        decreases w.len() - i,
    {
        if chars[i] != w[i] {
            return false;
        }
        i += 1;
    }
    assert(chars@ =~= w@);
    true
}

/// The number of bytes that `c` takes in UTF-8.
pub open spec fn utf8_width(c: char) -> nat {
    let u = c as u32;
    if u < 0x80 {
        1
    } else if u < 0x800 {
        2
    } else if u < 0x10000 {
        3
    } else {
        4
    }
}

/// The number of bytes that the first `n` characters of `s` take in UTF-8.
pub open spec fn utf8_len(s: Seq<char>, n: int) -> nat
    decreases n,
{
    if n <= 0 || n > s.len() {
        0
    } else {
        utf8_len(s, n - 1) + utf8_width(s[n - 1])
    }
}

/// The byte offset of the character at index `pos`: the number of bytes that
/// the characters before it take in UTF-8, or `usize::MAX` if that is less.
pub open spec fn byte_offset_of(s: Seq<char>, pos: int) -> nat {
    if utf8_len(s, pos) > usize::MAX {
        usize::MAX as nat
    } else {
        utf8_len(s, pos)
    }
}

/// The byte offset of the character at index `pos`.
pub fn byte_offset(chars: &Vec<char>, pos: usize) -> (r: usize)
    requires
        pos <= chars.len(),
    ensures
        r == byte_offset_of(chars@, pos as int),
{
    let mut total: usize = 0;
    let mut full = false;
    let mut i: usize = 0;
    while i < pos
        invariant
            i <= pos <= chars.len(),
            !full ==> total == utf8_len(chars@, i as int),
            full ==> utf8_len(chars@, i as int) > usize::MAX,
        decreases pos - i,
    {
        let u: u32 = chars[i] as u32;
        let width: usize = if u < 0x80 {
            1
        } else if u < 0x800 {
            2
        } else if u < 0x10000 {
            3
        } else {
            4
        };
        if !full {
            match total.checked_add(width) {
                Some(sum) => {
                    total = sum;
                },
                None => {
                    full = true;
                },
            }
        }
        i += 1;
    }
    if full {
        usize::MAX
    } else {
        total
    }
}

/// The decimal digits of `n`, without leading zeros.
pub open spec fn decimal_text(n: nat) -> Seq<char>
    decreases n,
{
    if n < 10 {
        seq![(48 + n) as u8 as char]
    } else {
        decimal_text(n / 10).push((48 + n % 10) as u8 as char)
    }
}

/// Appends the decimal digits of `n` to `s`.
pub fn push_decimal(s: &mut String, n: usize)
    ensures
        final(s)@ == old(s)@ + decimal_text(n as nat),
    decreases n,
{
    if n < 10 {
        push_char(s, (48 + n as u8) as char);
        assert(s@ =~= old(s)@ + decimal_text(n as nat));
    } else {
        push_decimal(s, n / 10);
        push_char(s, (48 + (n % 10) as u8) as char);
        assert(s@ =~= old(s)@ + decimal_text(n as nat));
    }
}

/// Whether two texts are the same, character for character.
pub fn same_text(a: &str, b: &str) -> (r: bool)
    ensures
        r == (a@ == b@),
{
    let x = a.as_bytes();
    let y = b.as_bytes();
    if x.len() != y.len() {
        return false;
    }
    let mut i: usize = 0;
    while i < x.len()
        invariant
            i <= x.len(),
            x.len() == y.len(),
            x@ == a.spec_bytes(),
            y@ == b.spec_bytes(),
            forall|j: int| 0 <= j < i ==> x@[j] == y@[j],
        decreases x.len() - i,
    {
        if x[i] != y[i] {
            return false;
        }
        i += 1;
    }
    assert(x@ =~= y@);
    proof {
        encode_utf8_decode_utf8(a@);
        encode_utf8_decode_utf8(b@);
    }
    true
}

} // verus!
