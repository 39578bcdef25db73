//! Characters, UTF-8 byte widths and whitespace.

use vstd::prelude::*;
use vstd::string::StringSliceAdditionalSpecFns;
use vstd::utf8::*;

verus! {

/// Number of bytes that `c` takes in UTF-8.
pub open spec fn utf8_width(c: char) -> nat {
    let v = c as u32;
    if v <= 0x7F {
        1
    } else if v <= 0x7FF {
        2
    } else if v <= 0xFFFF {
        3
    } else {
        4
    }
}

/// Number of bytes that the characters of `s` take in UTF-8.
pub open spec fn byte_len(s: Seq<char>) -> nat
    decreases s.len(),
{
    if s.len() == 0 {
        0
    } else {
        byte_len(s.drop_last()) + utf8_width(s.last())
    }
}

/// The character at position `i`, or NUL at and past the end.
pub open spec fn char_at(s: Seq<char>, i: int) -> char {
    if 0 <= i < s.len() {
        s[i]
    } else {
        '\0'
    }
}

/// Byte offset of character position `i` of `s`; every position past the
/// end counts as one more byte (the width of the NUL sentinel).
pub open spec fn byte_offset(s: Seq<char>, i: int) -> int {
    if i <= s.len() {
        byte_len(s.subrange(0, i)) as int
    } else {
        byte_len(s) + (i - s.len())
    }
}

/// The text that the bytes `[start, end)` of the UTF-8 encoding of `s` hold.
pub open spec fn byte_slice(s: Seq<char>, start: int, end: int) -> Seq<char> {
    decode_utf8(encode_utf8(s).subrange(start, end))
}

/// Unicode's `White_Space` property.
pub open spec fn is_white_space(c: char) -> bool {
    let v = c as u32;
    ||| 0x09 <= v <= 0x0D
    ||| v == 0x20
    ||| v == 0x85
    ||| v == 0xA0
    ||| v == 0x1680
    ||| 0x2000 <= v <= 0x200A
    ||| v == 0x2028
    ||| v == 0x2029
    ||| v == 0x202F
    ||| v == 0x205F
    ||| v == 0x3000
}

pub proof fn lemma_width_is_encoding_len(c: char)
    ensures
        utf8_width(c) == encode_scalar(c as u32).len(),
        1 <= utf8_width(c) <= 4,
{
    char_is_scalar(c);
}

pub proof fn lemma_encode_concat(a: Seq<char>, b: Seq<char>)
    ensures
        encode_utf8(a + b) == encode_utf8(a) + encode_utf8(b),
    decreases a.len(),
{
    if a.len() == 0 {
        assert(a + b =~= b);
        assert(encode_utf8(a) =~= Seq::<u8>::empty());
        assert(encode_utf8(a + b) =~= encode_utf8(a) + encode_utf8(b));
    } else {
        assert((a + b).drop_first() =~= a.drop_first() + b);
        lemma_encode_concat(a.drop_first(), b);
        assert((a + b)[0] == a[0]);
        assert(encode_utf8(a + b) =~= encode_utf8(a) + encode_utf8(b));
    }
}

pub proof fn lemma_byte_len_is_encoding_len(s: Seq<char>)
    ensures
        byte_len(s) == encode_utf8(s).len(),
    decreases s.len(),
{
    if s.len() > 0 {
        let init = s.drop_last();
        let c = s.last();
        lemma_byte_len_is_encoding_len(init);
        assert(s =~= init + seq![c]);
        lemma_encode_concat(init, seq![c]);
        assert(seq![c].drop_first() =~= Seq::<char>::empty());
        assert(encode_utf8(seq![c]) =~= encode_scalar(c as u32) + encode_utf8(Seq::<char>::empty()));
        lemma_width_is_encoding_len(c);
    }
}

pub proof fn lemma_byte_len_concat(a: Seq<char>, b: Seq<char>)
    ensures
        byte_len(a + b) == byte_len(a) + byte_len(b),
{
    lemma_byte_len_is_encoding_len(a);
    lemma_byte_len_is_encoding_len(b);
    lemma_byte_len_is_encoding_len(a + b);
    lemma_encode_concat(a, b);
}

/// Offsets grow by the width of the character that is passed over.
pub proof fn lemma_byte_offset_step(s: Seq<char>, i: int)
    requires
        0 <= i,
    ensures
        byte_offset(s, i + 1) == byte_offset(s, i) + utf8_width(char_at(s, i)),
{
    if i < s.len() {
        assert(s.subrange(0, i + 1).drop_last() =~= s.subrange(0, i));
    } else {
        if i == s.len() {
            assert(s.subrange(0, i) =~= s);
        }
        assert(('\0' as u32) <= 0x7F);
    }
}

pub proof fn lemma_byte_offset_bounds(s: Seq<char>, i: int, j: int)
    requires
        0 <= i <= j,
    ensures
        byte_offset(s, i) <= byte_offset(s, j),
        i < j ==> byte_offset(s, i) < byte_offset(s, j),
        j <= s.len() ==> byte_offset(s, j) <= byte_len(s),
    decreases j - i,
{
    if i < j {
        lemma_byte_offset_bounds(s, i, j - 1);
        lemma_byte_offset_step(s, j - 1);
        lemma_width_is_encoding_len(char_at(s, j - 1));
    }
    if j <= s.len() {
        assert(s =~= s.subrange(0, j) + s.subrange(j, s.len() as int));
        lemma_byte_len_concat(s.subrange(0, j), s.subrange(j, s.len() as int));
    }
}

/// Each character takes at least one byte.
pub proof fn lemma_byte_offset_at_least(s: Seq<char>, i: int)
    requires
        0 <= i,
    ensures
        byte_offset(s, i) >= i,
    decreases i,
{
    if i > 0 {
        lemma_byte_offset_at_least(s, i - 1);
        lemma_byte_offset_step(s, i - 1);
        lemma_width_is_encoding_len(char_at(s, i - 1));
    }
}

/// Whether byte `i` of the UTF-8 encoding of `s` starts a character or is
/// its end.
pub open spec fn is_boundary(s: Seq<char>, i: int) -> bool {
    0 <= i <= encode_utf8(s).len() && is_char_boundary(encode_utf8(s), i)
}

/// The bytes `[start, end)` of `s`, which both fall on character
/// boundaries.
pub fn slice_bytes(s: &str, start: usize, end: usize) -> (r: &str)
    requires
        start <= end,
        is_boundary(s@, start as int),
        is_boundary(s@, end as int),
    ensures
        r@ == byte_slice(s@, start as int, end as int),
{
    let ghost bytes = encode_utf8(s@);
    proof {
        encode_utf8_valid_utf8(s@);
    }
    let (head, _) = s.split_at(end);
    proof {
        valid_utf8_split(bytes, end as int);
        let hb = head.spec_bytes();
        assert(hb =~= bytes.subrange(0, end as int));
        if start < end {
            is_char_boundary_iff_not_is_continuation_byte(bytes, start as int);
            is_char_boundary_iff_not_is_continuation_byte(hb, start as int);
        } else {
            is_char_boundary_start_end_of_seq(hb);
        }
    }
    let (_, mid) = head.split_at(start);
    proof {
        let hb = head.spec_bytes();
        assert(mid.spec_bytes() =~= bytes.subrange(start as int, end as int));
        encode_utf8_decode_utf8(mid@);
    }
    mid
}

/// Whether byte `i` of `s` starts a character or is the end of `s`.
pub fn check_boundary(s: &str, i: usize) -> (r: bool)
    ensures
        r == is_boundary(s@, i as int),
{
    let n = s.as_bytes().len();
    i <= n && s.is_char_boundary(i)
}

/// The byte offset of every character position up to the end is a
/// character boundary of the encoding.
pub proof fn lemma_offset_is_boundary(s: Seq<char>, i: int)
    requires
        0 <= i <= s.len(),
    ensures
        is_boundary(s, byte_offset(s, i)),
    decreases s.len(),
{
    let b = encode_utf8(s);
    encode_utf8_valid_utf8(s);
    lemma_byte_offset_bounds(s, i, s.len() as int);
    lemma_byte_offset_bounds(s, 0, i);
    lemma_byte_len_is_encoding_len(s);
    assert(s.subrange(0, s.len() as int) =~= s);
    if i == 0 {
        assert(s.subrange(0, 0) =~= Seq::<char>::empty());
    } else {
        let t = s.drop_first();
        lemma_offset_is_boundary(t, i - 1);
        encode_utf8_first_scalar(s);
        lemma_width_is_encoding_len(s[0]);
        assert(b == encode_scalar(s[0] as u32) + encode_utf8(t));
        assert(pop_first_scalar(b) =~= encode_utf8(t));
        assert(s.subrange(0, i) =~= seq![s[0]] + t.subrange(0, i - 1));
        lemma_byte_len_concat(seq![s[0]], t.subrange(0, i - 1));
        let one = seq![s[0]];
        assert(one.drop_last() =~= Seq::<char>::empty());
        assert(one.last() == s[0]);
        assert(byte_len(one.drop_last()) == 0);
        assert(byte_len(one) == utf8_width(s[0]));
    }
}

/// Whether `a` and `b` hold the same characters.
pub fn str_eq(a: &str, b: &str) -> (r: bool)
    ensures
        r == (a@ == b@),
{
    let n = a.unicode_len();
    if n != b.unicode_len() {
        return false;
    }
    let mut i: usize = 0;
    while i < n
        invariant
            n == a@.len(),
            n == b@.len(),
            i <= n,
            forall|j: int| 0 <= j < i ==> a@[j] == b@[j],
        decreases n - i,
    {
        if a.get_char(i) != b.get_char(i) {
            return false;
        }
        i = i + 1;
    }
    assert(a@ =~= b@);
    true
}

/// Number of bytes that `c` takes in UTF-8.
pub fn width_of(c: char) -> (r: usize)
    ensures
        r == utf8_width(c),
{
    let v = c as u32;
    if v <= 0x7F {
        1
    } else if v <= 0x7FF {
        2
    } else if v <= 0xFFFF {
        3
    } else {
        4
    }
}

/// Whether `c` is whitespace in Unicode's sense, as `char::is_whitespace`.
pub fn is_whitespace(c: char) -> (r: bool)
    ensures
        r == is_white_space(c),
{
    let v = c as u32;
    (0x09 <= v && v <= 0x0D) || v == 0x20 || v == 0x85 || v == 0xA0 || v == 0x1680 || (0x2000
        <= v && v <= 0x200A) || v == 0x2028 || v == 0x2029 || v == 0x202F || v == 0x205F || v
        == 0x3000
}

/// The characters of `s`, in order.
pub fn chars_of(s: &str) -> (r: Vec<char>)
    ensures
        r@ == s@,
{
    let n = s.unicode_len();
    let mut r: Vec<char> = Vec::new();
    let mut i: usize = 0;
    while i < n
        invariant
            n == s@.len(),
            i <= n,
            r@ == s@.subrange(0, i as int),
        decreases n - i,
    {
        let c = s.get_char(i);
        r.push(c);
        i = i + 1;
        assert(r@ =~= s@.subrange(0, i as int));
    }
    assert(r@ =~= s@);
    r
}

} // verus!
