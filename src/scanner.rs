//! A forward-only cursor over the characters of a line that keeps the byte
//! offset of the character under it.

use vstd::prelude::*;
use crate::text::{byte_len, byte_offset, char_at, chars_of, lemma_byte_len_is_encoding_len, lemma_byte_offset_at_least, lemma_byte_offset_step};
use crate::text_index::TextIndex;

verus! {

/// Cursor over a line. Past the end it reads NUL, and each step there
/// counts one byte.
pub struct Scanner {
    chars: Vec<char>,
    pos: usize,
    current: char,
    current_index: TextIndex,
}

impl Scanner {
    /// The characters of the line.
    pub closed spec fn text(&self) -> Seq<char> {
        self.chars@
    }

    /// Position of the cursor, in characters.
    pub closed spec fn position(&self) -> nat {
        self.pos as nat
    }

    pub closed spec fn wf(&self) -> bool {
        &&& self.current == char_at(self.chars@, self.pos as int)
        &&& self.current_index@ == byte_offset(self.chars@, self.pos as int)
        &&& byte_len(self.chars@) <= usize::MAX
    }

    pub fn new(src: &str) -> (r: Self)
        ensures
            r.wf(),
            r.text() == src@,
            r.position() == 0,
            byte_len(r.text()) <= usize::MAX,
    {
        // Offsets into the line stay within its length in bytes, which fits
        // in a usize.
        let byte_count = src.as_bytes().len();
        proof {
            lemma_byte_len_is_encoding_len(src@);
            assert(byte_count == byte_len(src@));
        }
        let chars = chars_of(src);
        let current = if chars.len() > 0 {
            chars[0]
        } else {
            '\0'
        };
        assert(chars@.subrange(0, 0).len() == 0);
        Scanner { chars, pos: 0, current, current_index: TextIndex::from_usize(0) }
    }

    /// The character under the cursor; NUL at and past the end.
    pub fn current(&self) -> (r: char)
        requires
            self.wf(),
        ensures
            r == char_at(self.text(), self.position() as int),
    {
        self.current
    }

    /// Byte offset of the character under the cursor.
    pub fn current_index(&self) -> (r: TextIndex)
        requires
            self.wf(),
        ensures
            r@ == byte_offset(self.text(), self.position() as int),
    {
        self.current_index
    }

    /// Whether the cursor reads NUL.
    pub fn is_finished(&self) -> (r: bool)
        requires
            self.wf(),
        ensures
            r == (char_at(self.text(), self.position() as int) == '\0'),
    {
        self.current == '\0'
    }

    /// Steps past the character under the cursor and returns the next one.
    pub fn eat(&mut self) -> (r: char)
        requires
            old(self).wf(),
            byte_offset(old(self).text(), old(self).position() + 1int) <= usize::MAX,
        ensures
            final(self).wf(),
            final(self).text() == old(self).text(),
            final(self).position() == old(self).position() + 1,
            r == char_at(final(self).text(), final(self).position() as int),
    {
        proof {
            lemma_byte_offset_step(self.chars@, self.pos as int);
            lemma_byte_offset_at_least(self.chars@, self.pos + 1);
        }
        self.current_index.offset(TextIndex::from_utf8_len(self.current));
        self.pos = self.pos + 1;
        let new = read_next(&self.chars, self.pos);
        self.current = new;
        self.current
    }
}

/// The character at `pos`, or NUL past the end.
fn read_next(chars: &Vec<char>, pos: usize) -> (r: char)
    ensures
        r == char_at(chars@, pos as int),
{
    if pos < chars.len() {
        chars[pos]
    } else {
        '\0'
    }
}

} // verus!
