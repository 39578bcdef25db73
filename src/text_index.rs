//! Byte offsets into a line of text.

use vstd::prelude::*;
use crate::text::{utf8_width, width_of};

verus! {

/// Index or size of a piece of text in bytes; where it is used as an
/// index it points at the first byte of a UTF-8 character.
#[derive(Clone, Copy, Debug, Default, PartialEq, Eq, Structural, PartialOrd, Ord, Hash)]
pub struct TextIndex {
    raw: usize,
}

impl View for TextIndex {
    type V = nat;

    closed spec fn view(&self) -> nat {
        self.raw as nat
    }
}

impl TextIndex {
    pub closed spec fn from_usize_spec(raw: usize) -> TextIndex {
        TextIndex { raw }
    }

    pub fn from_usize(raw: usize) -> (r: Self)
        ensures
            r@ == raw,
            r == TextIndex::from_usize_spec(raw),
    {
        TextIndex { raw }
    }

    /// The number of bytes that `c` takes in UTF-8.
    pub fn from_utf8_len(c: char) -> (r: Self)
        ensures
            r@ == utf8_width(c),
    {
        TextIndex { raw: width_of(c) }
    }

    pub fn as_index(&self) -> (r: usize)
        ensures
            r == self@,
    {
        self.raw
    }

    /// Moves the index on by `other` bytes.
    pub fn offset(&mut self, other: TextIndex)
        requires
            old(self)@ + other@ <= usize::MAX,
        ensures
            final(self)@ == old(self)@ + other@,
    {
        self.raw = self.raw + other.raw;
    }
}

impl From<usize> for TextIndex {
    fn from(raw: usize) -> (r: TextIndex)
        ensures
            r@ == raw,
    {
        TextIndex::from_usize(raw)
    }
}

impl vstd::std_specs::convert::FromSpecImpl<usize> for TextIndex {
    open spec fn obeys_from_spec() -> bool {
        false
    }

    open spec fn from_spec(raw: usize) -> TextIndex {
        vstd::pervasive::arbitrary()
    }
}

} // verus!
