//! Ranges of bytes in a line of text.

use vstd::prelude::*;
use crate::text_index::TextIndex;

verus! {

/// The bytes `[start, end)` of a line; both ends point at the first byte of
/// a UTF-8 character or at the end of the line.
#[derive(Clone, Copy, Debug, Default, PartialEq, Eq, Structural)]
pub struct TextRange {
    start: TextIndex,
    end: TextIndex,
}

impl View for TextRange {
    type V = (nat, nat);

    closed spec fn view(&self) -> (nat, nat) {
        (self.start@, self.end@)
    }
}

impl TextRange {
    /// The empty range at the start of a line.
    pub closed spec fn empty_spec() -> TextRange {
        TextRange { start: TextIndex::from_usize_spec(0), end: TextIndex::from_usize_spec(0) }
    }

    /// The empty range at the start of a line.
    pub fn empty() -> (r: Self)
        ensures
            r == TextRange::empty_spec(),
            r@ == (0nat, 0nat),
    {
        TextRange { start: TextIndex::from_usize(0), end: TextIndex::from_usize(0) }
    }

    pub fn from_bounds(start: usize, end: usize) -> (r: Self)
        ensures
            r@ == (start as nat, end as nat),
    {
        TextRange { start: TextIndex::from_usize(start), end: TextIndex::from_usize(end) }
    }

    /// An empty range at `start`.
    pub fn start_new(start: TextIndex) -> (r: Self)
        ensures
            r@ == (start@, start@),
    {
        TextRange { start, end: start }
    }

    pub fn start(&self) -> (r: TextIndex)
        ensures
            r@ == self@.0,
    {
        self.start
    }

    pub fn end(&self) -> (r: TextIndex)
        ensures
            r@ == self@.1,
    {
        self.end
    }

    /// Moves the end to `end`, which is not before the start.
    pub fn extend_to(&mut self, end: TextIndex)
        requires
            old(self)@.0 <= end@,
        ensures
            final(self)@ == (old(self)@.0, end@),
    {
        self.end = end;
    }

    /// Moves the start back to `start`.
    pub fn extend_backwards_to(&mut self, start: TextIndex)
        ensures
            final(self)@ == (start@, old(self)@.1),
    {
        self.start = start;
    }

    /// Moves the start on by `n` bytes, and the end with it where it would
    /// fall behind the start.
    pub fn skip_n(&mut self, n: usize)
        requires
            old(self)@.0 + n <= usize::MAX,
        ensures
            final(self)@.0 == old(self)@.0 + n,
            final(self)@.1 == if old(self)@.1 < old(self)@.0 + n {
                old(self)@.0 + n
            } else {
                old(self)@.1 as int
            },
    {
        let start = self.start.as_index() + n;
        self.start = TextIndex::from_usize(start);
        if self.end.as_index() < start {
            self.end = self.start;
        }
    }

    /// Whether the range holds no byte.
    pub fn is_empty(&self) -> (r: bool)
        ensures
            r == (self@.0 == self@.1),
    {
        self.start.as_index() == self.end.as_index()
    }

    /// Whether `index` lies in the range or right at its end.
    pub fn contains_or_end(&self, index: TextIndex) -> (r: bool)
        ensures
            r == (self@.0 <= index@ <= self@.1),
    {
        self.start.as_index() <= index.as_index() && index.as_index() <= self.end.as_index()
    }
}

impl From<(usize, usize)> for TextRange {
    fn from(bounds: (usize, usize)) -> (r: TextRange)
        ensures
            r@ == (bounds.0 as nat, bounds.1 as nat),
    {
        TextRange::from_bounds(bounds.0, bounds.1)
    }
}

impl vstd::std_specs::convert::FromSpecImpl<(usize, usize)> for TextRange {
    open spec fn obeys_from_spec() -> bool {
        false
    }

    open spec fn from_spec(bounds: (usize, usize)) -> TextRange {
        vstd::pervasive::arbitrary()
    }
}

} // verus!
