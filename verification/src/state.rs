//! The position of a parse within a byte buffer.
use vstd::prelude::*;
use crate::model::{skip_char, lemma_skip_char};

verus! {

/// Where parsing stands: the index of the next byte to read, and the
/// index of the digit at which the value first overflowed, if it did.
#[derive(Clone, Copy, Debug, PartialEq, Eq)]
pub struct ParseState {
    pub curr: usize,
    pub trunc: Option<usize>,
}

impl ParseState {
    /// A parse that starts at `curr` and has not overflowed.
    pub fn new(curr: usize) -> (r: ParseState)
        ensures
            r.curr == curr,
            r.trunc is None,
    {
        ParseState { curr, trunc: None }
    }

    /// Whether the value overflowed.
    pub fn is_truncated(&self) -> (r: bool)
        ensures
            r == self.trunc is Some,
    {
        self.trunc.is_some()
    }

    /// The number of bytes read from the overflowing digit on.
    pub fn truncated_bytes(&self) -> (r: usize)
        requires
            self.trunc matches Some(t) ==> t <= self.curr,
        ensures
            r == (match self.trunc {
                Some(t) => self.curr - t,
                None => 0,
            }),
    {
        match self.trunc {
            Some(t) => self.curr - t,
            None => 0,
        }
    }

    /// Step past the current byte.
    pub fn increment(&mut self)
        requires
            old(self).curr < usize::MAX,
        ensures
            final(self).curr == old(self).curr + 1,
            final(self).trunc == old(self).trunc,
    {
        self.curr = self.curr + 1;
    }

    /// Step past every copy of the byte `c` at the current position.
    pub fn ltrim_char(&mut self, bytes: &[u8], c: u8)
        requires
            old(self).curr <= bytes.len(),
        ensures
            final(self).curr == skip_char(bytes@, old(self).curr as int, c),
            final(self).trunc == old(self).trunc,
    {
        while self.curr < bytes.len() && bytes[self.curr] == c
            invariant
                old(self).curr <= self.curr <= bytes.len(),
                self.trunc == old(self).trunc,
                skip_char(bytes@, self.curr as int, c) == skip_char(bytes@, old(self).curr as int, c),
            decreases bytes.len() - self.curr,
        {
            self.curr = self.curr + 1;
        }
        proof {
            lemma_skip_char(bytes@, self.curr as int, c);
        }
    }
}

} // verus!
