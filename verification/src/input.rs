//! A one-character-lookahead window over a single-pass character source.
//!
//! The abstraction is the trait [`Input`]; [`StringInput`] is its in-memory
//! implementation over the characters of a string. An input is modelled by
//! the full character sequence `source()` and a cursor `position()` into it;
//! advancing past the end is idempotent and keeps yielding `None`.

use vstd::prelude::*;
use vstd::string::StrSliceExecFns;

verus! {

/// The character at position `p` of `s`, or `None` past either end.
pub open spec fn char_at(s: Seq<char>, p: int) -> Option<char> {
    if 0 <= p < s.len() {
        Some(s[p])
    } else {
        None
    }
}

/// The cursor position after one advance: one step forward, except that
/// advancing at or past the end of the source stays put.
pub open spec fn advanced_position(s: Seq<char>, p: int) -> int {
    if p < s.len() {
        p + 1
    } else {
        p
    }
}

/// A single-pass character source with one character of lookahead.
pub trait Input: Sized {
    /// The complete character sequence this source will ever yield.
    spec fn source(&self) -> Seq<char>;

    /// The cursor: how many characters have been consumed.
    spec fn position(&self) -> int;

    /// Well-formedness of the concrete representation.
    spec fn valid(&self) -> bool;

    /// The cursor never leaves the source: `0 <= position() <= source().len()`.
    proof fn position_in_range(&self)
        requires
            self.valid(),
        ensures
            0 <= self.position() <= self.source().len(),
    ;

    /// The current character, or `None` once the source is exhausted.
    fn curr_char(&self) -> (r: Option<char>)
        requires
            self.valid(),
        ensures
            r == char_at(self.source(), self.position()),
    ;

    /// One character of lookahead, without consuming anything.
    fn peek_char(&self) -> (r: Option<char>)
        requires
            self.valid(),
        ensures
            r == char_at(self.source(), self.position() + 1),
    ;

    /// Consume the current character and return the new current one.
    fn advance(&mut self) -> (r: Option<char>)
        requires
            old(self).valid(),
        ensures
            final(self).valid(),
            final(self).source() == old(self).source(),
            final(self).position() == advanced_position(old(self).source(), old(self).position()),
            r == char_at(final(self).source(), final(self).position()),
    ;
}

/// An [`Input`] over the characters of a string, held in memory.
pub struct StringInput {
    chars: Vec<char>,
    pos: usize,
}

impl StringInput {
    /// Build an input positioned at the first character of `s`.
    pub fn new(s: &str) -> (r: StringInput)
        ensures
            r.valid(),
            r.source() == s@,
            r.position() == 0,
    {
        let n: usize = s.unicode_len();
        let mut chars: Vec<char> = Vec::new();
        let mut i: usize = 0;
        while i < n
            invariant
                n == s@.len(),
                i <= n,
                chars@ == s@.subrange(0, i as int),
            decreases n - i,
        {
            chars.push(s.get_char(i));
            i = i + 1;
            proof {
                assert(chars@ =~= s@.subrange(0, i as int));
            }
        }
        proof {
            assert(chars@ =~= s@);
        }
        StringInput { chars, pos: 0 }
    }
}

impl Input for StringInput {
    closed spec fn source(&self) -> Seq<char> {
        self.chars@
    }

    closed spec fn position(&self) -> int {
        self.pos as int
    }

    closed spec fn valid(&self) -> bool {
        self.pos <= self.chars@.len()
    }

    proof fn position_in_range(&self) {
    }

    fn curr_char(&self) -> (r: Option<char>) {
        if self.pos < self.chars.len() {
            Some(self.chars[self.pos])
        } else {
            None
        }
    }

    fn peek_char(&self) -> (r: Option<char>) {
        if self.pos < self.chars.len() && self.pos + 1 < self.chars.len() {
            Some(self.chars[self.pos + 1])
        } else {
            None
        }
    }

    fn advance(&mut self) -> (r: Option<char>) {
        if self.pos < self.chars.len() {
            self.pos = self.pos + 1;
        }
        if self.pos < self.chars.len() {
            Some(self.chars[self.pos])
        } else {
            None
        }
    }
}

} // verus!
