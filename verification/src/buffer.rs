//! A two-slot lookahead window over a sequence of items, used by the parser
//! to look at the current token and one token ahead.
//!
//! The window is modelled by the underlying item sequence and a cursor.
//! A fresh buffer shows nothing until [`Buffer::init`] loads the window;
//! the cursor starts two steps before the first item so that the same
//! field equations describe every state, loaded or not.

use vstd::prelude::*;

verus! {

/// The item at position `p` of `s`, or `None` past either end.
pub open spec fn item_at<T>(s: Seq<T>, p: int) -> Option<T> {
    if 0 <= p < s.len() {
        Some(s[p])
    } else {
        None
    }
}

/// A buffered window of one current item and one item of lookahead over a
/// vector of items consumed strictly forward.
pub struct Buffer<T> {
    items: Vec<T>,
    /// Offset of the window: the current item is `items[off - 2]`.
    off: usize,
}

impl<T> Buffer<T> {
    /// The whole underlying item sequence.
    pub closed spec fn stream(&self) -> Seq<T> {
        self.items@
    }

    /// The cursor: index of the current item into `stream()`. It is `-2`
    /// on a fresh buffer and reaches `stream().len()` once exhausted.
    pub closed spec fn cursor(&self) -> int {
        self.off - 2
    }

    /// Well-formedness: the cursor never runs past the exhausted state,
    /// and the stream is short enough for the offset arithmetic.
    pub closed spec fn valid(&self) -> bool {
        self.items@.len() <= usize::MAX - 2 && self.off <= self.items@.len() + 2
    }

    /// A well-formed buffer's cursor stays between the fresh state and the
    /// exhausted state.
    pub proof fn cursor_in_range(&self)
        requires
            self.valid(),
        ensures
            -2 <= self.cursor() <= self.stream().len(),
            self.stream().len() <= usize::MAX - 2,
    {
    }

    /// A fresh buffer over `items`, showing nothing until `init` is called.
    ///
    /// The length bound keeps the internal offset from ever overflowing.
    pub fn new(items: Vec<T>) -> (r: Buffer<T>)
        requires
            items@.len() <= usize::MAX - 2,
        ensures
            r.valid(),
            r.stream() == items@,
            r.cursor() == -2,
    {
        Buffer { items, off: 0 }
    }

    /// Load the window onto the first items of the stream.
    pub fn init(&mut self)
        requires
            old(self).valid(),
            old(self).stream().len() <= usize::MAX - 2,
        ensures
            final(self).valid(),
            final(self).stream() == old(self).stream(),
            final(self).cursor() == if old(self).cursor() + 2 <= old(self).stream().len() {
                old(self).cursor() + 2
            } else {
                old(self).stream().len() as int
            },
    {
        self.step();
        self.step();
    }

    /// The current item, or `None` before `init` and after exhaustion.
    pub fn curr(&self) -> (r: Option<&T>)
        requires
            self.valid(),
        ensures
            match r {
                Some(t) => item_at(self.stream(), self.cursor()) == Some(*t),
                None => item_at(self.stream(), self.cursor()) is None,
            },
    {
        if self.off >= 2 && self.off - 2 < self.items.len() {
            Some(&self.items[self.off - 2])
        } else {
            None
        }
    }

    /// The item one past the current one, without consuming anything.
    pub fn peek(&self) -> (r: Option<&T>)
        requires
            self.valid(),
        ensures
            match r {
                Some(t) => item_at(self.stream(), self.cursor() + 1) == Some(*t),
                None => item_at(self.stream(), self.cursor() + 1) is None,
            },
    {
        if self.off >= 1 && self.off - 1 < self.items.len() {
            Some(&self.items[self.off - 1])
        } else {
            None
        }
    }

    /// Shift the window one item forward; idempotent once exhausted.
    pub fn advance(&mut self)
        requires
            old(self).valid(),
        ensures
            final(self).valid(),
            final(self).stream() == old(self).stream(),
            final(self).cursor() == if old(self).cursor() < old(self).stream().len() {
                old(self).cursor() + 1
            } else {
                old(self).cursor()
            },
    {
        self.step();
    }

    /// The underlying item sequence.
    pub fn iter(&self) -> (r: &Vec<T>)
        ensures
            r@ == self.stream(),
    {
        &self.items
    }

    /// One forward step of the cursor, saturating at the exhausted state.
    fn step(&mut self)
        requires
            old(self).valid(),
        ensures
            final(self).valid(),
            final(self).stream() == old(self).stream(),
            final(self).cursor() == if old(self).cursor() < old(self).stream().len() {
                old(self).cursor() + 1
            } else {
                old(self).cursor()
            },
    {
        if self.off < 2 || self.off - 2 < self.items.len() {
            self.off = self.off + 1;
        }
    }
}

} // verus!
