//! A position-tracking cursor over the code points of a string slice.
//!
//! The cursor supplies the character stream and the current offset to both
//! the parser and the matcher; all error locations are counted in code
//! points, as the number of characters already consumed.

use vstd::prelude::*;

verus! {

/// A consuming, peekable view over the code points of a string, together
/// with the count of code points already consumed.
#[derive(Clone, Copy)]
pub(crate) struct Cursor<'a> {
    pub(crate) input: &'a str,
    pub(crate) length: usize,
    pub(crate) consumed: usize,
}

impl<'a> Cursor<'a> {
    /// The full character sequence the cursor ranges over.
    pub(crate) open spec fn text(self) -> Seq<char> {
        self.input@
    }

    /// The offset of the next character to be produced.
    pub(crate) open spec fn pos(self) -> int {
        self.consumed as int
    }

    /// The cached length agrees with the text and the cursor has not run
    /// past the end.
    pub(crate) open spec fn wf(self) -> bool {
        self.length == self.text().len() && self.consumed <= self.length
    }

    pub(crate) fn new(input: &'a str) -> (c: Cursor<'a>)
        ensures
            c.wf(),
            c.text() == input@,
            c.pos() == 0,
    {
        let length = input.unicode_len();
        Cursor { input, length, consumed: 0 }
    }

    /// Returns and consumes the next code point; returns `None` at the end
    /// of the input. The offset advances either way.
    pub(crate) fn next(&mut self) -> (r: Option<char>)
        requires
            old(self).wf(),
            old(self).pos() < usize::MAX,
        ensures
            final(self).text() == old(self).text(),
            final(self).length == old(self).length,
            final(self).pos() == old(self).pos() + 1,
            old(self).pos() < old(self).text().len() ==> final(self).wf(),
            r == (if old(self).pos() < old(self).text().len() {
                Some(old(self).text()[old(self).pos()])
            } else {
                None::<char>
            }),
    {
        let r = if self.consumed < self.length {
            Some(self.input.get_char(self.consumed))
        } else {
            None
        };
        self.consumed = self.consumed + 1;
        r
    }

    /// Returns the next code point without consuming it.
    pub(crate) fn peek(&self) -> (r: Option<char>)
        requires
            self.wf(),
        ensures
            r == (if self.pos() < self.text().len() {
                Some(self.text()[self.pos()])
            } else {
                None::<char>
            }),
    {
        if self.consumed < self.length {
            Some(self.input.get_char(self.consumed))
        } else {
            None
        }
    }

    /// The offset the next produced character would occupy.
    pub(crate) fn get_next_location(&self) -> (n: usize)
        ensures
            n == self.pos(),
    {
        self.consumed
    }

    /// The number of code points not yet consumed.
    pub(crate) fn len_left(&self) -> (n: usize)
        requires
            self.wf(),
        ensures
            n == self.text().len() - self.pos(),
    {
        self.length - self.consumed
    }
}

} // verus!
