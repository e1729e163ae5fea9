//! A position-tracking view over an immutable byte buffer with revocable
//! advancement.
//!
//! The cursor's only mutable state is a zero-based offset into the borrowed
//! buffer. A [`Mark`] captures the offset so that speculative consumption
//! can be rolled back; a [`PhantomMark`] is a position-only snapshot with no
//! rollback behaviour, used solely to delimit a span for slicing.

use vstd::prelude::*;
use vstd::slice::{slice_index_get, slice_subrange};

verus! {

/// A mutable position over an immutable byte view.
pub struct Cursor<'a> {
    buf: &'a [u8],
    pos: usize,
}

/// A position-only snapshot used to delimit a span for slicing; it has no
/// rollback behaviour.
#[derive(Clone, Copy, PartialEq, Eq, Structural)]
pub struct PhantomMark {
    pub pos: usize,
}

/// A revocable position snapshot. Rolling the cursor back to a mark is an
/// explicit operation ([`Cursor::reset`]); committing the consumption made
/// since the mark is done by discarding the mark ([`Mark::cancel`]).
/// Marks must be resolved in strict reverse-of-creation order.
pub struct Mark {
    pos: usize,
}

impl Mark {
    /// The captured position.
    pub closed spec fn pos(&self) -> int {
        self.pos as int
    }

    /// Commits the consumption made since this mark was taken: the mark is
    /// discarded and the cursor keeps its current position.
    pub fn cancel(self) {
    }
}

impl<'a> Cursor<'a> {
    /// The bytes of the underlying view.
    pub closed spec fn bytes(&self) -> Seq<u8> {
        self.buf@
    }

    /// The current offset.
    pub closed spec fn pos(&self) -> int {
        self.pos as int
    }

    /// Well-formedness: the position never exceeds the view's length.
    pub open spec fn wf(&self) -> bool {
        0 <= self.pos() <= self.bytes().len()
    }

    /// Remaining input, i.e. whether at least one byte is available.
    pub open spec fn spec_available(&self) -> bool {
        self.pos() < self.bytes().len()
    }

    pub fn new(buf: &'a [u8]) -> (c: Cursor<'a>)
        ensures
            c.wf(),
            c.bytes() == buf@,
            c.pos() == 0,
    {
        Cursor { buf, pos: 0 }
    }

    /// The current offset, executably.
    pub fn position(&self) -> (r: usize)
        ensures
            r == self.pos(),
    {
        self.pos
    }

    /// The length of the underlying view, executably.
    pub fn buffer_len(&self) -> (r: usize)
        ensures
            r == self.bytes().len(),
    {
        self.buf.len()
    }

    /// Holds iff at least one byte remains.
    pub fn available(&self) -> (r: bool)
        ensures
            r == self.spec_available(),
    {
        self.pos < self.buf.len()
    }

    /// Unconditional advancement: deliberately not bounds-checked at run
    /// time, so the guard callers owe (`available`) is the precondition.
    pub fn advance(&mut self, n: usize)
        requires
            old(self).wf(),
            old(self).pos() + n <= old(self).bytes().len(),
        ensures
            final(self).wf(),
            final(self).bytes() == old(self).bytes(),
            final(self).pos() == old(self).pos() + n,
    {
        let bound = self.buf.len();
        assert(self.pos + n <= bound);
        self.pos = self.pos + n;
    }

    /// Moves backwards by `n`, saturating at the start of the view.
    pub fn retract(&mut self, n: usize)
        requires
            old(self).wf(),
        ensures
            final(self).wf(),
            final(self).bytes() == old(self).bytes(),
            final(self).pos() == if n > old(self).pos() { 0int } else { old(self).pos() - n },
    {
        self.pos = if n > self.pos { 0 } else { self.pos - n };
    }

    /// Bounded single-byte move forward, with a success flag.
    pub fn next(&mut self) -> (r: bool)
        requires
            old(self).wf(),
        ensures
            final(self).wf(),
            final(self).bytes() == old(self).bytes(),
            r == old(self).spec_available(),
            r ==> final(self).pos() == old(self).pos() + 1,
            !r ==> final(self).pos() == old(self).pos(),
    {
        if self.available() {
            self.advance(1);
            true
        } else {
            false
        }
    }

    /// Bounded single-byte move backward.
    pub fn prev(&mut self)
        requires
            old(self).wf(),
        ensures
            final(self).wf(),
            final(self).bytes() == old(self).bytes(),
            final(self).pos() == if old(self).pos() >= 1 { old(self).pos() - 1 } else { 0int },
    {
        self.retract(1);
    }

    /// The byte at the current position, if any remains.
    pub fn current_byte(&self) -> (r: Option<u8>)
        requires
            self.wf(),
        ensures
            self.spec_available() ==> r == Some(self.bytes()[self.pos()]),
            !self.spec_available() ==> r is None,
    {
        if self.available() {
            Some(*slice_index_get(self.buf, self.pos))
        } else {
            None
        }
    }

    /// Unchecked single look-back: the byte just consumed.
    pub fn peek_prev(&self) -> (r: u8)
        requires
            self.wf(),
            self.pos() >= 1,
        ensures
            r == self.bytes()[self.pos() - 1],
    {
        *slice_index_get(self.buf, self.pos - 1)
    }

    /// Unchecked double look-back.
    pub fn peek_before_prev(&self) -> (r: u8)
        requires
            self.wf(),
            self.pos() >= 2,
        ensures
            r == self.bytes()[self.pos() - 2],
    {
        *slice_index_get(self.buf, self.pos - 2)
    }

    /// Checked double look-back.
    pub fn peek_before_prev_opt(&self) -> (r: Option<u8>)
        requires
            self.wf(),
        ensures
            self.pos() >= 2 ==> r == Some(self.bytes()[self.pos() - 2]),
            self.pos() < 2 ==> r is None,
    {
        if self.pos > 1 {
            Some(*slice_index_get(self.buf, self.pos - 2))
        } else {
            None
        }
    }

    /// Fused read-and-advance: returns the current byte and moves past it,
    /// or returns nothing at the end of the view.
    pub fn next_byte(&mut self) -> (r: Option<u8>)
        requires
            old(self).wf(),
        ensures
            final(self).wf(),
            final(self).bytes() == old(self).bytes(),
            old(self).spec_available() ==> r == Some(old(self).bytes()[old(self).pos()])
                && final(self).pos() == old(self).pos() + 1,
            !old(self).spec_available() ==> r is None
                && final(self).pos() == old(self).pos(),
    {
        if self.available() {
            let r = *slice_index_get(self.buf, self.pos);
            self.advance(1);
            Some(r)
        } else {
            None
        }
    }

    /// Steps back one byte and returns the byte now under the cursor.
    pub fn prev_byte(&mut self) -> (r: u8)
        requires
            old(self).wf(),
            old(self).pos() >= 1,
        ensures
            final(self).wf(),
            final(self).bytes() == old(self).bytes(),
            final(self).pos() == old(self).pos() - 1,
            r == old(self).bytes()[old(self).pos() - 1],
    {
        self.retract(1);
        *slice_index_get(self.buf, self.pos)
    }

    /// A position-only snapshot at the current position.
    pub fn phantom_mark(&self) -> (pm: PhantomMark)
        requires
            self.wf(),
        ensures
            pm.pos == self.pos(),
    {
        PhantomMark { pos: self.pos }
    }

    /// A position-only snapshot anchored one byte before the current
    /// position.
    pub fn phantom_mark_at_prev(&self) -> (pm: PhantomMark)
        requires
            self.wf(),
            self.pos() >= 1,
        ensures
            pm.pos == self.pos() - 1,
    {
        PhantomMark { pos: self.pos - 1 }
    }

    /// A snapshot is valid while its recorded position does not exceed the
    /// view's length.
    pub fn valid(&self, pm: PhantomMark) -> (r: bool)
        ensures
            r == (pm.pos <= self.bytes().len()),
    {
        pm.pos <= self.buf.len()
    }

    /// Takes a revocable mark at the current position.
    pub fn mark(&self) -> (m: Mark)
        requires
            self.wf(),
        ensures
            m.pos() == self.pos(),
    {
        Mark { pos: self.pos }
    }

    /// Rolls the cursor back to the position a mark captured, consuming the
    /// mark.
    pub fn reset(&mut self, m: Mark)
        requires
            old(self).wf(),
            0 <= m.pos() <= old(self).bytes().len(),
        ensures
            final(self).wf(),
            final(self).bytes() == old(self).bytes(),
            final(self).pos() == m.pos(),
    {
        self.pos = m.pos;
        m.cancel();
    }

    /// The bytes between two snapshots.
    pub fn slice(&self, left: PhantomMark, right: PhantomMark) -> (r: &'a [u8])
        requires
            self.wf(),
            left.pos <= right.pos <= self.bytes().len(),
        ensures
            r@ == self.bytes().subrange(left.pos as int, right.pos as int),
    {
        slice_subrange(self.buf, left.pos, right.pos)
    }

    /// The bytes from a snapshot up to and including the byte that ends at
    /// the current position.
    pub fn slice_to_now_from(&self, pm: PhantomMark) -> (r: &'a [u8])
        requires
            self.wf(),
            pm.pos <= self.pos(),
        ensures
            r@ == self.bytes().subrange(pm.pos as int, self.pos()),
    {
        slice_subrange(self.buf, pm.pos, self.pos)
    }

    /// The bytes from a snapshot up to but excluding the most recently
    /// consumed byte; used when a delimiter must not be part of the
    /// extracted content.
    pub fn slice_until_now_from(&self, pm: PhantomMark) -> (r: &'a [u8])
        requires
            self.wf(),
            self.pos() >= 1,
            pm.pos <= self.pos() - 1,
        ensures
            r@ == self.bytes().subrange(pm.pos as int, self.pos() - 1),
    {
        slice_subrange(self.buf, pm.pos, self.pos - 1)
    }
}

} // verus!
