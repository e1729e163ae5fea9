//! Byte matchers: pluggable single-byte predicates that drive the generic
//! maximal-run scan primitives.

use vstd::prelude::*;

verus! {

/// A predicate over a single byte. A matcher is a literal byte, a small
/// fixed set of bytes, or an arbitrary predicate expressed as an
/// implementing type.
pub trait ByteMatcher {
    /// What the matcher accepts, at the specification level.
    spec fn spec_matches(&self, b: u8) -> bool;

    /// Tests one byte; agrees exactly with [`Self::spec_matches`].
    fn matches(&self, b: u8) -> (r: bool)
        ensures
            r == self.spec_matches(b),
    ;
}

/// A literal byte matches exactly itself.
impl ByteMatcher for u8 {
    open spec fn spec_matches(&self, b: u8) -> bool {
        b == *self
    }

    fn matches(&self, b: u8) -> (r: bool)
        ensures
            r == self.spec_matches(b),
    {
        b == *self
    }
}

/// A slice matches any byte it contains.
impl<'a> ByteMatcher for &'a [u8] {
    open spec fn spec_matches(&self, b: u8) -> bool {
        self@.contains(b)
    }

    fn matches(&self, b: u8) -> (r: bool)
        ensures
            r == self.spec_matches(b),
    {
        let mut i: usize = 0;
        while i < self.len()
            invariant
                0 <= i <= self@.len(),
                forall|j: int| 0 <= j < i ==> self@[j] != b,
            decreases self@.len() - i,
        {
            if *vstd::slice::slice_index_get(*self, i) == b {
                assert(self@.contains(b));
                return true;
            }
            i = i + 1;
        }
        assert(!self@.contains(b));
        false
    }
}

/// An inclusive range of byte values; an arbitrary-predicate matcher such
/// as "any decimal digit" is expressed with it.
pub struct ByteRange {
    pub lo: u8,
    pub hi: u8,
}

impl ByteMatcher for ByteRange {
    open spec fn spec_matches(&self, b: u8) -> bool {
        self.lo <= b <= self.hi
    }

    fn matches(&self, b: u8) -> (r: bool)
        ensures
            r == self.spec_matches(b),
    {
        self.lo <= b && b <= self.hi
    }
}

/// Matches a space or a newline: the whitespace skipped between blocks.
pub struct SpaceOrNewline;

impl ByteMatcher for SpaceOrNewline {
    open spec fn spec_matches(&self, b: u8) -> bool {
        b == 32 || b == 10
    }

    fn matches(&self, b: u8) -> (r: bool)
        ensures
            r == self.spec_matches(b),
    {
        b == 32 || b == 10
    }
}

/// Matches a byte that may stand inside a bracketed reference label:
/// anything but the closing bracket or a newline.
pub struct LabelByte;

impl ByteMatcher for LabelByte {
    open spec fn spec_matches(&self, b: u8) -> bool {
        b != 93 && b != 10
    }

    fn matches(&self, b: u8) -> (r: bool)
        ensures
            r == self.spec_matches(b),
    {
        b != 93 && b != 10
    }
}

/// Matches a byte that may stand inside a link destination: anything but a
/// space or a newline.
pub struct DestByte;

impl ByteMatcher for DestByte {
    open spec fn spec_matches(&self, b: u8) -> bool {
        b != 32 && b != 10
    }

    fn matches(&self, b: u8) -> (r: bool)
        ensures
            r == self.spec_matches(b),
    {
        b != 32 && b != 10
    }
}

/// Matches a byte that may stand inside a quoted link title: anything but
/// the closing quote or a newline.
pub struct TitleByte;

impl ByteMatcher for TitleByte {
    open spec fn spec_matches(&self, b: u8) -> bool {
        b != 34 && b != 10
    }

    fn matches(&self, b: u8) -> (r: bool)
        ensures
            r == self.spec_matches(b),
    {
        b != 34 && b != 10
    }
}

/// Matches an emphasis delimiter byte: an asterisk or an underscore.
pub struct EmphasisByte;

impl ByteMatcher for EmphasisByte {
    open spec fn spec_matches(&self, b: u8) -> bool {
        b == 42 || b == 95
    }

    fn matches(&self, b: u8) -> (r: bool)
        ensures
            r == self.spec_matches(b),
    {
        b == 42 || b == 95
    }
}

/// Matches a code-span delimiter byte: a backtick.
pub struct CodeByte;

impl ByteMatcher for CodeByte {
    open spec fn spec_matches(&self, b: u8) -> bool {
        b == 96
    }

    fn matches(&self, b: u8) -> (r: bool)
        ensures
            r == self.spec_matches(b),
    {
        b == 96
    }
}

/// The complement of a small fixed set: matches any byte not in `excluded`.
pub struct NoneOf<'a> {
    pub excluded: &'a [u8],
}

impl<'a> ByteMatcher for NoneOf<'a> {
    open spec fn spec_matches(&self, b: u8) -> bool {
        !self.excluded@.contains(b)
    }

    fn matches(&self, b: u8) -> (r: bool)
        ensures
            r == self.spec_matches(b),
    {
        !self.excluded.matches(b)
    }
}

} // verus!
