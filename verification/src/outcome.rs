//! The parse-outcome algebra: a three-way result distinguishing a
//! successful match, a recoverable non-match, and exhaustion of input.

use vstd::prelude::*;

verus! {

/// The outcome of attempting one production.
///
/// `NoParse` means nothing was recognized at the current position; the
/// attempting production must have rolled the cursor back, so callers may
/// try further alternatives. `End` means no input remained at entry; it is
/// distinct from `NoParse` so that callers stop iterating instead of trying
/// further alternatives. Neither is an error.
pub enum ParseResult<T> {
    Success(T),
    NoParse,
    End,
}

impl<T> ParseResult<T> {
    /// Left-biased alternation: the alternative `f` is evaluated only when
    /// `self` is `NoParse`; `Success` and `End` both short-circuit, so an
    /// exhausted input is never retried against further alternatives.
    ///
    /// The precondition of `f` is demanded only in the `NoParse` case:
    /// verification of this body rules out any call of `f` on the other two
    /// outcomes.
    pub fn or_else<F: FnOnce() -> ParseResult<T>>(self, f: F) -> (res: ParseResult<T>)
        requires
            self is NoParse ==> call_requires(f, ()),
        ensures
            !(self is NoParse) ==> res == self,
            self is NoParse ==> call_ensures(f, (), res),
    {
        match self {
            ParseResult::Success(r) => ParseResult::Success(r),
            ParseResult::End => ParseResult::End,
            ParseResult::NoParse => f(),
        }
    }

    /// Transforms only the `Success` payload; `NoParse` and `End` pass
    /// through unchanged.
    pub fn map<U, F: FnOnce(T) -> U>(self, f: F) -> (res: ParseResult<U>)
        requires
            forall|v: T| self == ParseResult::Success(v) ==> call_requires(f, (v,)),
        ensures
            self is NoParse ==> res is NoParse,
            self is End ==> res is End,
            forall|v: T| self == ParseResult::Success(v) ==> (res matches ParseResult::Success(u)
                && call_ensures(f, (v,), u)),
    {
        match self {
            ParseResult::Success(r) => ParseResult::Success(f(r)),
            ParseResult::End => ParseResult::End,
            ParseResult::NoParse => ParseResult::NoParse,
        }
    }

    /// Extracts the payload at a site where a match is structurally
    /// guaranteed; any other outcome is a programmer error, which the
    /// precondition rules out.
    pub fn unwrap(self) -> (res: T)
        requires
            self is Success,
        ensures
            self == ParseResult::Success(res),
    {
        match self {
            ParseResult::Success(r) => r,
            _ => unreached(),
        }
    }

    /// True exactly on a match.
    pub fn is_success(&self) -> (res: bool)
        ensures
            res == (self is Success),
    {
        match *self {
            ParseResult::Success(_) => true,
            _ => false,
        }
    }

    /// True exactly on exhaustion.
    pub fn is_end(&self) -> (res: bool)
        ensures
            res == (self is End),
    {
        match *self {
            ParseResult::End => true,
            _ => false,
        }
    }

    /// Converts a total outcome (one that cannot be `NoParse`) into an
    /// option: `Success` carries the value, `End` becomes `None`. A bare
    /// `NoParse` at such a site is a structural invariant violation, which
    /// the precondition rules out.
    pub fn to_option(self) -> (res: Option<T>)
        requires
            !(self is NoParse),
        ensures
            res is None <==> self is End,
            res is Some <==> self is Success,
            forall|v: T| self == ParseResult::Success(v) ==> res == Some(v),
    {
        match self {
            ParseResult::Success(r) => Some(r),
            ParseResult::End => None,
            ParseResult::NoParse => unreached(),
        }
    }
}

} // verus!
