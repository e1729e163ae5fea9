//! Specification-level descriptions of the scan primitives: where a
//! maximal matching run ends and where the current line ends.

use vstd::prelude::*;
use crate::matcher::ByteMatcher;

verus! {

/// The newline byte.
pub open spec fn nl() -> u8 {
    10
}

/// The first index at or after `i` whose byte the matcher rejects, or the
/// length of `s` if the matcher accepts everything to the end: the end of
/// the maximal matching run starting at `i`.
pub open spec fn match_run_end<M: ByteMatcher>(s: Seq<u8>, m: M, i: int) -> int
    decreases s.len() - i,
{
    if i < 0 || i >= s.len() {
        i
    } else if m.spec_matches(s[i]) {
        match_run_end(s, m, i + 1)
    } else {
        i
    }
}

/// The maximal run accepted by `m` from `i` covers exactly the indices
/// `[i, match_run_end)`, and the run is maximal: the byte at its end, if
/// any, is rejected.
pub proof fn lemma_match_run_end<M: ByteMatcher>(s: Seq<u8>, m: M, i: int)
    requires
        0 <= i <= s.len(),
    ensures
        i <= match_run_end(s, m, i) <= s.len(),
        forall|j: int| i <= j < match_run_end(s, m, i) ==> m.spec_matches(s[j]),
        match_run_end(s, m, i) < s.len() ==> !m.spec_matches(s[match_run_end(s, m, i)]),
    decreases s.len() - i,
{
    if i < s.len() && m.spec_matches(s[i]) {
        lemma_match_run_end(s, m, i + 1);
    }
}

/// The position just past the current line: one past the first newline at
/// or after `i`, or the end of `s` when no newline remains.
pub open spec fn line_end(s: Seq<u8>, i: int) -> int
    decreases s.len() - i,
{
    if i < 0 || i >= s.len() {
        s.len() as int
    } else if s[i] == nl() {
        i + 1
    } else {
        line_end(s, i + 1)
    }
}

/// A line runs to just past its first newline, or to the end of the
/// buffer; the trailing newline is included whenever one exists in the
/// remaining input.
pub proof fn lemma_line_end(s: Seq<u8>, i: int)
    requires
        0 <= i <= s.len(),
    ensures
        i <= line_end(s, i) <= s.len(),
        i < s.len() ==> i < line_end(s, i),
        forall|j: int| i <= j < line_end(s, i) - 1 ==> s[j] != nl(),
        line_end(s, i) < s.len() ==> s[line_end(s, i) - 1] == nl(),
        (exists|j: int| i <= j < s.len() && s[j] == nl()) ==> s[line_end(s, i) - 1] == nl(),
    decreases s.len() - i,
{
    if i < s.len() && s[i] != nl() {
        lemma_line_end(s, i + 1);
    }
}

} // verus!
