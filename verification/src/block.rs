//! The block grammar driven by the engine: a total "attempt next block"
//! entry point built from the cursor, matcher, checkpoint and outcome
//! primitives. It recognizes blank lines, reference definitions and
//! paragraphs; everything else degrades permissively into paragraph text.

use vstd::prelude::*;
use vstd::slice::{slice_index_get, slice_subrange, slice_to_vec};

use crate::engine::MarkdownParser;
use crate::links::{lower_seq, LinkDef, LinkDefV};
use crate::matcher::{DestByte, LabelByte, TitleByte};
use crate::outcome::ParseResult;
use crate::scans::{line_end, match_run_end, nl};
use crate::tokens::{Block, FixLinks, Inline};

verus! {

/// A blank line stands at `p`: spaces, then a newline.
pub open spec fn is_blank_at(s: Seq<u8>, p: int) -> bool {
    let e = match_run_end(s, 32u8, p);
    e < s.len() && s[e] == nl()
}

/// The position just past the blank line at `p`.
pub open spec fn blank_end(s: Seq<u8>, p: int) -> int {
    match_run_end(s, 32u8, p) + 1
}

/// Where the content collected by a paragraph starting at `p` ends: whole
/// lines accumulate until a blank line (which the paragraph consumes but
/// does not keep) or the end of the input.
pub open spec fn para_content_end(s: Seq<u8>, p: int) -> int
    decreases s.len() - p,
        via para_content_end_decreases
{
    if p < 0 || p >= s.len() {
        s.len() as int
    } else {
        let le = line_end(s, p);
        if le == s.len() {
            s.len() as int
        } else if is_blank_at(s, le) {
            le
        } else {
            para_content_end(s, le)
        }
    }
}

#[via_fn]
proof fn para_content_end_decreases(s: Seq<u8>, p: int) {
    if 0 <= p < s.len() {
        crate::scans::lemma_line_end(s, p);
    }
}

/// The cursor position just past the whole paragraph starting at `p`: past
/// the blank line that ended it, or the end of the input.
pub open spec fn para_end(s: Seq<u8>, p: int) -> int {
    let ce = para_content_end(s, p);
    if ce < s.len() {
        blank_end(s, ce)
    } else {
        ce
    }
}

/// A piece of a paragraph's inline split, at the specification level.
pub enum InlinePiece {
    Lit(Seq<u8>),
    Ref(Seq<u8>),
}

/// The first closing bracket at or after `k`, stopping at a newline: a
/// reference label never spans lines.
pub open spec fn closing_bracket(s: Seq<u8>, k: int) -> Option<int>
    decreases s.len() - k,
{
    if k < 0 || k >= s.len() {
        None
    } else if s[k] == 93u8 {
        Some(k)
    } else if s[k] == nl() {
        None
    } else {
        closing_bracket(s, k + 1)
    }
}

/// A closing bracket found lies at or after where the search began, within
/// the sequence, and carries the bracket byte.
pub proof fn lemma_closing_bracket(s: Seq<u8>, k: int)
    ensures
        closing_bracket(s, k) matches Some(j) ==> k <= j < s.len() && s[j] == 93u8,
    decreases s.len() - k,
{
    if 0 <= k < s.len() && s[k] != 93u8 && s[k] != nl() {
        lemma_closing_bracket(s, k + 1);
    }
}

/// The bracketed/literal split of a byte sequence, scanning from `i` with
/// a pending literal run that began at `litst`: a bracketed span whose
/// closing bracket stands on the same line becomes a reference piece,
/// every other byte accumulates into literal pieces.
pub open spec fn inline_split(s: Seq<u8>, i: int, litst: int) -> Seq<InlinePiece>
    decreases s.len() - i,
        via inline_split_decreases
{
    if i < 0 || i >= s.len() {
        if 0 <= litst < i {
            seq![InlinePiece::Lit(s.subrange(litst, i))]
        } else {
            seq![]
        }
    } else if s[i] == 91u8 && closing_bracket(s, i + 1) is Some {
        let j = closing_bracket(s, i + 1)->Some_0;
        let pre = if 0 <= litst < i {
            seq![InlinePiece::Lit(s.subrange(litst, i))]
        } else {
            seq![]
        };
        pre + seq![InlinePiece::Ref(s.subrange(i + 1, j))] + inline_split(s, j + 1, j + 1)
    } else {
        inline_split(s, i + 1, litst)
    }
}

#[via_fn]
proof fn inline_split_decreases(s: Seq<u8>, i: int, litst: int) {
    if 0 <= i < s.len() && s[i] == 91u8 && closing_bracket(s, i + 1) is Some {
        lemma_closing_bracket(s, i + 1);
    }
}

/// How inline payloads realize a split, pointwise: a literal piece as
/// text, a bracketed piece as an unresolved reference whose label and
/// display text are the bracket's content.
pub open spec fn inlines_match(pieces: Seq<InlinePiece>, inls: Seq<Inline>) -> bool {
    &&& pieces.len() == inls.len()
    &&& forall|k: int| 0 <= k < pieces.len() ==> (match #[trigger] pieces[k] {
        InlinePiece::Lit(b) => inls[k] matches Inline::Text(v) && v@ == b,
        InlinePiece::Ref(b) => (inls[k] matches Inline::RefLink { label, text } && label@ == b
            && text@ == b),
    })
}

/// A block the grammar produced at position `np`, as the consumer sees it
/// after fixup against table `t`: the fixed-up image of a paragraph whose
/// inlines are the bracketed/literal split of the content at `np`.
pub open spec fn produced_block(
    s: Seq<u8>,
    np: int,
    b: Block,
    t: Option<Map<Seq<u8>, LinkDefV>>,
) -> bool {
    exists|raw: Block|
        (#[trigger] raw.spec_fixed_by(&b, t)) && (raw matches Block::Paragraph(inls)
            && inlines_match(inline_split(s.subrange(np, para_content_end(s, np)), 0, 0), inls@))
}

/// The parts of a reference definition, at the specification level: the
/// label, destination and optional title as byte sequences, and the
/// position just past the definition (past its newline, or the end of the
/// buffer).
pub struct RefDefView {
    pub label: Seq<u8>,
    pub dest: Seq<u8>,
    pub title: Option<Seq<u8>>,
    pub end: int,
}

/// What a reference definition starting at `p` looks like, if one is
/// there: an indent of at most three spaces, a bracketed non-empty label,
/// a colon, a non-empty destination, an optional quoted title (an empty
/// pair of quotes counts as no title), trailing spaces, and the end of the
/// line or of the buffer.
pub open spec fn refdef_at(s: Seq<u8>, p: int) -> Option<RefDefView> {
    let e0 = match_run_end(s, 32u8, p);
    if !(0 <= p < s.len() && e0 - p < 4) {
        None
    } else if !(e0 < s.len() && s[e0] == 91u8) {
        None
    } else {
        let ls = e0 + 1;
        let le = match_run_end(s, LabelByte, ls);
        if le == ls || !(le < s.len() && s[le] == 93u8) {
            None
        } else if !(le + 1 < s.len() && s[le + 1] == 58u8) {
            None
        } else {
            let ds = match_run_end(s, 32u8, le + 2);
            let de = match_run_end(s, DestByte, ds);
            if de == ds {
                None
            } else {
                let ws = match_run_end(s, 32u8, de);
                if ws < s.len() && s[ws] == 34u8 {
                    let ts = ws + 1;
                    let te = match_run_end(s, TitleByte, ts);
                    if !(te < s.len() && s[te] == 34u8) {
                        None
                    } else {
                        let tw = match_run_end(s, 32u8, te + 1);
                        let title = if te == ts {
                            None
                        } else {
                            Some(s.subrange(ts, te))
                        };
                        if tw == s.len() {
                            Some(
                                RefDefView {
                                    label: s.subrange(ls, le),
                                    dest: s.subrange(ds, de),
                                    title,
                                    end: s.len() as int,
                                },
                            )
                        } else if s[tw] == nl() {
                            Some(
                                RefDefView {
                                    label: s.subrange(ls, le),
                                    dest: s.subrange(ds, de),
                                    title,
                                    end: tw + 1,
                                },
                            )
                        } else {
                            None
                        }
                    }
                } else {
                    if ws == s.len() {
                        Some(
                            RefDefView {
                                label: s.subrange(ls, le),
                                dest: s.subrange(ds, de),
                                title: None,
                                end: s.len() as int,
                            },
                        )
                    } else if s[ws] == nl() {
                        Some(
                            RefDefView {
                                label: s.subrange(ls, le),
                                dest: s.subrange(ds, de),
                                title: None,
                                end: ws + 1,
                            },
                        )
                    } else {
                        None
                    }
                }
            }
        }
    }
}

/// Where the skipped run at or after `p` lies: the run end of leading
/// spaces is at least `p`, and the bounds used by the document-level
/// functions hold.
pub proof fn lemma_refdef_end(s: Seq<u8>, p: int)
    requires
        refdef_at(s, p) is Some,
    ensures
        p < refdef_at(s, p)->Some_0.end <= s.len(),
{
    let e0 = match_run_end(s, 32u8, p);
    crate::scans::lemma_match_run_end(s, 32u8, p);
    let ls = e0 + 1;
    let le = match_run_end(s, LabelByte, ls);
    crate::scans::lemma_match_run_end(s, LabelByte, ls);
    let ds = match_run_end(s, 32u8, le + 2);
    crate::scans::lemma_match_run_end(s, 32u8, le + 2);
    let de = match_run_end(s, DestByte, ds);
    crate::scans::lemma_match_run_end(s, DestByte, ds);
    let ws = match_run_end(s, 32u8, de);
    crate::scans::lemma_match_run_end(s, 32u8, de);
    if ws < s.len() && s[ws] == 34u8 {
        let ts = ws + 1;
        let te = match_run_end(s, TitleByte, ts);
        crate::scans::lemma_match_run_end(s, TitleByte, ts);
        let tw = match_run_end(s, 32u8, te + 1);
        crate::scans::lemma_match_run_end(s, 32u8, te + 1);
    }
}

/// A paragraph's content and consumption bounds: the content reaches past
/// its starting position, a content end inside the buffer stands on a
/// blank line, and the consumed range stays inside the buffer.
pub proof fn lemma_para_props(s: Seq<u8>, p: int)
    requires
        0 <= p < s.len(),
    ensures
        p < para_content_end(s, p) <= s.len(),
        para_content_end(s, p) < s.len() ==> is_blank_at(s, para_content_end(s, p)),
        p < para_end(s, p) <= s.len(),
    decreases s.len() - p,
{
    crate::scans::lemma_line_end(s, p);
    let le = line_end(s, p);
    if le < s.len() && !is_blank_at(s, le) {
        lemma_para_props(s, le);
    }
    let ce = para_content_end(s, p);
    if ce < s.len() {
        crate::scans::lemma_match_run_end(s, 32u8, ce);
    }
}

/// Where the next block-producing position at or after `p` lies: blank
/// lines and reference definitions are skipped; the buffer's end means
/// the document is exhausted.
pub open spec fn next_block_pos(s: Seq<u8>, p: int) -> int
    decreases s.len() - p,
        via next_block_pos_decreases
{
    if p < 0 || p >= s.len() {
        s.len() as int
    } else if is_blank_at(s, p) {
        next_block_pos(s, blank_end(s, p))
    } else if refdef_at(s, p) is Some {
        next_block_pos(s, refdef_at(s, p)->Some_0.end)
    } else {
        p
    }
}

#[via_fn]
proof fn next_block_pos_decreases(s: Seq<u8>, p: int) {
    if 0 <= p < s.len() {
        crate::scans::lemma_match_run_end(s, 32u8, p);
        if !is_blank_at(s, p) && refdef_at(s, p) is Some {
            lemma_refdef_end(s, p);
        }
    }
}

/// The next block-producing position lies between `p` and the end.
pub proof fn lemma_next_block_pos(s: Seq<u8>, p: int)
    requires
        0 <= p <= s.len(),
    ensures
        p <= next_block_pos(s, p) <= s.len(),
    decreases s.len() - p,
{
    if p < s.len() {
        crate::scans::lemma_match_run_end(s, 32u8, p);
        if is_blank_at(s, p) {
            lemma_next_block_pos(s, blank_end(s, p));
        } else if refdef_at(s, p) is Some {
            lemma_refdef_end(s, p);
            lemma_next_block_pos(s, refdef_at(s, p)->Some_0.end);
        }
    }
}

/// The link table after the run-up to the next block: the definitions
/// recorded while skipping blank lines and reference definitions, folded
/// into `t` in order.
pub open spec fn table_at_block(s: Seq<u8>, p: int, t: Map<Seq<u8>, LinkDefV>) -> Map<
    Seq<u8>,
    LinkDefV,
>
    decreases s.len() - p,
        via table_at_block_decreases
{
    if p < 0 || p >= s.len() {
        t
    } else if is_blank_at(s, p) {
        table_at_block(s, blank_end(s, p), t)
    } else if refdef_at(s, p) is Some {
        let d = refdef_at(s, p)->Some_0;
        table_at_block(
            s,
            d.end,
            t.insert(crate::links::lower_seq(d.label), LinkDefV { dest: d.dest, title: d.title }),
        )
    } else {
        t
    }
}

#[via_fn]
proof fn table_at_block_decreases(s: Seq<u8>, p: int, t: Map<Seq<u8>, LinkDefV>) {
    if 0 <= p < s.len() {
        crate::scans::lemma_match_run_end(s, 32u8, p);
        if !is_blank_at(s, p) && refdef_at(s, p) is Some {
            lemma_refdef_end(s, p);
        }
    }
}

/// The link table after the whole remaining input has been scanned:
/// every reference definition between `p` and the end, wherever it
/// stands between paragraphs, folded into `t` in order.
pub open spec fn table_after(s: Seq<u8>, p: int, t: Map<Seq<u8>, LinkDefV>) -> Map<
    Seq<u8>,
    LinkDefV,
>
    decreases s.len() - p,
        via table_after_decreases
{
    if p < 0 || p >= s.len() {
        t
    } else if is_blank_at(s, p) {
        table_after(s, blank_end(s, p), t)
    } else if refdef_at(s, p) is Some {
        let d = refdef_at(s, p)->Some_0;
        table_after(
            s,
            d.end,
            t.insert(crate::links::lower_seq(d.label), LinkDefV { dest: d.dest, title: d.title }),
        )
    } else {
        table_after(s, para_end(s, p), t)
    }
}

#[via_fn]
proof fn table_after_decreases(s: Seq<u8>, p: int, t: Map<Seq<u8>, LinkDefV>) {
    if 0 <= p < s.len() {
        crate::scans::lemma_match_run_end(s, 32u8, p);
        if !is_blank_at(s, p) {
            if refdef_at(s, p) is Some {
                lemma_refdef_end(s, p);
            } else {
                lemma_para_props(s, p);
            }
        }
    }
}

/// Scanning the whole input factors through the run-up to the next block
/// and, where one is produced, the paragraph that covers it.
pub proof fn lemma_table_split(s: Seq<u8>, p: int, t: Map<Seq<u8>, LinkDefV>)
    requires
        0 <= p <= s.len(),
    ensures
        ({
            let np = next_block_pos(s, p);
            if np == s.len() {
                table_after(s, p, t) == table_at_block(s, p, t)
            } else {
                table_after(s, p, t) == table_after(s, para_end(s, np), table_at_block(s, p, t))
            }
        }),
    decreases s.len() - p,
{
    if p < s.len() {
        crate::scans::lemma_match_run_end(s, 32u8, p);
        if is_blank_at(s, p) {
            lemma_table_split(s, blank_end(s, p), t);
        } else if refdef_at(s, p) is Some {
            let d = refdef_at(s, p)->Some_0;
            lemma_refdef_end(s, p);
            lemma_table_split(
                s,
                d.end,
                t.insert(
                    crate::links::lower_seq(d.label),
                    LinkDefV { dest: d.dest, title: d.title },
                ),
            );
        }
    }
}

/// The blocks a full parse yields from `p`, in order: one paragraph for
/// each block-producing position, its inlines the bracketed/literal split
/// of its content, until the input is exhausted.
pub open spec fn doc_rel(s: Seq<u8>, p: int, blocks: Seq<Block>) -> bool
    decreases s.len() - p,
        via doc_rel_decreases
{
    let np = next_block_pos(s, p);
    if np >= s.len() {
        blocks.len() == 0
    } else {
        &&& blocks.len() > 0
        &&& (blocks[0] matches Block::Paragraph(inls) && inlines_match(
            inline_split(s.subrange(np, para_content_end(s, np)), 0, 0),
            inls@,
        ))
        &&& doc_rel(s, para_end(s, np), blocks.drop_first())
    }
}

#[via_fn]
proof fn doc_rel_decreases(s: Seq<u8>, p: int, blocks: Seq<Block>) {
    if 0 <= p <= s.len() {
        lemma_next_block_pos(s, p);
        let np = next_block_pos(s, p);
        if np < s.len() {
            lemma_para_props(s, np);
        }
    }
}

/// The index of the first `]` at or after `from`, stopping at a newline:
/// exactly what [`closing_bracket`] describes.
fn find_closing_bracket(s: &[u8], from: usize) -> (r: Option<usize>)
    requires
        from <= s@.len(),
    ensures
        r matches Some(j) ==> from <= j < s@.len() && s@[j as int] == 93u8,
        match r {
            Some(j) => closing_bracket(s@, from as int) == Some(j as int),
            None => closing_bracket(s@, from as int) is None,
        },
{
    let mut j = from;
    while j < s.len()
        invariant
            from <= j <= s@.len(),
            closing_bracket(s@, from as int) == closing_bracket(s@, j as int),
        decreases s@.len() - j,
    {
        let b = *slice_index_get(s, j);
        if b == 93 {
            return Some(j);
        }
        if b == 10 {
            return None;
        }
        j = j + 1;
    }
    None
}

/// Splits a paragraph's bytes into inline payloads: exactly the
/// bracketed/literal split that [`inline_split`] describes. A bracketed
/// span becomes an unresolved reference, to be fixed up later against the
/// link table; everything else stays literal text. Inline structure beyond
/// that is outside this core.
fn parse_inline_runs(s: &[u8]) -> (r: Vec<Inline>)
    ensures
        inlines_match(inline_split(s@, 0, 0), r@),
{
    let mut out: Vec<Inline> = Vec::new();
    let mut lit: Vec<u8> = Vec::new();
    let mut i: usize = 0;
    let ghost mut litst: int = 0;
    let ghost mut done: Seq<InlinePiece> = seq![];
    proof {
        assert(lit@ =~= s@.subrange(0, 0));
    }
    while i < s.len()
        invariant
            0 <= litst <= i <= s@.len(),
            lit@ == s@.subrange(litst, i as int),
            inlines_match(done, out@),
            inline_split(s@, 0, 0) == done + inline_split(s@, i as int, litst),
        decreases s@.len() - i,
    {
        let b = *slice_index_get(s, i);
        if b == 91 {
            match find_closing_bracket(s, i + 1) {
                Some(j) => {
                    let ghost pre_done = done;
                    if lit.len() > 0 {
                        proof {
                            done = done.push(InlinePiece::Lit(s@.subrange(litst, i as int)));
                        }
                        out.push(Inline::Text(lit));
                        lit = Vec::new();
                    }
                    let inner = slice_subrange(s, i + 1, j);
                    proof {
                        done = done.push(InlinePiece::Ref(s@.subrange(i + 1, j as int)));
                    }
                    out.push(
                        Inline::RefLink { label: slice_to_vec(inner), text: slice_to_vec(inner) },
                    );
                    proof {
                        let pre = if 0 <= litst < i as int {
                            seq![InlinePiece::Lit(s@.subrange(litst, i as int))]
                        } else {
                            seq![]
                        };
                        assert(inline_split(s@, i as int, litst) == pre + seq![
                            InlinePiece::Ref(s@.subrange(i + 1, j as int)),
                        ] + inline_split(s@, j + 1, j + 1));
                        assert(done =~= pre_done + pre + seq![
                            InlinePiece::Ref(s@.subrange(i + 1, j as int)),
                        ]);
                        assert(inline_split(s@, 0, 0) =~= done + inline_split(s@, j + 1, j + 1));
                        litst = j + 1;
                        assert(lit@ =~= s@.subrange(litst, j + 1));
                    }
                    i = j + 1;
                },
                None => {
                    lit.push(b);
                    proof {
                        assert(lit@ =~= s@.subrange(litst, i + 1));
                    }
                    i = i + 1;
                },
            }
        } else {
            lit.push(b);
            proof {
                assert(lit@ =~= s@.subrange(litst, i + 1));
            }
            i = i + 1;
        }
    }
    if lit.len() > 0 {
        proof {
            done = done.push(InlinePiece::Lit(s@.subrange(litst, i as int)));
        }
        out.push(Inline::Text(lit));
    }
    proof {
        assert(inlines_match(inline_split(s@, 0, 0), out@));
    }
    out
}

impl<'a> MarkdownParser<'a> {
    /// The grammar rules never touch the queue or the configuration, never
    /// move the cursor backwards past their entry, and never change
    /// whether a link table is held.
    pub open(crate) spec fn grammar_frame(&self, entry: &Self) -> bool {
        &&& self.wf()
        &&& self.bytes() == entry.bytes()
        &&& self.queue() == entry.queue()
        &&& self.spec_config() == entry.spec_config()
        &&& (self.links() is Some) == (entry.links() is Some)
        &&& entry.pos() <= self.pos() <= self.bytes().len()
    }

    /// Recognizes a reference definition — an optionally indented
    /// bracketed label, a colon, a destination and an optional quoted
    /// title, through the end of the line — exactly when [`refdef_at`]
    /// describes one at the cursor, and records it in the link table.
    /// Anything else is a non-match with a full rollback; the table is
    /// then untouched.
    pub fn try_parse_reference_definition(&mut self) -> (res: ParseResult<
        (&'a [u8], &'a [u8], Option<&'a [u8]>),
    >)
        requires
            old(self).wf(),
        ensures
            final(self).grammar_frame(old(self)),
            !(res is End),
            res is Success <==> refdef_at(old(self).bytes(), old(self).pos()) is Some,
            res is NoParse ==> final(self).pos() == old(self).pos()
                && final(self).links() == old(self).links(),
            res matches ParseResult::Success(r) ==> ({
                let d = refdef_at(old(self).bytes(), old(self).pos())->Some_0;
                &&& r.0@ == d.label
                &&& r.1@ == d.dest
                &&& (match (r.2, d.title) {
                    (Some(a), Some(b)) => a@ == b,
                    (None, None) => true,
                    _ => false,
                })
                &&& final(self).pos() == d.end
                &&& final(self).pos() > old(self).pos()
                &&& final(self).links() == (match old(self).links() {
                    Some(t) => Some(
                        t.insert(lower_seq(d.label), LinkDefV { dest: d.dest, title: d.title }),
                    ),
                    None => None::<Map<Seq<u8>, LinkDefV>>,
                })
            }),
    {
        let ghost s = old(self).bytes();
        let ghost p0 = old(self).pos();
        let m = self.mark();
        match self.try_skip_initial_spaces() {
            ParseResult::Success(_) => {},
            _ => {
                self.reset(m);
                return ParseResult::NoParse;
            },
        }
        let ghost e0 = self.pos();
        match self.try_read_char(91) {
            ParseResult::Success(_) => {},
            _ => {
                self.reset(m);
                return ParseResult::NoParse;
            },
        }
        let ghost ls = self.pos();
        let label = match self.parse(&LabelByte) {
            ParseResult::Success(s) => s,
            _ => {
                self.reset(m);
                return ParseResult::NoParse;
            },
        };
        let ghost le = self.pos();
        match self.try_read_char(93) {
            ParseResult::Success(_) => {},
            _ => {
                self.reset(m);
                return ParseResult::NoParse;
            },
        }
        match self.try_read_char(58) {
            ParseResult::Success(_) => {},
            _ => {
                self.reset(m);
                return ParseResult::NoParse;
            },
        }
        let _ = self.skip_spaces();
        let ghost ds = self.pos();
        proof {
            assert(ds == match_run_end(s, 32u8, le + 2));
        }
        let dest = match self.parse(&DestByte) {
            ParseResult::Success(s) => s,
            _ => {
                self.reset(m);
                return ParseResult::NoParse;
            },
        };
        let ghost de = self.pos();
        let _ = self.skip_spaces();
        let ghost ws = self.pos();
        proof {
            assert(ws == match_run_end(s, 32u8, de));
        }
        let title: Option<&[u8]> = match self.try_read_char(34) {
            ParseResult::Success(_) => {
                let t = match self.parse(&TitleByte) {
                    ParseResult::Success(s) => Some(s),
                    ParseResult::NoParse => None,
                    ParseResult::End => {
                        self.reset(m);
                        return ParseResult::NoParse;
                    },
                };
                let ghost te = self.pos();
                proof {
                    assert(te == match_run_end(s, TitleByte, ws + 1));
                }
                match self.try_read_char(34) {
                    ParseResult::Success(_) => {},
                    _ => {
                        self.reset(m);
                        return ParseResult::NoParse;
                    },
                }
                t
            },
            _ => None,
        };
        let ghost q = self.pos();
        let _ = self.skip_spaces();
        let ghost tw = self.pos();
        proof {
            assert(tw == match_run_end(s, 32u8, q));
            crate::scans::lemma_match_run_end(s, 32u8, de);
            if title is None && !(ws < s.len() && s[ws] == 34u8) {
                // no quote: the cursor already stood at the end of a space
                // run, so this skip consumed nothing
                assert(tw == ws);
            }
        }
        if self.position() < self.buffer_len() {
            match self.try_read_char(10) {
                ParseResult::Success(_) => {},
                _ => {
                    self.reset(m);
                    return ParseResult::NoParse;
                },
            }
        }
        proof {
            assert(refdef_at(s, p0) == Some(
                RefDefView {
                    label: label@,
                    dest: dest@,
                    title: match title {
                        Some(t) => Some(t@),
                        None => None,
                    },
                    end: self.pos(),
                },
            ));
        }
        let def = LinkDef {
            dest: slice_to_vec(dest),
            title: match title {
                Some(t) => Some(slice_to_vec(t)),
                None => None,
            },
        };
        self.add_link(label, def);
        m.cancel();
        ParseResult::Success((label, dest, title))
    }

    /// Collects lines into a paragraph until a blank line or the end of
    /// the input; the blank line, when present, is consumed with the
    /// paragraph but kept out of its content. Always a match: any
    /// available byte starts a paragraph, whose inlines are exactly the
    /// bracketed/literal split of the collected content.
    pub fn parse_paragraph(&mut self) -> (res: ParseResult<Block>)
        requires
            old(self).wf(),
            old(self).pos() < old(self).bytes().len(),
        ensures
            final(self).grammar_frame(old(self)),
            final(self).links() == old(self).links(),
            res is Success,
            final(self).pos() > old(self).pos(),
            final(self).pos() == para_end(old(self).bytes(), old(self).pos()),
            res matches ParseResult::Success(b) ==> (b matches Block::Paragraph(inls)
                && inlines_match(
                inline_split(
                    old(self).bytes().subrange(
                        old(self).pos(),
                        para_content_end(old(self).bytes(), old(self).pos()),
                    ),
                    0,
                    0,
                ),
                inls@,
            )),
    {
        let ghost s = old(self).bytes();
        let ghost p0 = old(self).pos();
        let ghost pce = para_content_end(s, p0);
        proof {
            crate::scans::lemma_line_end(s, p0);
        }
        let mut content: Vec<u8> = Vec::new();
        match self.read_line_to(&mut content) {
            ParseResult::Success(_) => {},
            _ => {
                return unreached();
            },
        }
        proof {
            assert(content@ =~= s.subrange(p0, self.pos()));
        }
        loop
            invariant_except_break
                content@ == s.subrange(p0, self.pos()),
                pce == (if is_blank_at(s, self.pos()) {
                    self.pos()
                } else {
                    para_content_end(s, self.pos())
                }),
            invariant
                old(self).wf(),
                self.grammar_frame(old(self)),
                self.links() == old(self).links(),
                self.pos() > old(self).pos(),
                pce == para_content_end(s, p0),
                s == old(self).bytes(),
                p0 == old(self).pos(),
            ensures
                content@ == s.subrange(p0, pce),
                self.pos() == para_end(s, p0),
            decreases self.bytes().len() - self.pos(),
        {
            if self.position() == self.buffer_len() {
                break ;
            }
            proof {
                crate::scans::lemma_match_run_end(self.bytes(), 32u8, self.pos());
                crate::scans::lemma_line_end(self.bytes(), self.pos());
            }
            match self.try_parse_empty_line() {
                ParseResult::Success(_) => {
                    break ;
                },
                ParseResult::End => {
                    proof {
                        assert(false);
                    }
                    break ;
                },
                ParseResult::NoParse => {},
            }
            match self.read_line_to(&mut content) {
                ParseResult::Success(_) => {},
                _ => {
                    proof {
                        assert(false);
                    }
                    break ;
                },
            }
            proof {
                assert(content@ =~= s.subrange(p0, self.pos()));
            }
        }
        let block = Block::Paragraph(parse_inline_runs(content.as_slice()));
        proof {
            assert(content@ == s.subrange(p0, pce));
        }
        ParseResult::Success(block)
    }

    /// The total block-grammar entry point the driver invokes: skips blank
    /// lines, records reference definitions, and otherwise produces the
    /// paragraph standing at the next block position. It resolves to a
    /// match or to exhaustion — never to a bare non-match — and exhaustion
    /// is produced exactly when no block position remains, with the whole
    /// buffer consumed.
    pub fn parse_block(&mut self) -> (res: ParseResult<Block>)
        requires
            old(self).wf(),
        ensures
            final(self).grammar_frame(old(self)),
            !(res is NoParse),
            res is End <==> next_block_pos(old(self).bytes(), old(self).pos())
                == old(self).bytes().len(),
            res is End ==> final(self).pos() == final(self).bytes().len(),
            res is Success ==> final(self).pos() > old(self).pos(),
            final(self).links() == (match old(self).links() {
                Some(t0) => Some(table_at_block(old(self).bytes(), old(self).pos(), t0)),
                None => None::<Map<Seq<u8>, LinkDefV>>,
            }),
            res matches ParseResult::Success(b) ==> ({
                let np = next_block_pos(old(self).bytes(), old(self).pos());
                &&& np < old(self).bytes().len()
                &&& final(self).pos() == para_end(old(self).bytes(), np)
                &&& (b matches Block::Paragraph(inls) && inlines_match(
                    inline_split(
                        old(self).bytes().subrange(
                            np,
                            para_content_end(old(self).bytes(), np),
                        ),
                        0,
                        0,
                    ),
                    inls@,
                ))
            }),
    {
        let ghost s = old(self).bytes();
        let ghost p0 = old(self).pos();
        loop
            invariant
                old(self).wf(),
                self.grammar_frame(old(self)),
                s == old(self).bytes(),
                p0 == old(self).pos(),
                next_block_pos(s, self.pos()) == next_block_pos(s, p0),
                (self.links() is Some) == (old(self).links() is Some),
                old(self).links() matches Some(t0) ==> self.links() matches Some(t1)
                    && table_at_block(s, self.pos(), t1) == table_at_block(s, p0, t0),
            decreases self.bytes().len() - self.pos(),
        {
            if self.position() == self.buffer_len() {
                return ParseResult::End;
            }
            proof {
                crate::scans::lemma_match_run_end(self.bytes(), 32u8, self.pos());
            }
            match self.try_parse_empty_line() {
                ParseResult::Success(_) => {
                    continue ;
                },
                // End cannot occur mid-buffer; spaces running to the end of
                // the input are no blank line and fall through to the
                // paragraph rule
                _ => {},
            }
            let ghost before = self.pos();
            match self.try_parse_reference_definition() {
                ParseResult::Success(_) => {
                    proof {
                        assert(!is_blank_at(s, before));
                        assert(refdef_at(s, before) is Some);
                    }
                    continue ;
                },
                _ => {},
            }
            proof {
                assert(!is_blank_at(s, self.pos()));
                assert(refdef_at(s, self.pos()) is None);
                assert(next_block_pos(s, self.pos()) == self.pos());
                assert(table_at_block(s, self.pos(), self.links()->Some_0)
                    == self.links()->Some_0);
            }
            return self.parse_paragraph();
        }
    }
}

} // verus!
