//! The parser engine: owns a cursor over the input, a pending-output
//! queue, the configuration, and — at the root only — the link table. The
//! scan primitives that grammar rules are built from live here as methods.

use vstd::prelude::*;
use std::collections::VecDeque;

use crate::config::MarkdownConfig;
use crate::cursor::{Cursor, Mark};
use crate::links::{lower_seq, LinkDef, LinkDefV, LinkMap};
use crate::matcher::{ByteMatcher, SpaceOrNewline};
use crate::outcome::ParseResult;
use crate::scans::{line_end, match_run_end, nl};
use crate::tokens::{block_fixed, table_view, Block, Document, FixLinks};
use crate::block::{
    doc_rel, inline_split, inlines_match, lemma_next_block_pos, lemma_table_split,
    next_block_pos, para_content_end, para_end, produced_block, table_after, table_at_block,
};

verus! {

/// A parsing engine over one byte buffer. The root engine owns the link
/// table; forked engines parse a sub-region without one.
pub struct MarkdownParser<'a> {
    pub(crate) cur: Cursor<'a>,
    pub(crate) event_queue: VecDeque<Block>,
    pub(crate) config: MarkdownConfig,
    pub(crate) link_map: Option<LinkMap>,
}

impl<'a> MarkdownParser<'a> {
    /// The input bytes.
    pub open(crate) spec fn bytes(&self) -> Seq<u8> {
        self.cur.bytes()
    }

    /// The cursor position.
    pub open(crate) spec fn pos(&self) -> int {
        self.cur.pos()
    }

    /// Well-formedness: the cursor never leaves the buffer.
    pub open(crate) spec fn wf(&self) -> bool {
        self.cur.wf()
    }

    /// The pending-output queue.
    pub open(crate) spec fn queue(&self) -> Seq<Block> {
        self.event_queue@
    }

    /// The link table's content, or nothing in a forked engine.
    pub open(crate) spec fn links(&self) -> Option<Map<Seq<u8>, LinkDefV>> {
        match self.link_map {
            Some(m) => Some(m@),
            None => None,
        }
    }

    /// The configuration.
    pub open(crate) spec fn spec_config(&self) -> MarkdownConfig {
        self.config
    }

    /// Everything but the cursor position is untouched.
    pub open(crate) spec fn same_but_pos(&self, other: &Self) -> bool {
        &&& self.bytes() == other.bytes()
        &&& self.queue() == other.queue()
        &&& self.links() == other.links()
        &&& self.spec_config() == other.spec_config()
    }

    /// A root engine over the whole buffer, with an empty queue, the
    /// default configuration, and an empty link table.
    pub fn new(buffer: &'a [u8]) -> (p: MarkdownParser<'a>)
        ensures
            p.wf(),
            p.bytes() == buffer@,
            p.pos() == 0,
            p.queue().len() == 0,
            (p.links() == Some(Map::<Seq<u8>, LinkDefV>::empty())),
            (p.spec_config() == MarkdownConfig { tables: false, strikethrough: false }),
    {
        MarkdownParser {
            cur: Cursor::new(buffer),
            event_queue: VecDeque::new(),
            config: MarkdownConfig::default(),
            link_map: Some(LinkMap::new()),
        }
    }

    /// The same engine with another configuration.
    pub fn with_config(self, config: MarkdownConfig) -> (p: MarkdownParser<'a>)
        ensures
            p.bytes() == self.bytes(),
            p.pos() == self.pos(),
            p.wf() == self.wf(),
            p.queue() == self.queue(),
            p.links() == self.links(),
            p.spec_config() == config,
    {
        MarkdownParser { config, ..self }
    }

    /// The cursor position, executably.
    pub fn position(&self) -> (r: usize)
        ensures
            r == self.pos(),
    {
        self.cur.position()
    }

    /// The input length, executably.
    pub fn buffer_len(&self) -> (r: usize)
        ensures
            r == self.bytes().len(),
    {
        self.cur.buffer_len()
    }

    /// The configuration, executably.
    pub fn config(&self) -> (c: MarkdownConfig)
        ensures
            c == self.spec_config(),
    {
        self.config
    }

    /// A sub-engine over a distinct sub-region: it shares the
    /// configuration, starts with an empty queue, and receives no link
    /// table, so nested content flows outward unresolved.
    pub fn fork<'b>(&self, buffer: &'b [u8]) -> (p: MarkdownParser<'b>)
        ensures
            p.wf(),
            p.bytes() == buffer@,
            p.pos() == 0,
            p.queue().len() == 0,
            p.links() is None,
            p.spec_config() == self.spec_config(),
    {
        MarkdownParser {
            cur: Cursor::new(buffer),
            event_queue: VecDeque::new(),
            config: self.config,
            link_map: None,
        }
    }

    /// Takes a revocable mark at the current position; pair with
    /// [`Self::reset`] to roll back, or discard it to commit.
    pub fn mark(&self) -> (m: Mark)
        requires
            self.wf(),
        ensures
            m.pos() == self.pos(),
    {
        self.cur.mark()
    }

    /// Rolls the cursor back to a mark taken on this engine.
    pub fn reset(&mut self, m: Mark)
        requires
            old(self).wf(),
            0 <= m.pos() <= old(self).bytes().len(),
        ensures
            final(self).wf(),
            old(self).same_but_pos(final(self)),
            final(self).pos() == m.pos(),
    {
        self.cur.reset(m);
    }

    /// Appends a block to the pending-output queue; grammar rules that
    /// emit more than one unit per recognized construct use it.
    pub fn enqueue_event(&mut self, block: Block)
        requires
            old(self).wf(),
        ensures
            final(self).wf(),
            final(self).bytes() == old(self).bytes(),
            final(self).pos() == old(self).pos(),
            final(self).queue() == old(self).queue().push(block),
            final(self).links() == old(self).links(),
            final(self).spec_config() == old(self).spec_config(),
    {
        self.event_queue.push_back(block);
    }

    /// Records a reference definition. The root engine grows its table; a
    /// forked engine has none, so the definition is dropped.
    pub fn add_link(&mut self, label: &[u8], def: LinkDef)
        requires
            old(self).wf(),
        ensures
            final(self).wf(),
            final(self).bytes() == old(self).bytes(),
            final(self).pos() == old(self).pos(),
            final(self).queue() == old(self).queue(),
            final(self).spec_config() == old(self).spec_config(),
            final(self).links() == match old(self).links() {
                Some(t) => Some(t.insert(lower_seq(label@), def@)),
                None => None::<Map<Seq<u8>, LinkDefV>>,
            },
    {
        match &mut self.link_map {
            Some(m) => m.insert(label, def),
            None => {},
        }
    }

    /// Fixes a payload up against this engine's own table, if it holds
    /// one: the deferred link resolution a value undergoes when it flows
    /// back through a table-owning engine.
    pub fn fix_links<F: FixLinks>(&self, fl: F) -> (r: F)
        ensures
            fl.spec_fixed_by(&r, self.links()),
    {
        let mut fl = fl;
        let table = self.link_map.as_ref();
        proof {
            assert(table_view(table) == self.links());
        }
        fl.fix_links_opt(table);
        fl
    }

    /// Succeeds only if the remainder of the current line is spaces
    /// followed by a newline, consuming through the newline; anything else
    /// — a non-space byte before the newline, or spaces running to the end
    /// of the buffer — is a non-match with a full rollback. Exhaustion is
    /// returned only when no bytes remained at entry.
    pub fn try_parse_empty_line(&mut self) -> (res: ParseResult<()>)
        requires
            old(self).wf(),
        ensures
            final(self).wf(),
            old(self).same_but_pos(final(self)),
            old(self).pos() <= final(self).pos() <= old(self).bytes().len(),
            ({
                let e = match_run_end(old(self).bytes(), 32u8, old(self).pos());
                let len = old(self).bytes().len() as int;
                &&& (res is End <==> old(self).pos() == len)
                &&& (res is Success <==> e < len && old(self).bytes()[e] == nl())
                &&& (res is Success ==> final(self).pos() == e + 1)
                &&& (!(res is Success) ==> final(self).pos() == old(self).pos())
            }),
    {
        if !self.cur.available() {
            return ParseResult::End;
        }
        let ghost e = match_run_end(old(self).bytes(), 32u8, old(self).pos());
        let m = self.cur.mark();
        loop
            invariant
                old(self).wf(),
                self.cur.wf(),
                old(self).same_but_pos(self),
                old(self).pos() <= self.cur.pos() <= self.bytes().len(),
                m.pos() == old(self).pos(),
                e == match_run_end(old(self).bytes(), 32u8, self.cur.pos()),
                e == match_run_end(old(self).bytes(), 32u8, old(self).pos()),
                self.bytes() == old(self).bytes(),
                old(self).pos() < old(self).bytes().len(),
                forall|j: int| old(self).pos() <= j < self.cur.pos()
                    ==> old(self).bytes()[j] == 32u8,
            decreases self.bytes().len() - self.cur.pos(),
        {
            match self.cur.next_byte() {
                None => {
                    // spaces ran to the end of the buffer: not a blank line
                    self.cur.reset(m);
                    return ParseResult::NoParse;
                },
                Some(b) => {
                    if b == 32 {
                        // a space: scan on
                    } else if b == 10 {
                        m.cancel();
                        return ParseResult::Success(());
                    } else {
                        self.cur.reset(m);
                        return ParseResult::NoParse;
                    }
                },
            }
        }
    }

    /// Consumes a leading indent of up to three spaces; four or more are
    /// reserved for a different block rule, so they are a non-match with a
    /// full rollback. Exhaustion is returned only when no bytes remained at
    /// entry.
    pub fn try_skip_initial_spaces(&mut self) -> (res: ParseResult<()>)
        requires
            old(self).wf(),
        ensures
            final(self).wf(),
            old(self).same_but_pos(final(self)),
            old(self).pos() <= final(self).pos() <= old(self).bytes().len(),
            ({
                let e = match_run_end(old(self).bytes(), 32u8, old(self).pos());
                let len = old(self).bytes().len() as int;
                let k = e - old(self).pos();
                &&& (res is End <==> old(self).pos() == len)
                &&& (res is Success <==> old(self).pos() < len && k < 4)
                &&& (res is Success ==> final(self).pos() == e)
                &&& (!(res is Success) ==> final(self).pos() == old(self).pos())
            }),
    {
        if !self.cur.available() {
            return ParseResult::End;
        }
        let ghost e = match_run_end(old(self).bytes(), 32u8, old(self).pos());
        let mut n: u8 = 0;
        let m = self.cur.mark();
        loop
            invariant
                old(self).wf(),
                self.cur.wf(),
                old(self).same_but_pos(self),
                self.bytes() == old(self).bytes(),
                old(self).pos() <= self.cur.pos() <= self.bytes().len(),
                m.pos() == old(self).pos(),
                e == match_run_end(old(self).bytes(), 32u8, self.cur.pos()),
                e == match_run_end(old(self).bytes(), 32u8, old(self).pos()),
                n <= 4,
                n as int == self.cur.pos() - old(self).pos(),
                old(self).pos() < old(self).bytes().len(),
                forall|j: int| old(self).pos() <= j < self.cur.pos()
                    ==> old(self).bytes()[j] == 32u8,
            decreases self.bytes().len() - self.cur.pos(),
        {
            proof {
                crate::scans::lemma_match_run_end(old(self).bytes(), 32u8, self.cur.pos());
            }
            if n >= 4 {
                self.cur.reset(m);
                return ParseResult::NoParse;
            }
            match self.cur.current_byte() {
                None => {
                    // at most three spaces ran to the end of the buffer:
                    // that is still an accepted indent
                    m.cancel();
                    return ParseResult::Success(());
                },
                Some(b) => {
                    if b == 32 {
                        n = n + 1;
                        self.cur.next();
                    } else {
                        m.cancel();
                        return ParseResult::Success(());
                    }
                },
            }
        }
    }

    /// Reads one byte: exhaustion if none is available, a match consuming
    /// it if it is the expected byte, a non-match with a one-byte rollback
    /// otherwise.
    pub fn try_read_char(&mut self, expected: u8) -> (res: ParseResult<()>)
        requires
            old(self).wf(),
        ensures
            final(self).wf(),
            old(self).same_but_pos(final(self)),
            old(self).pos() <= final(self).pos() <= old(self).bytes().len(),
            res is End <==> old(self).pos() == old(self).bytes().len(),
            res is Success <==> old(self).pos() < old(self).bytes().len()
                && old(self).bytes()[old(self).pos()] == expected,
            res is Success ==> final(self).pos() == old(self).pos() + 1,
            !(res is Success) ==> final(self).pos() == old(self).pos(),
    {
        match self.cur.next_byte() {
            Some(c) => {
                if c == expected {
                    ParseResult::Success(())
                } else {
                    self.cur.prev();
                    ParseResult::NoParse
                }
            },
            None => ParseResult::End,
        }
    }

    /// Pure lookahead: whether the next `n` bytes all equal `c`. The
    /// cursor never advances, whatever the outcome.
    pub fn lookahead_chars(&mut self, n: usize, c: u8) -> (r: bool)
        requires
            old(self).wf(),
        ensures
            final(self).wf(),
            old(self).same_but_pos(final(self)),
            old(self).pos() <= final(self).pos() <= old(self).bytes().len(),
            final(self).pos() == old(self).pos(),
            r == (match_run_end(old(self).bytes(), c, old(self).pos()) - old(self).pos() >= n),
    {
        let ghost e = match_run_end(old(self).bytes(), c, old(self).pos());
        let m = self.cur.mark();
        let mut remaining = n;
        loop
            invariant
                old(self).wf(),
                self.cur.wf(),
                old(self).same_but_pos(self),
                self.bytes() == old(self).bytes(),
                old(self).pos() <= self.cur.pos() <= self.bytes().len(),
                m.pos() == old(self).pos(),
                e == match_run_end(old(self).bytes(), c, self.cur.pos()),
                e == match_run_end(old(self).bytes(), c, old(self).pos()),
                remaining <= n,
                n - remaining == self.cur.pos() - old(self).pos(),
            decreases remaining,
        {
            proof {
                crate::scans::lemma_match_run_end(old(self).bytes(), c, self.cur.pos());
            }
            if remaining == 0 {
                self.cur.reset(m);
                return true;
            }
            match self.cur.current_byte() {
                None => {
                    self.cur.reset(m);
                    return false;
                },
                Some(b) => {
                    if b == c {
                        self.cur.next();
                        remaining = remaining - 1;
                    } else {
                        self.cur.reset(m);
                        return false;
                    }
                },
            }
        }
    }

    /// Consumes through and including the next newline, or to the end of
    /// the view if none remains, appending the consumed bytes to `dest`.
    /// A match once any bytes are consumed; exhaustion if none remained at
    /// entry.
    pub fn read_line_to(&mut self, dest: &mut Vec<u8>) -> (res: ParseResult<()>)
        requires
            old(self).wf(),
        ensures
            final(self).wf(),
            old(self).same_but_pos(final(self)),
            old(self).pos() <= final(self).pos() <= old(self).bytes().len(),
            res is End <==> old(self).pos() == old(self).bytes().len(),
            res is End ==> final(self).pos() == old(self).pos()
                && final(dest)@ == old(dest)@,
            res is Success ==> final(self).pos() == line_end(old(self).bytes(), old(self).pos())
                && final(dest)@ == old(dest)@ + old(self).bytes().subrange(
                old(self).pos(),
                final(self).pos(),
            ),
            !(res is NoParse),
    {
        if !self.cur.available() {
            return ParseResult::End;
        }
        let ghost le = line_end(old(self).bytes(), old(self).pos());
        proof {
            crate::scans::lemma_line_end(old(self).bytes(), old(self).pos());
        }
        loop
            invariant
                old(self).wf(),
                self.cur.wf(),
                old(self).same_but_pos(self),
                self.bytes() == old(self).bytes(),
                old(self).pos() <= self.cur.pos() < self.bytes().len(),
                old(self).pos() < old(self).bytes().len(),
                le == line_end(old(self).bytes(), self.cur.pos()),
                le == line_end(old(self).bytes(), old(self).pos()),
                dest@ == old(dest)@ + old(self).bytes().subrange(old(self).pos(), self.cur.pos()),
            decreases self.bytes().len() - self.cur.pos(),
        {
            let ghost before = self.cur.pos();
            let c = match self.cur.next_byte() {
                Some(c) => c,
                None => {
                    proof {
                        assert(false);
                    }
                    return ParseResult::End;
                },
            };
            dest.push(c);
            proof {
                assert(c == old(self).bytes()[before]);
                assert(old(self).bytes().subrange(old(self).pos(), before + 1) =~= old(
                    self,
                ).bytes().subrange(old(self).pos(), before).push(c));
                assert(dest@ =~= old(dest)@ + old(self).bytes().subrange(
                    old(self).pos(),
                    self.cur.pos(),
                ));
            }
            if c == 10 {
                proof {
                    assert(le == before + 1);
                }
                return ParseResult::Success(());
            }
            if !self.cur.available() {
                proof {
                    assert(self.cur.pos() == old(self).bytes().len());
                    assert(line_end(old(self).bytes(), before) == line_end(
                        old(self).bytes(),
                        before + 1,
                    ));
                    assert(le == old(self).bytes().len() as int);
                }
                return ParseResult::Success(());
            }
        }
    }

    /// Consumes through and including the next newline, or to the end of
    /// the view if none remains, discarding the bytes.
    pub fn read_line(&mut self) -> (res: ParseResult<()>)
        requires
            old(self).wf(),
        ensures
            final(self).wf(),
            old(self).same_but_pos(final(self)),
            old(self).pos() <= final(self).pos() <= old(self).bytes().len(),
            res is End <==> old(self).pos() == old(self).bytes().len(),
            res is End ==> final(self).pos() == old(self).pos(),
            res is Success ==> final(self).pos() == line_end(old(self).bytes(), old(self).pos()),
            !(res is NoParse),
    {
        if !self.cur.available() {
            return ParseResult::End;
        }
        let ghost le = line_end(old(self).bytes(), old(self).pos());
        loop
            invariant
                old(self).wf(),
                self.cur.wf(),
                old(self).same_but_pos(self),
                self.bytes() == old(self).bytes(),
                old(self).pos() <= self.cur.pos() < self.bytes().len(),
                old(self).pos() < old(self).bytes().len(),
                le == line_end(old(self).bytes(), self.cur.pos()),
                le == line_end(old(self).bytes(), old(self).pos()),
            decreases self.bytes().len() - self.cur.pos(),
        {
            let ghost before = self.cur.pos();
            let c = match self.cur.next_byte() {
                Some(c) => c,
                None => {
                    proof {
                        assert(false);
                    }
                    return ParseResult::End;
                },
            };
            proof {
                assert(c == old(self).bytes()[before]);
            }
            if c == 10 {
                proof {
                    assert(le == before + 1);
                }
                return ParseResult::Success(());
            }
            if !self.cur.available() {
                proof {
                    assert(self.cur.pos() == old(self).bytes().len());
                    assert(line_end(old(self).bytes(), before) == line_end(
                        old(self).bytes(),
                        before + 1,
                    ));
                    assert(le == old(self).bytes().len() as int);
                }
                return ParseResult::Success(());
            }
        }
    }

    /// Scan-and-capture: consumes the maximal run of bytes the matcher
    /// accepts from the current position and returns the run as a slice.
    /// Zero bytes matched is a non-match — never an empty match — and an
    /// already exhausted input is exhaustion before any matching.
    pub fn parse<M: ByteMatcher>(&mut self, m: &M) -> (res: ParseResult<&'a [u8]>)
        requires
            old(self).wf(),
        ensures
            final(self).wf(),
            old(self).same_but_pos(final(self)),
            old(self).pos() <= final(self).pos() <= old(self).bytes().len(),
            ({
                let e = match_run_end(old(self).bytes(), *m, old(self).pos());
                let len = old(self).bytes().len() as int;
                &&& (res is End <==> old(self).pos() == len)
                &&& (res is NoParse <==> old(self).pos() < len && e == old(self).pos())
                &&& (!(res is Success) ==> final(self).pos() == old(self).pos())
                &&& (res matches ParseResult::Success(s) ==> final(self).pos() == e
                    && s@ == old(self).bytes().subrange(old(self).pos(), e))
            }),
    {
        if !self.cur.available() {
            return ParseResult::End;
        }
        let ghost e = match_run_end(old(self).bytes(), *m, old(self).pos());
        let pm = self.cur.phantom_mark();
        loop
            invariant
                old(self).wf(),
                self.cur.wf(),
                old(self).same_but_pos(self),
                self.bytes() == old(self).bytes(),
                old(self).pos() <= self.cur.pos() <= self.bytes().len(),
                pm.pos == old(self).pos(),
                e == match_run_end(old(self).bytes(), *m, self.cur.pos()),
                e == match_run_end(old(self).bytes(), *m, old(self).pos()),
                old(self).pos() < self.bytes().len(),
            decreases self.bytes().len() - self.cur.pos(),
        {
            proof {
                crate::scans::lemma_match_run_end(old(self).bytes(), *m, self.cur.pos());
            }
            match self.cur.current_byte() {
                None => {
                    return ParseResult::Success(self.cur.slice_to_now_from(pm));
                },
                Some(b) => {
                    if m.matches(b) {
                        self.cur.next();
                    } else {
                        if self.cur.position() == pm.pos {
                            return ParseResult::NoParse;
                        }
                        return ParseResult::Success(self.cur.slice_to_now_from(pm));
                    }
                },
            }
        }
    }

    /// Scan-and-discard: identical consumption to [`Self::parse`] but no
    /// payload; a zero-length run still succeeds.
    pub fn skip<M: ByteMatcher>(&mut self, m: &M) -> (res: ParseResult<()>)
        requires
            old(self).wf(),
        ensures
            final(self).wf(),
            old(self).same_but_pos(final(self)),
            old(self).pos() <= final(self).pos() <= old(self).bytes().len(),
            res is End <==> old(self).pos() == old(self).bytes().len(),
            res is End ==> final(self).pos() == old(self).pos(),
            !(res is NoParse),
            res is Success ==> final(self).pos() == match_run_end(
                old(self).bytes(),
                *m,
                old(self).pos(),
            ),
    {
        if !self.cur.available() {
            return ParseResult::End;
        }
        let ghost e = match_run_end(old(self).bytes(), *m, old(self).pos());
        loop
            invariant
                old(self).wf(),
                self.cur.wf(),
                old(self).same_but_pos(self),
                self.bytes() == old(self).bytes(),
                old(self).pos() <= self.cur.pos() <= self.bytes().len(),
                old(self).pos() < old(self).bytes().len(),
                e == match_run_end(old(self).bytes(), *m, self.cur.pos()),
                e == match_run_end(old(self).bytes(), *m, old(self).pos()),
            decreases self.bytes().len() - self.cur.pos(),
        {
            proof {
                crate::scans::lemma_match_run_end(old(self).bytes(), *m, self.cur.pos());
            }
            match self.cur.current_byte() {
                None => {
                    return ParseResult::Success(());
                },
                Some(b) => {
                    if m.matches(b) {
                        self.cur.next();
                    } else {
                        return ParseResult::Success(());
                    }
                },
            }
        }
    }

    /// Skips a run of spaces.
    pub fn skip_spaces(&mut self) -> (res: ParseResult<()>)
        requires
            old(self).wf(),
        ensures
            final(self).wf(),
            old(self).same_but_pos(final(self)),
            old(self).pos() <= final(self).pos() <= old(self).bytes().len(),
            res is End <==> old(self).pos() == old(self).bytes().len(),
            res is End ==> final(self).pos() == old(self).pos(),
            !(res is NoParse),
            res is Success ==> final(self).pos() == match_run_end(
                old(self).bytes(),
                32u8,
                old(self).pos(),
            ),
    {
        self.skip(&32u8)
    }

    /// Skips a run of spaces and newlines.
    pub fn skip_spaces_and_newlines(&mut self) -> (res: ParseResult<()>)
        requires
            old(self).wf(),
        ensures
            final(self).wf(),
            old(self).same_but_pos(final(self)),
            old(self).pos() <= final(self).pos() <= old(self).bytes().len(),
            res is End <==> old(self).pos() == old(self).bytes().len(),
            res is End ==> final(self).pos() == old(self).pos(),
            !(res is NoParse),
            res is Success ==> final(self).pos() == match_run_end(
                old(self).bytes(),
                SpaceOrNewline,
                old(self).pos(),
            ),
    {
        self.skip(&SpaceOrNewline)
    }

    /// One step of the lazy block sequence: drains the pending-output
    /// queue first, then invokes the block grammar once; the produced
    /// payload is fixed up against this engine's table as it flows out.
    /// With an empty queue, a block comes out exactly when a block
    /// position remains, and nothing comes out exactly on exhaustion — a
    /// bare non-match can never reach the consumer, because the grammar
    /// entry point is total.
    pub fn next(&mut self) -> (r: Option<Block>)
        requires
            old(self).wf(),
        ensures
            final(self).wf(),
            final(self).bytes() == old(self).bytes(),
            final(self).spec_config() == old(self).spec_config(),
            old(self).pos() <= final(self).pos() <= old(self).bytes().len(),
            (final(self).links() is Some) == (old(self).links() is Some),
            old(self).queue().len() > 0 ==> ({
                &&& final(self).queue() == old(self).queue().drop_first()
                &&& final(self).pos() == old(self).pos()
                &&& final(self).links() == old(self).links()
                &&& (r matches Some(b) && old(self).queue()[0].spec_fixed_by(
                    &b,
                    old(self).links(),
                ))
            }),
            old(self).queue().len() == 0 ==> final(self).queue().len() == 0,
            old(self).queue().len() == 0 ==> (r is None <==> next_block_pos(
                old(self).bytes(),
                old(self).pos(),
            ) == old(self).bytes().len()),
            old(self).queue().len() == 0 && r is None ==> final(self).pos()
                == old(self).bytes().len(),
            old(self).queue().len() == 0 ==> final(self).links() == (match old(self).links() {
                Some(t0) => Some(table_at_block(old(self).bytes(), old(self).pos(), t0)),
                None => None::<Map<Seq<u8>, LinkDefV>>,
            }),
            old(self).queue().len() == 0 ==> (r is Some ==> next_block_pos(
                old(self).bytes(),
                old(self).pos(),
            ) < old(self).bytes().len()),
            old(self).queue().len() == 0 ==> (r is Some ==> final(self).pos() == para_end(
                old(self).bytes(),
                next_block_pos(old(self).bytes(), old(self).pos()),
            )),
            old(self).queue().len() == 0 ==> (r matches Some(b) ==> produced_block(
                old(self).bytes(),
                next_block_pos(old(self).bytes(), old(self).pos()),
                b,
                final(self).links(),
            )),
    {
        let front = self.event_queue.pop_front();
        match front {
            Some(b) => Some(self.fix_links(b)),
            None => match self.parse_block() {
                ParseResult::Success(raw) => {
                    let ghost w = raw;
                    let fixed = self.fix_links(raw);
                    proof {
                        let s = old(self).bytes();
                        let np = next_block_pos(s, old(self).pos());
                        assert((#[trigger] w.spec_fixed_by(&fixed, self.links())) && (
                        w matches Block::Paragraph(inls) && inlines_match(
                            inline_split(s.subrange(np, para_content_end(s, np)), 0, 0),
                            inls@,
                        )));
                        assert(produced_block(s, np, fixed, self.links()));
                    }
                    Some(fixed)
                },
                ParseResult::End => None,
                ParseResult::NoParse => unreached(),
            },
        }
    }

    /// Invokes the grammar until exhaustion, collecting the produced raw
    /// blocks in order: exactly the blocks the document describes from the
    /// current position, while the table gathers every reference
    /// definition of the remaining input.
    fn collect_blocks(&mut self) -> (blocks: Vec<Block>)
        requires
            old(self).wf(),
        ensures
            final(self).wf(),
            final(self).bytes() == old(self).bytes(),
            final(self).pos() == old(self).bytes().len(),
            final(self).queue() == old(self).queue(),
            final(self).spec_config() == old(self).spec_config(),
            final(self).links() == (match old(self).links() {
                Some(t0) => Some(table_after(old(self).bytes(), old(self).pos(), t0)),
                None => None::<Map<Seq<u8>, LinkDefV>>,
            }),
            doc_rel(old(self).bytes(), old(self).pos(), blocks@),
        decreases old(self).bytes().len() - old(self).pos(),
    {
        let ghost s = old(self).bytes();
        let ghost p0 = old(self).pos();
        proof {
            if old(self).links() is Some {
                lemma_table_split(s, p0, old(self).links()->Some_0);
            }
        }
        match self.parse_block() {
            ParseResult::Success(b) => {
                let rest = self.collect_blocks();
                let ghost restv = rest@;
                let mut blocks = rest;
                blocks.insert(0, b);
                proof {
                    lemma_next_block_pos(s, p0);
                    assert(blocks@[0] == b);
                    assert(blocks@.drop_first() =~= restv);
                    assert(doc_rel(s, p0, blocks@));
                }
                blocks
            },
            ParseResult::End => {
                let blocks: Vec<Block> = Vec::new();
                proof {
                    assert(doc_rel(s, p0, blocks@));
                }
                blocks
            },
            ParseResult::NoParse => unreached(),
        }
    }

    /// Drives the whole remaining parse: drains the pending-output queue,
    /// then invokes the grammar until exhaustion. The result is the
    /// queue's content followed, in order, by exactly the blocks the
    /// document describes; across the full parse the consumed bytes add up
    /// to exactly the input length — the cursor ends at the end of the
    /// buffer, no byte skipped or double-counted — and the table has
    /// gathered every reference definition.
    pub fn parse_to_end(&mut self) -> (blocks: Vec<Block>)
        requires
            old(self).wf(),
        ensures
            final(self).wf(),
            final(self).bytes() == old(self).bytes(),
            final(self).pos() == old(self).bytes().len(),
            final(self).queue().len() == 0,
            final(self).spec_config() == old(self).spec_config(),
            final(self).links() == (match old(self).links() {
                Some(t0) => Some(table_after(old(self).bytes(), old(self).pos(), t0)),
                None => None::<Map<Seq<u8>, LinkDefV>>,
            }),
            blocks@.take(old(self).queue().len() as int) == old(self).queue(),
            doc_rel(
                old(self).bytes(),
                old(self).pos(),
                blocks@.skip(old(self).queue().len() as int),
            ),
    {
        let mut blocks: Vec<Block> = Vec::new();
        while self.event_queue.len() > 0
            invariant
                old(self).wf(),
                self.wf(),
                self.bytes() == old(self).bytes(),
                self.pos() == old(self).pos(),
                self.links() == old(self).links(),
                self.spec_config() == old(self).spec_config(),
                old(self).queue() == blocks@ + self.queue(),
            decreases self.queue().len(),
        {
            match self.event_queue.pop_front() {
                Some(b) => {
                    blocks.push(b);
                    proof {
                        assert(old(self).queue() =~= blocks@ + self.event_queue@);
                    }
                },
                None => {
                    proof {
                        assert(false);
                    }
                },
            }
        }
        let ghost qn = blocks@.len() as int;
        proof {
            assert(blocks@ =~= old(self).queue());
        }
        let mut rest = self.collect_blocks();
        let ghost restv = rest@;
        blocks.append(&mut rest);
        proof {
            assert(blocks@.take(qn) =~= old(self).queue());
            assert(blocks@.skip(qn) =~= restv);
        }
        blocks
    }

    /// Consumes the engine, drives the whole parse, and only then resolves
    /// reference links against the fully populated table: a reference used
    /// before its definition and one used after resolve identically.
    pub fn read_all(self) -> (doc: Document)
        requires
            self.wf(),
        ensures
            self.links() is Some ==> forall|i: int|
                0 <= i < doc@.len() ==> crate::tokens::block_resolved(#[trigger] doc@[i]),
            self.links() matches Some(t0) ==> exists|raw: Seq<Block>| {
                &&& raw.len() == doc@.len()
                &&& raw.take(self.queue().len() as int) == self.queue()
                &&& #[trigger] doc_rel(
                    self.bytes(),
                    self.pos(),
                    raw.skip(self.queue().len() as int),
                )
                &&& (forall|i: int| 0 <= i < raw.len() ==> block_fixed(
                    raw[i],
                    doc@[i],
                    Some(table_after(self.bytes(), self.pos(), t0)),
                ))
            },
    {
        let mut p = self;
        let mut blocks = p.parse_to_end();
        let ghost raw = blocks@;
        let ghost table = p.links();
        let mut i: usize = 0;
        while i < blocks.len()
            invariant
                0 <= i <= raw.len(),
                blocks@.len() == raw.len(),
                p.links() == table,
                forall|j: int| 0 <= j < i ==> raw[j].spec_fixed_by(&blocks@[j], table),
                forall|j: int| i <= j < raw.len() ==> blocks@[j] == raw[j],
            decreases raw.len() - i,
        {
            let mut tmp = Block::Paragraph(Vec::new());
            blocks.set_and_swap(i, &mut tmp);
            tmp = p.fix_links(tmp);
            blocks.set_and_swap(i, &mut tmp);
            i = i + 1;
        }
        proof {
            if self.links() is Some {
                let t = table->Some_0;
                assert forall|i: int| 0 <= i < blocks@.len() implies crate::tokens::block_resolved(
                    #[trigger] blocks@[i],
                ) by {
                    crate::tokens::lemma_fixed_is_resolved(raw[i], blocks@[i], t);
                }
                let t0 = self.links()->Some_0;
                assert(t == table_after(self.bytes(), self.pos(), t0));
                assert({
                    &&& raw.len() == blocks@.len()
                    &&& raw.take(self.queue().len() as int) == self.queue()
                    &&& #[trigger] doc_rel(
                        self.bytes(),
                        self.pos(),
                        raw.skip(self.queue().len() as int),
                    )
                    &&& (forall|i: int| 0 <= i < raw.len() ==> block_fixed(
                        raw[i],
                        blocks@[i],
                        Some(table_after(self.bytes(), self.pos(), t0)),
                    ))
                });
            }
        }
        blocks
    }
}

} // verus!
