//! Document nodes produced by the engine, and the fixup capability that
//! resolves reference-style links against a link table.

use vstd::prelude::*;
use vstd::slice::{slice_index_get, slice_to_vec};
use crate::links::{lower_seq, LinkDefV, LinkMap};

verus! {

/// A piece of inline content. The engine itself treats inline payloads as
/// opaque apart from their fixup capability; an unresolved reference is
/// never an error, it degrades to literal text.
#[derive(PartialEq, Eq, Debug)]
pub enum Inline {
    /// Literal text.
    Text(Vec<u8>),
    /// A reference-style link whose label has not been resolved yet.
    RefLink { label: Vec<u8>, text: Vec<u8> },
    /// A fully resolved link.
    Link { dest: Vec<u8>, title: Option<Vec<u8>>, text: Vec<u8> },
}

/// A block-level document node.
#[derive(PartialEq, Eq, Debug)]
pub enum Block {
    /// A run of inline content.
    Paragraph(Vec<Inline>),
}

/// An ordered document: what exhaustive consumption of the engine yields.
pub type Document = Vec<Block>;

/// The specification-level content of an optional link table.
pub open spec fn table_view(t: Option<&LinkMap>) -> Option<Map<Seq<u8>, LinkDefV>> {
    match t {
        Some(m) => Some(m@),
        None => None,
    }
}

/// The literal textual form a reference degrades to when its label stays
/// unresolved: the display text back between its brackets.
pub open spec fn bracketed(text: Seq<u8>) -> Seq<u8> {
    seq![91u8] + text + seq![93u8]
}

/// How one inline relates to its fixed-up form. Without a table (a forked,
/// table-less engine) everything flows through unchanged. With a table, an
/// unresolved reference becomes a resolved link when its case-folded label
/// is defined, and degrades to literal text otherwise; text and resolved
/// links pass through unchanged.
pub open spec fn inline_fixed(
    orig: Inline,
    fixed: Inline,
    t: Option<Map<Seq<u8>, LinkDefV>>,
) -> bool {
    match orig {
        Inline::RefLink { label, text } => match t {
            None => fixed == orig,
            Some(m) => if m.contains_key(lower_seq(label@)) {
                &&& fixed matches Inline::Link { dest, title, text: ftext }
                &&& dest@ == m[lower_seq(label@)].dest
                &&& (match (title, m[lower_seq(label@)].title) {
                    (Some(a), Some(b)) => a@ == b,
                    (None, None) => true,
                    _ => false,
                })
                &&& ftext@ == text@
            } else {
                fixed matches Inline::Text(v) && v@ == bracketed(text@)
            },
        },
        _ => fixed == orig,
    }
}

/// How one block relates to its fixed-up form: each inline of a paragraph
/// is fixed up in place.
pub open spec fn block_fixed(
    orig: Block,
    fixed: Block,
    t: Option<Map<Seq<u8>, LinkDefV>>,
) -> bool {
    match orig {
        Block::Paragraph(inls) => {
            &&& fixed matches Block::Paragraph(f)
            &&& f@.len() == inls@.len()
            &&& forall|i: int| 0 <= i < inls@.len() ==> inline_fixed(inls@[i], f@[i], t)
        },
    }
}

/// No unresolved reference remains in the inline.
pub open spec fn inline_resolved(i: Inline) -> bool {
    !(i is RefLink)
}

/// No unresolved reference remains anywhere in the block.
pub open spec fn block_resolved(b: Block) -> bool {
    match b {
        Block::Paragraph(inls) => forall|k: int|
            0 <= k < inls@.len() ==> inline_resolved(#[trigger] inls@[k]),
    }
}

/// Fixup against a table leaves no unresolved reference behind: every
/// reference either resolves to a concrete destination or degrades to its
/// literal textual form — never an error, and never an unresolved payload
/// flowing out of a table-owning engine.
pub proof fn lemma_fixed_is_resolved(orig: Block, fixed: Block, t: Map<Seq<u8>, LinkDefV>)
    requires
        block_fixed(orig, fixed, Some(t)),
    ensures
        block_resolved(fixed),
{
    match orig {
        Block::Paragraph(inls) => {
            match fixed {
                Block::Paragraph(f) => {
                    assert forall|k: int| 0 <= k < f@.len() implies inline_resolved(
                        #[trigger] f@[k],
                    ) by {
                        assert(inline_fixed(inls@[k], f@[k], Some(t)));
                    }
                },
            }
        },
    }
}

/// The fixup capability every payload flowing out of a table-owning engine
/// exposes: resolve embedded unresolved references against an optional
/// link table, in place.
pub trait FixLinks: Sized {
    /// The relation between the payload before fixup and after it.
    spec fn spec_fixed_by(&self, fixed: &Self, t: Option<Map<Seq<u8>, LinkDefV>>) -> bool;

    /// Resolves embedded unresolved references against `table`; an
    /// unresolved label degrades to literal text, and without a table the
    /// payload is left unchanged.
    fn fix_links_opt(&mut self, table: Option<&LinkMap>)
        ensures
            old(self).spec_fixed_by(final(self), table_view(table)),
    ;
}

/// The display text back between its brackets, executably.
fn bracketed_text(text: &[u8]) -> (r: Vec<u8>)
    ensures
        r@ == bracketed(text@),
{
    let mut v: Vec<u8> = Vec::new();
    v.push(91);
    let mut i: usize = 0;
    while i < text.len()
        invariant
            0 <= i <= text@.len(),
            v@.len() == i + 1,
            v@[0] == 91u8,
            forall|j: int| 0 <= j < i ==> v@[j + 1] == text@[j],
        decreases text@.len() - i,
    {
        v.push(*slice_index_get(text, i));
        i = i + 1;
    }
    v.push(93);
    assert(v@ =~= bracketed(text@));
    v
}

impl FixLinks for Inline {
    open spec fn spec_fixed_by(&self, fixed: &Inline, t: Option<Map<Seq<u8>, LinkDefV>>) -> bool {
        inline_fixed(*self, *fixed, t)
    }

    fn fix_links_opt(&mut self, table: Option<&LinkMap>)
        ensures
            old(self).spec_fixed_by(final(self), table_view(table)),
    {
        let m = match table {
            Some(m) => m,
            None => {
                return ;
            },
        };
        let replacement = match &*self {
            Inline::RefLink { label, text } => match m.lookup(label.as_slice()) {
                Some(d) => {
                    let def = d.duplicate();
                    Some(
                        Inline::Link {
                            dest: def.dest,
                            title: def.title,
                            text: slice_to_vec(text.as_slice()),
                        },
                    )
                },
                None => Some(Inline::Text(bracketed_text(text.as_slice()))),
            },
            _ => None,
        };
        if let Some(r) = replacement {
            *self = r;
        }
    }
}

impl FixLinks for Block {
    open spec fn spec_fixed_by(&self, fixed: &Block, t: Option<Map<Seq<u8>, LinkDefV>>) -> bool {
        block_fixed(*self, *fixed, t)
    }

    fn fix_links_opt(&mut self, table: Option<&LinkMap>)
        ensures
            old(self).spec_fixed_by(final(self), table_view(table)),
    {
        match self {
            Block::Paragraph(inls) => {
                let ghost orig = inls@;
                let mut i: usize = 0;
                while i < inls.len()
                    invariant
                        0 <= i <= orig.len(),
                        inls@.len() == orig.len(),
                        forall|j: int| 0 <= j < i ==> inline_fixed(
                            orig[j],
                            inls@[j],
                            table_view(table),
                        ),
                        forall|j: int| i <= j < orig.len() ==> inls@[j] == orig[j],
                    decreases orig.len() - i,
                {
                    let mut tmp = Inline::Text(Vec::new());
                    inls.set_and_swap(i, &mut tmp);
                    tmp.fix_links_opt(table);
                    inls.set_and_swap(i, &mut tmp);
                    i = i + 1;
                }
            },
        }
    }
}

} // verus!
