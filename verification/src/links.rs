//! The link table: a mapping from case-insensitive label to a destination
//! record, populated monotonically as reference definitions are recognized
//! anywhere in the document.

use vstd::prelude::*;
use vstd::slice::{slice_index_get, slice_to_vec};

verus! {

/// The lowercase image of one byte: ASCII upper-case letters fold to their
/// lower-case counterparts, every other byte is unchanged.
pub open spec fn lower_byte(b: u8) -> u8 {
    if 65 <= b <= 90 {
        (b + 32) as u8
    } else {
        b
    }
}

/// Byte-wise ASCII lowercase of a whole sequence.
pub open spec fn lower_seq(s: Seq<u8>) -> Seq<u8> {
    Seq::new(s.len(), |i: int| lower_byte(s[i]))
}

/// Byte-wise ASCII lowercase, executably.
pub fn ascii_lowercase(s: &[u8]) -> (r: Vec<u8>)
    ensures
        r@ == lower_seq(s@),
{
    let mut out: Vec<u8> = Vec::new();
    let mut i: usize = 0;
    while i < s.len()
        invariant
            0 <= i <= s@.len(),
            out@.len() == i,
            forall|j: int| 0 <= j < i ==> out@[j] == lower_byte(s@[j]),
        decreases s@.len() - i,
    {
        let b = *slice_index_get(s, i);
        if 65 <= b && b <= 90 {
            out.push(b + 32);
        } else {
            out.push(b);
        }
        i = i + 1;
    }
    assert(out@ =~= lower_seq(s@));
    out
}

/// Byte-slice equality, executably.
pub fn bytes_eq(a: &[u8], b: &[u8]) -> (r: bool)
    ensures
        r == (a@ == b@),
{
    if a.len() != b.len() {
        assert(a@ != b@) by {
            assert(a@.len() != b@.len());
        }
        return false;
    }
    let mut i: usize = 0;
    while i < a.len()
        invariant
            0 <= i <= a@.len(),
            a@.len() == b@.len(),
            forall|j: int| 0 <= j < i ==> a@[j] == b@[j],
        decreases a@.len() - i,
    {
        if *slice_index_get(a, i) != *slice_index_get(b, i) {
            return false;
        }
        i = i + 1;
    }
    assert(a@ =~= b@);
    true
}

/// What a label resolves to: a destination plus an optional title.
#[derive(Clone, PartialEq, Eq, Debug)]
pub struct LinkDef {
    pub dest: Vec<u8>,
    pub title: Option<Vec<u8>>,
}

/// The specification-level content of a [`LinkDef`].
pub struct LinkDefV {
    pub dest: Seq<u8>,
    pub title: Option<Seq<u8>>,
}

impl View for LinkDef {
    type V = LinkDefV;

    open spec fn view(&self) -> LinkDefV {
        LinkDefV {
            dest: self.dest@,
            title: match self.title {
                Some(t) => Some(t@),
                None => None,
            },
        }
    }
}

impl LinkDef {
    /// A content-equal copy.
    pub fn duplicate(&self) -> (r: LinkDef)
        ensures
            r@ == self@,
    {
        let title = match &self.title {
            Some(t) => Some(slice_to_vec(t.as_slice())),
            None => None,
        };
        let r = LinkDef { dest: slice_to_vec(self.dest.as_slice()), title };
        assert(r@ == self@);
        r
    }
}

/// A label-to-destination table, keyed by the lowercase image of the
/// label. Its view is the map from folded labels to destination records;
/// a later definition of the same label replaces the earlier one.
pub struct LinkMap {
    entries: Vec<(Vec<u8>, LinkDef)>,
}

/// The map described by a sequence of entries, later entries winning.
pub closed spec fn map_of(s: Seq<(Vec<u8>, LinkDef)>) -> Map<Seq<u8>, LinkDefV>
    decreases s.len(),
{
    if s.len() == 0 {
        Map::empty()
    } else {
        map_of(s.drop_last()).insert(s.last().0@, s.last().1@)
    }
}

impl View for LinkMap {
    type V = Map<Seq<u8>, LinkDefV>;

    closed spec fn view(&self) -> Map<Seq<u8>, LinkDefV> {
        map_of(self.entries@)
    }
}

/// Entries at or after `i` never carry key `k`, so the map is settled by
/// the prefix before `i`.
proof fn lemma_map_of_prefix(s: Seq<(Vec<u8>, LinkDef)>, k: Seq<u8>, i: int)
    requires
        0 <= i <= s.len(),
        forall|j: int| i <= j < s.len() ==> s[j].0@ != k,
    ensures
        map_of(s).contains_key(k) == map_of(s.take(i)).contains_key(k),
        map_of(s).contains_key(k) ==> map_of(s)[k] == map_of(s.take(i))[k],
    decreases s.len() - i,
{
    if i == s.len() {
        assert(s.take(i) =~= s);
    } else {
        lemma_map_of_prefix(s, k, i + 1);
        assert(s.take(i + 1).drop_last() =~= s.take(i));
        assert(s.take(i + 1).last() == s[i]);
    }
}

impl LinkMap {
    /// An empty table.
    pub fn new() -> (m: LinkMap)
        ensures
            m@ == Map::<Seq<u8>, LinkDefV>::empty(),
    {
        LinkMap { entries: Vec::new() }
    }

    /// Records a definition under the case-folded image of `label`; a
    /// previous definition of the same folded label is superseded.
    pub fn insert(&mut self, label: &[u8], def: LinkDef)
        ensures
            final(self)@ == old(self)@.insert(lower_seq(label@), def@),
    {
        let key = ascii_lowercase(label);
        let ghost before = self.entries@;
        self.entries.push((key, def));
        proof {
            assert(self.entries@.drop_last() =~= before);
        }
    }

    /// Looks a label up under its case-folded image.
    pub fn lookup(&self, label: &[u8]) -> (r: Option<&LinkDef>)
        ensures
            match r {
                Some(d) => self@.contains_key(lower_seq(label@))
                    && d@ == self@[lower_seq(label@)],
                None => !self@.contains_key(lower_seq(label@)),
            },
    {
        let key = ascii_lowercase(label);
        let ghost k = lower_seq(label@);
        let mut i: usize = self.entries.len();
        while i > 0
            invariant
                0 <= i <= self.entries@.len(),
                key@ == k,
                k == lower_seq(label@),
                forall|j: int| i <= j < self.entries@.len() ==> self.entries@[j].0@ != k,
            decreases i,
        {
            i = i - 1;
            let e = slice_index_get(self.entries.as_slice(), i);
            if bytes_eq(e.0.as_slice(), key.as_slice()) {
                proof {
                    lemma_map_of_prefix(self.entries@, k, i + 1);
                    assert(self.entries@.take(i + 1).drop_last() =~= self.entries@.take(
                        i as int,
                    ));
                    assert(self.entries@.take(i + 1).last() == self.entries@[i as int]);
                    assert(self.entries@[i as int].0@ == k);
                    assert(map_of(self.entries@.take(i + 1)) == map_of(
                        self.entries@.take(i as int),
                    ).insert(self.entries@[i as int].0@, self.entries@[i as int].1@));
                    assert(self@.contains_key(k));
                    assert(self@[k] == self.entries@[i as int].1@);
                }
                return Some(&e.1);
            }
        }
        proof {
            lemma_map_of_prefix(self.entries@, k, 0);
            assert(self.entries@.take(0) =~= Seq::<(Vec<u8>, LinkDef)>::empty());
        }
        None
    }
}

} // verus!
