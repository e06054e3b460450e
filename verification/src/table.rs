//! The block table and its codepoint lookup.

use vstd::prelude::*;

verus! {

/// One parsed line: an inclusive codepoint range and the block's name,
/// owned independently of the source text.
#[derive(Debug, PartialEq, Eq)]
pub struct BlockEntry {
    pub start: u32,
    pub end: u32,
    pub name: String,
}

/// The mathematical value of a `BlockEntry`.
pub ghost struct EntryV {
    pub start: u32,
    pub end: u32,
    pub name: Seq<char>,
}

impl View for BlockEntry {
    type V = EntryV;

    open spec fn view(&self) -> EntryV {
        EntryV { start: self.start, end: self.end, name: self.name@ }
    }
}

/// Whether codepoint `cp` lies in `e`'s inclusive range.
pub open spec fn entry_contains(e: EntryV, cp: u32) -> bool {
    e.start <= cp && cp <= e.end
}

/// Each range runs upward and the ranges are ascending and disjoint: what
/// binary search relies on. This holds of well-formed `Blocks.txt` data but
/// is deliberately never validated; on data that violates it, lookup still
/// returns without fault, but may miss a listed range.
pub open spec fn sorted_disjoint(es: Seq<EntryV>) -> bool {
    &&& forall|i: int| 0 <= i < es.len() ==> (#[trigger] es[i]).start <= es[i].end
    &&& forall|i: int, j: int| 0 <= i < j < es.len() ==> es[i].end < es[j].start
}

/// What lookup owes for `cp`: the name of a range holding it, or the
/// `No_Block` sentinel when none does.
pub open spec fn block_name(es: Seq<EntryV>, cp: u32) -> Seq<char> {
    if exists|i: int| 0 <= i < es.len() && entry_contains(es[i], cp) {
        es[choose|i: int| 0 <= i < es.len() && entry_contains(es[i], cp)].name
    } else {
        "No_Block"@
    }
}

/// The index the three-way bisection of `es[lo..hi]` lands on for `cp`:
/// entries whose range ends below `cp` compare less, entries starting above
/// it compare greater, and an entry whose range holds `cp` matches. This is
/// what lookup computes on every table, sorted or not.
pub open spec fn bisect(es: Seq<EntryV>, cp: u32, lo: int, hi: int) -> Option<int>
    decreases hi - lo,
{
    if lo < 0 || lo >= hi || hi > es.len() {
        None
    } else {
        let mid = lo + (hi - lo) / 2;
        if es[mid].end < cp {
            bisect(es, cp, mid + 1, hi)
        } else if cp < es[mid].start {
            bisect(es, cp, lo, mid)
        } else {
            Some(mid)
        }
    }
}

/// The name the bisection finds for `cp`, or the `No_Block` sentinel: a
/// pure function of the table and the codepoint, so equal queries on equal
/// tables always answer alike.
pub open spec fn bisect_name(es: Seq<EntryV>, cp: u32) -> Seq<char> {
    match bisect(es, cp, 0, es.len() as int) {
        Some(i) => es[i].name,
        None => "No_Block"@,
    }
}

/// Under `sorted_disjoint`, at most one range holds a codepoint.
pub proof fn lemma_container_unique(es: Seq<EntryV>, cp: u32, i: int, j: int)
    requires
        sorted_disjoint(es),
        0 <= i < es.len(),
        0 <= j < es.len(),
        entry_contains(es[i], cp),
        entry_contains(es[j], cp),
    ensures
        i == j,
{
}

/// Law: a codepoint inside a listed range is owed that range's exact name.
pub proof fn lemma_block_name_hit(es: Seq<EntryV>, cp: u32, i: int)
    requires
        sorted_disjoint(es),
        0 <= i < es.len(),
        entry_contains(es[i], cp),
    ensures
        block_name(es, cp) == es[i].name,
{
    let w = choose|k: int| 0 <= k < es.len() && entry_contains(es[k], cp);
    lemma_container_unique(es, cp, i, w);
}

/// Law: a codepoint in a gap between listed ranges, or outside them all, is
/// owed the `No_Block` sentinel.
pub proof fn lemma_block_name_miss(es: Seq<EntryV>, cp: u32)
    requires
        forall|i: int| 0 <= i < es.len() ==> !entry_contains(#[trigger] es[i], cp),
    ensures
        block_name(es, cp) == "No_Block"@,
{
}

/// An ordered table of block entries, built once by parsing and immutable
/// afterwards. Entries keep the order of the source lines; lookup trusts
/// that order (see `sorted_disjoint`).
#[derive(Debug, PartialEq, Eq)]
pub struct Blocks {
    pub(crate) ranges: Vec<BlockEntry>,
}

/// The mathematical values of a sequence of entries.
pub open spec fn views_of(entries: Seq<BlockEntry>) -> Seq<EntryV> {
    entries.map_values(|e: BlockEntry| e@)
}

impl View for Blocks {
    type V = Seq<EntryV>;

    closed spec fn view(&self) -> Seq<EntryV> {
        views_of(self.ranges@)
    }
}

impl Blocks {
    /// Wrap already-parsed entries, kept in the given order.
    pub(crate) fn from_entries(ranges: Vec<BlockEntry>) -> (r: Blocks)
        ensures
            r@ == views_of(ranges@),
    {
        Blocks { ranges }
    }

    /// The parsed entries, in source order.
    pub fn entries(&self) -> (r: &Vec<BlockEntry>)
        ensures
            views_of(r@) == self@,
    {
        &self.ranges
    }

    /// The name of the block whose range holds `c`, or `No_Block` when no
    /// listed range does. The answer is always `bisect_name`, a pure
    /// function of the table and the codepoint; whenever the table is
    /// `sorted_disjoint` that equals `block_name`, the containing range's
    /// exact name; and whatever the table holds, a non-sentinel answer is
    /// the name of a range that really contains `c`.
    pub fn block_of(&self, c: char) -> (r: &str)
        ensures
            r@ == bisect_name(self@, c as u32),
            sorted_disjoint(self@) ==> r@ == block_name(self@, c as u32),
            r@ == "No_Block"@ || exists|i: int|
                0 <= i < self@.len() && entry_contains(#[trigger] self@[i], c as u32) && r@
                    == self@[i].name,
    {
        let cp = c as u32;
        let mut lo: usize = 0;
        let mut hi: usize = self.ranges.len();
        while lo < hi
            invariant
                cp == c as u32,
                lo <= hi <= self.ranges@.len(),
                self@.len() == self.ranges@.len(),
                bisect(self@, cp, lo as int, hi as int) == bisect(
                    self@,
                    cp,
                    0,
                    self@.len() as int,
                ),
                sorted_disjoint(self@) ==> forall|i: int|
                    0 <= i < lo ==> (#[trigger] self@[i]).end < cp,
                sorted_disjoint(self@) ==> forall|i: int|
                    hi <= i < self@.len() ==> cp < (#[trigger] self@[i]).start,
            decreases hi - lo,
        {
            let mid = lo + (hi - lo) / 2;
            let e = &self.ranges[mid];
            assert(e@ == self@[mid as int]);
            if e.end < cp {
                lo = mid + 1;
            } else if cp < e.start {
                hi = mid;
            } else {
                proof {
                    if sorted_disjoint(self@) {
                        lemma_block_name_hit(self@, cp, mid as int);
                    }
                }
                assert(entry_contains(self@[mid as int], cp));
                return e.name.as_str();
            }
        }
        proof {
            if sorted_disjoint(self@) {
                lemma_block_name_miss(self@, cp);
            }
        }
        "No_Block"
    }
}

} // verus!
