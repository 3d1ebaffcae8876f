//! Access to the frames that hold page tables.

use super::paging::{PageTable, PageTableEntry};
use crate::common::PhysAddr;
use vstd::prelude::*;

verus! {

/// The number of entries of a table.
pub const ENTRIES: usize = 512;

/// The way from the physical address of a table to its entries.
///
/// Page tables name each other by physical address. Whoever builds them
/// must read and write them by some other way: through a mapping of
/// physical memory at its own addresses, through one at a fixed offset, or
/// in a store that stands for memory. A type of this trait is such a way.
pub trait TableMemory {
    /// What holds of the memory between calls.
    spec fn inv(&self) -> bool;

    /// Entry `index` of the table in frame `pfn`, as the memory holds it.
    spec fn entry(&self, pfn: u64, index: usize) -> u64;

    /// Entry `index` of the table at `table`, to read and to write. Nothing
    /// else in memory changes by what is written to it.
    fn entry_mut(&mut self, table: &PhysAddr<PageTable>, index: usize) -> (entry:
        &mut PageTableEntry)
        requires
            old(self).inv(),
            index < ENTRIES,
        ensures
            final(self).inv(),
            entry.0 == old(self).entry(table.spec_pfn(), index),
            forall|pfn: u64, i: usize|
                #![trigger final(self).entry(pfn, i)]
                i < ENTRIES ==> final(self).entry(pfn, i) == if pfn == table.spec_pfn() && i
                    == index {
                    final(entry).0
                } else {
                    old(self).entry(pfn, i)
                },
    ;

    /// Clears every entry of the table at `table`.
    fn zero_table(&mut self, table: &PhysAddr<PageTable>)
        requires
            old(self).inv(),
        ensures
            final(self).inv(),
            forall|pfn: u64, i: usize|
                #![trigger final(self).entry(pfn, i)]
                i < ENTRIES ==> final(self).entry(pfn, i) == if pfn == table.spec_pfn() {
                    0
                } else {
                    old(self).entry(pfn, i)
                },
    ;
}

/// A table whose entries are all zero.
fn zeroed_table() -> (table: PageTable)
    ensures
        forall|i: int| 0 <= i < ENTRIES ==> (#[trigger] table.entries@[i]).0 == 0,
{
    broadcast use vstd::array::group_array_axioms;

    let entries: [PageTableEntry; 512] = [PageTableEntry(0);512];
    assert(entries == vstd::array::spec_array_fill_for_copy_type::<PageTableEntry, 512>(
        PageTableEntry(0),
    ));
    PageTable { entries }
}

/// The place of `pfn` in `frames`, if it occurs there.
pub open spec fn place_of(frames: Seq<u64>, pfn: u64) -> Option<int> {
    if exists|k: int| 0 <= k < frames.len() && frames[k] == pfn {
        Some(choose|k: int| 0 <= k < frames.len() && frames[k] == pfn)
    } else {
        None
    }
}

proof fn lemma_place_of(frames: Seq<u64>, pfn: u64, k: int)
    requires
        frames.no_duplicates(),
        0 <= k < frames.len(),
        frames[k] == pfn,
    ensures
        place_of(frames, pfn) == Some(k),
{
}

proof fn lemma_place_of_push(frames: Seq<u64>, added: u64, pfn: u64)
    requires
        frames.no_duplicates(),
        place_of(frames, added) is None,
    ensures
        frames.push(added).no_duplicates(),
        place_of(frames.push(added), pfn) == if pfn == added {
            Some(frames.len() as int)
        } else {
            place_of(frames, pfn)
        },
{
    let pushed = frames.push(added);
    assert(pushed.no_duplicates()) by {
        assert forall|i: int, j: int|
            0 <= i < pushed.len() && 0 <= j < pushed.len() && i != j implies pushed[i]
            != pushed[j] by {
            if i < frames.len() && j < frames.len() {
            } else if i < frames.len() {
                assert(frames[i] != added);
            } else {
                assert(frames[j] != added);
            }
        }
    }
    if pfn == added {
        lemma_place_of(pushed, pfn, frames.len() as int);
    } else {
        match place_of(frames, pfn) {
            Some(k) => {
                assert(pushed[k] == pfn);
                lemma_place_of(pushed, pfn, k);
            },
            None => {
                assert forall|k: int| 0 <= k < pushed.len() implies pushed[k] != pfn by {
                    if k < frames.len() {
                        assert(frames[k] != pfn);
                    }
                }
            },
        }
    }
}

/// A store that stands for physical memory: it keeps the tables that were
/// written to, by frame, and reads every other frame as zeros.
pub struct SparseMemory {
    frames: Vec<u64>,
    tables: Vec<PageTable>,
}

impl SparseMemory {
    /// A memory that reads as zeros everywhere.
    pub fn new() -> (memory: Self)
        ensures
            memory.inv(),
            memory.kept() == 0,
            forall|pfn: u64, i: usize| memory.entry(pfn, i) == 0,
    {
        Self { frames: Vec::new(), tables: Vec::new() }
    }

    /// The number of frames that the store keeps a table for.
    pub closed spec fn kept(&self) -> nat {
        self.frames@.len()
    }

    /// Whether the store keeps a table for frame `pfn`.
    pub closed spec fn keeps(&self, pfn: u64) -> bool {
        place_of(self.frames@, pfn) is Some
    }

    /// The number of frames that the store keeps a table for: those that an
    /// entry was asked for.
    pub fn frames_kept(&self) -> (count: usize)
        requires
            self.inv(),
        ensures
            count == self.kept(),
    {
        self.frames.len()
    }

    /// Entry `index` of the table in frame `pfn`.
    pub fn read(&self, pfn: u64, index: usize) -> (raw: u64)
        requires
            self.inv(),
            index < ENTRIES,
        ensures
            raw == self.entry(pfn, index),
    {
        match self.find(pfn) {
            Some(place) => self.tables[place].entries[index].0,
            None => 0,
        }
    }

    fn find(&self, pfn: u64) -> (place: Option<usize>)
        requires
            self.inv(),
        ensures
            place matches Some(p) ==> p < self.frames@.len(),
            place_of(self.frames@, pfn) == match place {
                Some(p) => Some(p as int),
                None => None,
            },
    {
        let mut i: usize = 0;
        while i < self.frames.len()
            invariant
                self.inv(),
                i <= self.frames@.len(),
                forall|j: int| 0 <= j < i ==> self.frames@[j] != pfn,
            decreases self.frames@.len() - i,
        {
            if self.frames[i] == pfn {
                proof {
                    lemma_place_of(self.frames@, pfn, i as int);
                }
                return Some(i);
            }
            i += 1;
        }
        None
    }
}

impl TableMemory for SparseMemory {
    /// Each frame is kept once, with its table.
    closed spec fn inv(&self) -> bool {
        &&& self.frames@.len() == self.tables@.len()
        &&& self.frames@.no_duplicates()
    }

    closed spec fn entry(&self, pfn: u64, index: usize) -> u64 {
        match place_of(self.frames@, pfn) {
            Some(place) => self.tables@[place].entries@[index as int].0,
            None => 0,
        }
    }

    /// The store keeps a table for the frame from now on.
    fn entry_mut(&mut self, table: &PhysAddr<PageTable>, index: usize) -> (entry:
        &mut PageTableEntry)
        ensures
            final(self).keeps(table.spec_pfn()),
            final(self).kept() == old(self).kept() + if old(self).keeps(table.spec_pfn()) {
                0int
            } else {
                1int
            },
    {
        let pfn: u64 = table.pfn();
        let place: usize = match self.find(pfn) {
            Some(place) => place,
            None => {
                proof {
                    assert forall|q: u64|
                        place_of(self.frames@.push(pfn), q) == if q == pfn {
                            Some(self.frames@.len() as int)
                        } else {
                            place_of(self.frames@, q)
                        } by {
                        lemma_place_of_push(self.frames@, pfn, q);
                    }
                    lemma_place_of_push(self.frames@, pfn, pfn);
                }
                self.frames.push(pfn);
                self.tables.push(zeroed_table());
                self.frames.len() - 1
            },
        };
        proof {
            assert forall|q: u64| q != pfn implies place_of(self.frames@, q) != Some(
                place as int,
            ) by {
                if place_of(self.frames@, q) == Some(place as int) {
                    assert(self.frames@[place as int] == q);
                }
            }
        }
        &mut self.tables[place].entries[index]
    }

    /// A frame that the store keeps no table for stays so: it reads as
    /// zeros as it is.
    fn zero_table(&mut self, table: &PhysAddr<PageTable>)
        ensures
            final(self).kept() == old(self).kept(),
            forall|pfn: u64| final(self).keeps(pfn) == old(self).keeps(pfn),
    {
        let pfn: u64 = table.pfn();
        match self.find(pfn) {
            Some(place) => {
                proof {
                    assert forall|q: u64| q != pfn implies place_of(self.frames@, q) != Some(
                        place as int,
                    ) by {
                        if place_of(self.frames@, q) == Some(place as int) {
                            assert(self.frames@[place as int] == q);
                        }
                    }
                }
                let zeroed = zeroed_table();
                self.tables[place] = zeroed;
            },
            None => {},
        }
    }
}

} // verus!
