//! The mapper that builds a hierarchy from nothing.

use super::model::{
    entry_at, extends, grows, hierarchy_inv, map_leaf_outcome, missing_tables, outcome_of,
    path_state, refusal, same_entries, same_frames, translate, translation_after, unchanged,
    written, PathState, Shape,
};
use super::range::{
    greedy_stats, leaf_boundary, made_for_range, range_translation, refused_at, stopped_at,
    table_bound, PAGES_IN_FOUR_LEVELS,
};
use super::walk::{alloc_zeroed_table, map_leaf, map_range};
use crate::common::{PagingLevel, PhysAddr, PhysWidth, VirtAddr};
use crate::mmu::memory::{TableMemory, ENTRIES};
use crate::mmu::paging::{CommonMappedEntry, PageTable};
use crate::mmu::view::{lemma_zero_entry, LeafFlags};
use crate::pmm::{fewer_free_than, frames_taken, free_frames, no_frame_free, FrameAllocator};
use vstd::prelude::*;

verus! {

/// Why a mapping could not be made.
#[derive(Debug, PartialEq, Eq, Clone, Copy, Structural)]
pub enum Error {
    /// No frame for the root table.
    L4Allocation,
    /// No frame for a table below the root.
    TableAllocation,
    /// An address does not lie on a boundary of the page size.
    MisalignedAddress,
    /// The level cannot hold what was asked for.
    InvalidLevel,
    /// Something is mapped there already.
    EntryInUse,
}

/// How many leaves of each level a mapping took.
pub struct HelperStats {
    pub three: usize,
    pub two: usize,
    pub one: usize,
}

/// A hierarchy of four levels under construction, with the allocator that
/// gives the frames for its tables and the memory that holds them.
pub struct Mapper<'a, FA: FrameAllocator, M: TableMemory> {
    pub pml4: PhysAddr<PageTable>,
    pub fa: &'a mut FA,
    pub mem: &'a mut M,
    pub width: PhysWidth,
    pub shape: Ghost<Shape>,
}

impl<'a, FA: FrameAllocator, M: TableMemory> Mapper<'a, FA, M> {
    /// The frame of the root table.
    pub open spec fn root(&self) -> u64 {
        self.pml4.spec_pfn()
    }

    /// The tables of the hierarchy are in use with the allocator, and their
    /// directories point to tables of the hierarchy.
    pub open spec fn wf(&self) -> bool {
        &&& self.pml4.wf()
        &&& self.pml4.spec_offset() == 0
        &&& self.pml4.spec_width() == self.width
        &&& hierarchy_inv(self.shape@, self.fa, self.mem, self.root(), self.width)
    }

    /// The leaf that translates page `v`, with its level, where the page is
    /// mapped.
    pub open spec fn translation(&self, v: u64) -> Option<(PagingLevel, u64)> {
        translate(self.mem, self.root(), self.width, v)
    }

    /// The entry that the walk for page `vpn` reads in the table of
    /// `level`, where it arrives there.
    pub open spec fn entry_for(&self, vpn: u64, level: PagingLevel) -> Option<u64> {
        entry_at(self.mem, self.root(), self.width, vpn, level)
    }

    /// How far the tables lead on the way of page `vpn` to the table of
    /// `level`.
    pub open spec fn path_to(&self, vpn: u64, level: PagingLevel) -> PathState {
        path_state(self.mem, self.root(), self.width, vpn, level)
    }

    /// Whether the mapper has the root and the width of `before`, and its
    /// hierarchy has grown from that of `before`: the tables stay, their
    /// present entries stay, and no frame in use has become free.
    pub open spec fn grown_from(&self, before: &Self) -> bool {
        &&& self.pml4 == before.pml4
        &&& self.width == before.width
        &&& grows(before.shape@, before.fa, before.mem, self.shape@, self.fa, self.mem)
    }

    /// Whether the hierarchy has grown from that of `before` by a walk for
    /// page `vpn` toward a leaf of `level`, which wrote `leaf`: nothing
    /// else has changed in it.
    pub open spec fn walked_from(
        &self,
        before: &Self,
        vpn: u64,
        level: PagingLevel,
        leaf: Option<u64>,
    ) -> bool {
        &&& self.grown_from(before)
        &&& extends(
            before.shape@,
            before.fa,
            before.mem,
            self.shape@,
            self.fa,
            self.mem,
            vpn,
            level,
            leaf,
        )
    }

    /// Whether tables and allocator are as they were with `before`.
    pub open spec fn same_as(&self, before: &Self) -> bool {
        &&& self.pml4 == before.pml4
        &&& self.width == before.width
        &&& unchanged(before.shape@, before.fa, before.mem, self.shape@, self.fa, self.mem)
    }

    /// A mapper with a new root table, which is empty. The width must be
    /// able to address every frame of the allocator. Fails with
    /// `L4Allocation` where the allocator has no free frame, and only
    /// there.
    pub fn new(fa: &'a mut FA, mem: &'a mut M, width: PhysWidth) -> (mapper: Result<Self, Error>)
        requires
            old(fa).inv(),
            old(mem).inv(),
            forall|pfn: u64| old(fa).manages(pfn) ==> width.spec_is_pfn_valid(pfn),
        ensures
            match mapper {
                Ok(m) => {
                    &&& m.wf()
                    &&& m.width == width
                    &&& old(fa).is_free(m.root())
                    &&& !m.fa.is_free(m.root())
                    &&& forall|pfn: u64|
                        pfn != m.root() ==> m.fa.is_free(pfn) == old(fa).is_free(pfn)
                    &&& forall|pfn: u64, i: usize|
                        #![trigger m.mem.entry(pfn, i)]
                        i < ENTRIES ==> m.mem.entry(pfn, i) == if pfn == m.root() {
                            0
                        } else {
                            old(mem).entry(pfn, i)
                        }
                    &&& *final(fa) == *final(m.fa)
                    &&& *final(mem) == *final(m.mem)
                },
                Err(error) => error == Error::L4Allocation && same_entries(final(mem), old(mem))
                    && same_frames(final(fa), old(fa)) && final(mem).inv() && final(fa).inv()
                    && no_frame_free(final(fa)),
            },
            mapper is Err <==> no_frame_free(old(fa)),
    {
        match alloc_zeroed_table(fa, mem, width) {
            Some(pml4) => {
                let ghost shape = Map::<u64, Seq<usize>>::empty().insert(
                    pml4.spec_pfn(),
                    Seq::<usize>::empty(),
                );
                proof {
                    use_type_invariant(width);
                    lemma_zero_entry();
                }
                Ok(Self { pml4, fa, mem, width, shape: Ghost(shape) })
            },
            None => Err(Error::L4Allocation),
        }
    }

    /// The address of the root table.
    pub fn pml4(&self) -> (pml4: &PhysAddr<PageTable>)
        ensures
            *pml4 == self.pml4,
    {
        &self.pml4
    }

    /// The allocator, to take frames from it beside the mapper. The mapper
    /// stays valid while no frame that holds one of its tables is given
    /// back.
    pub fn allocator(&mut self) -> (fa: &mut FA)
        ensures
            *fa == *old(self).fa,
            *final(self).fa == *final(fa),
            *final(final(self).fa) == *final(old(self).fa),
            final(self).pml4 == old(self).pml4,
            final(self).width == old(self).width,
            final(self).shape == old(self).shape,
            final(self).mem == old(self).mem,
    {
        &mut *self.fa
    }

    /// Maps the page of `va` to the page at `pa` by a leaf of `level`.
    ///
    /// The level must be one, two or three: `InvalidLevel` otherwise. The
    /// walk goes from the root down to the table of the level. An entry
    /// on its way that is not present gets a new empty table, with the
    /// most permissive flags; where the allocator has no frame for it the
    /// walk fails with `TableAllocation`. An entry on its way that maps a
    /// page ends it with `EntryInUse`. At the table of the level the virtual
    /// address must lie on the boundary of the page size
    /// (`MisalignedAddress`), the entry must not be present (`EntryInUse`),
    /// and the physical address must start a frame on the boundary
    /// (`MisalignedAddress`). Tables made on the way stay where the leaf
    /// is refused. A page that was mapped before is mapped as it was
    /// after, and after each error the tables say why it came.
    ///
    /// The walk takes a frame for each table that is missing, and no
    /// other: it fails with `TableAllocation` where the allocator has
    /// fewer free frames than tables are missing, and only there.
    pub fn map_leaf(
        &mut self,
        va: VirtAddr<false, ()>,
        pa: PhysAddr<()>,
        flags: &LeafFlags,
        level: PagingLevel,
    ) -> (leaf: Result<CommonMappedEntry, Error>)
        requires
            old(self).wf(),
        ensures
            final(self).wf(),
            *final(final(self).fa) == *final(old(self).fa),
            *final(final(self).mem) == *final(old(self).mem),
            map_leaf_outcome(
                old(self).mem,
                old(self).root(),
                old(self).width,
                va.spec_vpn(),
                pa.spec_pfn(),
                pa.spec_offset(),
                *flags,
                level,
                outcome_of(leaf),
            ),
            final(self).walked_from(old(self), va.spec_vpn(), level, written(leaf)),
            leaf matches Ok(entry) ==> final(self).entry_for(va.spec_vpn(), level) == Some(entry.0),
            leaf is Err && !(old(self).path_to(va.spec_vpn(), level) is Missing)
                ==> final(self).same_as(old(self)),
            outcome_of(leaf) == Err::<u64, Error>(Error::TableAllocation) ==> final(self).path_to(
                va.spec_vpn(),
                level,
            ) is Missing,
            outcome_of(leaf) == Err::<u64, Error>(Error::TableAllocation) ==> no_frame_free(final(self).fa),
            exists|taken: Seq<u64>| #[trigger]
                frames_taken(old(self).fa, final(self).fa, taken) && taken.len() <= missing_tables(
                    old(self).mem,
                    old(self).root(),
                    old(self).width,
                    va.spec_vpn(),
                    level,
                ) && (outcome_of(leaf) == Err::<u64, Error>(Error::TableAllocation) ==> taken.len()
                    < missing_tables(
                    old(self).mem,
                    old(self).root(),
                    old(self).width,
                    va.spec_vpn(),
                    level,
                )),
            (outcome_of(leaf) == Err::<u64, Error>(Error::TableAllocation)) == fewer_free_than(
                old(self).fa,
                missing_tables(
                    old(self).mem,
                    old(self).root(),
                    old(self).width,
                    va.spec_vpn(),
                    level,
                ),
            ),
            leaf matches Err(error) ==> refusal(
                final(self).mem,
                old(self).root(),
                old(self).width,
                va.spec_vpn(),
                pa.spec_pfn(),
                pa.spec_offset(),
                level,
                error,
            ),
            forall|v: u64|
                #![trigger final(self).translation(v)]
                final(self).translation(v) == translation_after(
                    old(self).translation(v),
                    va.spec_vpn(),
                    level,
                    written(leaf),
                    v,
                ),
            forall|v: u64|
                #![trigger final(self).translation(v)]
                old(self).translation(v) is Some ==> final(self).translation(v) == old(
                    self,
                ).translation(v),
    {
        map_leaf(
            self.fa,
            self.mem,
            &mut self.shape,
            &self.pml4,
            self.width,
            va,
            pa,
            flags,
            level,
            &mut Ghost(Seq::empty()),
        )
    }

    /// Maps `number_of_pages` pages from `va` on to the frames from `pa`
    /// on, and says how many leaves of each level it took. Each leaf is
    /// the largest that the rest of the range holds and on whose boundary
    /// both addresses lie. The first leaf that `map_leaf` refuses ends
    /// the mapping with its error; the leaves made before it stay. A page
    /// that was mapped before is mapped as it was after, so the mapping
    /// succeeds only where no page of the range was mapped. The range must
    /// end within the 64 bits of a page number.
    ///
    /// The frames that the mapping takes are those of its new tables, each
    /// on the way of one of its leaves. It does not fail with
    /// `TableAllocation` where the allocator has as many free frames as
    /// `table_bound` counts, nor, within the pages that four levels
    /// translate, with `EntryInUse` unless the place of one of its leaves
    /// was in use before.
    pub fn map(
        &mut self,
        va: VirtAddr<false, ()>,
        pa: PhysAddr<()>,
        flags: &LeafFlags,
        number_of_pages: usize,
    ) -> (stats: Result<HelperStats, Error>)
        requires
            old(self).wf(),
            va.spec_vpn() + number_of_pages <= u64::MAX,
        ensures
            final(self).wf(),
            *final(final(self).fa) == *final(old(self).fa),
            *final(final(self).mem) == *final(old(self).mem),
            final(self).grown_from(old(self)),
            number_of_pages == 0 ==> stats is Ok && final(self).same_as(old(self)),
            stats matches Ok(s) ==> (s.three as nat, s.two as nat, s.one as nat) == greedy_stats(
                va.spec_vpn(),
                pa.spec_pfn(),
                number_of_pages as nat,
            ),
            stats is Ok && number_of_pages > 0 ==> pa.spec_offset() == 0,
            stats is Ok ==> forall|v: u64|
                #![trigger final(self).translation(v)]
                final(self).translation(v) == range_translation(
                    old(self).translation(v),
                    va.spec_vpn(),
                    pa.spec_pfn(),
                    number_of_pages as nat,
                    *flags,
                    v,
                ),
            forall|v: u64|
                #![trigger final(self).translation(v)]
                old(self).translation(v) is Some ==> final(self).translation(v) == old(
                    self,
                ).translation(v),
            stats is Ok ==> forall|v: u64|
                #![trigger old(self).translation(v)]
                va.spec_vpn() <= v < va.spec_vpn() + number_of_pages && v < PAGES_IN_FOUR_LEVELS
                    ==> old(self).translation(v) is None,
            stats matches Err(error) ==> error == Error::TableAllocation || error
                == Error::MisalignedAddress || error == Error::EntryInUse,
            stats == Err::<HelperStats, Error>(Error::EntryInUse) && va.spec_vpn() + number_of_pages
                <= PAGES_IN_FOUR_LEVELS ==> exists|stop: nat| #[trigger]
                refused_at(
                    old(self).mem,
                    old(self).root(),
                    old(self).width,
                    va.spec_vpn(),
                    pa.spec_pfn(),
                    pa.spec_offset(),
                    number_of_pages as nat,
                    stop,
                    Error::EntryInUse,
                ) && stop < number_of_pages && leaf_boundary(
                    va.spec_vpn(),
                    pa.spec_pfn(),
                    number_of_pages as nat,
                    stop,
                ),
            made_for_range(
                old(self).shape@,
                final(self).shape@,
                va.spec_vpn(),
                pa.spec_pfn(),
                number_of_pages as nat,
                number_of_pages as nat,
            ),
            exists|taken: Seq<u64>| #[trigger]
                frames_taken(old(self).fa, final(self).fa, taken) && taken.len() <= table_bound(
                    va.spec_vpn(),
                    pa.spec_pfn(),
                    number_of_pages as nat,
                ) && (stats == Err::<HelperStats, Error>(Error::TableAllocation) ==> taken.len() < table_bound(
                    va.spec_vpn(),
                    pa.spec_pfn(),
                    number_of_pages as nat,
                )),
            stats == Err::<HelperStats, Error>(Error::TableAllocation) ==> no_frame_free(final(self).fa),
            stats == Err::<HelperStats, Error>(Error::TableAllocation) ==> forall|frames: Seq<u64>| #[trigger]
                free_frames(old(self).fa, frames) ==> frames.len() < table_bound(
                    va.spec_vpn(),
                    pa.spec_pfn(),
                    number_of_pages as nat,
                ),
            stats == Err::<HelperStats, Error>(Error::MisalignedAddress) ==> pa.spec_offset() != 0
                || pa.spec_pfn() + number_of_pages > 0x0010_0000_0000_0000,
            stats matches Err(error) ==> exists|stop: nat| #[trigger]
                stopped_at(
                    old(self).mem,
                    final(self).mem,
                    old(self).root(),
                    old(self).width,
                    va.spec_vpn(),
                    pa.spec_pfn(),
                    number_of_pages as nat,
                    *flags,
                    stop,
                ) && refused_at(
                    final(self).mem,
                    old(self).root(),
                    old(self).width,
                    va.spec_vpn(),
                    pa.spec_pfn(),
                    pa.spec_offset(),
                    number_of_pages as nat,
                    stop,
                    error,
                ) && made_for_range(
                    old(self).shape@,
                    final(self).shape@,
                    va.spec_vpn(),
                    pa.spec_pfn(),
                    number_of_pages as nat,
                    stop + 1,
                ),
    {
        map_range(
            self.fa,
            self.mem,
            &mut self.shape,
            &self.pml4,
            self.width,
            va,
            pa,
            flags,
            number_of_pages,
        )
    }
}

} // verus!
