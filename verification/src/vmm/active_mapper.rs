//! The mapper that extends a hierarchy that exists.

use super::mapper;
use super::model::{
    entry_at, extends, grows, hierarchy_inv, map_leaf_outcome, missing_tables, path_state, refusal,
    translate, translation_after, unchanged, PathState, Shape,
};
use super::range::{
    leaf_boundary, made_for_range, range_translation, refused_at, stopped_at, table_bound,
    PAGES_IN_FOUR_LEVELS,
};
use super::walk::{map_leaf, map_range};
use crate::common::{PagingLevel, PhysAddr, PhysWidth, VirtAddr};
use crate::mmu::memory::TableMemory;
use crate::mmu::paging::{CommonMappedEntry, PageTable};
use crate::mmu::view::LeafFlags;
use crate::pmm::{fewer_free_than, frames_taken, free_frames, no_frame_free, FrameAllocator};
use vstd::prelude::*;

verus! {

/// Why a mapping could not be made.
#[derive(Debug, PartialEq, Eq, Clone, Copy, Structural)]
pub enum Error {
    /// No frame for the root table.
    L4Allocation,
    /// No frame for a table below the root.
    TableAllocation,
    /// An address does not lie on a boundary of the page size.
    MisalignedAddress,
    /// The level cannot hold what was asked for.
    InvalidLevel,
    /// Something is mapped there already.
    EntryInUse,
}

impl Error {
    /// The error of the building mapper that this error stands for.
    pub open spec fn spec_shared(self) -> mapper::Error {
        match self {
            Error::L4Allocation => mapper::Error::L4Allocation,
            Error::TableAllocation => mapper::Error::TableAllocation,
            Error::MisalignedAddress => mapper::Error::MisalignedAddress,
            Error::InvalidLevel => mapper::Error::InvalidLevel,
            Error::EntryInUse => mapper::Error::EntryInUse,
        }
    }

    fn of(error: mapper::Error) -> (own: Error)
        ensures
            own.spec_shared() == error,
    {
        match error {
            mapper::Error::L4Allocation => Error::L4Allocation,
            mapper::Error::TableAllocation => Error::TableAllocation,
            mapper::Error::MisalignedAddress => Error::MisalignedAddress,
            mapper::Error::InvalidLevel => Error::InvalidLevel,
            mapper::Error::EntryInUse => Error::EntryInUse,
        }
    }
}

/// The entry that a call has written as a leaf, where it has.
pub open spec fn written_leaf(leaf: Result<CommonMappedEntry, Error>) -> Option<u64> {
    match leaf {
        Ok(entry) => Some(entry.0),
        Err(_) => None,
    }
}

/// What a result of this mapper says, in the terms of the walk.
pub open spec fn walk_outcome(result: Result<CommonMappedEntry, Error>) -> Result<
    u64,
    mapper::Error,
> {
    match result {
        Ok(entry) => Ok(entry.0),
        Err(error) => Err(error.spec_shared()),
    }
}

/// A hierarchy of four levels that exists and is extended, with the
/// allocator that gives the frames for its tables and the memory that
/// holds them.
pub struct ActiveMapper<'a, FA: FrameAllocator, M: TableMemory> {
    pub pml4: PhysAddr<PageTable>,
    pub fa: &'a mut FA,
    pub mem: &'a mut M,
    pub width: PhysWidth,
    pub shape: Ghost<Shape>,
}

impl<'a, FA: FrameAllocator, M: TableMemory> ActiveMapper<'a, FA, M> {
    /// The frame of the root table.
    pub open spec fn root(&self) -> u64 {
        self.pml4.spec_pfn()
    }

    /// The tables of the hierarchy are in use with the allocator, and their
    /// directories point to tables of the hierarchy.
    pub open spec fn wf(&self) -> bool {
        hierarchy_inv(self.shape@, self.fa, self.mem, self.root(), self.width)
    }

    /// Whether the tables under the root table at `pml4` can be taken over:
    /// they form a hierarchy whose tables are in use with the allocator.
    pub open spec fn adoptable(fa: &FA, mem: &M, pml4: PhysAddr<PageTable>, width: PhysWidth) -> bool {
        exists|shape: Shape| hierarchy_inv(shape, fa, mem, pml4.spec_pfn(), width)
    }

    /// The leaf that translates page `v`, with its level, where the page is
    /// mapped.
    pub open spec fn translation(&self, v: u64) -> Option<(PagingLevel, u64)> {
        translate(self.mem, self.root(), self.width, v)
    }

    /// The entry that the walk for page `vpn` reads in the table of
    /// `level`, where it arrives there.
    pub open spec fn entry_for(&self, vpn: u64, level: PagingLevel) -> Option<u64> {
        entry_at(self.mem, self.root(), self.width, vpn, level)
    }

    /// How far the tables lead on the way of page `vpn` to the table of
    /// `level`.
    pub open spec fn path_to(&self, vpn: u64, level: PagingLevel) -> PathState {
        path_state(self.mem, self.root(), self.width, vpn, level)
    }

    /// Whether the mapper has the root and the width of `before`, and its
    /// hierarchy has grown from that of `before`: the tables stay, their
    /// present entries stay, and no frame in use has become free.
    pub open spec fn grown_from(&self, before: &Self) -> bool {
        &&& self.pml4 == before.pml4
        &&& self.width == before.width
        &&& grows(before.shape@, before.fa, before.mem, self.shape@, self.fa, self.mem)
    }

    /// Whether the hierarchy has grown from that of `before` by a walk for
    /// page `vpn` toward a leaf of `level`, which wrote `leaf`: nothing
    /// else has changed in it.
    pub open spec fn walked_from(
        &self,
        before: &Self,
        vpn: u64,
        level: PagingLevel,
        leaf: Option<u64>,
    ) -> bool {
        &&& self.grown_from(before)
        &&& extends(
            before.shape@,
            before.fa,
            before.mem,
            self.shape@,
            self.fa,
            self.mem,
            vpn,
            level,
            leaf,
        )
    }

    /// Whether tables and allocator are as they were with `before`.
    pub open spec fn same_as(&self, before: &Self) -> bool {
        &&& self.pml4 == before.pml4
        &&& self.width == before.width
        &&& unchanged(before.shape@, before.fa, before.mem, self.shape@, self.fa, self.mem)
    }

    /// A mapper for the hierarchy under the root table at `pml4`.
    pub fn new(fa: &'a mut FA, mem: &'a mut M, pml4: PhysAddr<PageTable>, width: PhysWidth) -> (mapper:
        Self)
        requires
            Self::adoptable(old(fa), old(mem), pml4, width),
        ensures
            mapper.wf(),
            mapper.pml4 == pml4,
            mapper.width == width,
            *mapper.fa == *old(fa),
            *mapper.mem == *old(mem),
            *final(fa) == *final(mapper.fa),
            *final(mem) == *final(mapper.mem),
    {
        let ghost shape = choose|shape: Shape|
            hierarchy_inv(shape, &*fa, &*mem, pml4.spec_pfn(), width);
        Self { pml4, fa, mem, width, shape: Ghost(shape) }
    }

    /// Maps the page of `va` to the page at `pa` by a leaf of `level`, as
    /// the building mapper does.
    pub fn map_leaf(
        &mut self,
        va: VirtAddr<false, ()>,
        pa: PhysAddr<()>,
        flags: &LeafFlags,
        level: PagingLevel,
    ) -> (leaf: Result<CommonMappedEntry, Error>)
        requires
            old(self).wf(),
        ensures
            final(self).wf(),
            *final(final(self).fa) == *final(old(self).fa),
            *final(final(self).mem) == *final(old(self).mem),
            map_leaf_outcome(
                old(self).mem,
                old(self).root(),
                old(self).width,
                va.spec_vpn(),
                pa.spec_pfn(),
                pa.spec_offset(),
                *flags,
                level,
                walk_outcome(leaf),
            ),
            final(self).walked_from(old(self), va.spec_vpn(), level, written_leaf(leaf)),
            leaf matches Ok(entry) ==> final(self).entry_for(va.spec_vpn(), level) == Some(entry.0),
            leaf is Err && !(old(self).path_to(va.spec_vpn(), level) is Missing)
                ==> final(self).same_as(old(self)),
            walk_outcome(leaf) == Err::<u64, mapper::Error>(mapper::Error::TableAllocation)
                ==> final(self).path_to(
                va.spec_vpn(),
                level,
            ) is Missing,
            walk_outcome(leaf) == Err::<u64, mapper::Error>(mapper::Error::TableAllocation)
                ==> no_frame_free(final(self).fa),
            exists|taken: Seq<u64>| #[trigger]
                frames_taken(old(self).fa, final(self).fa, taken) && taken.len() <= missing_tables(
                    old(self).mem,
                    old(self).root(),
                    old(self).width,
                    va.spec_vpn(),
                    level,
                ) && (walk_outcome(leaf) == Err::<u64, mapper::Error>(mapper::Error::TableAllocation) ==> taken.len()
                    < missing_tables(
                    old(self).mem,
                    old(self).root(),
                    old(self).width,
                    va.spec_vpn(),
                    level,
                )),
            (walk_outcome(leaf) == Err::<u64, mapper::Error>(mapper::Error::TableAllocation)) == fewer_free_than(
                old(self).fa,
                missing_tables(
                    old(self).mem,
                    old(self).root(),
                    old(self).width,
                    va.spec_vpn(),
                    level,
                ),
            ),
            walk_outcome(leaf) matches Err(error) ==> refusal(
                final(self).mem,
                old(self).root(),
                old(self).width,
                va.spec_vpn(),
                pa.spec_pfn(),
                pa.spec_offset(),
                level,
                error,
            ),
            forall|v: u64|
                #![trigger final(self).translation(v)]
                final(self).translation(v) == translation_after(
                    old(self).translation(v),
                    va.spec_vpn(),
                    level,
                    written_leaf(leaf),
                    v,
                ),
            forall|v: u64|
                #![trigger final(self).translation(v)]
                old(self).translation(v) is Some ==> final(self).translation(v) == old(
                    self,
                ).translation(v),
    {
        match map_leaf(
            self.fa,
            self.mem,
            &mut self.shape,
            &self.pml4,
            self.width,
            va,
            pa,
            flags,
            level,
            &mut Ghost(Seq::empty()),
        ) {
            Ok(entry) => Ok(entry),
            Err(error) => Err(Error::of(error)),
        }
    }

    /// Maps `number_of_pages` pages from `va` on to the frames from `pa`
    /// on, as the building mapper does.
    pub fn map(
        &mut self,
        va: VirtAddr<false, ()>,
        pa: PhysAddr<()>,
        flags: &LeafFlags,
        number_of_pages: usize,
    ) -> (done: Result<(), Error>)
        requires
            old(self).wf(),
            va.spec_vpn() + number_of_pages <= u64::MAX,
        ensures
            final(self).wf(),
            *final(final(self).fa) == *final(old(self).fa),
            *final(final(self).mem) == *final(old(self).mem),
            final(self).grown_from(old(self)),
            number_of_pages == 0 ==> done is Ok && final(self).same_as(old(self)),
            done is Ok && number_of_pages > 0 ==> pa.spec_offset() == 0,
            done is Ok ==> forall|v: u64|
                #![trigger final(self).translation(v)]
                final(self).translation(v) == range_translation(
                    old(self).translation(v),
                    va.spec_vpn(),
                    pa.spec_pfn(),
                    number_of_pages as nat,
                    *flags,
                    v,
                ),
            forall|v: u64|
                #![trigger final(self).translation(v)]
                old(self).translation(v) is Some ==> final(self).translation(v) == old(
                    self,
                ).translation(v),
            done is Ok ==> forall|v: u64|
                #![trigger old(self).translation(v)]
                va.spec_vpn() <= v < va.spec_vpn() + number_of_pages && v < PAGES_IN_FOUR_LEVELS
                    ==> old(self).translation(v) is None,
            done matches Err(error) ==> error == Error::TableAllocation || error
                == Error::MisalignedAddress || error == Error::EntryInUse,
            done == Err::<(), Error>(Error::EntryInUse) && va.spec_vpn() + number_of_pages
                <= PAGES_IN_FOUR_LEVELS ==> exists|stop: nat| #[trigger]
                refused_at(
                    old(self).mem,
                    old(self).root(),
                    old(self).width,
                    va.spec_vpn(),
                    pa.spec_pfn(),
                    pa.spec_offset(),
                    number_of_pages as nat,
                    stop,
                    mapper::Error::EntryInUse,
                ) && stop < number_of_pages && leaf_boundary(
                    va.spec_vpn(),
                    pa.spec_pfn(),
                    number_of_pages as nat,
                    stop,
                ),
            made_for_range(
                old(self).shape@,
                final(self).shape@,
                va.spec_vpn(),
                pa.spec_pfn(),
                number_of_pages as nat,
                number_of_pages as nat,
            ),
            exists|taken: Seq<u64>| #[trigger]
                frames_taken(old(self).fa, final(self).fa, taken) && taken.len() <= table_bound(
                    va.spec_vpn(),
                    pa.spec_pfn(),
                    number_of_pages as nat,
                ) && (done == Err::<(), Error>(Error::TableAllocation) ==> taken.len() < table_bound(
                    va.spec_vpn(),
                    pa.spec_pfn(),
                    number_of_pages as nat,
                )),
            done == Err::<(), Error>(Error::TableAllocation) ==> no_frame_free(final(self).fa),
            done == Err::<(), Error>(Error::TableAllocation) ==> forall|frames: Seq<u64>| #[trigger]
                free_frames(old(self).fa, frames) ==> frames.len() < table_bound(
                    va.spec_vpn(),
                    pa.spec_pfn(),
                    number_of_pages as nat,
                ),
            done == Err::<(), Error>(Error::MisalignedAddress) ==> pa.spec_offset() != 0
                || pa.spec_pfn() + number_of_pages > 0x0010_0000_0000_0000,
            done matches Err(error) ==> exists|stop: nat| #[trigger]
                stopped_at(
                    old(self).mem,
                    final(self).mem,
                    old(self).root(),
                    old(self).width,
                    va.spec_vpn(),
                    pa.spec_pfn(),
                    number_of_pages as nat,
                    *flags,
                    stop,
                ) && refused_at(
                    final(self).mem,
                    old(self).root(),
                    old(self).width,
                    va.spec_vpn(),
                    pa.spec_pfn(),
                    pa.spec_offset(),
                    number_of_pages as nat,
                    stop,
                    error.spec_shared(),
                ) && made_for_range(
                    old(self).shape@,
                    final(self).shape@,
                    va.spec_vpn(),
                    pa.spec_pfn(),
                    number_of_pages as nat,
                    stop + 1,
                ),
    {
        match map_range(
            self.fa,
            self.mem,
            &mut self.shape,
            &self.pml4,
            self.width,
            va,
            pa,
            flags,
            number_of_pages,
        ) {
            Ok(_) => Ok(()),
            Err(error) => Err(Error::of(error)),
        }
    }
}

} // verus!
