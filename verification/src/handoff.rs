//! The address space in which the kernel is entered.

use crate::boot::{HandoffPayload, MemoryDescriptor, MemoryRange, MemoryType, TrampolinePayload};
use crate::common::{lemma_vpn_mask, PagingLevel, PhysAddr, PhysWidth, VirtAddr, HHDM_OFFSET};
use crate::mmu::memory::TableMemory;
use crate::mmu::paging::make_cr3;
use crate::mmu::view::{DirectoryFlags, LeafFlags};
use crate::pmm::bitset::BoolBitset;
use crate::pmm::{
    frames_taken, free_frames, lemma_none_left, lemma_taken_after, lemma_taken_next, no_frame_free,
    BumpBitsetAllocator, FrameAllocator,
};
use crate::uefi::{Error, Status, StatusError};
use crate::vmm::mapper;
use crate::vmm::mapper::Mapper;
use crate::vmm::model::{lemma_allocation_keeps_hierarchy, translate};
use crate::vmm::range::{
    frame_of, lemma_range_maps_pages_to_frames, range_translation, refused_at, table_bound,
    PAGES_IN_FOUR_LEVELS,
};
use vstd::prelude::*;

verus! {

/// The page at which the set of frames in use is mapped.
pub const BITSET_VPN: u64 = 512;

/// The highest page of the stack.
pub const STACK_VPN: u64 = 0x7FFFFFF;

/// The number of pages of the stack: 16 KiB.
pub const STACK_PAGES: u64 = 4;

/// The offset in its highest page at which the stack starts.
pub const STACK_OFFSET: u16 = 0xFF0;

/// Whether `desc` is a range of the loader's code: the image.
pub open spec fn is_loader_code(desc: MemoryDescriptor) -> bool {
    desc.memory_type == MemoryType::EfiLoaderCode
}

/// Whether `desc` is a range of the loader's data of more than 512 pages:
/// large enough to be the set of frames in use.
pub open spec fn is_bitset_data(desc: MemoryDescriptor) -> bool {
    desc.memory_type == MemoryType::EfiLoaderData && desc.number_of_pages > 512
}

/// Whether `k` is the place of the first range of the loader's code in
/// `descs`.
pub open spec fn first_loader_code(descs: Seq<MemoryDescriptor>, k: int) -> bool {
    &&& 0 <= k < descs.len()
    &&& is_loader_code(descs[k])
    &&& forall|j: int| 0 <= j < k ==> !is_loader_code(#[trigger] descs[j])
}

/// Whether `k` is the place of the first range in `descs` that can be the
/// set of frames in use.
pub open spec fn first_bitset_data(descs: Seq<MemoryDescriptor>, k: int) -> bool {
    &&& 0 <= k < descs.len()
    &&& is_bitset_data(descs[k])
    &&& forall|j: int| 0 <= j < k ==> !is_bitset_data(#[trigger] descs[j])
}

/// The first range of the loader's code in `descs`: the image.
pub open spec fn loader_code_of(descs: Seq<MemoryDescriptor>) -> MemoryDescriptor {
    descs[choose|k: int| first_loader_code(descs, k)]
}

/// The first range in `descs` that can be the set of frames in use.
pub open spec fn bitset_data_of(descs: Seq<MemoryDescriptor>) -> MemoryDescriptor {
    descs[choose|k: int| first_bitset_data(descs, k)]
}

proof fn lemma_first_is_one(descs: Seq<MemoryDescriptor>, code_at: int, data_at: int)
    requires
        first_loader_code(descs, code_at),
        first_bitset_data(descs, data_at),
    ensures
        loader_code_of(descs) == descs[code_at],
        bitset_data_of(descs) == descs[data_at],
        !no_loader_code(descs),
        !no_bitset_data(descs),
{
    let c = choose|k: int| first_loader_code(descs, k);
    let d = choose|k: int| first_bitset_data(descs, k);
    assert(c == code_at) by {
        if c < code_at {
            assert(!is_loader_code(descs[c]));
        } else if code_at < c {
            assert(!is_loader_code(descs[code_at]));
        }
    }
    assert(d == data_at) by {
        if d < data_at {
            assert(!is_bitset_data(descs[d]));
        } else if data_at < d {
            assert(!is_bitset_data(descs[data_at]));
        }
    }
}

/// Whether `descs` has no range of the loader's code.
pub open spec fn no_loader_code(descs: Seq<MemoryDescriptor>) -> bool {
    forall|j: int| 0 <= j < descs.len() ==> !is_loader_code(#[trigger] descs[j])
}

/// Whether `descs` has no range that can be the set of frames in use.
pub open spec fn no_bitset_data(descs: Seq<MemoryDescriptor>) -> bool {
    forall|j: int| 0 <= j < descs.len() ==> !is_bitset_data(#[trigger] descs[j])
}

fn find_loader_code(descs: &[MemoryDescriptor]) -> (found: Option<usize>)
    ensures
        match found {
            Some(k) => first_loader_code(descs@, k as int),
            None => no_loader_code(descs@),
        },
{
    let mut k: usize = 0;
    while k < descs.len()
        invariant
            k <= descs@.len(),
            forall|j: int| 0 <= j < k ==> !is_loader_code(#[trigger] descs@[j]),
        decreases descs@.len() - k,
    {
        if descs[k].memory_type == MemoryType::EfiLoaderCode {
            return Some(k);
        }
        k += 1;
    }
    None
}

fn find_bitset_data(descs: &[MemoryDescriptor]) -> (found: Option<usize>)
    ensures
        match found {
            Some(k) => first_bitset_data(descs@, k as int),
            None => no_bitset_data(descs@),
        },
{
    let mut k: usize = 0;
    while k < descs.len()
        invariant
            k <= descs@.len(),
            forall|j: int| 0 <= j < k ==> !is_bitset_data(#[trigger] descs@[j]),
        decreases descs@.len() - k,
    {
        if descs[k].memory_type == MemoryType::EfiLoaderData && descs[k].number_of_pages > 512 {
            return Some(k);
        }
        k += 1;
    }
    None
}

/// The flags of the pages of the new address space: present, writable, for
/// the kernel alone, and not executable where `nx` is set.
pub open spec fn spec_kernel_flags(nx: bool) -> LeafFlags {
    LeafFlags {
        directory_flags: DirectoryFlags {
            present: true,
            rw: true,
            us: false,
            pwt: false,
            pcd: false,
            accessed: false,
            restart: false,
            nx,
        },
        dirty: false,
        pat: false,
        global: false,
        protection_key: 0,
    }
}

fn kernel_flags(nx: bool) -> (flags: LeafFlags)
    ensures
        flags == spec_kernel_flags(nx),
{
    let mut directory_flags = DirectoryFlags::default();
    directory_flags.us = false;
    directory_flags.nx = nx;
    LeafFlags { directory_flags, dirty: false, pat: false, global: false, protection_key: 0 }
}

/// Whether a range of the memory map can be mapped at a page number of 36
/// bits: the width addresses its first frame, and its pages can be counted
/// in bytes.
pub open spec fn mappable(desc: MemoryDescriptor, width: PhysWidth) -> bool {
    &&& width.spec_is_pfn_valid((desc.physical_start >> 12) as u64)
    &&& desc.number_of_pages * 4096 <= usize::MAX
    &&& desc.number_of_pages + 0x10_0000_0000 <= u64::MAX
}

/// Whether `setup` can work on the memory map and the ranges of memory: the
/// ranges that it maps can be mapped.
pub open spec fn setup_fits(
    descs: Seq<MemoryDescriptor>,
    ranges: Seq<MemoryRange>,
    width: PhysWidth,
) -> bool {
    &&& forall|k: int|
        0 <= k < descs.len() && (is_loader_code(descs[k]) || is_bitset_data(descs[k]))
            ==> mappable(#[trigger] descs[k], width)
    &&& forall|k: int|
        0 <= k < ranges.len() ==> width.spec_is_pfn_valid((#[trigger] ranges[k]).pfn_start)
            && HHDM_OFFSET + ranges[k].pfn_start <= u64::MAX && ranges[k].number_of_pages
            + 0x10_0000_0000 <= u64::MAX
}

/// What `setup` hands on where it succeeds with the root table in frame
/// `root` and the first frame of the stack `stack_frame`, given the ranges
/// `bitset_data` and `loader_code` of the memory map.
pub open spec fn payload_is(
    payload: TrampolinePayload,
    bitset_data: MemoryDescriptor,
    loader_code: MemoryDescriptor,
    width: PhysWidth,
) -> bool {
    let code_vpn = (BITSET_VPN + bitset_data.number_of_pages) as u64;
    let code_pfn = loader_code.physical_start >> 12;
    let mask = VirtAddr::<false, ()>::vpn_mask();
    &&& payload.handoff_payload.bitset_base.spec_vpn() == BITSET_VPN
    &&& payload.handoff_payload.bitset_base.spec_offset() == 0
    &&& payload.handoff_payload.bitset_size_bytes == bitset_data.number_of_pages * 4096
    &&& payload.handoff_payload.image_base.spec_vpn() == code_vpn & mask
    &&& payload.handoff_payload.image_base.spec_offset() == 0
    &&& payload.handoff_payload.im_image_base.spec_vpn() == code_pfn & mask
    &&& payload.handoff_payload.im_image_base.spec_offset() == 0
    &&& payload.handoff_payload.image_size_bytes == loader_code.number_of_pages * 4096
    &&& payload.handoff_payload.phys_width == width
    &&& payload.stack.spec_vpn() == STACK_VPN
    &&& payload.stack.spec_offset() == STACK_OFFSET
    &&& payload.stack_first_frame.wf()
    &&& payload.stack_first_frame.spec_offset() == 0
    &&& payload.cr3 & 0xFFF == 0
}

/// Whether the tables under the root table in frame `root` translate the
/// `pages` pages from `vpn` on to the frames from `pfn` on, one after the
/// other.
#[verifier::opaque]
pub open spec fn maps_range<M: TableMemory>(
    mem: &M,
    root: u64,
    width: PhysWidth,
    vpn: u64,
    pfn: u64,
    pages: nat,
) -> bool {
    forall|v: u64|
        #![trigger translate(mem, root, width, v)]
        vpn <= v < vpn + pages ==> frame_of(translate(mem, root, width, v), v, width) == Some(
            (pfn + (v - vpn)) as u64,
        )
}

/// Whether the `pages` pages from `vpn` on lie among the pages that four
/// levels translate, and the width addresses the frames from `pfn` on.
pub open spec fn in_reach(vpn: u64, pfn: u64, pages: nat, width: PhysWidth) -> bool {
    vpn + pages <= PAGES_IN_FOUR_LEVELS && pfn + pages <= width.frames()
}

/// Whether every page that `before` translates is translated alike by
/// `after`.
#[verifier::opaque]
pub open spec fn keeps<M: TableMemory>(before: &M, after: &M, root: u64, width: PhysWidth) -> bool {
    forall|v: u64|
        #![trigger translate(after, root, width, v)]
        translate(before, root, width, v) is Some ==> translate(after, root, width, v)
            == translate(before, root, width, v)
}

/// The page at which frame `pfn` is mapped at the fixed offset.
pub open spec fn hhdm_page(pfn: u64) -> u64 {
    ((HHDM_OFFSET + pfn) as u64) & VirtAddr::<false, ()>::vpn_mask()
}

/// The frame of the root table that a value of the root-table register
/// names.
pub open spec fn root_of(cr3: u64) -> u64 {
    cr3 >> 12
}

/// What the address space that `setup` has built translates: the set of
/// frames, the image at both its places, the stack, and the ranges of
/// memory at the fixed offset, each as far as it lies in reach.
pub open spec fn address_space_is<M: TableMemory>(
    mem: &M,
    payload: TrampolinePayload,
    bitset_data: MemoryDescriptor,
    loader_code: MemoryDescriptor,
    ranges: Seq<MemoryRange>,
    width: PhysWidth,
) -> bool {
    let root = root_of(payload.cr3);
    let bitset_vpn = payload.handoff_payload.bitset_base.spec_vpn();
    let bitset_pfn = bitset_data.physical_start >> 12;
    let bitset_pages = bitset_data.number_of_pages as nat;
    let image_vpn = payload.handoff_payload.image_base.spec_vpn();
    let image_at = payload.handoff_payload.im_image_base.spec_vpn();
    let image_pfn = loader_code.physical_start >> 12;
    let image_pages = loader_code.number_of_pages as nat;
    &&& in_reach(bitset_vpn, bitset_pfn, bitset_pages, width) ==> maps_range(
        mem,
        root,
        width,
        bitset_vpn,
        bitset_pfn,
        bitset_pages,
    )
    &&& in_reach(image_vpn, image_pfn, image_pages, width) ==> maps_range(
        mem,
        root,
        width,
        image_vpn,
        image_pfn,
        image_pages,
    )
    &&& in_reach(image_at, image_pfn, image_pages, width) ==> maps_range(
        mem,
        root,
        width,
        image_at,
        image_pfn,
        image_pages,
    )
    &&& maps_range(mem, root, width, STACK_VPN, payload.stack_first_frame.spec_pfn(), 1)
    &&& forall|i: u64|
        i < STACK_PAGES ==> #[trigger] translate(mem, root, width, (STACK_VPN - i) as u64) is Some
    &&& forall|k: int|
        0 <= k < ranges.len() && in_reach(
            hhdm_page(ranges[k].pfn_start),
            ranges[k].pfn_start,
            ranges[k].number_of_pages as nat,
            width,
        ) ==> maps_range(
            mem,
            root,
            width,
            hhdm_page(#[trigger] ranges[k].pfn_start),
            ranges[k].pfn_start,
            ranges[k].number_of_pages as nat,
        )
}

/// A memory keeps its own translations.
proof fn lemma_keeps_itself<M: TableMemory>(mem: &M, root: u64, width: PhysWidth)
    ensures
        keeps(mem, mem, root, width),
{
    reveal(keeps);
}

/// What is kept twice is kept.
proof fn lemma_keeps_twice<M: TableMemory>(a: &M, b: &M, c: &M, root: u64, width: PhysWidth)
    requires
        keeps(a, b, root, width),
        keeps(b, c, root, width),
    ensures
        keeps(a, c, root, width),
{
    reveal(keeps);
    assert forall|v: u64|
        #![trigger translate(c, root, width, v)]
        translate(a, root, width, v) is Some implies translate(c, root, width, v) == translate(
        a,
        root,
        width,
        v,
    ) by {
        let between = translate(b, root, width, v);
    }
}

/// A range that is mapped stays mapped where the translations are kept.
proof fn lemma_range_kept<M: TableMemory>(
    before: &M,
    after: &M,
    root: u64,
    width: PhysWidth,
    vpn: u64,
    pfn: u64,
    pages: nat,
)
    requires
        keeps(before, after, root, width),
        maps_range(before, root, width, vpn, pfn, pages),
    ensures
        maps_range(after, root, width, vpn, pfn, pages),
{
    reveal(keeps);
    reveal(maps_range);
    assert forall|v: u64|
        #![trigger translate(after, root, width, v)]
        vpn <= v < vpn + pages implies frame_of(translate(after, root, width, v), v, width) == Some(
        (pfn + (v - vpn)) as u64,
    ) by {
        let was = translate(before, root, width, v);
    }
}

/// A range in reach that was mapped with the kernel's flags is translated
/// to its frames.
proof fn lemma_range_is_mapped<M: TableMemory>(
    before: &M,
    after: &M,
    root: u64,
    width: PhysWidth,
    vpn: u64,
    pfn: u64,
    pages: nat,
    flags: LeafFlags,
)
    requires
        width.wf(),
        flags.directory_flags.present,
        flags.protection_key < 16,
        forall|v: u64|
            #![trigger translate(after, root, width, v)]
            translate(after, root, width, v) == range_translation(
                translate(before, root, width, v),
                vpn,
                pfn,
                pages,
                flags,
                v,
            ),
    ensures
        in_reach(vpn, pfn, pages, width) ==> maps_range(after, root, width, vpn, pfn, pages),
{
    reveal(maps_range);
    if in_reach(vpn, pfn, pages, width) {
        assert forall|v: u64|
            #![trigger translate(after, root, width, v)]
            vpn <= v < vpn + pages implies frame_of(translate(after, root, width, v), v, width)
            == Some((pfn + (v - vpn)) as u64) by {
            lemma_range_maps_pages_to_frames(
                translate(before, root, width, v),
                vpn,
                pfn,
                pages,
                flags,
                width,
                v,
            );
        }
    }
}

/// Whether `frames` are frames that the set `bits` gives as free, each
/// named once.
pub open spec fn free_in(bits: Seq<bool>, frames: Seq<u64>) -> bool {
    frames.no_duplicates() && forall|k: int|
        0 <= k < frames.len() ==> (#[trigger] frames[k]) < bits.len() && !bits[frames[k] as int]
}

/// Whether the set `bits` gives fewer than `budget` frames as free.
pub open spec fn scarce(bits: Seq<bool>, budget: nat) -> bool {
    forall|frames: Seq<u64>| #[trigger] free_in(bits, frames) ==> frames.len() < budget
}

/// The most tables that the first `upto` of the ranges of memory can ask
/// for at the fixed offset.
pub open spec fn ranges_bound(ranges: Seq<MemoryRange>, upto: nat) -> nat
    decreases upto,
{
    if upto == 0 {
        0
    } else {
        let range = ranges[upto - 1];
        ranges_bound(ranges, (upto - 1) as nat) + table_bound(
            hhdm_page(range.pfn_start),
            range.pfn_start,
            range.number_of_pages as nat,
        )
    }
}

/// The page at which the image is mapped to run: behind the set of
/// frames.
pub open spec fn image_page(bitset_data: MemoryDescriptor) -> u64 {
    ((BITSET_VPN + bitset_data.number_of_pages) as u64) & VirtAddr::<false, ()>::vpn_mask()
}

/// The page at which the image is mapped once more: that of its first
/// frame.
pub open spec fn image_own_page(loader_code: MemoryDescriptor) -> u64 {
    (loader_code.physical_start >> 12) & VirtAddr::<false, ()>::vpn_mask()
}

/// The most frames that `setup` can take: one for the root table, those
/// that the tables of its ranges can ask for, and for each page of the
/// stack its frame and three tables.
pub open spec fn setup_budget(
    bitset_data: MemoryDescriptor,
    loader_code: MemoryDescriptor,
    ranges: Seq<MemoryRange>,
) -> nat {
    1nat + table_bound(
        BITSET_VPN,
        bitset_data.physical_start >> 12,
        bitset_data.number_of_pages as nat,
    ) + table_bound(
        image_page(bitset_data),
        loader_code.physical_start >> 12,
        loader_code.number_of_pages as nat,
    ) + table_bound(
        image_own_page(loader_code),
        loader_code.physical_start >> 12,
        loader_code.number_of_pages as nat,
    ) + 16 + ranges_bound(ranges, ranges.len())
}

/// Whether `setup` maps the `pages` pages from page `vpn` on to the frames
/// from `pfn` on: the set of frames, the image at one of its two places, a
/// page of the stack, or one of the ranges of memory.
pub open spec fn setup_maps(
    bitset_data: MemoryDescriptor,
    loader_code: MemoryDescriptor,
    ranges: Seq<MemoryRange>,
    vpn: u64,
    pfn: u64,
    pages: nat,
) -> bool {
    ||| vpn == BITSET_VPN && pfn == bitset_data.physical_start >> 12 && pages
        == bitset_data.number_of_pages
    ||| (vpn == image_page(bitset_data) || vpn == image_own_page(loader_code)) && pfn
        == loader_code.physical_start >> 12 && pages == loader_code.number_of_pages
    ||| STACK_VPN - STACK_PAGES < vpn <= STACK_VPN && pages == 1
    ||| exists|k: int|
        0 <= k < ranges.len() && vpn == hhdm_page((#[trigger] ranges[k]).pfn_start) && pfn
            == ranges[k].pfn_start && pages == ranges[k].number_of_pages
}

/// Whether a mapping of `setup` was refused: the tables under a root table
/// say of one of its leaves why, and where a table was wanting the set of
/// frames was scarce.
pub open spec fn mapping_refused<M: TableMemory>(
    mem: &M,
    bits: Seq<bool>,
    bitset_data: MemoryDescriptor,
    loader_code: MemoryDescriptor,
    ranges: Seq<MemoryRange>,
    width: PhysWidth,
) -> bool {
    exists|root: u64, vpn: u64, pfn: u64, pages: nat, stop: nat, error: mapper::Error| #[trigger]
        refused_at(mem, root, width, vpn, pfn, 0, pages, stop, error) && stop < pages && root
            < bits.len() && !bits[root as int] && setup_maps(
            bitset_data,
            loader_code,
            ranges,
            vpn,
            pfn,
            pages,
        ) && (error == mapper::Error::TableAllocation ==> scarce(
            bits,
            setup_budget(bitset_data, loader_code, ranges),
        ))
}

/// Whether the allocator has handed out no more than `limit` frames since
/// it was as `start`.
#[verifier::opaque]
pub open spec fn spent_within<FA: FrameAllocator>(start: &FA, now: &FA, limit: nat) -> bool {
    exists|spent: Seq<u64>| #[trigger] frames_taken(start, now, spent) && spent.len() <= limit
}

/// Nothing is spent at the start.
proof fn lemma_spent_nothing<FA: FrameAllocator>(start: &FA)
    ensures
        spent_within(start, start, 0),
{
    reveal(spent_within);
    assert(frames_taken(start, start, Seq::<u64>::empty()));
}

/// Frames handed out after others add to what was spent.
proof fn lemma_spent_more<FA: FrameAllocator>(
    start: &FA,
    before: &FA,
    after: &FA,
    limit: nat,
    more: nat,
)
    requires
        spent_within(start, before, limit),
        exists|taken: Seq<u64>| #[trigger] frames_taken(before, after, taken) && taken.len() <= more,
    ensures
        spent_within(start, after, limit + more),
{
    reveal(spent_within);
    let spent = choose|spent: Seq<u64>| #[trigger]
        frames_taken(start, before, spent) && spent.len() <= limit;
    let taken = choose|taken: Seq<u64>| #[trigger]
        frames_taken(before, after, taken) && taken.len() <= more;
    lemma_taken_after(start, before, after, spent, taken);
}

/// One frame handed out adds one to what was spent.
proof fn lemma_spent_one<FA: FrameAllocator>(
    start: &FA,
    before: &FA,
    after: &FA,
    limit: nat,
    frame: u64,
)
    requires
        spent_within(start, before, limit),
        before.is_free(frame),
        !after.is_free(frame),
        forall|pfn: u64| pfn != frame ==> after.is_free(pfn) == before.is_free(pfn),
    ensures
        spent_within(start, after, limit + 1),
{
    reveal(spent_within);
    let spent = choose|spent: Seq<u64>| #[trigger]
        frames_taken(start, before, spent) && spent.len() <= limit;
    lemma_taken_next(start, before, after, spent, Some(frame));
}

/// Where an allocator over a set of frames has spent less than a budget
/// and has no frame left, the set was scarce.
proof fn lemma_spent_all<'r, 'a>(
    start: &BumpBitsetAllocator<'r, 'a>,
    now: &BumpBitsetAllocator<'r, 'a>,
    limit: nat,
    budget: nat,
)
    requires
        spent_within(start, now, limit),
        no_frame_free(now),
        limit < budget,
    ensures
        scarce(start.used(), budget),
{
    reveal(spent_within);
    let spent = choose|spent: Seq<u64>| #[trigger]
        frames_taken(start, now, spent) && spent.len() <= limit;
    assert forall|frames: Seq<u64>| #[trigger] free_in(start.used(), frames) implies frames.len()
        < budget by {
        assert(free_frames(start, frames));
        lemma_none_left(start, now, spent, frames);
    }
}

/// A mapping that the mapper refused is a mapping of `setup` that was
/// refused: where a table was wanting, the allocator had spent less than
/// the budget and had no frame left.
proof fn lemma_mapping_refused<'r, 'a, M: TableMemory>(
    mem: &M,
    start: &BumpBitsetAllocator<'r, 'a>,
    before: &BumpBitsetAllocator<'r, 'a>,
    now: &BumpBitsetAllocator<'r, 'a>,
    bitset_data: MemoryDescriptor,
    loader_code: MemoryDescriptor,
    ranges: Seq<MemoryRange>,
    width: PhysWidth,
    root: u64,
    vpn: u64,
    pfn: u64,
    pages: nat,
    error: mapper::Error,
    limit: nat,
    bound: nat,
)
    requires
        start.is_free(root),
        spent_within(start, before, limit),
        exists|taken: Seq<u64>| #[trigger]
            frames_taken(before, now, taken) && taken.len() <= bound && (error
                == mapper::Error::TableAllocation ==> taken.len() < bound),
        error == mapper::Error::TableAllocation ==> no_frame_free(now),
        limit + bound <= setup_budget(bitset_data, loader_code, ranges),
        exists|stop: nat| #[trigger]
            refused_at(mem, root, width, vpn, pfn, 0, pages, stop, error) && stop < pages,
        setup_maps(bitset_data, loader_code, ranges, vpn, pfn, pages),
    ensures
        mapping_refused(mem, start.used(), bitset_data, loader_code, ranges, width),
{
    let stop = choose|stop: nat| #[trigger]
        refused_at(mem, root, width, vpn, pfn, 0, pages, stop, error) && stop < pages;
    if error == mapper::Error::TableAllocation {
        let taken = choose|taken: Seq<u64>| #[trigger]
            frames_taken(before, now, taken) && taken.len() <= bound && (error
                == mapper::Error::TableAllocation ==> taken.len() < bound);
        assert(frames_taken(before, now, taken) && taken.len() <= (bound - 1) as nat);
        lemma_spent_more(start, before, now, limit, (bound - 1) as nat);
        lemma_spent_all(
            start,
            now,
            (limit + bound - 1) as nat,
            setup_budget(bitset_data, loader_code, ranges),
        );
    }
    assert(refused_at(mem, root, width, vpn, pfn, 0, pages, stop, error));
}

/// The ranges of memory ask for no fewer tables the more of them are
/// counted.
proof fn lemma_ranges_bound_grows(ranges: Seq<MemoryRange>, fewer: nat, more: nat)
    requires
        fewer <= more,
    ensures
        ranges_bound(ranges, fewer) <= ranges_bound(ranges, more),
    decreases more,
{
    if fewer < more {
        lemma_ranges_bound_grows(ranges, fewer, (more - 1) as nat);
    }
}

/// A page of a mapped range is translated, and stays so where the
/// translations are kept.
proof fn lemma_page_kept<M: TableMemory>(
    before: &M,
    after: &M,
    root: u64,
    width: PhysWidth,
    v: u64,
)
    requires
        keeps(before, after, root, width),
        translate(before, root, width, v) is Some,
    ensures
        translate(after, root, width, v) is Some,
{
    reveal(keeps);
}

/// Each page of a mapped range is translated.
proof fn lemma_mapped_is_translated<M: TableMemory>(
    mem: &M,
    root: u64,
    width: PhysWidth,
    vpn: u64,
    pfn: u64,
    pages: nat,
    v: u64,
)
    requires
        maps_range(mem, root, width, vpn, pfn, pages),
        vpn <= v < vpn + pages,
    ensures
        translate(mem, root, width, v) is Some,
{
    reveal(maps_range);
}

/// Maps a range with `map`, and says why it was refused where it was: the
/// pages that were mapped before stay as they were, and on success the
/// range is mapped where it lies in reach.
fn map_whole<FA: FrameAllocator, M: TableMemory>(
    mapper: &mut Mapper<FA, M>,
    va: VirtAddr<false, ()>,
    pa: PhysAddr<()>,
    flags: &LeafFlags,
    number_of_pages: usize,
) -> (refused: Option<mapper::Error>)
    requires
        old(mapper).wf(),
        va.spec_vpn() + number_of_pages <= u64::MAX,
        flags.directory_flags.present,
        flags.protection_key < 16,
    ensures
        final(mapper).wf(),
        final(mapper).pml4 == old(mapper).pml4,
        final(mapper).width == old(mapper).width,
        *final(final(mapper).fa) == *final(old(mapper).fa),
        *final(final(mapper).mem) == *final(old(mapper).mem),
        keeps(old(mapper).mem, final(mapper).mem, old(mapper).root(), old(mapper).width),
        exists|taken: Seq<u64>| #[trigger]
            frames_taken(old(mapper).fa, final(mapper).fa, taken) && taken.len() <= table_bound(
                va.spec_vpn(),
                pa.spec_pfn(),
                number_of_pages as nat,
            ) && (refused
                == Some(mapper::Error::TableAllocation) ==> taken.len() < table_bound(
                va.spec_vpn(),
                pa.spec_pfn(),
                number_of_pages as nat,
            )),
        refused matches Some(error) ==> exists|stop: nat| #[trigger]
            refused_at(
                final(mapper).mem,
                old(mapper).root(),
                old(mapper).width,
                va.spec_vpn(),
                pa.spec_pfn(),
                pa.spec_offset(),
                number_of_pages as nat,
                stop,
                error,
            ) && stop < number_of_pages as nat,
        refused == Some(mapper::Error::TableAllocation) ==> no_frame_free(final(mapper).fa),
        refused is None && in_reach(va.spec_vpn(), pa.spec_pfn(), number_of_pages as nat, old(mapper).width)
            ==> maps_range(
            final(mapper).mem,
            old(mapper).root(),
            old(mapper).width,
            va.spec_vpn(),
            pa.spec_pfn(),
            number_of_pages as nat,
        ),
{
    let ghost entered = *mapper;
    let ghost held = *mapper.mem;
    let ghost root = mapper.root();
    let ghost width = mapper.width;
    let ghost vpn = va.spec_vpn();
    let ghost pfn = pa.spec_pfn();
    let refused = match mapper.map(va, pa, flags, number_of_pages) {
        Ok(_) => None,
        Err(error) => Some(error),
    };
    proof {
        let made = *mapper.mem;
        assert(keeps(&held, &made, root, width)) by {
            reveal(keeps);
            assert forall|v: u64|
                #![trigger translate(&made, root, width, v)]
                translate(&held, root, width, v) is Some implies translate(&made, root, width, v)
                == translate(&held, root, width, v) by {
                let now = mapper.translation(v);
                let then = entered.translation(v);
            }
        }
        if refused is None {
            assert forall|v: u64|
                #![trigger translate(&made, root, width, v)]
                translate(&made, root, width, v) == range_translation(
                    translate(&held, root, width, v),
                    vpn,
                    pfn,
                    number_of_pages as nat,
                    *flags,
                    v,
                ) by {
                let now = mapper.translation(v);
                let then = entered.translation(v);
            }
            lemma_range_is_mapped(
                &held,
                &made,
                root,
                width,
                vpn,
                pfn,
                number_of_pages as nat,
                *flags,
            );
        }
    }
    refused
}

/// Maps one page with `map_leaf`, and says why it was refused where it
/// was: the pages that were mapped before stay as they were, and on
/// success the page is mapped where it lies in reach.
fn map_page<FA: FrameAllocator, M: TableMemory>(
    mapper: &mut Mapper<FA, M>,
    va: VirtAddr<false, ()>,
    pa: PhysAddr<()>,
    flags: &LeafFlags,
) -> (refused: Option<mapper::Error>)
    requires
        old(mapper).wf(),
        flags.directory_flags.present,
        flags.protection_key < 16,
    ensures
        final(mapper).wf(),
        final(mapper).pml4 == old(mapper).pml4,
        final(mapper).width == old(mapper).width,
        *final(final(mapper).fa) == *final(old(mapper).fa),
        *final(final(mapper).mem) == *final(old(mapper).mem),
        keeps(old(mapper).mem, final(mapper).mem, old(mapper).root(), old(mapper).width),
        exists|taken: Seq<u64>| #[trigger]
            frames_taken(old(mapper).fa, final(mapper).fa, taken) && taken.len() <= 3 && (refused
                == Some(mapper::Error::TableAllocation) ==> taken.len() < 3),
        refused matches Some(error) ==> exists|stop: nat| #[trigger]
            refused_at(
                final(mapper).mem,
                old(mapper).root(),
                old(mapper).width,
                va.spec_vpn(),
                pa.spec_pfn(),
                pa.spec_offset(),
                1,
                stop,
                error,
            ) && stop < 1,
        refused == Some(mapper::Error::TableAllocation) ==> no_frame_free(final(mapper).fa),
        refused is None && in_reach(va.spec_vpn(), pa.spec_pfn(), 1, old(mapper).width)
            ==> maps_range(
            final(mapper).mem,
            old(mapper).root(),
            old(mapper).width,
            va.spec_vpn(),
            pa.spec_pfn(),
            1,
        ),
{
    let ghost entered = *mapper;
    let ghost held = *mapper.mem;
    let ghost root = mapper.root();
    let ghost width = mapper.width;
    let ghost vpn = va.spec_vpn();
    let ghost pfn = pa.spec_pfn();
    let ghost offset = pa.spec_offset();
    let refused = match mapper.map_leaf(va, pa, flags, PagingLevel::One) {
        Ok(_) => None,
        Err(error) => Some(error),
    };
    proof {
        let made = *mapper.mem;
        assert(keeps(&held, &made, root, width)) by {
            reveal(keeps);
            assert forall|v: u64|
                #![trigger translate(&made, root, width, v)]
                translate(&held, root, width, v) is Some implies translate(&made, root, width, v)
                == translate(&held, root, width, v) by {
                let now = mapper.translation(v);
                let then = entered.translation(v);
            }
        }
        if let Some(error) = refused {
            assert(refused_at(&made, root, width, vpn, pfn, offset, 1, 0, error));
        }
        if refused is None {
            assert forall|v: u64|
                #![trigger translate(&made, root, width, v)]
                translate(&made, root, width, v) == range_translation(
                    translate(&held, root, width, v),
                    vpn,
                    pfn,
                    1,
                    *flags,
                    v,
                ) by {
                reveal_with_fuel(range_translation, 2);
                let now = mapper.translation(v);
                let then = entered.translation(v);
            }
            lemma_range_is_mapped(&held, &made, root, width, vpn, pfn, 1, *flags);
        }
    }
    refused
}

/// Builds the address space in which the kernel is entered, in tables that
/// it takes from the frames that `bitset` gives as free.
///
/// It maps, each with `map`: the first range of the loader's data of more
/// than 512 pages, which holds the set of frames, from page 512 on, not
/// executable; the first range of the loader's code, the image, behind it
/// and once more at its own addresses, executable; four new frames as a
/// stack, not executable, downward from page `0x7FFFFFF`; and each of
/// `physical_memory_ranges` at the fixed offset, not executable.
///
/// The result is `NotFound` where the memory map lacks one of the two
/// ranges, `OutOfResources` where a frame for the root table or for the
/// stack is missing, and `NoMapping` where a mapping fails. What was mapped
/// before stays.
///
/// `OutOfResources` comes only where the set gave fewer frames as free
/// than `setup_budget` counts. `NoMapping` comes only where the tables say
/// of a leaf of one of the mappings why the mapper refused it
/// (`mapping_refused`); where it refused it for want of a table, the set
/// was as scarce.
#[verifier::loop_isolation(false)]
pub fn setup<M: TableMemory>(
    bitset: &mut BoolBitset,
    mem: &mut M,
    descs: &[MemoryDescriptor],
    phys_width: PhysWidth,
    physical_memory_ranges: &[MemoryRange],
) -> (result: Result<TrampolinePayload, StatusError>)
    requires
        old(mem).inv(),
        old(bitset)@.len() * 2 <= usize::MAX,
        old(bitset)@.len() <= phys_width.frames(),
        setup_fits(descs@, physical_memory_ranges@, phys_width),
    ensures
        final(mem).inv(),
        result matches Err(error) ==> error.code == Status(error.error.spec_code()),
        result matches Err(error) ==> error.error == Error::NotFound || error.error
            == Error::OutOfResources || error.error == Error::NoMapping,
        result matches Err(error) ==> (error.error == Error::NotFound <==> no_loader_code(descs@)
            || no_bitset_data(descs@)),
        result matches Ok(payload) ==> !no_loader_code(descs@) && !no_bitset_data(descs@)
            && payload_is(payload, bitset_data_of(descs@), loader_code_of(descs@), phys_width),
        result matches Err(error) ==> (error.error == Error::NotFound ==> *final(mem) == *old(mem)
            && final(bitset)@ == old(bitset)@),
        result matches Err(error) ==> (error.error == Error::OutOfResources ==> scarce(
            old(bitset)@,
            setup_budget(bitset_data_of(descs@), loader_code_of(descs@), physical_memory_ranges@),
        )),
        result matches Err(error) ==> (error.error == Error::NoMapping ==> mapping_refused(
            final(mem),
            old(bitset)@,
            bitset_data_of(descs@),
            loader_code_of(descs@),
            physical_memory_ranges@,
            phys_width,
        )),
        result matches Ok(payload) ==> address_space_is(
            final(mem),
            payload,
            bitset_data_of(descs@),
            loader_code_of(descs@),
            physical_memory_ranges@,
            phys_width,
        ),
{
    let code_at: usize = match find_loader_code(descs) {
        Some(k) => k,
        None => {
            return Err(StatusError::from(Error::NotFound));
        },
    };
    let loader_code = &descs[code_at];
    let data_at: usize = match find_bitset_data(descs) {
        Some(k) => k,
        None => {
            return Err(StatusError::from(Error::NotFound));
        },
    };
    let bitset_data = &descs[data_at];
    let ghost end = *final(mem);
    let ghost ranges = physical_memory_ranges@;
    let ghost budget = setup_budget(*bitset_data, *loader_code, ranges);
    proof {
        lemma_first_is_one(descs@, code_at as int, data_at as int);
        lemma_vpn_mask::<false, ()>();
        use_type_invariant(phys_width);
    }
    let mut allocator = BumpBitsetAllocator::new(bitset);
    let ghost a0 = allocator;
    let mut mapper = match Mapper::new(&mut allocator, mem, phys_width) {
        Ok(mapper) => mapper,
        Err(_) => {
            proof {
                lemma_spent_nothing(&a0);
                lemma_spent_all(&a0, &a0, 0, budget);
            }
            return Err(StatusError::from(Error::OutOfResources));
        },
    };
    let ghost root = mapper.root();
    let ghost mut limit: nat = 1;
    proof {
        lemma_spent_nothing(&a0);
        lemma_spent_one(&a0, &a0, &*mapper.fa, 0, root);
    }
    let not_executable = kernel_flags(true);
    let executable = kernel_flags(false);

    // the set of frames
    let bitset_pfn: u64 = bitset_data.physical_start >> 12;
    let ghost bitset_bound = table_bound(
        BITSET_VPN,
        bitset_pfn,
        bitset_data.number_of_pages as nat,
    );
    let ghost held = *mapper.fa;
    match map_whole(
        &mut mapper,
        VirtAddr::new(BITSET_VPN, 0),
        PhysAddr::new(bitset_pfn, 0, phys_width),
        &not_executable,
        bitset_data.number_of_pages as usize,
    ) {
        Some(error) => {
            proof {
                lemma_mapping_refused(
                    &*mapper.mem,
                    &a0,
                    &held,
                    &*mapper.fa,
                    *bitset_data,
                    *loader_code,
                    ranges,
                    phys_width,
                    root,
                    BITSET_VPN,
                    bitset_pfn,
                    bitset_data.number_of_pages as nat,
                    error,
                    limit,
                    bitset_bound,
                );
            }
            return Err(StatusError::from(Error::NoMapping));
        },
        None => {},
    }
    proof {
        lemma_spent_more(&a0, &held, &*mapper.fa, limit, bitset_bound);
        limit = limit + bitset_bound;
    }
    let ghost m1 = *mapper.mem;

    let code_vpn: u64 = BITSET_VPN + bitset_data.number_of_pages;
    let code_pfn: u64 = loader_code.physical_start >> 12;
    let pa: PhysAddr<()> = PhysAddr::new(code_pfn, 0, phys_width);

    // the image where it is to run
    let image_va: VirtAddr<false, ()> = VirtAddr::new(code_vpn, 0);
    let ghost image_vpn = image_va.spec_vpn();
    let ghost image_bound = table_bound(image_vpn, code_pfn, loader_code.number_of_pages as nat);
    let ghost held = *mapper.fa;
    match map_whole(
        &mut mapper,
        image_va,
        pa.clone(),
        &executable,
        loader_code.number_of_pages as usize,
    ) {
        Some(error) => {
            proof {
                lemma_mapping_refused(
                    &*mapper.mem,
                    &a0,
                    &held,
                    &*mapper.fa,
                    *bitset_data,
                    *loader_code,
                    ranges,
                    phys_width,
                    root,
                    image_vpn,
                    code_pfn,
                    loader_code.number_of_pages as nat,
                    error,
                    limit,
                    image_bound,
                );
            }
            return Err(StatusError::from(Error::NoMapping));
        },
        None => {},
    }
    proof {
        lemma_spent_more(&a0, &held, &*mapper.fa, limit, image_bound);
        limit = limit + image_bound;
    }
    let ghost m2 = *mapper.mem;

    // the image where it is
    let image_at_va: VirtAddr<false, ()> = VirtAddr::new(code_pfn, 0);
    let ghost image_at = image_at_va.spec_vpn();
    let ghost own_bound = table_bound(image_at, code_pfn, loader_code.number_of_pages as nat);
    let ghost held = *mapper.fa;
    match map_whole(
        &mut mapper,
        image_at_va,
        pa.clone(),
        &executable,
        loader_code.number_of_pages as usize,
    ) {
        Some(error) => {
            proof {
                lemma_mapping_refused(
                    &*mapper.mem,
                    &a0,
                    &held,
                    &*mapper.fa,
                    *bitset_data,
                    *loader_code,
                    ranges,
                    phys_width,
                    root,
                    image_at,
                    code_pfn,
                    loader_code.number_of_pages as nat,
                    error,
                    limit,
                    own_bound,
                );
            }
            return Err(StatusError::from(Error::NoMapping));
        },
        None => {},
    }
    proof {
        lemma_spent_more(&a0, &held, &*mapper.fa, limit, own_bound);
        limit = limit + own_bound;
    }
    let ghost m3 = *mapper.mem;
    let ghost base = limit;
    proof {
        lemma_keeps_itself(&m3, root, phys_width);
    }

    // the stack
    let mut stack_start_frame: Option<PhysAddr<()>> = None;
    let mut i: u64 = 0;
    while i < STACK_PAGES
        invariant
            i <= STACK_PAGES,
            mapper.wf(),
            mapper.width == phys_width,
            mapper.root() == root,
            *final(mapper.mem) == end,
            i > 0 ==> stack_start_frame is Some,
            stack_start_frame matches Some(frame) ==> frame.wf() && frame.spec_offset() == 0,
            spent_within(&a0, &*mapper.fa, (base + 4 * i) as nat),
            base + 16 <= budget,
            keeps(&m3, &*mapper.mem, root, phys_width),
            forall|j: u64|
                j < i ==> #[trigger] translate(
                    &*mapper.mem,
                    root,
                    phys_width,
                    (STACK_VPN - j) as u64,
                ) is Some,
            stack_start_frame matches Some(frame) ==> maps_range(
                &*mapper.mem,
                root,
                phys_width,
                STACK_VPN,
                frame.spec_pfn(),
                1,
            ),
        decreases STACK_PAGES - i,
    {
        let va: VirtAddr<false, ()> = VirtAddr::new(STACK_VPN - i, 0);
        let ghost before = mapper;
        let pa: PhysAddr<()> = match mapper.allocator().allocate_frame::<()>(phys_width) {
            Some(pa) => pa,
            None => {
                proof {
                    lemma_spent_all(&a0, &*before.fa, (base + 4 * i) as nat, budget);
                }
                return Err(StatusError::from(Error::OutOfResources));
            },
        };
        proof {
            lemma_spent_one(&a0, &*before.fa, &*mapper.fa, (base + 4 * i) as nat, pa.spec_pfn());
        }
        proof {
            lemma_allocation_keeps_hierarchy(
                before.shape@,
                before.fa,
                mapper.fa,
                mapper.mem,
                mapper.root(),
                mapper.width,
            );
        }
        let ghost first = stack_start_frame;
        if stack_start_frame.is_none() {
            stack_start_frame = Some(pa.clone());
        }
        let ghost held = *mapper.mem;
        let ghost frame = pa.spec_pfn();
        let ghost paid = *mapper.fa;
        match map_page(&mut mapper, va, pa, &not_executable) {
            Some(error) => {
                proof {
                    lemma_mapping_refused(
                        &*mapper.mem,
                        &a0,
                        &paid,
                        &*mapper.fa,
                        *bitset_data,
                        *loader_code,
                        ranges,
                        phys_width,
                        root,
                        (STACK_VPN - i) as u64,
                        frame,
                        1,
                        error,
                        (base + 4 * i + 1) as nat,
                        3,
                    );
                }
                return Err(StatusError::from(Error::NoMapping));
            },
            None => {},
        }
        proof {
            lemma_spent_more(&a0, &paid, &*mapper.fa, (base + 4 * i + 1) as nat, 3);
        }
        proof {
            let made = *mapper.mem;
            let page = (STACK_VPN - i) as u64;
            assert(in_reach(page, frame, 1, phys_width));
            lemma_mapped_is_translated(&made, root, phys_width, page, frame, 1, page);
            lemma_keeps_twice(&m3, &held, &made, root, phys_width);
            if let Some(top) = first {
                lemma_range_kept(&held, &made, root, phys_width, STACK_VPN, top.spec_pfn(), 1);
            }
            assert forall|j: u64| j < i + 1 implies #[trigger] translate(
                &made,
                root,
                phys_width,
                (STACK_VPN - j) as u64,
            ) is Some by {
                if j < i {
                    lemma_page_kept(&held, &made, root, phys_width, (STACK_VPN - j) as u64);
                }
            }
        }
        i += 1;
    }
    let ghost m4 = *mapper.mem;
    proof {
        lemma_keeps_itself(&m4, root, phys_width);
    }

    // all of memory at the fixed offset
    let mut k: usize = 0;
    while k < physical_memory_ranges.len()
        invariant
            k <= physical_memory_ranges@.len(),
            mapper.wf(),
            mapper.width == phys_width,
            mapper.root() == root,
            *final(mapper.mem) == end,
            keeps(&m4, &*mapper.mem, root, phys_width),
            spent_within(&a0, &*mapper.fa, base + 16 + ranges_bound(ranges, k as nat)),
            forall|n: int|
                0 <= n < k && in_reach(
                    hhdm_page(physical_memory_ranges@[n].pfn_start),
                    physical_memory_ranges@[n].pfn_start,
                    physical_memory_ranges@[n].number_of_pages as nat,
                    phys_width,
                ) ==> maps_range(
                    &*mapper.mem,
                    root,
                    phys_width,
                    hhdm_page(#[trigger] physical_memory_ranges@[n].pfn_start),
                    physical_memory_ranges@[n].pfn_start,
                    physical_memory_ranges@[n].number_of_pages as nat,
                ),
        decreases physical_memory_ranges@.len() - k,
    {
        let range = &physical_memory_ranges[k];
        let ghost held = *mapper.mem;
        let ghost paid = *mapper.fa;
        let ghost range_bound = table_bound(
            hhdm_page(range.pfn_start),
            range.pfn_start,
            range.number_of_pages as nat,
        );
        proof {
            lemma_ranges_bound_grows(ranges, (k + 1) as nat, ranges.len());
        }
        match map_whole(
            &mut mapper,
            VirtAddr::new(HHDM_OFFSET + range.pfn_start, 0),
            PhysAddr::new(range.pfn_start, 0, phys_width),
            &not_executable,
            range.number_of_pages,
        ) {
            Some(error) => {
                proof {
                    lemma_mapping_refused(
                        &*mapper.mem,
                        &a0,
                        &paid,
                        &*mapper.fa,
                        *bitset_data,
                        *loader_code,
                        ranges,
                        phys_width,
                        root,
                        hhdm_page(range.pfn_start),
                        range.pfn_start,
                        range.number_of_pages as nat,
                        error,
                        base + 16 + ranges_bound(ranges, k as nat),
                        range_bound,
                    );
                }
                return Err(StatusError::from(Error::NoMapping));
            },
            None => {},
        }
        proof {
            lemma_spent_more(
                &a0,
                &paid,
                &*mapper.fa,
                base + 16 + ranges_bound(ranges, k as nat),
                range_bound,
            );
        }
        proof {
            let made = *mapper.mem;
            lemma_keeps_twice(&m4, &held, &made, root, phys_width);
            assert forall|n: int|
                0 <= n < k + 1 && in_reach(
                    hhdm_page(physical_memory_ranges@[n].pfn_start),
                    physical_memory_ranges@[n].pfn_start,
                    physical_memory_ranges@[n].number_of_pages as nat,
                    phys_width,
                ) implies maps_range(
                &made,
                root,
                phys_width,
                hhdm_page(#[trigger] physical_memory_ranges@[n].pfn_start),
                physical_memory_ranges@[n].pfn_start,
                physical_memory_ranges@[n].number_of_pages as nat,
            ) by {
                if n < k {
                    lemma_range_kept(
                        &held,
                        &made,
                        root,
                        phys_width,
                        hhdm_page(physical_memory_ranges@[n].pfn_start),
                        physical_memory_ranges@[n].pfn_start,
                        physical_memory_ranges@[n].number_of_pages as nat,
                    );
                }
            }
        }
        k += 1;
    }

    let cr3: u64 = make_cr3(mapper.pml4());
    let stack_first_frame = match stack_start_frame {
        Some(frame) => frame,
        None => {
            return Err(StatusError::from(Error::OutOfResources));
        },
    };
    proof {
        let raw = mapper.pml4.spec_pfn();
        assert((raw << 12) & 0xFFF == 0) by (bit_vector);
        phys_width.lemma_frames_bound();
        assert((raw << 12) >> 12 == raw) by (bit_vector)
            requires
                raw < 0x100_0000_0000u64,
        ;
        let last = *mapper.mem;
        lemma_keeps_twice(&m1, &m2, &m3, root, phys_width);
        lemma_keeps_twice(&m1, &m3, &m4, root, phys_width);
        lemma_keeps_twice(&m1, &m4, &last, root, phys_width);
        lemma_keeps_twice(&m2, &m3, &m4, root, phys_width);
        lemma_keeps_twice(&m2, &m4, &last, root, phys_width);
        lemma_keeps_twice(&m3, &m4, &last, root, phys_width);
        if in_reach(BITSET_VPN, bitset_pfn, bitset_data.number_of_pages as nat, phys_width) {
            lemma_range_kept(
                &m1,
                &last,
                root,
                phys_width,
                BITSET_VPN,
                bitset_pfn,
                bitset_data.number_of_pages as nat,
            );
        }
        if in_reach(image_vpn, code_pfn, loader_code.number_of_pages as nat, phys_width) {
            lemma_range_kept(
                &m2,
                &last,
                root,
                phys_width,
                image_vpn,
                code_pfn,
                loader_code.number_of_pages as nat,
            );
        }
        if in_reach(image_at, code_pfn, loader_code.number_of_pages as nat, phys_width) {
            lemma_range_kept(
                &m3,
                &last,
                root,
                phys_width,
                image_at,
                code_pfn,
                loader_code.number_of_pages as nat,
            );
        }
        lemma_range_kept(
            &m4,
            &last,
            root,
            phys_width,
            STACK_VPN,
            stack_first_frame.spec_pfn(),
            1,
        );
        assert forall|j: u64| j < STACK_PAGES implies #[trigger] translate(
            &last,
            root,
            phys_width,
            (STACK_VPN - j) as u64,
        ) is Some by {
            lemma_page_kept(&m4, &last, root, phys_width, (STACK_VPN - j) as u64);
        }
    }
    let payload = TrampolinePayload {
        handoff_payload: HandoffPayload {
            bitset_base: VirtAddr::new(BITSET_VPN, 0),
            bitset_size_bytes: (bitset_data.number_of_pages as usize) * 4096,
            image_base: VirtAddr::new(code_vpn, 0),
            im_image_base: VirtAddr::new(code_pfn, 0),
            image_size_bytes: (loader_code.number_of_pages as usize) * 4096,
            phys_width,
        },
        cr3,
        stack_first_frame,
        stack: VirtAddr::new(STACK_VPN, STACK_OFFSET),
    };
    proof {
        assert(address_space_is(
            &*mapper.mem,
            payload,
            descs@[data_at as int],
            descs@[code_at as int],
            physical_memory_ranges@,
            phys_width,
        ));
    }
    Ok(payload)
}

} // verus!
