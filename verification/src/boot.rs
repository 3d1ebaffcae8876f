//! What the mapper gets from the firmware at boot: the memory map, and the
//! set of frames in use that is made from it.

use crate::common::{PhysAddr, PhysWidth, VirtAddr};
use crate::pmm::bitset::{bits_of, BoolBitset};
use vstd::prelude::*;

verus! {

/// The kinds of memory that the firmware's memory map tells apart.
#[derive(Debug, Copy, Clone, PartialEq, Eq, Structural)]
pub enum MemoryType {
    EfiReservedMemoryType,
    EfiLoaderCode,
    EfiLoaderData,
    EfiBootServicesCode,
    EfiBootServicesData,
    EfiRuntimeServicesCode,
    EfiRuntimeServicesData,
    EfiConventionalMemory,
    EfiUnusableMemory,
    EfiACPIReclaimMemory,
    EfiACPIMemoryNVS,
    EfiMemoryMappedIO,
    EfiMemoryMappedIOPortSpace,
    EfiPalCode,
    EfiPersistentMemory,
    EfiUnacceptedMemoryType,
    EfiMaxMemoryType,
}

impl MemoryType {
    /// The number by which the firmware names the kind.
    pub open spec fn spec_number(self) -> u32 {
        match self {
            MemoryType::EfiReservedMemoryType => 0,
            MemoryType::EfiLoaderCode => 1,
            MemoryType::EfiLoaderData => 2,
            MemoryType::EfiBootServicesCode => 3,
            MemoryType::EfiBootServicesData => 4,
            MemoryType::EfiRuntimeServicesCode => 5,
            MemoryType::EfiRuntimeServicesData => 6,
            MemoryType::EfiConventionalMemory => 7,
            MemoryType::EfiUnusableMemory => 8,
            MemoryType::EfiACPIReclaimMemory => 9,
            MemoryType::EfiACPIMemoryNVS => 10,
            MemoryType::EfiMemoryMappedIO => 11,
            MemoryType::EfiMemoryMappedIOPortSpace => 12,
            MemoryType::EfiPalCode => 13,
            MemoryType::EfiPersistentMemory => 14,
            MemoryType::EfiUnacceptedMemoryType => 15,
            MemoryType::EfiMaxMemoryType => 16,
        }
    }

    /// The number by which the firmware names the kind.
    #[verifier::when_used_as_spec(spec_number)]
    pub fn number(self) -> (number: u32)
        ensures
            number == self.spec_number(),
            number <= 16,
    {
        match self {
            MemoryType::EfiReservedMemoryType => 0,
            MemoryType::EfiLoaderCode => 1,
            MemoryType::EfiLoaderData => 2,
            MemoryType::EfiBootServicesCode => 3,
            MemoryType::EfiBootServicesData => 4,
            MemoryType::EfiRuntimeServicesCode => 5,
            MemoryType::EfiRuntimeServicesData => 6,
            MemoryType::EfiConventionalMemory => 7,
            MemoryType::EfiUnusableMemory => 8,
            MemoryType::EfiACPIReclaimMemory => 9,
            MemoryType::EfiACPIMemoryNVS => 10,
            MemoryType::EfiMemoryMappedIO => 11,
            MemoryType::EfiMemoryMappedIOPortSpace => 12,
            MemoryType::EfiPalCode => 13,
            MemoryType::EfiPersistentMemory => 14,
            MemoryType::EfiUnacceptedMemoryType => 15,
            MemoryType::EfiMaxMemoryType => 16,
        }
    }

    /// The kind that the firmware names by `number`; a number beyond those
    /// of the kinds stands for the last of them.
    pub fn of_number(number: u32) -> (kind: Self)
        ensures
            number <= 16 ==> kind.spec_number() == number,
            number > 16 ==> kind == MemoryType::EfiMaxMemoryType,
    {
        match number {
            0 => MemoryType::EfiReservedMemoryType,
            1 => MemoryType::EfiLoaderCode,
            2 => MemoryType::EfiLoaderData,
            3 => MemoryType::EfiBootServicesCode,
            4 => MemoryType::EfiBootServicesData,
            5 => MemoryType::EfiRuntimeServicesCode,
            6 => MemoryType::EfiRuntimeServicesData,
            7 => MemoryType::EfiConventionalMemory,
            8 => MemoryType::EfiUnusableMemory,
            9 => MemoryType::EfiACPIReclaimMemory,
            10 => MemoryType::EfiACPIMemoryNVS,
            11 => MemoryType::EfiMemoryMappedIO,
            12 => MemoryType::EfiMemoryMappedIOPortSpace,
            13 => MemoryType::EfiPalCode,
            14 => MemoryType::EfiPersistentMemory,
            15 => MemoryType::EfiUnacceptedMemoryType,
            _ => MemoryType::EfiMaxMemoryType,
        }
    }

    /// The kind is found again by its number.
    pub proof fn lemma_number_names_kind(self, other: Self)
        ensures
            self.spec_number() == other.spec_number() ==> self == other,
    {
    }
}

/// A range of the firmware's memory map: pages of one kind that follow
/// each other.
pub struct MemoryDescriptor {
    pub memory_type: MemoryType,
    pub physical_start: u64,
    pub virtual_start: u64,
    pub number_of_pages: u64,
    pub attribute: u64,
    pub reserved: u64,
}

/// What the kernel is told when it is entered: where the set of frames in
/// use and the image lie in the new address space.
pub struct HandoffPayload {
    pub bitset_base: VirtAddr<false, u64>,
    pub bitset_size_bytes: usize,
    pub image_base: VirtAddr<false, ()>,
    pub im_image_base: VirtAddr<false, ()>,
    pub image_size_bytes: usize,
    pub phys_width: PhysWidth,
}

/// What the jump into the new address space needs: the payload for the
/// kernel, the value of the root-table register, and the stack.
pub struct TrampolinePayload {
    pub handoff_payload: HandoffPayload,
    pub cr3: u64,
    pub stack: VirtAddr<false, ()>,
    pub stack_first_frame: PhysAddr<()>,
}

/// Frames that follow each other.
#[derive(Debug, Copy, Clone, PartialEq, Eq)]
pub struct MemoryRange {
    pub pfn_start: u64,
    pub number_of_pages: usize,
}

/// Up to 256 ranges of frames; the first `len` of `chunks` count.
pub struct RAMChunks {
    pub chunks: [MemoryRange; 256],
    pub len: usize,
}

impl MemoryDescriptor {
    /// The frame at which the range starts.
    pub open spec fn first_frame(&self) -> int {
        (self.physical_start >> 12) as int
    }

    /// Whether the range holds frame `frame`.
    pub open spec fn holds(&self, frame: int) -> bool {
        self.first_frame() <= frame < self.first_frame() + self.number_of_pages
    }
}

/// Whether a range of `descs` whose kind is among `types` holds frame
/// `frame`.
pub open spec fn punched(descs: Seq<MemoryDescriptor>, types: Seq<MemoryType>, frame: int) -> bool {
    exists|k: int|
        0 <= k < descs.len() && types.contains(descs[k].memory_type) && (#[trigger] descs[k]).holds(
            frame,
        )
}

/// Whether every range of `descs` whose kind is among `types` lies within
/// the first `frames` frames.
pub open spec fn ranges_fit(descs: Seq<MemoryDescriptor>, types: Seq<MemoryType>, frames: int) -> bool {
    forall|k: int|
        0 <= k < descs.len() && types.contains(descs[k].memory_type) ==> (#[trigger] descs[k]).first_frame()
            + descs[k].number_of_pages <= frames
}

/// The kinds of memory that are free once the firmware's boot services have
/// ended.
pub open spec fn free_types() -> Seq<MemoryType> {
    seq![
        MemoryType::EfiConventionalMemory,
        MemoryType::EfiBootServicesCode,
        MemoryType::EfiBootServicesData,
    ]
}

fn contains_type(types: &[MemoryType], wanted: MemoryType) -> (found: bool)
    ensures
        found == types@.contains(wanted),
{
    let mut i: usize = 0;
    while i < types.len()
        invariant
            i <= types@.len(),
            forall|j: int| 0 <= j < i ==> types@[j] != wanted,
        decreases types@.len() - i,
    {
        if types[i] == wanted {
            return true;
        }
        i += 1;
    }
    false
}

/// Clears the bit of every frame that a range of `descs` holds whose kind
/// is among `types`.
fn punch_out_descs(bitset: &mut BoolBitset, descs: &[MemoryDescriptor], types: &[MemoryType])
    requires
        old(bitset)@.len() <= usize::MAX,
        ranges_fit(descs@, types@, old(bitset)@.len() as int),
    ensures
        final(bitset)@.len() == old(bitset)@.len(),
        final(bitset).words() == old(bitset).words(),
        forall|frame: int|
            0 <= frame < old(bitset)@.len() ==> final(bitset)@[frame] == (old(bitset)@[frame]
                && !punched(descs@, types@, frame)),
{
    let mut k: usize = 0;
    while k < descs.len()
        invariant
            k <= descs@.len(),
            old(bitset)@.len() <= usize::MAX,
            ranges_fit(descs@, types@, old(bitset)@.len() as int),
            bitset@.len() == old(bitset)@.len(),
            bitset.words() == old(bitset).words(),
            forall|frame: int|
                0 <= frame < old(bitset)@.len() ==> bitset@[frame] == (old(bitset)@[frame]
                    && !punched(descs@.take(k as int), types@, frame)),
        decreases descs@.len() - k,
    {
        let ghost before = bitset@;
        if contains_type(types, descs[k].memory_type) {
            let desc = &descs[k];
            assert(desc.first_frame() + desc.number_of_pages <= bitset@.len());
            let index: usize = (desc.physical_start >> 12) as usize;
            let mut i: u64 = 0;
            while i < desc.number_of_pages
                invariant
                    i <= desc.number_of_pages,
                    index == desc.first_frame(),
                    index + desc.number_of_pages <= bitset@.len(),
                    bitset@.len() == before.len(),
                    bitset@.len() <= usize::MAX,
                    bitset.words() == old(bitset).words(),
                    forall|frame: int|
                        #![trigger bitset@[frame]]
                        0 <= frame < before.len() ==> bitset@[frame] == (before[frame] && !(index
                            <= frame < index + i)),
                decreases desc.number_of_pages - i,
            {
                bitset.clear_at(index + i as usize);
                i += 1;
            }
            assert forall|frame: int| 0 <= frame < before.len() implies bitset@[frame] == (
            before[frame] && !descs@[k as int].holds(frame)) by {
                assert(bitset@[frame] == (before[frame] && !(index <= frame < index + i)));
            }
        }
        proof {
            let shorter = descs@.take(k as int);
            let longer = descs@.take(k as int + 1);
            let last = descs@[k as int];
            assert(longer[k as int] == last);
            assert forall|frame: int| 0 <= frame < old(bitset)@.len() implies bitset@[frame] == (old(
                bitset,
            )@[frame] && !punched(longer, types@, frame)) by {
                let hit = types@.contains(last.memory_type) && last.holds(frame);
                assert(bitset@[frame] == (before[frame] && !hit));
                if punched(shorter, types@, frame) {
                    let j = choose|j: int|
                        0 <= j < shorter.len() && types@.contains(shorter[j].memory_type) && (
                        #[trigger] shorter[j]).holds(frame);
                    assert(longer[j] == shorter[j]);
                    assert(longer[j].holds(frame));
                    assert(punched(longer, types@, frame));
                } else if hit {
                    assert(longer[k as int].holds(frame));
                    assert(punched(longer, types@, frame));
                } else {
                    if punched(longer, types@, frame) {
                        let j = choose|j: int|
                            0 <= j < longer.len() && types@.contains(longer[j].memory_type) && (
                            #[trigger] longer[j]).holds(frame);
                        if j < k {
                            assert(shorter[j] == longer[j]);
                            assert(shorter[j].holds(frame));
                        }
                    }
                }
            }
        }
        k += 1;
    }
    proof {
        assert(descs@.take(descs@.len() as int) == descs@);
    }
}

/// The set of frames in use over `storage`: every frame is in use but
/// those that the firmware's memory map gives as free. The ranges that
/// the map gives as free must lie within the frames of the set.
pub fn build_ram_bitset<'a>(storage: &'a mut [u64], descs: &[MemoryDescriptor]) -> (bitset:
    BoolBitset<'a>)
    requires
        old(storage)@.len() * 64 <= usize::MAX,
        ranges_fit(descs@, free_types(), old(storage)@.len() as int * 64),
    ensures
        bitset@.len() == old(storage)@.len() * 64,
        forall|frame: int|
            0 <= frame < bitset@.len() ==> bitset@[frame] == !punched(descs@, free_types(), frame),
{
    let mut w: usize = 0;
    while w < storage.len()
        invariant
            w <= storage@.len(),
            storage@.len() == old(storage)@.len(),
            forall|j: int| 0 <= j < w ==> storage@[j] == 0xFFFF_FFFF_FFFF_FFFFu64,
        decreases storage@.len() - w,
    {
        storage[w] = 0xFFFF_FFFF_FFFF_FFFF;
        w += 1;
    }
    proof {
        assert forall|frame: int| 0 <= frame < storage@.len() * 64 implies bits_of(
            storage@,
        )[frame] by {
            let bit = (frame % 64) as u64;
            assert(0xFFFF_FFFF_FFFF_FFFFu64 & (1u64 << bit) != 0) by (bit_vector)
                requires
                    bit < 64,
            ;
        }
    }
    let mut bitset = BoolBitset::new(storage);
    let types = [
        MemoryType::EfiConventionalMemory,
        MemoryType::EfiBootServicesCode,
        MemoryType::EfiBootServicesData,
    ];
    proof {
        assert(types@ =~= free_types());
    }
    punch_out_descs(&mut bitset, descs, &types);
    bitset
}

/// Marks as in use the `bitset_pages` frames from `bitset_pfn_start` on,
/// which hold the set itself, and the first 256 frames, the first
/// megabyte. Both ranges must lie within the frames of the set.
pub fn punch_bitset_data_and_bios(
    bitset: &mut BoolBitset,
    bitset_pages: usize,
    bitset_pfn_start: usize,
)
    requires
        old(bitset)@.len() <= usize::MAX,
        bitset_pfn_start + bitset_pages <= old(bitset)@.len(),
        256 <= old(bitset)@.len(),
    ensures
        final(bitset)@.len() == old(bitset)@.len(),
        final(bitset).words() == old(bitset).words(),
        forall|frame: int|
            0 <= frame < old(bitset)@.len() ==> final(bitset)@[frame] == (old(bitset)@[frame]
                || frame < 256 || bitset_pfn_start <= frame < bitset_pfn_start + bitset_pages),
{
    for i in 0..bitset_pages
        invariant
            old(bitset)@.len() <= usize::MAX,
            bitset_pfn_start + bitset_pages <= old(bitset)@.len(),
            bitset@.len() == old(bitset)@.len(),
            bitset.words() == old(bitset).words(),
            forall|frame: int|
                0 <= frame < old(bitset)@.len() ==> bitset@[frame] == (old(bitset)@[frame]
                    || bitset_pfn_start <= frame < bitset_pfn_start + i),
    {
        bitset.set_at(bitset_pfn_start + i);
    }
    for i in 0..256usize
        invariant
            256 <= old(bitset)@.len(),
            bitset@.len() == old(bitset)@.len(),
            bitset.words() == old(bitset).words(),
            forall|frame: int|
                0 <= frame < old(bitset)@.len() ==> bitset@[frame] == (old(bitset)@[frame] || frame
                    < i || bitset_pfn_start <= frame < bitset_pfn_start + bitset_pages),
    {
        bitset.set_at(i);
    }
}

impl MemoryDescriptor {
    /// The frame behind the last frame of the range.
    pub open spec fn end_frame(&self) -> int {
        self.first_frame() + self.number_of_pages
    }
}

/// Whether `count` is the greatest end of a range of `descs`.
pub open spec fn is_pfn_count(descs: Seq<MemoryDescriptor>, count: int) -> bool {
    &&& forall|k: int| 0 <= k < descs.len() ==> (#[trigger] descs[k]).end_frame() <= count
    &&& exists|k: int| 0 <= k < descs.len() && (#[trigger] descs[k]).end_frame() == count
}

/// The number of frames that a set of bits takes that has a bit for each
/// of `count` frames: a byte holds eight bits, a frame 4096 bytes.
pub open spec fn bitset_pages(count: int) -> int {
    ((count + 7) / 8 + 4095) / 4096
}

/// The number of frames up to the highest that the memory map speaks of:
/// the greatest end of a range. Nothing for a map without ranges. The
/// ends must fit a `usize`.
pub fn calculate_pfn_count(descs: &[MemoryDescriptor]) -> (count: Option<usize>)
    requires
        forall|k: int| 0 <= k < descs@.len() ==> (#[trigger] descs@[k]).end_frame() <= usize::MAX,
    ensures
        count is None <==> descs@.len() == 0,
        count matches Some(c) ==> is_pfn_count(descs@, c as int),
{
    if descs.len() == 0 {
        return None;
    }
    let mut highest: usize = ((descs[0].physical_start >> 12) + descs[0].number_of_pages) as usize;
    let mut k: usize = 1;
    while k < descs.len()
        invariant
            1 <= k <= descs@.len(),
            forall|j: int|
                0 <= j < descs@.len() ==> (#[trigger] descs@[j]).end_frame() <= usize::MAX,
            forall|j: int| 0 <= j < k ==> (#[trigger] descs@[j]).end_frame() <= highest,
            exists|j: int| 0 <= j < k && (#[trigger] descs@[j]).end_frame() == highest,
        decreases descs@.len() - k,
    {
        let end: usize = ((descs[k].physical_start >> 12) + descs[k].number_of_pages) as usize;
        if end > highest {
            highest = end;
        }
        k += 1;
    }
    Some(highest)
}

/// The number of frames for a set of bits with a bit for each frame of
/// the memory map, and `overshoot` frames more. Nothing for a map without
/// ranges. The number must fit a `usize`.
pub fn calculate_bitset_pages(descs: &[MemoryDescriptor], overshoot: usize) -> (pages: Option<usize>)
    requires
        forall|k: int|
            0 <= k < descs@.len() ==> (#[trigger] descs@[k]).end_frame() + 7 <= usize::MAX
                && bitset_pages(descs@[k].end_frame()) + overshoot <= usize::MAX,
    ensures
        pages is None <==> descs@.len() == 0,
        pages matches Some(p) ==> exists|count: int|
            #[trigger] is_pfn_count(descs@, count) && p == bitset_pages(count) + overshoot,
{
    match calculate_pfn_count(descs) {
        Some(count) => {
            let bitset_size: usize = (count + 7) / 8;
            Some((bitset_size + 4095) / 4096 + overshoot)
        },
        None => None,
    }
}

impl RAMChunks {
    /// The ranges that count.
    pub open spec fn ranges(&self) -> Seq<MemoryRange> {
        self.chunks@.take(self.len as int)
    }

    /// No more ranges count than there is room for.
    pub open spec fn wf(&self) -> bool {
        self.len <= 256
    }

    /// No ranges: none counts, and every place holds the range of no frames at frame 0.
    pub fn new() -> (chunks: Self)
        ensures
            chunks.wf(),
            chunks.len == 0,
            chunks.ranges() == Seq::<MemoryRange>::empty(),
            forall|i: int|
                0 <= i < 256 ==> #[trigger] chunks.chunks@[i] == (MemoryRange {
                    pfn_start: 0,
                    number_of_pages: 0,
                }),
    {
        broadcast use vstd::array::group_array_axioms;

        let empty = MemoryRange { pfn_start: 0, number_of_pages: 0 };
        let places: [MemoryRange; 256] = [empty;256];
        assert(places == vstd::array::spec_array_fill_for_copy_type::<MemoryRange, 256>(empty));
        RAMChunks { chunks: places, len: 0 }
    }

    /// Adds a range behind the others; nothing where there are 256
    /// already.
    pub fn push_to_chunks(&mut self, range: MemoryRange) -> (pushed: Option<()>)
        requires
            old(self).wf(),
        ensures
            final(self).wf(),
            pushed is Some <==> old(self).len < 256,
            pushed is Some ==> final(self).ranges() == old(self).ranges().push(range),
            pushed is None ==> *final(self) == *old(self),
    {
        if self.len >= 256 {
            None
        } else {
            self.chunks[self.len] = range;
            self.len += 1;
            proof {
                assert(self.ranges() =~= old(self).ranges().push(range));
            }
            Some(())
        }
    }
}

/// Whether `range` is a run of frames not in use among the first `frames`
/// frames of `used` that no frame not in use borders.
pub open spec fn free_run(used: Seq<bool>, frames: int, range: MemoryRange) -> bool {
    let start = range.pfn_start as int;
    let end = start + range.number_of_pages;
    &&& 0 <= start < end <= frames
    &&& forall|i: int| start <= i < end ==> !#[trigger] used[i]
    &&& start == 0 || used[start - 1]
    &&& end == frames || used[end]
}

/// Whether `ranges` are runs of frames not in use, in rising order.
pub open spec fn free_runs(used: Seq<bool>, frames: int, ranges: Seq<MemoryRange>) -> bool {
    &&& forall|k: int| 0 <= k < ranges.len() ==> free_run(used, frames, #[trigger] ranges[k])
    &&& forall|k: int, j: int|
        0 <= k < j < ranges.len() ==> (#[trigger] ranges[k]).pfn_start + ranges[k].number_of_pages
            < (#[trigger] ranges[j]).pfn_start
}

/// Whether one of `ranges` holds frame `frame`.
pub open spec fn in_ranges(ranges: Seq<MemoryRange>, frame: int) -> bool {
    exists|k: int|
        0 <= k < ranges.len() && (#[trigger] ranges[k]).pfn_start <= frame < ranges[k].pfn_start
            + ranges[k].number_of_pages
}

/// Gathers the frames that are not in use into ranges, in rising order.
/// Of the set as many frames are looked at as it has words. The ranges
/// are added to `chunks`, which must be empty; a range for which there
/// is no room is left out.
pub fn build_hhdm_ram(bitset: &BoolBitset, chunks: &mut RAMChunks)
    requires
        old(chunks).wf(),
        old(chunks).len == 0,
    ensures
        final(chunks).wf(),
        free_runs(bitset@, bitset.words() as int, final(chunks).ranges()),
        final(chunks).len < 256 ==> forall|i: int|
            0 <= i < bitset.words() && !bitset@[i] ==> in_ranges(final(chunks).ranges(), i),
{
    let frames: usize = bitset.len();
    let mut l: usize = 0;
    let mut r: usize = 0;
    while r < frames
        invariant
            frames == bitset.words(),
            bitset@.len() == frames * 64,
            chunks.wf(),
            l <= r <= frames,
            forall|i: int| l <= i < r ==> !#[trigger] bitset@[i],
            l == 0 || bitset@[l - 1] || (l == r && l < frames && bitset@[l as int]),
            free_runs(bitset@, frames as int, chunks.ranges()),
            forall|k: int|
                0 <= k < chunks.ranges().len() ==> (#[trigger] chunks.ranges()[k]).pfn_start
                    + chunks.ranges()[k].number_of_pages < l || (chunks.ranges()[k].pfn_start
                    + chunks.ranges()[k].number_of_pages == l && l == r),
            chunks.len < 256 ==> forall|i: int|
                0 <= i < l && !bitset@[i] ==> in_ranges(chunks.ranges(), i),
        decreases 2 * (frames - r) + (r - l),
    {
        if bitset.get(l) {
            l += 1;
            r = l;
            continue ;
        }
        if !bitset.get(r) {
            r += 1;
        } else {
            let ghost before = chunks.ranges();
            let range = MemoryRange { pfn_start: l as u64, number_of_pages: r - l };
            let pushed = chunks.push_to_chunks(range);
            proof {
                if pushed is Some {
                    let after = chunks.ranges();
                    assert forall|i: int| 0 <= i < r && !bitset@[i] implies in_ranges(after, i) by {
                        if i < l {
                            assert(in_ranges(before, i));
                            let k = choose|k: int|
                                0 <= k < before.len() && (#[trigger] before[k]).pfn_start <= i
                                    < before[k].pfn_start + before[k].number_of_pages;
                            assert(after[k] == before[k]);
                        } else {
                            assert(after[before.len() as int] == range);
                        }
                    }
                }
            }
            l = r;
        }
    }
    if l < r {
        let ghost before = chunks.ranges();
        let range = MemoryRange { pfn_start: l as u64, number_of_pages: r - l };
        let pushed = chunks.push_to_chunks(range);
        proof {
            if pushed is Some {
                let after = chunks.ranges();
                assert forall|i: int| 0 <= i < frames && !bitset@[i] implies in_ranges(after, i) by {
                    if i < l {
                        assert(in_ranges(before, i));
                        let k = choose|k: int|
                            0 <= k < before.len() && (#[trigger] before[k]).pfn_start <= i
                                < before[k].pfn_start + before[k].number_of_pages;
                        assert(after[k] == before[k]);
                    } else {
                        assert(after[before.len() as int] == range);
                    }
                }
            }
        }
    }
}

} // verus!
