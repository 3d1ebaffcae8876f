//! Builders for entries that are not present yet.

use crate::common::{PagingLevel, PagingMode, PhysAddr, PhysWidth};
use crate::mmu::paging::{
    field, has_bit, with_bit, with_field, CommonLargeLeafMappedEntry, CommonMappedEntry,
    PageTable, PageTableEntry, BIT_ACCESSED, BIT_DIRTY, BIT_GLOBAL, BIT_LARGE_PAT, BIT_NX,
    BIT_PAGE_SIZE, BIT_PCD, BIT_PRESENT, BIT_PWT, BIT_RESTART, BIT_RW, BIT_US, MASK_FRAME,
    MASK_LARGE_FRAME, MASK_PROTECTION_KEY,
};
use crate::mmu::view::{
    directory_flags_of, directory_target, entry_is_directory, entry_is_leaf, large_leaf_start,
    leaf_flags_of, leaf_target, lemma_directory_flags_written, lemma_leaf_flags_written,
    with_directory_flags, with_leaf_flags, DirectoryEntryView, DirectoryFlags, EntryView,
    LeafEntryView, LeafFlags, PagingAttributesViewer,
};
use vstd::prelude::*;

verus! {

/// Frame numbers of pages of 1 GiB: the low 18 bits are zero.
pub const MASK_1GIB: u64 = 0x000F_FFFF_FFFC_0000;

/// Frame numbers of pages of 2 MiB: the low 9 bits are zero.
pub const MASK_2MIB: u64 = 0x000F_FFFF_FFFF_FE00;

/// Frame numbers of pages of 4 KiB.
pub const MASK_4KIB: u64 = 0x000F_FFFF_FFFF_FFFF;

/// The frame numbers at which a page mapped by a leaf of `level` can start.
pub open spec fn spec_page_mask(level: PagingLevel) -> u64 {
    match level {
        PagingLevel::Three => MASK_1GIB,
        PagingLevel::Two => MASK_2MIB,
        _ => MASK_4KIB,
    }
}

/// Whether a page mapped by a leaf of `level` can start at frame or page
/// number `number`: it lies on the boundary of the page size and below
/// 2^52.
pub open spec fn page_aligned(number: u64, level: PagingLevel) -> bool {
    number & spec_page_mask(level) == number
}

/// The frame numbers at which a page mapped by a leaf of `level` can start.
#[verifier::when_used_as_spec(spec_page_mask)]
pub fn page_mask(level: PagingLevel) -> (mask: u64)
    ensures
        mask == spec_page_mask(level),
{
    match level {
        PagingLevel::Three => MASK_1GIB,
        PagingLevel::Two => MASK_2MIB,
        _ => MASK_4KIB,
    }
}

/// A number on a boundary of a page size is less than 2^52.
pub proof fn lemma_aligned_is_small(number: u64, level: PagingLevel)
    requires
        page_aligned(number, level),
    ensures
        number < 0x0010_0000_0000_0000,
{
    assert(forall|n: u64, mask: u64|
        mask <= 0x000F_FFFF_FFFF_FFFFu64 && #[trigger] (n & mask) == n ==> n
            < 0x0010_0000_0000_0000u64) by (bit_vector);
}

/// A number less than 2^52 can be the frame or page number of a page of
/// 4 KiB.
pub proof fn lemma_small_is_aligned(number: u64)
    requires
        number < 0x0010_0000_0000_0000,
    ensures
        page_aligned(number, PagingLevel::One),
{
    assert(number & 0x000F_FFFF_FFFF_FFFFu64 == number) by (bit_vector)
        requires
            number < 0x0010_0000_0000_0000u64,
    ;
}

/// The entry that points to the table in frame `pfn`.
pub open spec fn directory_entry(pfn: u64, flags: DirectoryFlags) -> u64 {
    with_bit(with_field(with_directory_flags(0, flags), MASK_FRAME, 12, pfn), BIT_PRESENT, true)
}

/// The entry of a table of `level` that maps the page starting at frame
/// `pfn`.
pub open spec fn leaf_entry(pfn: u64, flags: LeafFlags, level: PagingLevel) -> u64 {
    if level is One {
        with_field(with_leaf_flags(0, flags, true), MASK_FRAME, 12, pfn)
    } else {
        with_field(
            with_bit(with_leaf_flags(0, flags, false), BIT_PAGE_SIZE, true),
            MASK_LARGE_FRAME,
            13,
            pfn >> 1,
        )
    }
}

proof fn lemma_frame_write_keeps_flags(raw: u64, frame: u64)
    by (bit_vector)
    ensures
        ({
            let small = with_field(raw, MASK_FRAME, 12, frame);
            &&& has_bit(small, BIT_PRESENT) == has_bit(raw, BIT_PRESENT)
            &&& has_bit(small, BIT_RW) == has_bit(raw, BIT_RW)
            &&& has_bit(small, BIT_US) == has_bit(raw, BIT_US)
            &&& has_bit(small, BIT_PWT) == has_bit(raw, BIT_PWT)
            &&& has_bit(small, BIT_PCD) == has_bit(raw, BIT_PCD)
            &&& has_bit(small, BIT_ACCESSED) == has_bit(raw, BIT_ACCESSED)
            &&& has_bit(small, BIT_RESTART) == has_bit(raw, BIT_RESTART)
            &&& has_bit(small, BIT_NX) == has_bit(raw, BIT_NX)
            &&& has_bit(small, BIT_DIRTY) == has_bit(raw, BIT_DIRTY)
            &&& has_bit(small, BIT_GLOBAL) == has_bit(raw, BIT_GLOBAL)
            &&& has_bit(small, BIT_PAGE_SIZE) == has_bit(raw, BIT_PAGE_SIZE)
            &&& field(small, MASK_PROTECTION_KEY, 59) == field(raw, MASK_PROTECTION_KEY, 59)
        }),
        ({
            let large = with_field(with_bit(raw, BIT_PAGE_SIZE, true), MASK_LARGE_FRAME, 13, frame);
            &&& has_bit(large, BIT_PRESENT) == has_bit(raw, BIT_PRESENT)
            &&& has_bit(large, BIT_RW) == has_bit(raw, BIT_RW)
            &&& has_bit(large, BIT_US) == has_bit(raw, BIT_US)
            &&& has_bit(large, BIT_PWT) == has_bit(raw, BIT_PWT)
            &&& has_bit(large, BIT_PCD) == has_bit(raw, BIT_PCD)
            &&& has_bit(large, BIT_ACCESSED) == has_bit(raw, BIT_ACCESSED)
            &&& has_bit(large, BIT_RESTART) == has_bit(raw, BIT_RESTART)
            &&& has_bit(large, BIT_NX) == has_bit(raw, BIT_NX)
            &&& has_bit(large, BIT_DIRTY) == has_bit(raw, BIT_DIRTY)
            &&& has_bit(large, BIT_GLOBAL) == has_bit(raw, BIT_GLOBAL)
            &&& has_bit(large, BIT_LARGE_PAT) == has_bit(raw, BIT_LARGE_PAT)
            &&& has_bit(large, BIT_PAGE_SIZE)
            &&& field(large, MASK_PROTECTION_KEY, 59) == field(raw, MASK_PROTECTION_KEY, 59)
        }),
        ({
            let marked = with_bit(with_field(raw, MASK_FRAME, 12, frame), BIT_PRESENT, true);
            &&& has_bit(marked, BIT_PRESENT)
            &&& has_bit(marked, BIT_RW) == has_bit(raw, BIT_RW)
            &&& has_bit(marked, BIT_US) == has_bit(raw, BIT_US)
            &&& has_bit(marked, BIT_PWT) == has_bit(raw, BIT_PWT)
            &&& has_bit(marked, BIT_PCD) == has_bit(raw, BIT_PCD)
            &&& has_bit(marked, BIT_ACCESSED) == has_bit(raw, BIT_ACCESSED)
            &&& has_bit(marked, BIT_RESTART) == has_bit(raw, BIT_RESTART)
            &&& has_bit(marked, BIT_NX) == has_bit(raw, BIT_NX)
            &&& has_bit(marked, BIT_PAGE_SIZE) == has_bit(raw, BIT_PAGE_SIZE)
        }),
{
}

proof fn lemma_frame_read_back(raw: u64, pfn: u64, bits: u64)
    by (bit_vector)
    requires
        24 <= bits <= 40,
        pfn < (1u64 << bits),
    ensures
        field(with_field(raw, MASK_FRAME, 12, pfn), MASK_FRAME, 12) & (((1u64 << bits) - 1) as u64)
            == pfn,
        field(
            with_bit(with_field(raw, MASK_FRAME, 12, pfn), BIT_PRESENT, true),
            MASK_FRAME,
            12,
        ) & (((1u64 << bits) - 1) as u64) == pfn,
        pfn & MASK_1GIB == pfn ==> (field(
            with_field(raw, MASK_LARGE_FRAME, 13, pfn >> 1),
            MASK_LARGE_FRAME,
            13,
        ) << 1) & (((1u64 << bits) - 1) as u64) & (!0u64 << 18u64) == pfn,
        pfn & MASK_2MIB == pfn ==> (field(
            with_field(raw, MASK_LARGE_FRAME, 13, pfn >> 1),
            MASK_LARGE_FRAME,
            13,
        ) << 1) & (((1u64 << bits) - 1) as u64) & (!0u64 << 9u64) == pfn,
{
}

proof fn lemma_fresh_flags_lack_page_size(flags: DirectoryFlags)
    ensures
        !has_bit(with_directory_flags(0, flags), BIT_PAGE_SIZE),
{
    assert(!has_bit(0u64, BIT_PAGE_SIZE)) by (bit_vector);
    assert(forall|raw: u64, mask: u64, value: bool|
        #![trigger has_bit(with_bit(raw, mask, value), BIT_PAGE_SIZE)]
        mask & BIT_PAGE_SIZE == 0 ==> has_bit(with_bit(raw, mask, value), BIT_PAGE_SIZE) == has_bit(
            raw,
            BIT_PAGE_SIZE,
        )) by (bit_vector);
    assert(BIT_PRESENT & BIT_PAGE_SIZE == 0 && BIT_RW & BIT_PAGE_SIZE == 0 && BIT_US
        & BIT_PAGE_SIZE == 0 && BIT_PWT & BIT_PAGE_SIZE == 0 && BIT_PCD & BIT_PAGE_SIZE == 0
        && BIT_ACCESSED & BIT_PAGE_SIZE == 0 && BIT_RESTART & BIT_PAGE_SIZE == 0 && BIT_NX
        & BIT_PAGE_SIZE == 0) by (bit_vector);
}

/// The entry that a directory builder writes is read back as it was
/// meant: as a directory, at every level but the first, that points to
/// the frame and has the flags, and is present.
pub proof fn lemma_directory_entry_reads_back(
    pfn: u64,
    flags: DirectoryFlags,
    width: PhysWidth,
    level: PagingLevel,
)
    requires
        width.wf(),
        width.spec_is_pfn_valid(pfn),
        !(level is One),
    ensures
        entry_is_directory(directory_entry(pfn, flags), level),
        !entry_is_leaf(directory_entry(pfn, flags), level),
        directory_target(directory_entry(pfn, flags), width) == pfn,
        directory_flags_of(directory_entry(pfn, flags)) == (DirectoryFlags {
            present: true,
            ..flags
        }),
{
    let before = with_directory_flags(0, flags);
    lemma_directory_flags_written(0, flags);
    lemma_fresh_flags_lack_page_size(flags);
    lemma_frame_write_keeps_flags(before, pfn);
    lemma_frame_read_back(before, pfn, (width.bits() - 12) as u64);
}

/// The entry that a leaf builder writes is read back as it was meant: as
/// the leaf of its level, where its flags make it present, that maps the
/// frame with the flags. It is never read as a directory.
pub proof fn lemma_leaf_entry_reads_back(
    pfn: u64,
    flags: LeafFlags,
    width: PhysWidth,
    level: PagingLevel,
)
    requires
        width.wf(),
        width.spec_is_pfn_valid(pfn),
        page_aligned(pfn, level),
        level is One || level is Two || level is Three,
        flags.protection_key < 16,
    ensures
        flags.directory_flags.present ==> entry_is_leaf(leaf_entry(pfn, flags, level), level),
        !entry_is_directory(leaf_entry(pfn, flags, level), level),
        leaf_target(leaf_entry(pfn, flags, level), large_leaf_start(level), width) == pfn,
        leaf_flags_of(leaf_entry(pfn, flags, level), level is One) == flags,
{
    let before = with_leaf_flags(0, flags, level is One);
    lemma_leaf_flags_written(0, flags, level is One);
    if level is One {
        lemma_frame_write_keeps_flags(before, pfn);
        lemma_frame_read_back(before, pfn, (width.bits() - 12) as u64);
    } else {
        lemma_frame_write_keeps_flags(before, pfn >> 1);
        lemma_frame_read_back(
            with_bit(before, BIT_PAGE_SIZE, true),
            pfn,
            (width.bits() - 12) as u64,
        );
    }
}

/// A leaf entry holds the flags that say whether it is present and, above
/// level one, the page-size bit.
pub proof fn lemma_leaf_entry_flags(pfn: u64, flags: LeafFlags, level: PagingLevel)
    requires
        level is One || level is Two || level is Three,
    ensures
        has_bit(leaf_entry(pfn, flags, level), BIT_PRESENT) == flags.directory_flags.present,
        !(level is One) ==> has_bit(leaf_entry(pfn, flags, level), BIT_PAGE_SIZE),
{
    crate::mmu::view::lemma_leaf_flags_present(0, flags, level is One);
    let before = with_leaf_flags(0, flags, level is One);
    if level is One {
        lemma_frame_write_keeps_flags(before, pfn);
    } else {
        lemma_frame_write_keeps_flags(before, pfn >> 1);
    }
}

/// No leaf entry is read as a directory at its level, whatever frame and
/// flags it was made of.
pub proof fn lemma_leaf_entry_is_no_directory(pfn: u64, flags: LeafFlags, level: PagingLevel)
    requires
        level is One || level is Two || level is Three,
    ensures
        !entry_is_directory(leaf_entry(pfn, flags, level), level),
{
    if !(level is One) {
        lemma_frame_write_keeps_flags(with_leaf_flags(0, flags, false), pfn >> 1);
    }
}

/// An entry that is not present, to be made a directory.
pub struct DirectoryBuilder<'a> {
    pub result: &'a mut PageTableEntry,
}

/// An entry that is not present, to be made a leaf of `level`.
pub struct LeafBuilder<'a> {
    pub result: &'a mut PageTableEntry,
    pub level: PagingLevel,
}

/// An entry that is not present, to be made what was asked for.
pub enum EntryBuilder<'a> {
    Directory(DirectoryBuilder<'a>),
    Leaf(LeafBuilder<'a>),
}

/// An entry by what can be done with it.
pub enum ViewOrBuilder<'a> {
    View(EntryView<'a>),
    Builder(EntryBuilder<'a>),
}

impl<'a> DirectoryBuilder<'a> {
    /// The entry as it stands.
    pub open spec fn raw(&self) -> u64 {
        self.result.0
    }

    /// Makes the entry point to the table at `pt`, which must start a
    /// frame: the entry is cleared, gets `flags` and the frame, and is
    /// marked present. With an offset in `pt` nothing is written.
    pub fn finalize(self, pt: PhysAddr<PageTable>, flags: &DirectoryFlags) -> (view: Option<
        DirectoryEntryView<'a>,
    >)
        ensures
            view is None <==> pt.spec_offset() != 0,
            view is None ==> final(self.result).0 == self.raw(),
            view matches Some(v) ==> v.raw() == directory_entry(pt.spec_pfn(), *flags)
                && *final(self.result) == *final(v.0),
    {
        if pt.offset() != 0 {
            return None;
        }
        self.result.0 = 0;
        self.result.set_flags(flags);
        self.result.set_frame(pt.pfn());
        self.result.set_present(true);
        Some(DirectoryEntryView(self.result))
    }
}

impl<'a> LeafBuilder<'a> {
    /// The entry as it stands.
    pub open spec fn raw(&self) -> u64 {
        self.result.0
    }

    /// Makes the entry map the page at `addr`, which must start a frame on
    /// a boundary of the page size of the level: the entry is cleared and
    /// gets `flags` and the frame, and above level one the page-size bit.
    /// Otherwise nothing is written.
    pub fn finalize(self, addr: PhysAddr<()>, flags: &LeafFlags) -> (view: Option<
        LeafEntryView<'a>,
    >)
        requires
            self.level is One || self.level is Two || self.level is Three,
        ensures
            view is Some <==> addr.spec_offset() == 0 && page_aligned(addr.spec_pfn(), self.level),
            view is None ==> final(self.result).0 == self.raw(),
            view matches Some(v) ==> v.raw() == leaf_entry(addr.spec_pfn(), *flags, self.level)
                && v.start() == large_leaf_start(self.level) && v.wf() && *final(self.result)
                == *final(v.entry),
    {
        if addr.offset() != 0 {
            return None;
        }
        let pfn_mask: u64 = page_mask(self.level);
        let paddr_start: Option<usize> = match self.level {
            PagingLevel::Three => Some(30),
            PagingLevel::Two => Some(21),
            _ => None,
        };
        let addr_pfn: u64 = addr.pfn();
        if addr_pfn & pfn_mask != addr_pfn {
            return None;
        }
        let mut entry = CommonMappedEntry(0);
        if self.level == PagingLevel::One {
            entry.set_flags::<true>(flags);
            let mut pte = PageTableEntry(entry.0);
            pte.set_frame(addr_pfn);
            self.result.0 = pte.0;
        } else {
            entry.set_flags::<false>(flags);
            let mut large = CommonLargeLeafMappedEntry(entry.0);
            large.set_page_size(true);
            large.set_frame(addr_pfn >> 1);
            self.result.0 = large.0;
        }
        Some(LeafEntryView { entry: self.result, large_leaf_paddr_start: paddr_start })
    }
}

/// What can stand in the place of an entry of a table of `level`, for a
/// caller that wants a leaf there (`build_leaf`) or a directory.
pub open spec fn level_admits(level: PagingLevel, build_leaf: bool) -> bool {
    if build_leaf {
        !(level is Five || level is Four)
    } else {
        !(level is One)
    }
}

/// The entry by what can be done with it: a view where it is present, a
/// builder of the wanted kind where it is not. Nothing where the level
/// cannot hold what is wanted: a directory at level one, a leaf at level
/// four or five.
pub fn view_or_builder<'a, const FIVE: bool>(
    pte: &'a mut PageTableEntry,
    level: PagingLevel,
    build_leaf: bool,
) -> (vob: Option<ViewOrBuilder<'a>>)
    requires
        PagingMode::spec_of(FIVE).has_level(level),
    ensures
        vob is Some <==> level_admits(level, build_leaf),
        vob is None ==> *final(pte) == *old(pte),
        vob matches Some(ViewOrBuilder::View(EntryView::Directory(d))) ==> entry_is_directory(
            old(pte).0,
            level,
        ) && d.raw() == old(pte).0 && *final(pte) == *final(d.0),
        vob matches Some(ViewOrBuilder::View(EntryView::Leaf(l))) ==> entry_is_leaf(
            old(pte).0,
            level,
        ) && l.raw() == old(pte).0 && l.start() == large_leaf_start(level) && l.wf() && *final(pte)
            == *final(l.entry),
        vob matches Some(ViewOrBuilder::Builder(EntryBuilder::Directory(b))) ==> !build_leaf
            && !old(pte).spec_present() && b.raw() == old(pte).0
            && *final(pte) == *final(b.result),
        vob matches Some(ViewOrBuilder::Builder(EntryBuilder::Leaf(b))) ==> build_leaf
            && !old(pte).spec_present() && b.raw() == old(pte).0 && b.level == level
            && *final(pte) == *final(b.result),
{
    if level == PagingLevel::One && !build_leaf {
        return None;
    }
    if build_leaf && (level == PagingLevel::Five || level == PagingLevel::Four) {
        return None;
    }
    if pte.present() {
        match pte.view_as_level::<FIVE>(level) {
            Some(view) => Some(ViewOrBuilder::View(view)),
            None => None,
        }
    } else {
        if build_leaf {
            Some(ViewOrBuilder::Builder(EntryBuilder::Leaf(LeafBuilder { result: pte, level })))
        } else {
            Some(ViewOrBuilder::Builder(EntryBuilder::Directory(DirectoryBuilder { result: pte })))
        }
    }
}

} // verus!
