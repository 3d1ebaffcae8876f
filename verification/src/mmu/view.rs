//! Flags of an entry as plain values, and views of an entry by its role.

use super::paging::{
    field, has_bit, with_bit, with_field, CommonLargeLeafMappedEntry, CommonMappedEntry, PTe,
    PageTable, PageTableEntry, BIT_ACCESSED, BIT_DIRTY, BIT_GLOBAL, BIT_LARGE_PAT, BIT_NX,
    BIT_PAGE_SIZE, BIT_PCD, BIT_PRESENT, BIT_PWT, BIT_RESTART, BIT_RW, BIT_US, MASK_FRAME,
    MASK_LARGE_FRAME, MASK_PROTECTION_KEY,
};
use crate::common::{PagingLevel, PagingMode, PhysAddr, PhysWidth};
use vstd::prelude::*;

verus! {

/// The flags that every entry has.
#[derive(Debug, Clone, PartialEq, Eq)]
pub struct DirectoryFlags {
    pub present: bool,
    pub rw: bool,
    pub us: bool,
    pub pwt: bool,
    pub pcd: bool,
    pub accessed: bool,
    pub restart: bool,
    pub nx: bool,
}

impl DirectoryFlags {
    /// The most permissive flags: present, writable and open to user mode,
    /// with caching as usual and execution allowed.
    pub open spec fn permissive() -> DirectoryFlags {
        DirectoryFlags {
            present: true,
            rw: true,
            us: true,
            pwt: false,
            pcd: false,
            accessed: false,
            restart: false,
            nx: false,
        }
    }
}

impl Default for DirectoryFlags {
    fn default() -> (flags: Self)
        ensures
            flags == DirectoryFlags::permissive(),
    {
        Self {
            present: true,
            rw: true,
            us: true,
            pwt: false,
            pcd: false,
            accessed: false,
            restart: false,
            nx: false,
        }
    }
}

/// The flags of an entry that maps a page.
#[derive(Debug, Clone, PartialEq, Eq)]
pub struct LeafFlags {
    pub directory_flags: DirectoryFlags,
    pub dirty: bool,
    pub pat: bool,
    pub global: bool,
    pub protection_key: u8,
}

/// The flags that an entry word holds.
pub open spec fn directory_flags_of(raw: u64) -> DirectoryFlags {
    DirectoryFlags {
        present: has_bit(raw, BIT_PRESENT),
        rw: has_bit(raw, BIT_RW),
        us: has_bit(raw, BIT_US),
        pwt: has_bit(raw, BIT_PWT),
        pcd: has_bit(raw, BIT_PCD),
        accessed: has_bit(raw, BIT_ACCESSED),
        restart: has_bit(raw, BIT_RESTART),
        nx: has_bit(raw, BIT_NX),
    }
}

/// The entry word `raw` with each of its eight flags set or cleared.
pub open spec fn directory_bits(
    raw: u64,
    present: bool,
    rw: bool,
    us: bool,
    pwt: bool,
    pcd: bool,
    accessed: bool,
    restart: bool,
    nx: bool,
) -> u64 {
    with_bit(
        with_bit(
            with_bit(
                with_bit(
                    with_bit(
                        with_bit(
                            with_bit(with_bit(raw, BIT_PRESENT, present), BIT_RW, rw),
                            BIT_US,
                            us,
                        ),
                        BIT_PWT,
                        pwt,
                    ),
                    BIT_PCD,
                    pcd,
                ),
                BIT_ACCESSED,
                accessed,
            ),
            BIT_RESTART,
            restart,
        ),
        BIT_NX,
        nx,
    )
}

/// The entry word `raw` with its flags replaced by `flags`.
pub open spec fn with_directory_flags(raw: u64, flags: DirectoryFlags) -> u64 {
    directory_bits(
        raw,
        flags.present,
        flags.rw,
        flags.us,
        flags.pwt,
        flags.pcd,
        flags.accessed,
        flags.restart,
        flags.nx,
    )
}

/// The page-attribute bit of a leaf: bit 7 in a table of level one, bit 12
/// above it.
pub open spec fn pat_bit(first_level: bool) -> u64 {
    if first_level {
        BIT_PAGE_SIZE
    } else {
        BIT_LARGE_PAT
    }
}

/// The flags that the word of a leaf holds.
pub open spec fn leaf_flags_of(raw: u64, first_level: bool) -> LeafFlags {
    LeafFlags {
        directory_flags: directory_flags_of(raw),
        dirty: has_bit(raw, BIT_DIRTY),
        pat: has_bit(raw, pat_bit(first_level)),
        global: has_bit(raw, BIT_GLOBAL),
        protection_key: field(raw, MASK_PROTECTION_KEY, 59) as u8,
    }
}

/// The word `raw` of a leaf, which has its directory flags already, with
/// each of its other flags set or cleared; of the protection key the low
/// four bits are kept.
pub open spec fn leaf_bits(
    raw: u64,
    dirty: bool,
    pat: bool,
    global: bool,
    protection_key: u8,
    first_level: bool,
) -> u64 {
    with_bit(
        with_field(
            with_bit(with_bit(raw, BIT_DIRTY, dirty), BIT_GLOBAL, global),
            MASK_PROTECTION_KEY,
            59,
            protection_key as u64,
        ),
        pat_bit(first_level),
        pat,
    )
}

/// The word `raw` of a leaf with its flags replaced by `flags`; of the
/// protection key the low four bits are kept.
pub open spec fn with_leaf_flags(raw: u64, flags: LeafFlags, first_level: bool) -> u64 {
    leaf_bits(
        with_directory_flags(raw, flags.directory_flags),
        flags.dirty,
        flags.pat,
        flags.global,
        flags.protection_key,
        first_level,
    )
}

/// Whether a present entry of a table of `level` points to a table.
pub open spec fn entry_is_directory(raw: u64, level: PagingLevel) -> bool {
    has_bit(raw, BIT_PRESENT) && match level {
        PagingLevel::Five | PagingLevel::Four => true,
        PagingLevel::Three | PagingLevel::Two => !has_bit(raw, BIT_PAGE_SIZE),
        PagingLevel::One => false,
    }
}

/// Whether a present entry of a table of `level` maps a page.
pub open spec fn entry_is_leaf(raw: u64, level: PagingLevel) -> bool {
    has_bit(raw, BIT_PRESENT) && match level {
        PagingLevel::Five | PagingLevel::Four => false,
        PagingLevel::Three | PagingLevel::Two => has_bit(raw, BIT_PAGE_SIZE),
        PagingLevel::One => true,
    }
}

/// The lowest address bit that a leaf of `level` translates, where the leaf
/// is larger than 4 KiB.
pub open spec fn large_leaf_start(level: PagingLevel) -> Option<usize> {
    match level {
        PagingLevel::Three => Some(30usize),
        PagingLevel::Two => Some(21usize),
        _ => None,
    }
}

/// The frame that a directory entry points to, as far as `width` can
/// address it.
pub open spec fn directory_target(raw: u64, width: PhysWidth) -> u64 {
    field(raw, MASK_FRAME, 12) & width.spec_solely_pfn_mask()
}

/// The first frame of the page that a leaf maps, as far as `width` can
/// address it. A large leaf gives its lowest address bit in `start`; the
/// frame bits below it are not part of the address.
pub open spec fn leaf_target(raw: u64, start: Option<usize>, width: PhysWidth) -> u64 {
    match start {
        Some(s) => (field(raw, MASK_LARGE_FRAME, 13) << 1) & width.spec_solely_pfn_mask() & (
        !0u64 << ((s - 12) as u64)),
        None => field(raw, MASK_FRAME, 12) & width.spec_solely_pfn_mask(),
    }
}

impl PageTableEntry {
    pub(crate) fn get_flags(&self) -> (flags: DirectoryFlags)
        ensures
            flags == directory_flags_of(self.0),
    {
        DirectoryFlags {
            present: self.present(),
            rw: self.rw(),
            us: self.us(),
            pwt: self.pwt(),
            pcd: self.pcd(),
            accessed: self.accessed(),
            restart: self.restart(),
            nx: self.nx(),
        }
    }

    pub(crate) fn set_flags(&mut self, flags: &DirectoryFlags)
        ensures
            final(self).0 == with_directory_flags(old(self).0, *flags),
    {
        self.set_present(flags.present);
        self.set_rw(flags.rw);
        self.set_us(flags.us);
        self.set_pwt(flags.pwt);
        self.set_pcd(flags.pcd);
        self.set_accessed(flags.accessed);
        self.set_restart(flags.restart);
        self.set_nx(flags.nx);
    }
}

impl CommonMappedEntry {
    /// The flags of the leaf; `FL` says that it stands in a table of level
    /// one.
    pub(crate) fn get_flags<const FL: bool>(&self) -> (flags: LeafFlags)
        ensures
            flags == leaf_flags_of(self.0, FL),
    {
        let pat: bool = if FL {
            PTe(self.0).pat()
        } else {
            CommonLargeLeafMappedEntry(self.0).pat()
        };
        let key: u64 = self.protection_key();
        assert(key < 16) by (bit_vector)
            requires
                exists|raw: u64| key == (raw & MASK_PROTECTION_KEY) >> 59,
        ;
        LeafFlags {
            directory_flags: PageTableEntry(self.0).get_flags(),
            dirty: self.dirty(),
            pat,
            global: self.global(),
            protection_key: key as u8,
        }
    }

    pub(crate) fn set_flags<const FL: bool>(&mut self, flags: &LeafFlags)
        ensures
            final(self).0 == with_leaf_flags(old(self).0, *flags, FL),
    {
        let mut pte = PageTableEntry(self.0);
        pte.set_flags(&flags.directory_flags);
        self.0 = pte.0;
        self.set_dirty(flags.dirty);
        self.set_global(flags.global);
        self.set_protection_key(flags.protection_key as u64);
        if FL {
            let mut entry = PTe(self.0);
            entry.set_pat(flags.pat);
            self.0 = entry.0;
        } else {
            let mut entry = CommonLargeLeafMappedEntry(self.0);
            entry.set_pat(flags.pat);
            self.0 = entry.0;
        }
    }
}

/// A present entry that points to a table.
pub struct DirectoryEntryView<'a>(pub &'a mut PageTableEntry);

/// A present entry that maps a page. `large_leaf_paddr_start` is the lowest
/// address bit that the entry translates where the page is larger than
/// 4 KiB: 21 or 30.
pub struct LeafEntryView<'a> {
    pub entry: &'a mut PageTableEntry,
    pub large_leaf_paddr_start: Option<usize>,
}

/// A present entry by its role.
pub enum EntryView<'a> {
    Directory(DirectoryEntryView<'a>),
    Leaf(LeafEntryView<'a>),
}

impl<'a> DirectoryEntryView<'a> {
    /// The entry as it stands.
    pub open spec fn raw(&self) -> u64 {
        self.0.0
    }
}

impl<'a> LeafEntryView<'a> {
    /// The entry as it stands.
    pub open spec fn raw(&self) -> u64 {
        self.entry.0
    }

    /// The lowest address bit that the leaf translates, where its page is
    /// larger than 4 KiB.
    pub open spec fn start(&self) -> Option<usize> {
        self.large_leaf_paddr_start
    }
}

/// What a view of either kind offers.
pub trait PagingAttributesViewer {
    /// What the frame that the entry points to holds.
    type Target;

    type Flags;

    /// What holds of every view that the library hands out.
    spec fn wf(&self) -> bool;

    /// The entry as the hardware reads it.
    fn get_raw_underlying(&self) -> u64;

    /// The frame that the entry points to, with offset zero.
    fn get_pointed_physical_address(&self, width: PhysWidth) -> PhysAddr<Self::Target>
        requires
            self.wf(),
    ;

    /// The flags of the entry.
    fn get_flags(&self) -> Self::Flags;

    /// Replaces the flags of the entry and leaves its other bits.
    fn set_flags(&mut self, flags: &Self::Flags);
}

impl PagingAttributesViewer for DirectoryEntryView<'_> {
    type Target = PageTable;

    type Flags = DirectoryFlags;

    open spec fn wf(&self) -> bool {
        true
    }

    fn get_raw_underlying(&self) -> (raw: u64)
        ensures
            raw == self.raw(),
    {
        self.0.0
    }

    fn get_pointed_physical_address(&self, width: PhysWidth) -> (target: PhysAddr<PageTable>)
        ensures
            target.wf(),
            target.spec_pfn() == directory_target(self.raw(), width),
            target.spec_offset() == 0,
            target.spec_width() == width,
    {
        proof {
            use_type_invariant(width);
            width.lemma_masked_pfn_valid(self.0.spec_frame());
        }
        PhysAddr::new(self.0.frame() & width.solely_pfn_mask(), 0, width)
    }

    fn get_flags(&self) -> (flags: DirectoryFlags)
        ensures
            flags == directory_flags_of(self.raw()),
    {
        self.0.get_flags()
    }

    fn set_flags(&mut self, flags: &DirectoryFlags)
        ensures
            final(self).raw() == with_directory_flags(old(self).raw(), *flags),
            *final(final(self).0) == *final(old(self).0),
    {
        self.0.set_flags(flags)
    }
}

impl PagingAttributesViewer for LeafEntryView<'_> {
    type Target = ();

    type Flags = LeafFlags;

    /// A large leaf starts at address bit 21 or 30.
    open spec fn wf(&self) -> bool {
        self.start() matches Some(s) ==> s == 21 || s == 30
    }

    fn get_raw_underlying(&self) -> (raw: u64)
        ensures
            raw == self.raw(),
    {
        self.entry.0
    }

    fn get_pointed_physical_address(&self, width: PhysWidth) -> (target: PhysAddr<()>)
        ensures
            target.wf(),
            target.spec_pfn() == leaf_target(self.raw(), self.start(), width),
            target.spec_offset() == 0,
            target.spec_width() == width,
    {
        proof {
            use_type_invariant(width);
        }
        let pfn_mask: u64 = width.solely_pfn_mask();
        let pfn: u64 = match self.large_leaf_paddr_start {
            Some(start) => {
                let entry = CommonLargeLeafMappedEntry(self.entry.0);
                let resv_trunc_mask: u64 = !0u64 << (start - 12);
                let shifted: u64 = entry.frame() << 1;
                proof {
                    width.lemma_masked_pfn_valid(shifted);
                    lemma_and_below(shifted & pfn_mask, resv_trunc_mask);
                }
                shifted & pfn_mask & resv_trunc_mask
            },
            None => {
                let entry = PageTableEntry(self.entry.0);
                proof {
                    width.lemma_masked_pfn_valid(entry.spec_frame());
                }
                entry.frame() & pfn_mask
            },
        };
        PhysAddr::new(pfn, 0, width)
    }

    fn get_flags(&self) -> (flags: LeafFlags)
        ensures
            flags == leaf_flags_of(self.raw(), self.start() is None),
    {
        match self.large_leaf_paddr_start {
            Some(_) => CommonMappedEntry(self.entry.0).get_flags::<false>(),
            None => CommonMappedEntry(self.entry.0).get_flags::<true>(),
        }
    }

    fn set_flags(&mut self, flags: &LeafFlags)
        ensures
            final(self).raw() == with_leaf_flags(old(self).raw(), *flags, old(self).start() is None),
            final(self).start() == old(self).start(),
            *final(final(self).entry) == *final(old(self).entry),
    {
        let mut entry = CommonMappedEntry(self.entry.0);
        match self.large_leaf_paddr_start {
            Some(_) => entry.set_flags::<false>(flags),
            None => entry.set_flags::<true>(flags),
        }
        self.entry.0 = entry.0;
    }
}

proof fn lemma_directory_bits(
    raw: u64,
    present: bool,
    rw: bool,
    us: bool,
    pwt: bool,
    pcd: bool,
    accessed: bool,
    restart: bool,
    nx: bool,
)
    by (bit_vector)
    ensures
        directory_bits(
            raw,
            has_bit(raw, BIT_PRESENT),
            has_bit(raw, BIT_RW),
            has_bit(raw, BIT_US),
            has_bit(raw, BIT_PWT),
            has_bit(raw, BIT_PCD),
            has_bit(raw, BIT_ACCESSED),
            has_bit(raw, BIT_RESTART),
            has_bit(raw, BIT_NX),
        ) == raw,
        ({
            let set = directory_bits(raw, present, rw, us, pwt, pcd, accessed, restart, nx);
            &&& has_bit(set, BIT_PRESENT) == present
            &&& has_bit(set, BIT_RW) == rw
            &&& has_bit(set, BIT_US) == us
            &&& has_bit(set, BIT_PWT) == pwt
            &&& has_bit(set, BIT_PCD) == pcd
            &&& has_bit(set, BIT_ACCESSED) == accessed
            &&& has_bit(set, BIT_RESTART) == restart
            &&& has_bit(set, BIT_NX) == nx
            &&& set & !0x8000_0000_0000_083Fu64 == raw & !0x8000_0000_0000_083Fu64
        }),
{
}

proof fn lemma_leaf_bits(
    raw: u64,
    dirty: bool,
    pat: bool,
    global: bool,
    protection_key: u8,
    first_level: bool,
)
    by (bit_vector)
    ensures
        leaf_bits(
            raw,
            has_bit(raw, BIT_DIRTY),
            has_bit(raw, pat_bit(first_level)),
            has_bit(raw, BIT_GLOBAL),
            field(raw, MASK_PROTECTION_KEY, 59) as u8,
            first_level,
        ) == raw,
        ({
            let set = leaf_bits(raw, dirty, pat, global, protection_key, first_level);
            &&& has_bit(set, BIT_DIRTY) == dirty
            &&& has_bit(set, pat_bit(first_level)) == pat
            &&& has_bit(set, BIT_GLOBAL) == global
            &&& protection_key < 16 ==> field(set, MASK_PROTECTION_KEY, 59) as u8 == protection_key
            &&& has_bit(set, BIT_PRESENT) == has_bit(raw, BIT_PRESENT)
            &&& has_bit(set, BIT_RW) == has_bit(raw, BIT_RW)
            &&& has_bit(set, BIT_US) == has_bit(raw, BIT_US)
            &&& has_bit(set, BIT_PWT) == has_bit(raw, BIT_PWT)
            &&& has_bit(set, BIT_PCD) == has_bit(raw, BIT_PCD)
            &&& has_bit(set, BIT_ACCESSED) == has_bit(raw, BIT_ACCESSED)
            &&& has_bit(set, BIT_RESTART) == has_bit(raw, BIT_RESTART)
            &&& has_bit(set, BIT_NX) == has_bit(raw, BIT_NX)
        }),
{
}

/// Writing back the flags that an entry holds leaves the entry as it is.
pub proof fn lemma_directory_flags_round_trip(raw: u64)
    ensures
        with_directory_flags(raw, directory_flags_of(raw)) == raw,
{
    lemma_directory_bits(raw, true, true, true, true, true, true, true, true);
}

/// An entry holds the flags that were written to it, and its other bits are
/// as they were.
pub proof fn lemma_directory_flags_written(raw: u64, flags: DirectoryFlags)
    ensures
        directory_flags_of(with_directory_flags(raw, flags)) == flags,
        with_directory_flags(raw, flags) & !0x8000_0000_0000_083Fu64 == raw
            & !0x8000_0000_0000_083Fu64,
{
    lemma_directory_bits(
        raw,
        flags.present,
        flags.rw,
        flags.us,
        flags.pwt,
        flags.pcd,
        flags.accessed,
        flags.restart,
        flags.nx,
    );
}

/// Writing back the flags that a leaf holds leaves the leaf as it is,
/// whatever its size.
pub proof fn lemma_leaf_flags_round_trip(raw: u64, first_level: bool)
    ensures
        with_leaf_flags(raw, leaf_flags_of(raw, first_level), first_level) == raw,
{
    lemma_directory_flags_round_trip(raw);
    lemma_leaf_bits(raw, true, true, true, 0, first_level);
}

/// A leaf is present where the flags that were written to it say so.
pub proof fn lemma_leaf_flags_present(raw: u64, flags: LeafFlags, first_level: bool)
    ensures
        has_bit(with_leaf_flags(raw, flags, first_level), BIT_PRESENT)
            == flags.directory_flags.present,
{
    lemma_directory_flags_written(raw, flags.directory_flags);
    lemma_leaf_bits(
        with_directory_flags(raw, flags.directory_flags),
        flags.dirty,
        flags.pat,
        flags.global,
        flags.protection_key,
        first_level,
    );
}

/// A leaf holds the flags that were written to it, where the protection
/// key fits its four bits.
pub proof fn lemma_leaf_flags_written(raw: u64, flags: LeafFlags, first_level: bool)
    requires
        flags.protection_key < 16,
    ensures
        leaf_flags_of(with_leaf_flags(raw, flags, first_level), first_level) == flags,
{
    lemma_directory_flags_written(raw, flags.directory_flags);
    lemma_leaf_bits(
        with_directory_flags(raw, flags.directory_flags),
        flags.dirty,
        flags.pat,
        flags.global,
        flags.protection_key,
        first_level,
    );
}

/// An entry of zeros is not present, so neither a directory nor a leaf.
pub proof fn lemma_zero_entry()
    ensures
        !has_bit(0, BIT_PRESENT),
        forall|level: PagingLevel| !entry_is_directory(0, level) && !entry_is_leaf(0, level),
{
    assert(!has_bit(0u64, BIT_PRESENT)) by (bit_vector);
}

proof fn lemma_and_below(x: u64, mask: u64)
    by (bit_vector)
    ensures
        x & mask <= x,
{
}

impl PageTableEntry {
    /// The entry by its role in a table of `level`: nothing where it is not
    /// present, else a directory or a leaf. `FIVE` is the translation
    /// mode, which must have the level.
    pub fn view_as_level<'a, const FIVE: bool>(&'a mut self, level: PagingLevel) -> (view: Option<
        EntryView<'a>,
    >)
        requires
            PagingMode::spec_of(FIVE).has_level(level),
        ensures
            view is Some <==> old(self).spec_present(),
            view is None ==> *final(self) == *old(self),
            view matches Some(EntryView::Directory(d)) ==> entry_is_directory(old(self).0, level)
                && d.raw() == old(self).0 && *final(self) == *final(d.0),
            view matches Some(EntryView::Leaf(l)) ==> entry_is_leaf(old(self).0, level)
                && l.raw() == old(self).0 && *final(self) == *final(l.entry) && l.start()
                == large_leaf_start(level) && l.wf(),
    {
        if !self.present() {
            return None;
        }
        match level {
            PagingLevel::Five | PagingLevel::Four => {
                Some(EntryView::Directory(DirectoryEntryView(self)))
            },
            PagingLevel::Three | PagingLevel::Two => {
                let cll = CommonLargeLeafMappedEntry(self.0);
                if cll.page_size() {
                    Some(
                        EntryView::Leaf(
                            LeafEntryView {
                                entry: self,
                                large_leaf_paddr_start: Some(
                                    if level == PagingLevel::Three {
                                        30
                                    } else {
                                        21
                                    },
                                ),
                            },
                        ),
                    )
                } else {
                    Some(EntryView::Directory(DirectoryEntryView(self)))
                }
            },
            PagingLevel::One => Some(
                EntryView::Leaf(LeafEntryView { entry: self, large_leaf_paddr_start: None }),
            ),
        }
    }
}

} // verus!
