//! The bit layout of the entries of the paging structures.
//!
//! One 64-bit word is read in up to three ways, by the role of the entry:
//! every entry has the fields of [`PageTableEntry`]; an entry that maps a
//! page has those of [`CommonMappedEntry`] as well; and the place of the
//! page-attribute bit, and of the frame's low end, is that of [`PTe`] for a
//! 4 KiB page and of [`CommonLargeLeafMappedEntry`] for a larger one.

use crate::common::PhysAddr;
use vstd::prelude::*;

verus! {

/// Bit 0: the entry is present.
pub const BIT_PRESENT: u64 = 0x1;

/// Bit 1: writes are allowed.
pub const BIT_RW: u64 = 0x2;

/// Bit 2: user mode has access.
pub const BIT_US: u64 = 0x4;

/// Bit 3: writes go through the cache.
pub const BIT_PWT: u64 = 0x8;

/// Bit 4: the cache is disabled.
pub const BIT_PCD: u64 = 0x10;

/// Bit 5: the entry was used for a translation.
pub const BIT_ACCESSED: u64 = 0x20;

/// Bit 6 of a leaf: the page was written to.
pub const BIT_DIRTY: u64 = 0x40;

/// The page-size bit of an entry of level two or three, and the
/// page-attribute bit of an entry of level one.
pub const BIT_PAGE_SIZE: u64 = 0x80;

/// Bit 8 of a leaf: the translation is global.
pub const BIT_GLOBAL: u64 = 0x100;

/// Bit 11: free for software.
pub const BIT_RESTART: u64 = 0x800;

/// The page-attribute bit of a leaf of level two or three.
pub const BIT_LARGE_PAT: u64 = 0x1000;

/// Bit 63: no instruction is fetched from the page.
pub const BIT_NX: u64 = 0x8000_0000_0000_0000;

/// Bits 12 to 51: the frame of a directory or of a 4 KiB page.
pub const MASK_FRAME: u64 = 0x000F_FFFF_FFFF_F000;

/// Bits 13 to 51: the frame of a 2 MiB or 1 GiB page, less its lowest bit.
pub const MASK_LARGE_FRAME: u64 = 0x000F_FFFF_FFFF_E000;

/// Bits 59 to 62: the protection key.
pub const MASK_PROTECTION_KEY: u64 = 0x7800_0000_0000_0000;

/// Whether any bit of `mask` is set in `raw`.
pub open spec fn has_bit(raw: u64, mask: u64) -> bool {
    raw & mask != 0
}

/// `raw` with the bits of `mask` set or cleared.
pub open spec fn with_bit(raw: u64, mask: u64, value: bool) -> u64 {
    if value {
        raw | mask
    } else {
        raw & !mask
    }
}

/// The field of `raw` that `mask` covers and that starts at bit `lsb`.
pub open spec fn field(raw: u64, mask: u64, lsb: u64) -> u64 {
    (raw & mask) >> lsb
}

/// `raw` with the field that `mask` covers replaced by the low bits of
/// `value`.
pub open spec fn with_field(raw: u64, mask: u64, lsb: u64, value: u64) -> u64 {
    (raw & !mask) | ((value << lsb) & mask)
}

fn get_bit(raw: u64, mask: u64) -> (set: bool)
    ensures
        set == has_bit(raw, mask),
{
    raw & mask != 0
}

fn set_bit(raw: u64, mask: u64, value: bool) -> (updated: u64)
    ensures
        updated == with_bit(raw, mask, value),
{
    if value {
        raw | mask
    } else {
        raw & !mask
    }
}

fn get_field(raw: u64, mask: u64, lsb: u8) -> (value: u64)
    requires
        lsb < 64,
    ensures
        value == field(raw, mask, lsb as u64),
{
    (raw & mask) >> lsb
}

fn set_field(raw: u64, mask: u64, lsb: u8, value: u64) -> (updated: u64)
    requires
        lsb < 64,
    ensures
        updated == with_field(raw, mask, lsb as u64, value),
{
    (raw & !mask) | ((value << lsb) & mask)
}

/// The fields that every entry has, whatever its level and role.
#[derive(Debug, Copy, Clone, PartialEq, Eq, Structural)]
pub struct PageTableEntry(pub u64);

impl PageTableEntry {
    /// Whether the entry is present.
    pub open spec fn spec_present(&self) -> bool {
        has_bit(self.0, BIT_PRESENT)
    }

    /// The frame number in bits 12 to 51.
    pub open spec fn spec_frame(&self) -> u64 {
        field(self.0, MASK_FRAME, 12)
    }

    /// Reads the present bit.
    #[verifier::when_used_as_spec(spec_present)]
    pub fn present(&self) -> (set: bool)
        ensures
            set == self.spec_present(),
    {
        get_bit(self.0, BIT_PRESENT)
    }

    pub fn set_present(&mut self, value: bool)
        ensures
            final(self).0 == with_bit(old(self).0, BIT_PRESENT, value),
    {
        self.0 = set_bit(self.0, BIT_PRESENT, value);
    }

    /// Reads the write bit.
    pub fn rw(&self) -> (set: bool)
        ensures
            set == has_bit(self.0, BIT_RW),
    {
        get_bit(self.0, BIT_RW)
    }

    pub fn set_rw(&mut self, value: bool)
        ensures
            final(self).0 == with_bit(old(self).0, BIT_RW, value),
    {
        self.0 = set_bit(self.0, BIT_RW, value);
    }

    /// Reads the user bit.
    pub fn us(&self) -> (set: bool)
        ensures
            set == has_bit(self.0, BIT_US),
    {
        get_bit(self.0, BIT_US)
    }

    pub fn set_us(&mut self, value: bool)
        ensures
            final(self).0 == with_bit(old(self).0, BIT_US, value),
    {
        self.0 = set_bit(self.0, BIT_US, value);
    }

    /// Reads the write-through bit.
    pub fn pwt(&self) -> (set: bool)
        ensures
            set == has_bit(self.0, BIT_PWT),
    {
        get_bit(self.0, BIT_PWT)
    }

    pub fn set_pwt(&mut self, value: bool)
        ensures
            final(self).0 == with_bit(old(self).0, BIT_PWT, value),
    {
        self.0 = set_bit(self.0, BIT_PWT, value);
    }

    /// Reads the cache-disable bit.
    pub fn pcd(&self) -> (set: bool)
        ensures
            set == has_bit(self.0, BIT_PCD),
    {
        get_bit(self.0, BIT_PCD)
    }

    pub fn set_pcd(&mut self, value: bool)
        ensures
            final(self).0 == with_bit(old(self).0, BIT_PCD, value),
    {
        self.0 = set_bit(self.0, BIT_PCD, value);
    }

    /// Reads the accessed bit.
    pub fn accessed(&self) -> (set: bool)
        ensures
            set == has_bit(self.0, BIT_ACCESSED),
    {
        get_bit(self.0, BIT_ACCESSED)
    }

    pub fn set_accessed(&mut self, value: bool)
        ensures
            final(self).0 == with_bit(old(self).0, BIT_ACCESSED, value),
    {
        self.0 = set_bit(self.0, BIT_ACCESSED, value);
    }

    /// Reads the bit that is free for software.
    pub fn restart(&self) -> (set: bool)
        ensures
            set == has_bit(self.0, BIT_RESTART),
    {
        get_bit(self.0, BIT_RESTART)
    }

    pub fn set_restart(&mut self, value: bool)
        ensures
            final(self).0 == with_bit(old(self).0, BIT_RESTART, value),
    {
        self.0 = set_bit(self.0, BIT_RESTART, value);
    }

    /// Reads the no-execute bit.
    pub fn nx(&self) -> (set: bool)
        ensures
            set == has_bit(self.0, BIT_NX),
    {
        get_bit(self.0, BIT_NX)
    }

    pub fn set_nx(&mut self, value: bool)
        ensures
            final(self).0 == with_bit(old(self).0, BIT_NX, value),
    {
        self.0 = set_bit(self.0, BIT_NX, value);
    }

    /// The frame number in bits 12 to 51.
    #[verifier::when_used_as_spec(spec_frame)]
    pub fn frame(&self) -> (frame: u64)
        ensures
            frame == self.spec_frame(),
    {
        get_field(self.0, MASK_FRAME, 12)
    }

    /// Stores the low 40 bits of `frame` in bits 12 to 51.
    pub fn set_frame(&mut self, frame: u64)
        ensures
            final(self).0 == with_field(old(self).0, MASK_FRAME, 12, frame),
    {
        self.0 = set_field(self.0, MASK_FRAME, 12, frame);
    }
}

/// The fields that every entry that maps a page has, of whatever size.
#[derive(Debug, Copy, Clone, PartialEq, Eq, Structural)]
pub struct CommonMappedEntry(pub u64);

impl CommonMappedEntry {
    /// Reads the dirty bit.
    pub fn dirty(&self) -> (set: bool)
        ensures
            set == has_bit(self.0, BIT_DIRTY),
    {
        get_bit(self.0, BIT_DIRTY)
    }

    pub fn set_dirty(&mut self, value: bool)
        ensures
            final(self).0 == with_bit(old(self).0, BIT_DIRTY, value),
    {
        self.0 = set_bit(self.0, BIT_DIRTY, value);
    }

    /// Reads the global bit.
    pub fn global(&self) -> (set: bool)
        ensures
            set == has_bit(self.0, BIT_GLOBAL),
    {
        get_bit(self.0, BIT_GLOBAL)
    }

    pub fn set_global(&mut self, value: bool)
        ensures
            final(self).0 == with_bit(old(self).0, BIT_GLOBAL, value),
    {
        self.0 = set_bit(self.0, BIT_GLOBAL, value);
    }

    /// The protection key in bits 59 to 62.
    pub fn protection_key(&self) -> (key: u64)
        ensures
            key == field(self.0, MASK_PROTECTION_KEY, 59),
    {
        get_field(self.0, MASK_PROTECTION_KEY, 59)
    }

    /// Stores the low 4 bits of `key` in bits 59 to 62.
    pub fn set_protection_key(&mut self, key: u64)
        ensures
            final(self).0 == with_field(old(self).0, MASK_PROTECTION_KEY, 59, key),
    {
        self.0 = set_field(self.0, MASK_PROTECTION_KEY, 59, key);
    }
}

/// The fields in which an entry that maps a 2 MiB or 1 GiB page differs
/// from one that maps a 4 KiB page.
#[derive(Debug, Copy, Clone, PartialEq, Eq, Structural)]
pub struct CommonLargeLeafMappedEntry(pub u64);

impl CommonLargeLeafMappedEntry {
    /// Whether the page-size bit is set: the entry maps a page.
    pub open spec fn spec_page_size(&self) -> bool {
        has_bit(self.0, BIT_PAGE_SIZE)
    }

    /// The frame number in bits 13 to 51, which lacks its lowest bit.
    pub open spec fn spec_frame(&self) -> u64 {
        field(self.0, MASK_LARGE_FRAME, 13)
    }

    /// Reads the page-size bit.
    #[verifier::when_used_as_spec(spec_page_size)]
    pub fn page_size(&self) -> (set: bool)
        ensures
            set == self.spec_page_size(),
    {
        get_bit(self.0, BIT_PAGE_SIZE)
    }

    pub fn set_page_size(&mut self, value: bool)
        ensures
            final(self).0 == with_bit(old(self).0, BIT_PAGE_SIZE, value),
    {
        self.0 = set_bit(self.0, BIT_PAGE_SIZE, value);
    }

    /// Reads the page-attribute bit.
    pub fn pat(&self) -> (set: bool)
        ensures
            set == has_bit(self.0, BIT_LARGE_PAT),
    {
        get_bit(self.0, BIT_LARGE_PAT)
    }

    pub fn set_pat(&mut self, value: bool)
        ensures
            final(self).0 == with_bit(old(self).0, BIT_LARGE_PAT, value),
    {
        self.0 = set_bit(self.0, BIT_LARGE_PAT, value);
    }

    /// The frame number in bits 13 to 51, which lacks its lowest bit.
    #[verifier::when_used_as_spec(spec_frame)]
    pub fn frame(&self) -> (frame: u64)
        ensures
            frame == self.spec_frame(),
    {
        get_field(self.0, MASK_LARGE_FRAME, 13)
    }

    /// Stores the low 39 bits of `frame` in bits 13 to 51.
    pub fn set_frame(&mut self, frame: u64)
        ensures
            final(self).0 == with_field(old(self).0, MASK_LARGE_FRAME, 13, frame),
    {
        self.0 = set_field(self.0, MASK_LARGE_FRAME, 13, frame);
    }
}

/// An entry of a table of level one, which maps a 4 KiB page.
#[derive(Debug, Copy, Clone, PartialEq, Eq, Structural)]
pub struct PTe(pub u64);

impl PTe {
    /// Reads the page-attribute bit.
    pub fn pat(&self) -> (set: bool)
        ensures
            set == has_bit(self.0, BIT_PAGE_SIZE),
    {
        get_bit(self.0, BIT_PAGE_SIZE)
    }

    pub fn set_pat(&mut self, value: bool)
        ensures
            final(self).0 == with_bit(old(self).0, BIT_PAGE_SIZE, value),
    {
        self.0 = set_bit(self.0, BIT_PAGE_SIZE, value);
    }
}

/// A table of any level: 512 entries, which fill one frame.
pub struct PageTable {
    pub entries: [PageTableEntry; 512],
}

/// The value of the root-table register for the root table at `pml4`: its
/// address, with no flag set.
pub open spec fn spec_make_cr3(pml4: &PhysAddr<PageTable>) -> u64 {
    pml4.spec_pfn() << 12
}

/// The value of the root-table register for the root table at `pml4`: its
/// address, with no flag set.
#[verifier::when_used_as_spec(spec_make_cr3)]
pub fn make_cr3(pml4: &PhysAddr<PageTable>) -> (cr3: u64)
    ensures
        cr3 == spec_make_cr3(pml4),
{
    pml4.pfn() << 12
}

} // verus!
