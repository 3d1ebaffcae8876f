//! The entries of an instruction decoder's tables: a tag in the two highest
//! bits of sixteen, and a number in the fourteen below.

use vstd::prelude::*;

verus! {

/// An entry of a decoder table.
#[derive(Copy, Clone, Debug)]
pub struct DescriptorEntry(pub u16);

impl DescriptorEntry {
    /// The tag of an entry that holds nothing.
    pub const NOT_PRESENT: u16 = 0b00;

    /// The tag of an entry that names a branch.
    pub const BRANCH: u16 = 0b01;

    /// The tag of an entry that names an instruction.
    pub const LEAF: u16 = 0b10;

    /// The tag of an entry that names a lookup table.
    pub const LOOKUP: u16 = 0b11;

    pub const TAG_NOT_PRESENT: u16 = 0x0000;

    pub const TAG_BRANCH: u16 = 0x4000;

    pub const TAG_LEAF: u16 = 0x8000;

    pub const TAG_LOOKUP: u16 = 0xC000;

    /// The bits of the number.
    pub const MASK_DATA: u16 = 0x3FFF;

    /// The entry with tag `tag` and number `value`.
    pub open spec fn pack(tag: u16, value: u16) -> u16 {
        (tag << 14) | (value & 0x3FFF)
    }

    /// The tag of the entry.
    pub open spec fn tag(self) -> u16 {
        self.0 >> 14
    }

    /// The number of the entry.
    pub open spec fn value(self) -> u16 {
        self.0 & 0x3FFF
    }

    /// The entry that names the lookup table at `offset`.
    pub fn new_lookup(offset: u16) -> (entry: Self)
        requires
            offset <= Self::MASK_DATA,
        ensures
            entry.0 == Self::pack(Self::LOOKUP, offset),
            entry.tag() == Self::LOOKUP,
            entry.value() == offset,
    {
        proof {
            Self::lemma_unpack_packed(Self::LOOKUP, offset);
        }
        Self(Self::TAG_LOOKUP | (offset & Self::MASK_DATA))
    }

    /// The entry that names the branch at `offset`.
    pub fn new_branch(offset: u16) -> (entry: Self)
        requires
            offset <= Self::MASK_DATA,
        ensures
            entry.0 == Self::pack(Self::BRANCH, offset),
            entry.tag() == Self::BRANCH,
            entry.value() == offset,
    {
        proof {
            Self::lemma_unpack_packed(Self::BRANCH, offset);
        }
        Self(Self::TAG_BRANCH | (offset & Self::MASK_DATA))
    }

    /// The entry that names the instruction `id`.
    pub fn new_leaf(id: u16) -> (entry: Self)
        requires
            id <= Self::MASK_DATA,
        ensures
            entry.0 == Self::pack(Self::LEAF, id),
            entry.tag() == Self::LEAF,
            entry.value() == id,
    {
        proof {
            Self::lemma_unpack_packed(Self::LEAF, id);
        }
        Self(Self::TAG_LEAF | (id & Self::MASK_DATA))
    }

    /// The tag and the number of the entry.
    pub fn unpack(self) -> (parts: (u16, u16))
        ensures
            parts == (self.tag(), self.value()),
            parts.0 <= Self::LOOKUP,
            parts.1 <= Self::MASK_DATA,
            Self::pack(parts.0, parts.1) == self.0,
    {
        let bits: u16 = self.0;
        assert(bits >> 14 <= 3 && bits & 0x3FFF <= 0x3FFF && ((bits >> 14) << 14) | ((bits
            & 0x3FFF) & 0x3FFF) == bits) by (bit_vector);
        let tag: u16 = self.0 >> 14;
        let val: u16 = self.0 & Self::MASK_DATA;
        (tag, val)
    }

    /// An entry packed from a tag and a number unpacks to them.
    pub proof fn lemma_unpack_packed(tag: u16, value: u16)
        requires
            tag <= Self::LOOKUP,
            value <= Self::MASK_DATA,
        ensures
            DescriptorEntry(Self::pack(tag, value)).tag() == tag,
            DescriptorEntry(Self::pack(tag, value)).value() == value,
            Self::pack(Self::NOT_PRESENT, value) == Self::TAG_NOT_PRESENT | (value & 0x3FFF),
            Self::pack(Self::BRANCH, value) == Self::TAG_BRANCH | (value & 0x3FFF),
            Self::pack(Self::LEAF, value) == Self::TAG_LEAF | (value & 0x3FFF),
            Self::pack(Self::LOOKUP, value) == Self::TAG_LOOKUP | (value & 0x3FFF),
    {
        assert(tag <= 3 && value <= 0x3FFF ==> (((tag << 14) | (value & 0x3FFF)) >> 14 == tag && ((
        tag << 14) | (value & 0x3FFF)) & 0x3FFF == value && (0u16 << 14) == 0 && (1u16 << 14)
            == 0x4000 && (2u16 << 14) == 0x8000 && (3u16 << 14) == 0xC000)) by (bit_vector);
    }
}

} // verus!
