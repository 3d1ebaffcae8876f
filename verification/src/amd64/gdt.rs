//! Segment descriptors of 16 bytes, as they stand in the global descriptor
//! table.

use vstd::prelude::*;

verus! {

/// Bits 0 to 15: the low 16 bits of the limit.
pub const MASK_LIMIT0: u128 = 0xFFFF;

/// Bits 16 to 39: the low 24 bits of the base.
pub const MASK_BASE16: u128 = 0xFF_FFFF_0000;

/// Bits 40 to 47: the access byte.
pub const MASK_ACCESS_BYTE: u128 = 0xFF00_0000_0000;

/// Bits 48 to 51: bits 16 to 19 of the limit.
pub const MASK_LIMIT48: u128 = 0xF_0000_0000_0000;

/// Bits 52 to 55: the flags.
pub const MASK_RAW_FLAGS: u128 = 0xF0_0000_0000_0000;

/// Bits 56 to 63: bits 24 to 31 of the base.
pub const MASK_BASE56: u128 = 0xFF00_0000_0000_0000;

/// Bits 64 to 95: the high 32 bits of the base.
pub const MASK_BASE64: u128 = 0xFFFF_FFFF_0000_0000_0000_0000;

/// The field of `raw` that `mask` covers and that starts at bit `lsb`.
pub open spec fn field(raw: u128, mask: u128, lsb: u128) -> u128 {
    (raw & mask) >> lsb
}

/// `raw` with the field that `mask` covers replaced by the low bits of
/// `value`.
pub open spec fn with_field(raw: u128, mask: u128, lsb: u128, value: u128) -> u128 {
    (raw & !mask) | ((value << lsb) & mask)
}

pub(crate) fn get_field(raw: u128, mask: u128, lsb: u8) -> (value: u128)
    requires
        lsb < 128,
    ensures
        value == field(raw, mask, lsb as u128),
{
    (raw & mask) >> lsb
}

pub(crate) fn set_field(raw: u128, mask: u128, lsb: u8, value: u128) -> (updated: u128)
    requires
        lsb < 128,
    ensures
        updated == with_field(raw, mask, lsb as u128, value),
{
    (raw & !mask) | ((value << lsb) & mask)
}

/// The access byte of a segment descriptor.
#[derive(Debug, Copy, Clone, PartialEq, Eq, Structural)]
pub struct AccessByte(pub u8);

/// The four flag bits of a segment descriptor; the lowest is reserved.
#[derive(Debug, Copy, Clone, PartialEq, Eq, Structural)]
pub struct DescriptorRawFlags(pub u8);

/// The access byte and the flags of a segment descriptor.
pub struct DescriptorFlags {
    pub access_byte: AccessByte,
    pub flags: DescriptorRawFlags,
}

/// A segment descriptor.
#[derive(Debug, Copy, Clone, PartialEq, Eq, Structural)]
pub struct SegmentDescriptor(pub u128);

/// The base address that a descriptor holds in its three base fields.
pub open spec fn base_of(raw: u128) -> u64 {
    (field(raw, MASK_BASE16, 16) | (field(raw, MASK_BASE56, 56) << 24) | (field(
        raw,
        MASK_BASE64,
        64,
    ) << 32)) as u64
}

/// The limit of 20 bits that a descriptor holds in its two limit fields.
pub open spec fn limit_of(raw: u128) -> u64 {
    (field(raw, MASK_LIMIT0, 0) | (field(raw, MASK_LIMIT48, 48) << 16)) as u64
}

/// The descriptor `raw` with `address` as its base.
pub open spec fn with_base(raw: u128, address: u64) -> u128 {
    with_field(
        with_field(
            with_field(raw, MASK_BASE16, 16, (address & 0xFFFFFF) as u128),
            MASK_BASE56,
            56,
            ((address & 0xFF000000) >> 24) as u128,
        ),
        MASK_BASE64,
        64,
        ((address & 0xFFFFFFFF00000000) >> 32) as u128,
    )
}

/// The descriptor `raw` with the low 20 bits of `limit` as its limit.
pub open spec fn with_limit(raw: u128, limit: u64) -> u128 {
    with_field(
        with_field(raw, MASK_LIMIT0, 0, (limit & 0xFFFF) as u128),
        MASK_LIMIT48,
        48,
        ((limit & 0xF0000) >> 16) as u128,
    )
}

/// The descriptor `raw` with the access byte and, of `flags`, the low four
/// bits.
pub open spec fn with_flags(raw: u128, access_byte: u8, flags: u8) -> u128 {
    with_field(
        with_field(raw, MASK_ACCESS_BYTE, 40, access_byte as u128),
        MASK_RAW_FLAGS,
        52,
        flags as u128,
    )
}

proof fn lemma_descriptor_fields(raw: u128, address: u64, limit: u64, access_byte: u8, flags: u8)
    by (bit_vector)
    ensures
        base_of(with_base(raw, address)) == address,
        with_base(raw, address) & !(MASK_BASE16 | MASK_BASE56 | MASK_BASE64) == raw & !(MASK_BASE16
            | MASK_BASE56 | MASK_BASE64),
        limit_of(with_limit(raw, limit)) == limit & 0xFFFFF,
        with_limit(raw, limit) & !(MASK_LIMIT0 | MASK_LIMIT48) == raw & !(MASK_LIMIT0
            | MASK_LIMIT48),
        field(with_flags(raw, access_byte, flags), MASK_ACCESS_BYTE, 40) == access_byte,
        field(with_flags(raw, access_byte, flags), MASK_RAW_FLAGS, 52) == flags & 0xF,
        with_flags(raw, access_byte, flags) & !(MASK_ACCESS_BYTE | MASK_RAW_FLAGS) == raw & !(
        MASK_ACCESS_BYTE | MASK_RAW_FLAGS),
        with_flags(
            raw,
            field(raw, MASK_ACCESS_BYTE, 40) as u8,
            field(raw, MASK_RAW_FLAGS, 52) as u8,
        ) == raw,
        field(raw, MASK_ACCESS_BYTE, 40) < 256,
        field(raw, MASK_RAW_FLAGS, 52) < 16,
{
}

/// A descriptor holds the base that was written to it, and its other
/// fields are as they were.
pub proof fn lemma_base_written(raw: u128, address: u64)
    ensures
        base_of(with_base(raw, address)) == address,
        with_base(raw, address) & !(MASK_BASE16 | MASK_BASE56 | MASK_BASE64) == raw & !(MASK_BASE16
            | MASK_BASE56 | MASK_BASE64),
{
    lemma_descriptor_fields(raw, address, 0, 0, 0);
}

/// A descriptor holds the low 20 bits of the limit that was written to it,
/// and its other fields are as they were.
pub proof fn lemma_limit_written(raw: u128, limit: u64)
    ensures
        limit_of(with_limit(raw, limit)) == limit & 0xFFFFF,
        with_limit(raw, limit) & !(MASK_LIMIT0 | MASK_LIMIT48) == raw & !(MASK_LIMIT0
            | MASK_LIMIT48),
{
    lemma_descriptor_fields(raw, 0, limit, 0, 0);
}

/// Writing back the flags that a descriptor holds leaves it as it is, and
/// a descriptor holds the flags that were written to it.
pub proof fn lemma_flags_round_trip(raw: u128, access_byte: u8, flags: u8)
    ensures
        with_flags(
            raw,
            field(raw, MASK_ACCESS_BYTE, 40) as u8,
            field(raw, MASK_RAW_FLAGS, 52) as u8,
        ) == raw,
        field(with_flags(raw, access_byte, flags), MASK_ACCESS_BYTE, 40) == access_byte,
        field(with_flags(raw, access_byte, flags), MASK_RAW_FLAGS, 52) == flags & 0xF,
{
    lemma_descriptor_fields(raw, 0, 0, access_byte, flags);
}

impl SegmentDescriptor {
    /// The access byte and the flags.
    pub fn get_flags(&self) -> (flags: DescriptorFlags)
        ensures
            flags.access_byte.0 == field(self.0, MASK_ACCESS_BYTE, 40),
            flags.flags.0 == field(self.0, MASK_RAW_FLAGS, 52),
    {
        proof {
            lemma_descriptor_fields(self.0, 0, 0, 0, 0);
        }
        DescriptorFlags {
            access_byte: AccessByte(get_field(self.0, MASK_ACCESS_BYTE, 40) as u8),
            flags: DescriptorRawFlags(get_field(self.0, MASK_RAW_FLAGS, 52) as u8),
        }
    }

    /// Replaces the access byte and the flags; of the flags the low four
    /// bits are kept.
    pub fn set_flags(&mut self, flags: &DescriptorFlags)
        ensures
            final(self).0 == with_flags(old(self).0, flags.access_byte.0, flags.flags.0),
    {
        self.0 = set_field(self.0, MASK_ACCESS_BYTE, 40, flags.access_byte.0 as u128);
        self.0 = set_field(self.0, MASK_RAW_FLAGS, 52, flags.flags.0 as u128);
    }

    /// Spreads the base address over the three base fields.
    pub fn set_base(&mut self, address: u64)
        ensures
            final(self).0 == with_base(old(self).0, address),
            base_of(final(self).0) == address,
    {
        proof {
            lemma_base_written(self.0, address);
        }
        self.0 = set_field(self.0, MASK_BASE16, 16, (address & 0xFFFFFF) as u128);
        self.0 = set_field(self.0, MASK_BASE56, 56, ((address & 0xFF000000) >> 24) as u128);
        self.0 = set_field(self.0, MASK_BASE64, 64, ((address & 0xFFFFFFFF00000000) >> 32) as u128);
    }

    /// Spreads the low 20 bits of the limit over the two limit fields.
    pub fn set_limit(&mut self, limit: u64)
        ensures
            final(self).0 == with_limit(old(self).0, limit),
            limit_of(final(self).0) == limit & 0xFFFFF,
    {
        proof {
            lemma_limit_written(self.0, limit);
        }
        self.0 = set_field(self.0, MASK_LIMIT0, 0, (limit & 0xFFFF) as u128);
        self.0 = set_field(self.0, MASK_LIMIT48, 48, ((limit & 0xF0000) >> 16) as u128);
    }
}

} // verus!
