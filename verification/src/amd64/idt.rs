//! Gate descriptors of 16 bytes, as they stand in the interrupt descriptor
//! table.

use super::gdt::{field, get_field, set_field, with_field};
use vstd::prelude::*;

verus! {

/// Bits 0 to 15: the low 16 bits of the handler's address.
pub const MASK_OFFSET16: u128 = 0xFFFF;

/// Bits 16 to 31: the segment selector.
pub const MASK_SEGMENT: u128 = 0xFFFF_0000;

/// Bits 32 to 34: the interrupt stack table index.
pub const MASK_IST: u128 = 0x7_0000_0000;

/// Bits 40 to 43: the type.
pub const MASK_TYPE: u128 = 0xF00_0000_0000;

/// Bits 45 and 46: the privilege level.
pub const MASK_DPL: u128 = 0x6000_0000_0000;

/// Bit 47: the present bit.
pub const MASK_PRESENT: u128 = 0x8000_0000_0000;

/// Bits 48 to 63: bits 16 to 31 of the handler's address.
pub const MASK_OFFSET32_HIGH: u128 = 0xFFFF_0000_0000_0000;

/// Bits 64 to 95: the high 32 bits of the handler's address.
pub const MASK_OFFSET64_HIGH: u128 = 0xFFFF_FFFF_0000_0000_0000_0000;

/// A gate descriptor.
#[derive(Debug, Copy, Clone, PartialEq, Eq, Structural)]
pub struct GateEntry(pub u128);

/// The kind of a gate: an interrupt gate, type 14, masks interrupts on
/// entry; a trap gate, type 15, does not.
#[derive(Debug, Copy, Clone, PartialEq, Eq, Structural)]
pub enum GateType {
    Interrupt,
    Trap,
}

impl GateType {
    /// The type as the descriptor holds it: 14 or 15.
    pub open spec fn spec_number(self) -> u8 {
        match self {
            GateType::Interrupt => 0xE,
            GateType::Trap => 0xF,
        }
    }

    /// The type as the descriptor holds it: 14 or 15.
    #[verifier::when_used_as_spec(spec_number)]
    pub fn number(self) -> (n: u8)
        ensures
            n == self.spec_number(),
    {
        match self {
            GateType::Interrupt => 0xE,
            GateType::Trap => 0xF,
        }
    }

    /// The type with the number `value`, where there is one.
    pub open spec fn spec_of(value: u8) -> Option<GateType> {
        if value == 0xE {
            Some(GateType::Interrupt)
        } else if value == 0xF {
            Some(GateType::Trap)
        } else {
            None
        }
    }
}

impl vstd::std_specs::convert::TryFromSpecImpl<u8> for GateType {
    open spec fn obeys_try_from_spec() -> bool {
        true
    }

    open spec fn try_from_spec(value: u8) -> Result<Self, ()> {
        match GateType::spec_of(value) {
            Some(gate) => Ok(gate),
            None => Err(()),
        }
    }
}

impl TryFrom<u8> for GateType {
    type Error = ();

    fn try_from(value: u8) -> (gate: Result<Self, ()>) {
        match value {
            0xE => Ok(GateType::Interrupt),
            0xF => Ok(GateType::Trap),
            _ => Err(()),
        }
    }
}

/// The fields of a gate descriptor beside the handler's address.
pub struct GateFlags {
    pub segment: u8,
    pub ist: u8,
    pub gate_type: GateType,
    pub dpl: u8,
    pub present: bool,
}

/// The flags that a gate descriptor holds: of the segment selector the low
/// eight bits. Nothing where the type is neither 14 nor 15.
pub open spec fn flags_of(raw: u128) -> Option<GateFlags> {
    match GateType::spec_of(field(raw, MASK_TYPE, 40) as u8) {
        Some(gate) => Some(
            GateFlags {
                segment: (field(raw, MASK_SEGMENT, 16) & 0xFF) as u8,
                ist: field(raw, MASK_IST, 32) as u8,
                gate_type: gate,
                dpl: field(raw, MASK_DPL, 45) as u8,
                present: raw & MASK_PRESENT != 0,
            },
        ),
        None => None,
    }
}

/// The descriptor `raw` with the flags replaced: of `ist` the low three
/// bits are kept, of `dpl` the low two.
pub open spec fn with_flags(raw: u128, segment: u8, ist: u8, gate: u8, dpl: u8, present: bool) -> u128 {
    let raw = with_field(raw, MASK_SEGMENT, 16, segment as u128);
    let raw = with_field(raw, MASK_IST, 32, ist as u128);
    let raw = with_field(raw, MASK_TYPE, 40, gate as u128);
    let raw = with_field(raw, MASK_DPL, 45, dpl as u128);
    if present {
        raw | MASK_PRESENT
    } else {
        raw & !MASK_PRESENT
    }
}

/// What `get_address` reads: the three address fields, each in its place,
/// combined by `&`. No bit is set in all three, so it is zero.
pub open spec fn address_read(raw: u128) -> u64 {
    (field(raw, MASK_OFFSET16, 0) as u64) & ((field(raw, MASK_OFFSET32_HIGH, 48) as u64) << 16) & ((
    field(raw, MASK_OFFSET64_HIGH, 64) as u64) << 32)
}

/// The handler's address that a gate descriptor holds in its three address
/// fields.
pub open spec fn address_of(raw: u128) -> u64 {
    (field(raw, MASK_OFFSET16, 0) | (field(raw, MASK_OFFSET32_HIGH, 48) << 16) | (field(
        raw,
        MASK_OFFSET64_HIGH,
        64,
    ) << 32)) as u64
}

/// The descriptor `raw` with `address` as its handler's address.
pub open spec fn with_address(raw: u128, address: u64) -> u128 {
    with_field(
        with_field(
            with_field(raw, MASK_OFFSET16, 0, (address & 0xFFFF) as u128),
            MASK_OFFSET32_HIGH,
            48,
            ((address & 0xFFFF0000) >> 16) as u128,
        ),
        MASK_OFFSET64_HIGH,
        64,
        ((address & 0xFFFFFFFF00000000) >> 32) as u128,
    )
}

proof fn lemma_gate_fields(raw: u128, address: u64)
    by (bit_vector)
    ensures
        field(raw, MASK_SEGMENT, 16) < 0x1_0000,
        field(raw, MASK_IST, 32) < 8,
        field(raw, MASK_TYPE, 40) < 16,
        field(raw, MASK_DPL, 45) < 4,
        field(raw, MASK_OFFSET16, 0) < 0x1_0000,
        field(raw, MASK_OFFSET32_HIGH, 48) < 0x1_0000,
        field(raw, MASK_OFFSET64_HIGH, 64) < 0x1_0000_0000,
        address_read(raw) == 0,
        address_of(with_address(raw, address)) == address,
        with_address(raw, address) & !(MASK_OFFSET16 | MASK_OFFSET32_HIGH | MASK_OFFSET64_HIGH)
            == raw & !(MASK_OFFSET16 | MASK_OFFSET32_HIGH | MASK_OFFSET64_HIGH),
{
}

proof fn lemma_gate_flags(raw: u128, segment: u8, ist: u8, gate: u8, dpl: u8, present: bool)
    by (bit_vector)
    requires
        ist < 8,
        gate < 16,
        dpl < 4,
    ensures
        ({
            let set = with_flags(raw, segment, ist, gate, dpl, present);
            &&& field(set, MASK_SEGMENT, 16) == segment
            &&& field(set, MASK_IST, 32) == ist
            &&& field(set, MASK_TYPE, 40) == gate
            &&& field(set, MASK_DPL, 45) == dpl
            &&& (set & MASK_PRESENT != 0) == present
            &&& address_of(set) == address_of(raw)
        }),
{
}

/// A gate descriptor holds the address that was written to it, and its
/// other fields are as they were.
pub proof fn lemma_address_written(raw: u128, address: u64)
    ensures
        address_of(with_address(raw, address)) == address,
        with_address(raw, address) & !(MASK_OFFSET16 | MASK_OFFSET32_HIGH | MASK_OFFSET64_HIGH)
            == raw & !(MASK_OFFSET16 | MASK_OFFSET32_HIGH | MASK_OFFSET64_HIGH),
{
    lemma_gate_fields(raw, address);
}

/// A gate descriptor holds the flags that were written to it, where each
/// fits its field, and keeps its address.
pub proof fn lemma_flags_written(raw: u128, flags: GateFlags)
    requires
        flags.ist < 8,
        flags.dpl < 4,
    ensures
        flags_of(
            with_flags(
                raw,
                flags.segment,
                flags.ist,
                flags.gate_type.spec_number(),
                flags.dpl,
                flags.present,
            ),
        ) == Some(flags),
        address_of(
            with_flags(
                raw,
                flags.segment,
                flags.ist,
                flags.gate_type.spec_number(),
                flags.dpl,
                flags.present,
            ),
        ) == address_of(raw),
{
    lemma_gate_flags(
        raw,
        flags.segment,
        flags.ist,
        flags.gate_type.spec_number(),
        flags.dpl,
        flags.present,
    );
    let set = with_flags(
        raw,
        flags.segment,
        flags.ist,
        flags.gate_type.spec_number(),
        flags.dpl,
        flags.present,
    );
    let segment = field(set, MASK_SEGMENT, 16);
    assert(segment & 0xFF == segment) by (bit_vector)
        requires
            segment < 256,
    ;
}

impl GateEntry {
    /// The flags of this descriptor; an error where its type is neither 14 nor
    /// 15.
    pub fn get_flags(&self) -> (flags: Result<GateFlags, ()>)
        ensures
            flags == match flags_of(self.0) {
                Some(f) => Ok::<GateFlags, ()>(f),
                None => Err::<GateFlags, ()>(()),
            },
    {
        proof {
            lemma_gate_fields(self.0, 0);
        }
        let segment: u128 = get_field(self.0, MASK_SEGMENT, 16);
        let gate: u8 = get_field(self.0, MASK_TYPE, 40) as u8;
        let gate_type: GateType = match GateType::try_from(gate) {
            Ok(t) => t,
            Err(_) => {
                return Err(());
            },
        };
        Ok(
            GateFlags {
                segment: (segment & 0xFF) as u8,
                ist: get_field(self.0, MASK_IST, 32) as u8,
                gate_type,
                dpl: get_field(self.0, MASK_DPL, 45) as u8,
                present: self.0 & MASK_PRESENT != 0,
            },
        )
    }

    /// Replaces the flags of this descriptor and leaves its address.
    pub fn set_flags(&mut self, flags: &GateFlags)
        ensures
            final(self).0 == with_flags(
                old(self).0,
                flags.segment,
                flags.ist,
                flags.gate_type.spec_number(),
                flags.dpl,
                flags.present,
            ),
    {
        self.0 = set_field(self.0, MASK_SEGMENT, 16, flags.segment as u128);
        self.0 = set_field(self.0, MASK_IST, 32, flags.ist as u128);
        self.0 = set_field(self.0, MASK_TYPE, 40, flags.gate_type.number() as u128);
        self.0 = set_field(self.0, MASK_DPL, 45, flags.dpl as u128);
        if flags.present {
            self.0 = self.0 | MASK_PRESENT;
        } else {
            self.0 = self.0 & !MASK_PRESENT;
        }
    }

    /// The three address fields combined by `&`, which is zero whatever
    /// the address of the handler.
    pub fn get_address(&self) -> (address: u64)
        ensures
            address == address_read(self.0),
            address == 0,
    {
        proof {
            lemma_gate_fields(self.0, 0);
        }
        (get_field(self.0, MASK_OFFSET16, 0) as u64) & ((get_field(
            self.0,
            MASK_OFFSET32_HIGH,
            48,
        ) as u64) << 16) & ((get_field(self.0, MASK_OFFSET64_HIGH, 64) as u64) << 32)
    }

    /// Spreads the handler's address over the three address fields.
    pub fn set_address(&mut self, address: u64)
        ensures
            final(self).0 == with_address(old(self).0, address),
            address_of(final(self).0) == address,
    {
        proof {
            lemma_address_written(self.0, address);
        }
        self.0 = set_field(self.0, MASK_OFFSET16, 0, (address & 0xFFFF) as u128);
        self.0 = set_field(self.0, MASK_OFFSET32_HIGH, 48, ((address & 0xFFFF0000) >> 16) as u128);
        self.0 = set_field(
            self.0,
            MASK_OFFSET64_HIGH,
            64,
            ((address & 0xFFFFFFFF00000000) >> 32) as u128,
        );
    }
}

/// The interrupt descriptor table: a gate for each of the 256 vectors.
pub struct InterruptDescriptorTable {
    pub descriptors: [GateEntry; 256],
}

} // verus!
