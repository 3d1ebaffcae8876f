use mm::amd64::gdt::{AccessByte, DescriptorFlags, DescriptorRawFlags, SegmentDescriptor};
use mm::amd64::idt::{GateEntry, GateFlags, GateType, InterruptDescriptorTable};

#[test]
fn segment_base_is_spread() {
    let mut d = SegmentDescriptor(0);
    d.set_base(0x1122_3344_5566_7788);
    // low 24 bits at 16, next 8 bits at 56, high 32 bits at 64
    assert_eq!(d.0, 0x0000_0000_1122_3344_5500_0066_7788_0000);
    let mut d = SegmentDescriptor(u128::MAX);
    d.set_base(0);
    assert_eq!(d.0, 0xFFFF_FFFF_0000_0000_00FF_FF00_0000_FFFF);
}

#[test]
fn segment_limit_is_spread() {
    let mut d = SegmentDescriptor(0);
    d.set_limit(0xABCDE);
    assert_eq!(d.0, 0x000A_0000_0000_BCDE);
    // bits above the 20 of a limit are dropped
    let mut d = SegmentDescriptor(0);
    d.set_limit(u64::MAX);
    assert_eq!(d.0, 0x000F_0000_0000_FFFF);
}

#[test]
fn segment_flags() {
    let mut d = SegmentDescriptor(0);
    d.set_flags(&DescriptorFlags { access_byte: AccessByte(0x9A), flags: DescriptorRawFlags(0xA) });
    assert_eq!(d.0, 0x00A0_9A00_0000_0000);
    let f = d.get_flags();
    assert_eq!(f.access_byte, AccessByte(0x9A));
    assert_eq!(f.flags, DescriptorRawFlags(0xA));
    // of the flags the low four bits are kept
    d.set_flags(&DescriptorFlags { access_byte: AccessByte(0xFF), flags: DescriptorRawFlags(0xF5) });
    assert_eq!(d.get_flags().flags, DescriptorRawFlags(5));
    assert_eq!(d.get_flags().access_byte, AccessByte(0xFF));
    // flags, base and limit do not disturb each other
    d.set_base(u64::MAX);
    d.set_limit(0);
    assert_eq!(d.get_flags().flags, DescriptorRawFlags(5));
    assert_eq!(d.get_flags().access_byte, AccessByte(0xFF));
    assert_eq!(d.0, 0xFFFF_FFFF_FF50_FFFF_FFFF_0000);
}

#[test]
fn gate_types() {
    assert_eq!(GateType::try_from(0xE), Ok(GateType::Interrupt));
    assert_eq!(GateType::try_from(0xF), Ok(GateType::Trap));
    assert_eq!(GateType::try_from(0), Err(()));
    assert_eq!(GateType::try_from(0xD), Err(()));
    assert_eq!(GateType::try_from(0x1E), Err(()));
    assert_eq!(GateType::Interrupt.number(), 0xE);
    assert_eq!(GateType::Trap.number(), 0xF);
}

#[test]
fn gate_flags_round_trip() {
    let mut g = GateEntry(0);
    g.set_flags(&GateFlags {
        segment: 0x08,
        ist: 5,
        gate_type: GateType::Interrupt,
        dpl: 3,
        present: true,
    });
    assert_eq!(g.0, 0x0000_EE05_0008_0000);
    let f = g.get_flags().unwrap();
    assert_eq!(f.segment, 0x08);
    assert_eq!(f.ist, 5);
    assert_eq!(f.gate_type, GateType::Interrupt);
    assert_eq!(f.dpl, 3);
    assert!(f.present);
    g.set_flags(&GateFlags {
        segment: 0xFF,
        ist: 0xF,
        gate_type: GateType::Trap,
        dpl: 7,
        present: false,
    });
    let f = g.get_flags().unwrap();
    assert_eq!(f.segment, 0xFF);
    assert_eq!(f.ist, 7);
    assert_eq!(f.gate_type, GateType::Trap);
    assert_eq!(f.dpl, 3);
    assert!(!f.present);
}

#[test]
fn gate_flags_of_unknown_type() {
    assert!(GateEntry(0).get_flags().is_err());
    assert!(GateEntry(0xD00_0000_0000).get_flags().is_err());
    assert!(GateEntry(0xE00_0000_0000).get_flags().is_ok());
    // of the selector the low eight bits are read
    let f = GateEntry(0xF00_1234_0000).get_flags().unwrap();
    assert_eq!(f.segment, 0x34);
    assert_eq!(f.gate_type, GateType::Trap);
}

#[test]
fn gate_address_is_spread() {
    let mut g = GateEntry(0);
    g.set_address(0x1122_3344_5566_7788);
    assert_eq!(g.0, 0x0000_0000_1122_3344_5566_0000_0000_7788);
    // what is read combines the fields by `&`
    assert_eq!(g.get_address(), 0);
    assert_eq!(GateEntry(u128::MAX).get_address(), 0);
    let mut g = GateEntry(u128::MAX);
    g.set_address(0);
    assert_eq!(g.0, 0xFFFF_FFFF_0000_0000_0000_FFFF_FFFF_0000);
}

#[test]
fn gate_flags_keep_address() {
    let mut g = GateEntry(0);
    g.set_address(0xFFFF_FFFF_FFFF_FFFF);
    g.set_flags(&GateFlags {
        segment: 0x10,
        ist: 1,
        gate_type: GateType::Trap,
        dpl: 0,
        present: true,
    });
    assert_eq!(g.0, 0x0000_0000_FFFF_FFFF_FFFF_8F01_0010_FFFF);
    let table = InterruptDescriptorTable { descriptors: [g; 256] };
    assert_eq!(table.descriptors[255], g);
}
