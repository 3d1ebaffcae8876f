use mm::common::{PagingLevel, PagingMode, PhysAddr, PhysWidth, VirtAddr, HHDM_OFFSET};
use mm::mmu::paging::{make_cr3, PageTable};

#[test]
fn width_bounds() {
    assert!(PhysWidth::try_new(35).is_none());
    assert!(PhysWidth::try_new(53).is_none());
    assert!(PhysWidth::try_new(36).is_some());
    assert!(PhysWidth::try_new(52).is_some());
    assert_eq!(PhysWidth::new(36).get(), 36);
    assert_eq!(PhysWidth::new(52).get(), 52);
    assert!(PhysWidth::try_new(0).is_none());
    assert!(PhysWidth::try_new(255).is_none());
}

#[test]
fn width_masks() {
    let w = PhysWidth::new(36);
    assert_eq!(w.solely_pfn_mask(), 0xFF_FFFF);
    assert!(w.is_pfn_valid(0xFF_FFFF));
    assert!(!w.is_pfn_valid(0x100_0000));
    let w = PhysWidth::new(52);
    assert_eq!(w.solely_pfn_mask(), 0xFF_FFFF_FFFF);
    assert!(w.is_pfn_valid(0xFF_FFFF_FFFF));
    assert!(!w.is_pfn_valid(0x100_0000_0000));
    assert!(!w.is_pfn_valid(u64::MAX));
}

#[test]
fn phys_addr_fields() {
    let w = PhysWidth::new(48);
    let a: PhysAddr<()> = PhysAddr::new(0xABC, 0x1234, w);
    assert_eq!(a.pfn(), 0xABC);
    assert_eq!(a.offset(), 0x234);
    assert_eq!(a.width(), w);
    assert_eq!(a.as_address(), 0xABC234);
    let mut b = a.clone();
    assert!(a == b);
    b.set_pfn(0xDEF);
    assert_eq!(b.pfn(), 0xDEF);
    assert_eq!(b.offset(), 0x234);
    assert_eq!(b.as_address(), 0xDEF234);
    let c: PhysAddr<PageTable> = b.cast();
    assert_eq!(c.pfn(), 0xDEF);
    assert_eq!(c.offset(), 0x234);
    assert_eq!(c.width(), w);
}

#[test]
fn phys_addr_checked() {
    let w = PhysWidth::new(36);
    assert!(PhysAddr::<()>::try_new(0x100_0000, 0, w).is_none());
    let a = PhysAddr::<()>::try_new(0xFF_FFFF, 0xFFFF, w);
    assert!(a.is_some());
    let a = a.unwrap();
    assert_eq!(a.pfn(), 0xFF_FFFF);
    assert_eq!(a.offset(), 0xFFF);
    assert_eq!(a.as_address(), 0xF_FFFF_FFFF);
}

#[test]
fn root_register_value() {
    let w = PhysWidth::new(48);
    let root: PhysAddr<PageTable> = PhysAddr::new(0x1234, 0x7FF, w);
    assert_eq!(make_cr3(&root), 0x1234000);
}

#[test]
fn virt_addr_masks_page_number() {
    let a: VirtAddr<false, ()> = VirtAddr::new(u64::MAX, 0xFFFF);
    assert_eq!(a.vpn(), 0xF_FFFF_FFFF);
    assert_eq!(a.offset(), 0xFFF);
    let b: VirtAddr<true, ()> = VirtAddr::new(u64::MAX, 0x1001);
    assert_eq!(b.vpn(), 0x1FFF_FFFF_FFFF);
    assert_eq!(b.offset(), 1);
    let mut c: VirtAddr<false, u64> = a.clone().cast();
    assert_eq!(c.vpn(), 0xF_FFFF_FFFF);
    c.set_vpn(512);
    assert_eq!(c.vpn(), 512);
    assert_eq!(c.offset(), 0xFFF);
}

#[test]
fn canonical_four_level() {
    // Bit 47 of the address is bit 35 of the page number.
    let high: VirtAddr<false, ()> = VirtAddr::new(0x8_0000_0000, 0);
    assert_eq!(high.as_canonical_address(), 0xFFFF_8000_0000_0000);
    let high: VirtAddr<false, ()> = VirtAddr::new(0x8_0000_0123, 0x456);
    assert_eq!(high.as_canonical_address(), 0xFFFF_8000_0012_3456);
    let low: VirtAddr<false, ()> = VirtAddr::new(0x7_FFFF_FFFF, 0xFFF);
    assert_eq!(low.as_canonical_address(), 0x0000_7FFF_FFFF_FFFF);
    let zero: VirtAddr<false, ()> = VirtAddr::new(0, 0);
    assert_eq!(zero.as_canonical_address(), 0);
}

#[test]
fn canonical_five_level() {
    // Bit 56 of the address is bit 44 of the page number.
    let high: VirtAddr<true, ()> = VirtAddr::new(0x1000_0000_0000, 0);
    assert_eq!(high.as_canonical_address(), 0xFF00_0000_0000_0000);
    let high: VirtAddr<true, ()> = VirtAddr::new(0x1000_0000_0001, 0x002);
    assert_eq!(high.as_canonical_address(), 0xFF00_0000_0000_1002);
    let low: VirtAddr<true, ()> = VirtAddr::new(0x0FFF_FFFF_FFFF, 0xFFF);
    assert_eq!(low.as_canonical_address(), 0x00FF_FFFF_FFFF_FFFF);
    // Bit 47 is no sign bit with five levels.
    let mid: VirtAddr<true, ()> = VirtAddr::new(0x8_0000_0000, 0);
    assert_eq!(mid.as_canonical_address(), 0x0000_8000_0000_0000);
}

#[test]
fn canonical_after_set_vpn_drops_high_bits() {
    let mut a: VirtAddr<false, ()> = VirtAddr::new(0, 0);
    a.set_vpn(0x10_0000_0001);
    assert_eq!(a.as_canonical_address(), 0x1000);
}

#[test]
fn level_indices() {
    // indices 1, 2, 3, 4 for levels four down to one
    let vpn: u64 = (1 << 27) | (2 << 18) | (3 << 9) | 4;
    let a: VirtAddr<false, ()> = VirtAddr::new(vpn, 0);
    assert_eq!(a.level_index(PagingLevel::Four), 1);
    assert_eq!(a.level_index(PagingLevel::Three), 2);
    assert_eq!(a.level_index(PagingLevel::Two), 3);
    assert_eq!(a.level_index(PagingLevel::One), 4);
    let all: VirtAddr<false, ()> = VirtAddr::new(u64::MAX, 0);
    assert_eq!(all.level_index(PagingLevel::Four), 511);
    assert_eq!(all.level_index(PagingLevel::One), 511);
    let five: VirtAddr<true, ()> = VirtAddr::new(0x1FFu64 << 36, 0);
    assert_eq!(five.level_index(PagingLevel::Five), 511);
    assert_eq!(five.level_index(PagingLevel::Four), 0);
}

#[test]
fn levels_and_modes() {
    assert_eq!(PagingLevel::One.number(), 1);
    assert_eq!(PagingLevel::Two.number(), 2);
    assert_eq!(PagingLevel::Three.number(), 3);
    assert_eq!(PagingLevel::Four.number(), 4);
    assert_eq!(PagingLevel::Five.number(), 5);
    assert_eq!(PagingMode::FourLevel.bits(), 48);
    assert_eq!(PagingMode::FiveLevel.bits(), 57);
    assert_eq!(PagingMode::of(false), PagingMode::FourLevel);
    assert_eq!(PagingMode::of(true), PagingMode::FiveLevel);
}

#[test]
fn identity_and_direct_map_addresses() {
    let w = PhysWidth::new(48);
    let a: PhysAddr<()> = PhysAddr::new(0x1234, 0x56, w);
    let im: VirtAddr<false, ()> = a.clone().as_im_virt::<false>();
    assert_eq!(im.vpn(), 0x1234);
    assert_eq!(im.offset(), 0x56);
    let hhdm: VirtAddr<false, ()> = a.as_hhdm_virt::<false>();
    assert_eq!(hhdm.vpn(), HHDM_OFFSET + 0x1234);
    assert_eq!(hhdm.vpn(), 0x8001234);
    assert_eq!(hhdm.offset(), 0x56);
}
