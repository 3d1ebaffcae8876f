use mm::common::{PagingLevel, PhysAddr, PhysWidth};
use mm::mmu::paging::{
    CommonLargeLeafMappedEntry, CommonMappedEntry, PTe, PageTable, PageTableEntry,
};
use mm::mmu::view::{DirectoryFlags, EntryView, LeafFlags, PagingAttributesViewer};
use mm::vmm::builder::{
    page_mask, view_or_builder, DirectoryBuilder, EntryBuilder, LeafBuilder, ViewOrBuilder,
};

fn flags_from_bits(bits: u32) -> DirectoryFlags {
    DirectoryFlags {
        present: bits & 1 != 0,
        rw: bits & 2 != 0,
        us: bits & 4 != 0,
        pwt: bits & 8 != 0,
        pcd: bits & 16 != 0,
        accessed: bits & 32 != 0,
        restart: bits & 64 != 0,
        nx: bits & 128 != 0,
    }
}

fn leaf_flags_from_bits(bits: u32) -> LeafFlags {
    LeafFlags {
        directory_flags: flags_from_bits(bits),
        dirty: bits & 256 != 0,
        pat: bits & 512 != 0,
        global: bits & 1024 != 0,
        protection_key: ((bits >> 11) & 0xF) as u8,
    }
}

#[test]
fn entry_bit_positions() {
    let mut e = PageTableEntry(0);
    e.set_present(true);
    assert_eq!(e.0, 1 << 0);
    e.set_rw(true);
    assert_eq!(e.0, 0b11);
    e.set_us(true);
    e.set_pwt(true);
    e.set_pcd(true);
    e.set_accessed(true);
    assert_eq!(e.0, 0b11_1111);
    e.set_restart(true);
    assert_eq!(e.0, 0b1000_0011_1111);
    e.set_nx(true);
    assert_eq!(e.0, 0x8000_0000_0000_083F);
    e.set_frame(0xFF_FFFF_FFFF);
    assert_eq!(e.0, 0x800F_FFFF_FFFF_F83F);
    assert_eq!(e.frame(), 0xFF_FFFF_FFFF);
    assert!(e.present() && e.rw() && e.us() && e.pwt() && e.pcd() && e.accessed());
    assert!(e.restart() && e.nx());
    e.set_present(false);
    e.set_nx(false);
    assert_eq!(e.0, 0x000F_FFFF_FFFF_F83E);
    assert!(!e.present() && !e.nx());
    // a frame beyond 40 bits loses its high bits
    let mut e = PageTableEntry(0);
    e.set_frame(0x1FF_0000_0001);
    assert_eq!(e.0, 0x000F_F000_0000_1000);
}

#[test]
fn leaf_bit_positions() {
    let mut e = CommonMappedEntry(0);
    e.set_dirty(true);
    assert_eq!(e.0, 1 << 6);
    e.set_global(true);
    assert_eq!(e.0, (1 << 6) | (1 << 8));
    e.set_protection_key(0xF);
    assert_eq!(e.0, (1 << 6) | (1 << 8) | (0xFu64 << 59));
    assert_eq!(e.protection_key(), 0xF);
    e.set_protection_key(0x15);
    assert_eq!(e.protection_key(), 5);
    assert!(e.dirty() && e.global());

    let mut l = CommonLargeLeafMappedEntry(0);
    l.set_page_size(true);
    assert_eq!(l.0, 1 << 7);
    l.set_pat(true);
    assert_eq!(l.0, (1 << 7) | (1 << 12));
    l.set_frame(1);
    assert_eq!(l.0, (1 << 7) | (1 << 12) | (1 << 13));
    assert_eq!(l.frame(), 1);
    assert!(l.page_size() && l.pat());

    let mut p = PTe(0);
    p.set_pat(true);
    assert_eq!(p.0, 1 << 7);
    assert!(p.pat());
}

#[test]
fn default_flags_are_permissive() {
    let f = DirectoryFlags::default();
    assert!(f.present && f.rw && f.us);
    assert!(!f.pwt && !f.pcd && !f.accessed && !f.restart && !f.nx);
}

#[test]
fn directory_flags_round_trip() {
    let w = PhysWidth::new(52);
    for bits in 0..256u32 {
        let flags = flags_from_bits(bits);
        let mut e = PageTableEntry(0x000A_BCDE_F012_3000 | 1);
        let before_frame = e.frame();
        if let Some(EntryView::Directory(mut view)) = e.view_as_level::<false>(PagingLevel::Four) {
            view.set_flags(&flags);
            assert!(view.get_flags() == flags);
            let raw = view.get_raw_underlying();
            let again = view.get_flags();
            view.set_flags(&again);
            assert_eq!(view.get_raw_underlying(), raw);
            assert_eq!(view.get_pointed_physical_address(w).pfn(), before_frame);
        } else {
            panic!();
        }
    }
}

#[test]
fn leaf_flags_round_trip() {
    for bits in 0..(1u32 << 15) {
        let flags = leaf_flags_from_bits(bits | 1);
        for level in [PagingLevel::One, PagingLevel::Two] {
            let start: u64 = if level == PagingLevel::One { 0x1000 | 1 } else { 0x20_0000 | 0x81 };
            let mut e = PageTableEntry(start);
            if let Some(EntryView::Leaf(mut view)) = e.view_as_level::<false>(level) {
                view.set_flags(&flags);
                assert!(view.get_flags() == flags);
                let raw = view.get_raw_underlying();
                let again = view.get_flags();
                view.set_flags(&again);
                assert_eq!(view.get_raw_underlying(), raw);
            } else {
                panic!();
            }
        }
    }
}

#[test]
fn set_flags_on_any_word_round_trips() {
    let words: [u64; 6] = [
        0,
        u64::MAX,
        0x0123_4567_89AB_CDEF,
        0xFEDC_BA98_7654_3210,
        0x8000_0000_0000_0001,
        0x7FFF_FFFF_FFFF_FFFE,
    ];
    for raw in words {
        let mut e = PageTableEntry(raw | 1);
        if let Some(EntryView::Directory(mut v)) = e.view_as_level::<false>(PagingLevel::Four) {
            let f = v.get_flags();
            v.set_flags(&f);
            assert_eq!(v.get_raw_underlying(), raw | 1);
        } else {
            panic!();
        }
        let mut e = PageTableEntry(raw | 1);
        if let Some(EntryView::Leaf(mut v)) = e.view_as_level::<false>(PagingLevel::One) {
            let f = v.get_flags();
            v.set_flags(&f);
            assert_eq!(v.get_raw_underlying(), raw | 1);
        } else {
            panic!();
        }
        let mut e = PageTableEntry(raw | 0x81);
        if let Some(EntryView::Leaf(mut v)) = e.view_as_level::<false>(PagingLevel::Three) {
            let f = v.get_flags();
            v.set_flags(&f);
            assert_eq!(v.get_raw_underlying(), raw | 0x81);
        } else {
            panic!();
        }
    }
}

fn kind_of(raw: u64, level: PagingLevel) -> &'static str {
    let mut e = PageTableEntry(raw);
    match e.view_as_level::<false>(level) {
        None => "none",
        Some(EntryView::Directory(_)) => "directory",
        Some(EntryView::Leaf(_)) => "leaf",
    }
}

#[test]
fn classification_by_level() {
    let not_present: u64 = 0x0000_0000_00AB_C082;
    let small: u64 = 0x0000_0000_00AB_C003;
    let large: u64 = 0x0000_0000_4000_0083;
    for level in [PagingLevel::One, PagingLevel::Two, PagingLevel::Three, PagingLevel::Four] {
        assert_eq!(kind_of(not_present, level), "none");
    }
    assert_eq!(kind_of(small, PagingLevel::One), "leaf");
    assert_eq!(kind_of(small, PagingLevel::Two), "directory");
    assert_eq!(kind_of(small, PagingLevel::Three), "directory");
    assert_eq!(kind_of(small, PagingLevel::Four), "directory");
    assert_eq!(kind_of(large, PagingLevel::One), "leaf");
    assert_eq!(kind_of(large, PagingLevel::Two), "leaf");
    assert_eq!(kind_of(large, PagingLevel::Three), "leaf");
    assert_eq!(kind_of(large, PagingLevel::Four), "directory");
    let mut e = PageTableEntry(large);
    assert!(matches!(e.view_as_level::<true>(PagingLevel::Five), Some(EntryView::Directory(_))));
}

#[test]
fn view_writes_through_to_the_entry() {
    let mut e = PageTableEntry(0x0000_0000_00AB_C003);
    if let Some(EntryView::Directory(mut v)) = e.view_as_level::<false>(PagingLevel::Four) {
        let mut f = v.get_flags();
        f.nx = true;
        f.rw = false;
        v.set_flags(&f);
    } else {
        panic!();
    }
    assert_eq!(e.0, 0x8000_0000_00AB_C001);
}

#[test]
fn large_leaf_address_drops_low_bits() {
    let w = PhysWidth::new(48);
    // frame bits below the page size are not part of the address
    let mut e = PageTableEntry(0x0000_0000_4008_6083);
    if let Some(EntryView::Leaf(v)) = e.view_as_level::<false>(PagingLevel::Three) {
        assert_eq!(v.get_pointed_physical_address(w).pfn(), 0x40000);
        assert_eq!(v.get_pointed_physical_address(w).offset(), 0);
    } else {
        panic!();
    }
    let mut e = PageTableEntry(0x0000_0000_00A0_6083);
    if let Some(EntryView::Leaf(v)) = e.view_as_level::<false>(PagingLevel::Two) {
        assert_eq!(v.get_pointed_physical_address(w).pfn(), 0xA00);
    } else {
        panic!();
    }
    // the width cuts the frame
    let narrow = PhysWidth::new(36);
    let mut e = PageTableEntry(0x000F_FFFF_FFFF_F003);
    if let Some(EntryView::Directory(v)) = e.view_as_level::<false>(PagingLevel::Four) {
        assert_eq!(v.get_pointed_physical_address(narrow).pfn(), 0xFF_FFFF);
        assert_eq!(v.get_pointed_physical_address(w).pfn(), 0xF_FFFF_FFFF);
    } else {
        panic!();
    }
}

#[test]
fn page_masks() {
    assert_eq!(page_mask(PagingLevel::Three), 0x000F_FFFF_FFFC_0000);
    assert_eq!(page_mask(PagingLevel::Two), 0x000F_FFFF_FFFF_FE00);
    assert_eq!(page_mask(PagingLevel::One), 0x000F_FFFF_FFFF_FFFF);
}

#[test]
fn view_or_builder_classifies() {
    let levels = [
        PagingLevel::One,
        PagingLevel::Two,
        PagingLevel::Three,
        PagingLevel::Four,
    ];
    for level in levels {
        for build_leaf in [false, true] {
            for raw in [0u64, 0x0000_0000_00AB_C003, 0x0000_0000_4000_0083] {
                let mut e = PageTableEntry(raw);
                let got = view_or_builder::<false>(&mut e, level, build_leaf);
                let refused = (level == PagingLevel::One && !build_leaf)
                    || (level == PagingLevel::Four && build_leaf);
                if refused {
                    assert!(got.is_none());
                    continue;
                }
                let large = raw & 0x80 != 0;
                match got {
                    None => panic!(),
                    Some(ViewOrBuilder::Builder(EntryBuilder::Leaf(_))) => {
                        assert!(raw == 0 && build_leaf)
                    }
                    Some(ViewOrBuilder::Builder(EntryBuilder::Directory(_))) => {
                        assert!(raw == 0 && !build_leaf)
                    }
                    Some(ViewOrBuilder::View(EntryView::Leaf(_))) => {
                        assert!(raw != 0);
                        assert!(level == PagingLevel::One || (large && level != PagingLevel::Four));
                    }
                    Some(ViewOrBuilder::View(EntryView::Directory(_))) => {
                        assert!(raw != 0);
                        assert!(level == PagingLevel::Four || (!large && level != PagingLevel::One));
                    }
                }
            }
        }
    }
    let mut e = PageTableEntry(0);
    assert!(view_or_builder::<true>(&mut e, PagingLevel::Five, true).is_none());
    assert!(matches!(
        view_or_builder::<true>(&mut e, PagingLevel::Five, false),
        Some(ViewOrBuilder::Builder(EntryBuilder::Directory(_)))
    ));
}

#[test]
fn directory_builder_writes_entry() {
    let w = PhysWidth::new(48);
    let mut e = PageTableEntry(0xFFFF_FFFF_FFFF_FFFE);
    let pt: PhysAddr<PageTable> = PhysAddr::new(0xABC, 0, w);
    let view = DirectoryBuilder { result: &mut e }.finalize(pt, &DirectoryFlags::default());
    let view = view.unwrap();
    assert_eq!(view.get_raw_underlying(), 0x0000_0000_00AB_C007);
    assert_eq!(view.get_pointed_physical_address(w).pfn(), 0xABC);
    assert!(view.get_flags() == DirectoryFlags::default());
    assert_eq!(e.0, 0x0000_0000_00AB_C007);
}

#[test]
fn directory_builder_marks_present() {
    let w = PhysWidth::new(48);
    let mut e = PageTableEntry(0);
    let pt: PhysAddr<PageTable> = PhysAddr::new(1, 0, w);
    let mut flags = DirectoryFlags::default();
    flags.present = false;
    flags.nx = true;
    let view = DirectoryBuilder { result: &mut e }.finalize(pt, &flags).unwrap();
    assert_eq!(view.get_raw_underlying(), 0x8000_0000_0000_1007);
}

#[test]
fn directory_builder_refuses_offset() {
    let w = PhysWidth::new(48);
    let mut e = PageTableEntry(0x1230);
    let pt: PhysAddr<PageTable> = PhysAddr::new(0xABC, 8, w);
    assert!(DirectoryBuilder { result: &mut e }.finalize(pt, &DirectoryFlags::default()).is_none());
    assert_eq!(e.0, 0x1230);
}

fn plain_leaf_flags() -> LeafFlags {
    LeafFlags {
        directory_flags: DirectoryFlags {
            present: true,
            rw: true,
            us: false,
            pwt: false,
            pcd: false,
            accessed: false,
            restart: false,
            nx: false,
        },
        dirty: false,
        pat: false,
        global: false,
        protection_key: 0,
    }
}

#[test]
fn leaf_builder_writes_known_encodings() {
    let w = PhysWidth::new(48);
    let flags = plain_leaf_flags();

    let mut e = PageTableEntry(u64::MAX & !1);
    let v = LeafBuilder { result: &mut e, level: PagingLevel::One }
        .finalize(PhysAddr::new(0xABC, 0, w), &flags)
        .unwrap();
    assert_eq!(v.get_raw_underlying(), 0x0000_0000_00AB_C003);
    assert_eq!(v.get_pointed_physical_address(w).pfn(), 0xABC);
    assert!(v.get_flags() == flags);
    assert_eq!(e.0, 0x0000_0000_00AB_C003);

    let mut e = PageTableEntry(0);
    let v = LeafBuilder { result: &mut e, level: PagingLevel::Two }
        .finalize(PhysAddr::new(0xA00, 0, w), &flags)
        .unwrap();
    assert_eq!(v.get_raw_underlying(), 0x0000_0000_00A0_0083);
    assert_eq!(v.get_pointed_physical_address(w).pfn(), 0xA00);
    assert!(v.get_flags() == flags);

    let mut e = PageTableEntry(0);
    let v = LeafBuilder { result: &mut e, level: PagingLevel::Three }
        .finalize(PhysAddr::new(0x40000, 0, w), &flags)
        .unwrap();
    assert_eq!(v.get_raw_underlying(), 0x0000_0000_4000_0083);
    assert_eq!(v.get_pointed_physical_address(w).pfn(), 0x40000);
    assert!(v.get_flags() == flags);
}

#[test]
fn leaf_builder_all_flags() {
    let w = PhysWidth::new(52);
    let flags = LeafFlags {
        directory_flags: DirectoryFlags {
            present: true,
            rw: true,
            us: true,
            pwt: true,
            pcd: true,
            accessed: true,
            restart: true,
            nx: true,
        },
        dirty: true,
        pat: true,
        global: true,
        protection_key: 0xA,
    };
    let mut e = PageTableEntry(0);
    let v = LeafBuilder { result: &mut e, level: PagingLevel::One }
        .finalize(PhysAddr::new(1, 0, w), &flags)
        .unwrap();
    assert_eq!(v.get_raw_underlying(), 0xD000_0000_0000_19FF);
    assert!(v.get_flags() == flags);
    let mut e = PageTableEntry(0);
    let v = LeafBuilder { result: &mut e, level: PagingLevel::Two }
        .finalize(PhysAddr::new(0x200, 0, w), &flags)
        .unwrap();
    assert_eq!(v.get_raw_underlying(), 0xD000_0000_0020_19FF);
    assert!(v.get_flags() == flags);
    assert_eq!(v.get_pointed_physical_address(w).pfn(), 0x200);
}

#[test]
fn leaf_builder_refuses_misaligned() {
    let w = PhysWidth::new(48);
    let flags = plain_leaf_flags();
    let cases: [(PagingLevel, u64, u16, bool); 10] = [
        (PagingLevel::Three, 0x40000, 0, true),
        (PagingLevel::Three, 0x40001, 0, false),
        (PagingLevel::Three, 0x40200, 0, false),
        (PagingLevel::Three, 0x20000, 0, false),
        (PagingLevel::Three, 0x40000, 1, false),
        (PagingLevel::Two, 0x200, 0, true),
        (PagingLevel::Two, 0x201, 0, false),
        (PagingLevel::Two, 0x100, 0, false),
        (PagingLevel::One, 0x201, 0, true),
        (PagingLevel::One, 0x201, 0xFFF, false),
    ];
    for (level, pfn, offset, accepted) in cases {
        let mut e = PageTableEntry(0x10);
        let got =
            LeafBuilder { result: &mut e, level }.finalize(PhysAddr::new(pfn, offset, w), &flags);
        assert_eq!(got.is_some(), accepted);
        if !accepted {
            assert_eq!(e.0, 0x10);
        }
    }
}
