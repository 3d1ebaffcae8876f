use mm::common::{PagingLevel, PhysAddr, PhysWidth, VirtAddr};
use mm::mmu::memory::{SparseMemory, TableMemory};
use mm::mmu::paging::{CommonMappedEntry, PageTable, PageTableEntry};
use mm::mmu::view::{DirectoryFlags, EntryView, LeafFlags, PagingAttributesViewer};
use mm::pmm::bitset::BoolBitset;
use mm::pmm::{BumpBitsetAllocator, FrameAllocator};
use mm::vmm::active_mapper::{ActiveMapper, Error as ActiveError};
use mm::vmm::mapper::{Error, HelperStats, Mapper};
use mm::vmm::walk::{alloc_zeroed_table, zero_allocated};

fn leaf_flags() -> LeafFlags {
    LeafFlags {
        directory_flags: DirectoryFlags {
            present: true,
            rw: true,
            us: false,
            pwt: false,
            pcd: false,
            accessed: false,
            restart: false,
            nx: true,
        },
        dirty: false,
        pat: false,
        global: false,
        protection_key: 0,
    }
}

fn va(vpn: u64) -> VirtAddr<false, ()> {
    VirtAddr::new(vpn, 0)
}

fn pa(pfn: u64, width: PhysWidth) -> PhysAddr<()> {
    PhysAddr::new(pfn, 0, width)
}

/// What the tables say of page `vpn`: the level of the leaf and its word.
fn walk(mem: &SparseMemory, root: u64, width: PhysWidth, vpn: u64) -> Option<(u8, u64)> {
    let mut table = root;
    for level in [4u8, 3, 2, 1] {
        let index = ((vpn >> ((level - 1) * 9)) & 0x1FF) as usize;
        let raw = mem.read(table, index);
        if raw & 1 == 0 {
            return None;
        }
        if level == 1 || (level < 4 && raw & 0x80 != 0) {
            return Some((level, raw));
        }
        table = (raw >> 12) & width.solely_pfn_mask();
    }
    None
}

fn counts(stats: &HelperStats) -> (usize, usize, usize) {
    (stats.three, stats.two, stats.one)
}

#[test]
fn new_fails_without_frames() {
    let w = PhysWidth::new(48);
    let mut storage = [u64::MAX; 4];
    let mut bits = BoolBitset::new(&mut storage);
    let mut fa = BumpBitsetAllocator::new(&mut bits);
    let mut mem = SparseMemory::new();
    match Mapper::new(&mut fa, &mut mem, w) {
        Err(e) => assert_eq!(e, Error::L4Allocation),
        Ok(_) => panic!(),
    };
}

#[test]
fn new_takes_and_clears_root() {
    let w = PhysWidth::new(48);
    let mut storage = [0b111u64];
    let mut mem = SparseMemory::new();
    let root;
    {
        // frame 3 holds old data
        let dirty: PhysAddr<PageTable> = PhysAddr::new(3, 0, w);
        mem.entry_mut(&dirty, 7).0 = 0xDEAD;
        let mut bits = BoolBitset::new(&mut storage);
        let mut fa = BumpBitsetAllocator::new(&mut bits);
        let mapper = Mapper::new(&mut fa, &mut mem, w).ok().unwrap();
        root = mapper.pml4().clone();
    }
    assert_eq!(root.pfn(), 3);
    assert_eq!(root.offset(), 0);
    assert_eq!(storage, [0b1111]);
    assert_eq!(mem.read(3, 7), 0);
}

#[test]
fn map_leaf_rejects_high_levels() {
    let w = PhysWidth::new(48);
    let mut storage = [0u64];
    let mut bits = BoolBitset::new(&mut storage);
    let mut fa = BumpBitsetAllocator::new(&mut bits);
    let mut mem = SparseMemory::new();
    let mut mapper = Mapper::new(&mut fa, &mut mem, w).ok().unwrap();
    let f = leaf_flags();
    assert_eq!(mapper.map_leaf(va(0), pa(0, w), &f, PagingLevel::Four).err(), Some(Error::InvalidLevel));
    assert_eq!(mapper.map_leaf(va(0), pa(0, w), &f, PagingLevel::Five).err(), Some(Error::InvalidLevel));
}

#[test]
fn map_leaf_installs_small_page() {
    let w = PhysWidth::new(48);
    let mut storage = [0u64];
    let mut mem = SparseMemory::new();
    let vpn: u64 = (1 << 27) | (2 << 18) | (3 << 9) | 4;
    {
        let mut bits = BoolBitset::new(&mut storage);
        let mut fa = BumpBitsetAllocator::new(&mut bits);
        let mut mapper = Mapper::new(&mut fa, &mut mem, w).ok().unwrap();
        let leaf = mapper.map_leaf(va(vpn), pa(0xABC, w), &leaf_flags(), PagingLevel::One);
        assert_eq!(leaf.ok().unwrap().0, 0x8000_0000_00AB_C003);
        assert_eq!(mapper.pml4().pfn(), 0);
    }
    // root in frame 0, then three tables in frames 1, 2, 3
    assert_eq!(storage, [0b1111]);
    assert_eq!(mem.read(0, 1), 0x1007);
    assert_eq!(mem.read(1, 2), 0x2007);
    assert_eq!(mem.read(2, 3), 0x3007);
    assert_eq!(mem.read(3, 4), 0x8000_0000_00AB_C003);
    assert_eq!(walk(&mem, 0, w, vpn), Some((1, 0x8000_0000_00AB_C003)));
    assert_eq!(walk(&mem, 0, w, vpn + 1), None);
    assert_eq!(walk(&mem, 0, w, vpn - 1), None);
}

#[test]
fn map_leaf_reuses_tables() {
    let w = PhysWidth::new(48);
    let mut storage = [0u64];
    let mut mem = SparseMemory::new();
    {
        let mut bits = BoolBitset::new(&mut storage);
        let mut fa = BumpBitsetAllocator::new(&mut bits);
        let mut mapper = Mapper::new(&mut fa, &mut mem, w).ok().unwrap();
        let f = leaf_flags();
        assert!(mapper.map_leaf(va(0), pa(10, w), &f, PagingLevel::One).is_ok());
        assert!(mapper.map_leaf(va(1), pa(20, w), &f, PagingLevel::One).is_ok());
        assert!(mapper.map_leaf(va(512), pa(30, w), &f, PagingLevel::One).is_ok());
    }
    // root, table three, table two, two tables of level one
    assert_eq!(storage, [0b11111]);
    assert_eq!(walk(&mem, 0, w, 0), Some((1, 0x8000_0000_0000_A003)));
    assert_eq!(walk(&mem, 0, w, 1), Some((1, 0x8000_0000_0001_4003)));
    assert_eq!(walk(&mem, 0, w, 512), Some((1, 0x8000_0000_0001_E003)));
    assert_eq!(walk(&mem, 0, w, 2), None);
}

#[test]
fn map_leaf_large_pages() {
    let w = PhysWidth::new(48);
    let mut storage = [0u64];
    let mut mem = SparseMemory::new();
    {
        let mut bits = BoolBitset::new(&mut storage);
        let mut fa = BumpBitsetAllocator::new(&mut bits);
        let mut mapper = Mapper::new(&mut fa, &mut mem, w).ok().unwrap();
        let f = leaf_flags();
        let leaf = mapper.map_leaf(va(0x40000), pa(0x80000, w), &f, PagingLevel::Three);
        assert_eq!(leaf.ok().unwrap().0, 0x8000_0000_8000_0083);
        let leaf = mapper.map_leaf(va(0x200), pa(0xA00, w), &f, PagingLevel::Two);
        assert_eq!(leaf.ok().unwrap().0, 0x8000_0000_00A0_0083);
    }
    // root, table three, table two
    assert_eq!(storage, [0b111]);
    assert_eq!(walk(&mem, 0, w, 0x40000), Some((3, 0x8000_0000_8000_0083)));
    assert_eq!(walk(&mem, 0, w, 0x7FFFF), Some((3, 0x8000_0000_8000_0083)));
    assert_eq!(walk(&mem, 0, w, 0x80000), None);
    assert_eq!(walk(&mem, 0, w, 0x200), Some((2, 0x8000_0000_00A0_0083)));
    assert_eq!(walk(&mem, 0, w, 0x3FF), Some((2, 0x8000_0000_00A0_0083)));
    assert_eq!(walk(&mem, 0, w, 0x1FF), None);
}

#[test]
fn map_leaf_alignment() {
    let w = PhysWidth::new(48);
    let mut storage = [0u64];
    let mut bits = BoolBitset::new(&mut storage);
    let mut fa = BumpBitsetAllocator::new(&mut bits);
    let mut mem = SparseMemory::new();
    let mut mapper = Mapper::new(&mut fa, &mut mem, w).ok().unwrap();
    let f = leaf_flags();
    let mis = Some(Error::MisalignedAddress);
    // physical address off the boundary of 1 GiB
    assert_eq!(mapper.map_leaf(va(0), pa(1, w), &f, PagingLevel::Three).err(), mis);
    assert_eq!(mapper.map_leaf(va(0), pa(0x200, w), &f, PagingLevel::Three).err(), mis);
    assert_eq!(mapper.map_leaf(va(0), pa(0x3FFFF, w), &f, PagingLevel::Three).err(), mis);
    // virtual address off the boundary of 1 GiB
    assert_eq!(mapper.map_leaf(va(1), pa(0, w), &f, PagingLevel::Three).err(), mis);
    // one page off the boundary of 2 MiB
    assert_eq!(mapper.map_leaf(va(0), pa(1, w), &f, PagingLevel::Two).err(), mis);
    assert_eq!(mapper.map_leaf(va(1), pa(0, w), &f, PagingLevel::Two).err(), mis);
    assert_eq!(mapper.map_leaf(va(0x201), pa(0x200, w), &f, PagingLevel::Two).err(), mis);
    // an offset in the physical address
    let off: PhysAddr<()> = PhysAddr::new(0, 8, w);
    assert_eq!(mapper.map_leaf(va(0), off, &f, PagingLevel::One).err(), mis);
    // on the boundary
    assert!(mapper.map_leaf(va(0x40000), pa(0x40000, w), &f, PagingLevel::Three).is_ok());
    assert!(mapper.map_leaf(va(0x200), pa(0x200, w), &f, PagingLevel::Two).is_ok());
    assert!(mapper.map_leaf(va(0), pa(0, w), &f, PagingLevel::One).is_ok());
}

#[test]
fn map_leaf_entry_in_use() {
    let w = PhysWidth::new(48);
    let mut storage = [0u64];
    let mut bits = BoolBitset::new(&mut storage);
    let mut fa = BumpBitsetAllocator::new(&mut bits);
    let mut mem = SparseMemory::new();
    let mut mapper = Mapper::new(&mut fa, &mut mem, w).ok().unwrap();
    let f = leaf_flags();
    let used = Some(Error::EntryInUse);
    assert!(mapper.map_leaf(va(5), pa(5, w), &f, PagingLevel::One).is_ok());
    assert_eq!(mapper.map_leaf(va(5), pa(6, w), &f, PagingLevel::One).err(), used);
    assert!(mapper.map_leaf(va(0x400), pa(0x400, w), &f, PagingLevel::Two).is_ok());
    assert_eq!(mapper.map_leaf(va(0x400), pa(0x600, w), &f, PagingLevel::Two).err(), used);
    // a page under a larger leaf
    assert_eq!(mapper.map_leaf(va(0x401), pa(1, w), &f, PagingLevel::One).err(), used);
    // a larger leaf over tables that exist
    assert_eq!(mapper.map_leaf(va(0), pa(0, w), &f, PagingLevel::Two).err(), used);
    assert_eq!(mapper.map_leaf(va(0), pa(0, w), &f, PagingLevel::Three).err(), used);
    assert!(mapper.map_leaf(va(0x40000), pa(0, w), &f, PagingLevel::Three).is_ok());
    assert_eq!(mapper.map_leaf(va(0x40000), pa(0, w), &f, PagingLevel::Three).err(), used);
    assert_eq!(mapper.map_leaf(va(0x40200), pa(0, w), &f, PagingLevel::Two).err(), used);
}

#[test]
fn map_leaf_table_allocation_fails() {
    let w = PhysWidth::new(48);
    // two free frames: the root and one table
    let mut storage = [!0b11u64];
    let mut mem = SparseMemory::new();
    {
        let mut bits = BoolBitset::new(&mut storage);
        let mut fa = BumpBitsetAllocator::new(&mut bits);
        let mut mapper = Mapper::new(&mut fa, &mut mem, w).ok().unwrap();
        let f = leaf_flags();
        let got = mapper.map_leaf(va(0), pa(0, w), &f, PagingLevel::One);
        assert_eq!(got.err(), Some(Error::TableAllocation));
        // the table made before the failure stays
        assert!(mapper.map_leaf(va(0), pa(0, w), &f, PagingLevel::Three).is_ok());
    }
    assert_eq!(storage, [u64::MAX]);
    assert_eq!(mem.read(0, 0), 0x1007);
}

#[test]
fn map_picks_superpages() {
    let w = PhysWidth::new(48);
    let mut storage = [0u64];
    let mut mem = SparseMemory::new();
    {
        let mut bits = BoolBitset::new(&mut storage);
        let mut fa = BumpBitsetAllocator::new(&mut bits);
        let mut mapper = Mapper::new(&mut fa, &mut mem, w).ok().unwrap();
        let stats = mapper.map(va(0x40000), pa(0x80000, w), &leaf_flags(), 262145).ok().unwrap();
        assert_eq!(counts(&stats), (1, 0, 1));
    }
    assert_eq!(walk(&mem, 0, w, 0x40000), Some((3, 0x8000_0000_8000_0083)));
    assert_eq!(walk(&mem, 0, w, 0x7FFFF), Some((3, 0x8000_0000_8000_0083)));
    assert_eq!(walk(&mem, 0, w, 0x80000), Some((1, 0x8000_0000_C000_0003)));
    assert_eq!(walk(&mem, 0, w, 0x80001), None);
    assert_eq!(walk(&mem, 0, w, 0x3FFFF), None);
}

#[test]
fn map_misaligned_by_one_page() {
    let w = PhysWidth::new(48);
    let mut storage = [0u64; 2];
    let mut mem = SparseMemory::new();
    {
        let mut bits = BoolBitset::new(&mut storage);
        let mut fa = BumpBitsetAllocator::new(&mut bits);
        let mut mapper = Mapper::new(&mut fa, &mut mem, w).ok().unwrap();
        let stats = mapper.map(va(0x40001), pa(0x80001, w), &leaf_flags(), 262145).ok().unwrap();
        // 511 pages up to the boundary of 2 MiB, 511 pages of 2 MiB, 2 pages
        assert_eq!(counts(&stats), (0, 511, 513));
    }
    assert_eq!(walk(&mem, 0, w, 0x40000), None);
    assert_eq!(walk(&mem, 0, w, 0x40001), Some((1, 0x8000_0000_8000_1003)));
    assert_eq!(walk(&mem, 0, w, 0x40200), Some((2, 0x8000_0000_8020_0083)));
    assert_eq!(walk(&mem, 0, w, 0x80001), Some((1, 0x8000_0000_C000_1003)));
    assert_eq!(walk(&mem, 0, w, 0x80002), None);
}

#[test]
fn map_va_and_pa_must_both_be_aligned() {
    let w = PhysWidth::new(48);
    let mut storage = [0u64; 2];
    let mut bits = BoolBitset::new(&mut storage);
    let mut fa = BumpBitsetAllocator::new(&mut bits);
    let mut mem = SparseMemory::new();
    let mut mapper = Mapper::new(&mut fa, &mut mem, w).ok().unwrap();
    // the virtual address is on the boundary, the physical one page off
    let stats = mapper.map(va(0), pa(1, w), &leaf_flags(), 1024).ok().unwrap();
    assert_eq!(counts(&stats), (0, 0, 1024));
    let stats = mapper.map(va(0x40000), pa(0x200, w), &leaf_flags(), 1025).ok().unwrap();
    assert_eq!(counts(&stats), (0, 2, 1));
}

#[test]
fn map_nothing() {
    let w = PhysWidth::new(48);
    let mut storage = [0u64];
    {
        let mut bits = BoolBitset::new(&mut storage);
        let mut fa = BumpBitsetAllocator::new(&mut bits);
        let mut mem = SparseMemory::new();
        let mut mapper = Mapper::new(&mut fa, &mut mem, w).ok().unwrap();
        let stats = mapper.map(va(7), pa(9, w), &leaf_flags(), 0).ok().unwrap();
        assert_eq!(counts(&stats), (0, 0, 0));
    }
    assert_eq!(storage, [1]);
}

#[test]
fn map_stops_at_first_failure_and_keeps_earlier_leaves() {
    let w = PhysWidth::new(48);
    let mut storage = [0u64];
    let mut mem = SparseMemory::new();
    {
        let mut bits = BoolBitset::new(&mut storage);
        let mut fa = BumpBitsetAllocator::new(&mut bits);
        let mut mapper = Mapper::new(&mut fa, &mut mem, w).ok().unwrap();
        let f = leaf_flags();
        assert!(mapper.map_leaf(va(3), pa(100, w), &f, PagingLevel::One).is_ok());
        let got = mapper.map(va(1), pa(50, w), &f, 4);
        assert_eq!(got.err(), Some(Error::EntryInUse));
    }
    assert_eq!(walk(&mem, 0, w, 1), Some((1, 0x8000_0000_0003_2003)));
    assert_eq!(walk(&mem, 0, w, 2), Some((1, 0x8000_0000_0003_3003)));
    assert_eq!(walk(&mem, 0, w, 3), Some((1, 0x8000_0000_0006_4003)));
    assert_eq!(walk(&mem, 0, w, 4), None);
}

#[test]
fn map_with_offset_is_misaligned() {
    let w = PhysWidth::new(48);
    let mut storage = [0u64];
    let mut bits = BoolBitset::new(&mut storage);
    let mut fa = BumpBitsetAllocator::new(&mut bits);
    let mut mem = SparseMemory::new();
    let mut mapper = Mapper::new(&mut fa, &mut mem, w).ok().unwrap();
    let off: PhysAddr<()> = PhysAddr::new(0, 1, w);
    assert_eq!(mapper.map(va(0), off, &leaf_flags(), 1).err(), Some(Error::MisalignedAddress));
}

#[test]
fn allocator_can_be_used_beside_the_mapper() {
    let w = PhysWidth::new(48);
    let mut storage = [0u64];
    let mut mem = SparseMemory::new();
    {
        let mut bits = BoolBitset::new(&mut storage);
        let mut fa = BumpBitsetAllocator::new(&mut bits);
        let mut mapper = Mapper::new(&mut fa, &mut mem, w).ok().unwrap();
        let stack: PhysAddr<()> = mapper.allocator().allocate_frame(w).unwrap();
        assert_eq!(stack.pfn(), 1);
        assert!(mapper.map_leaf(va(0x7FFFFFF), stack, &leaf_flags(), PagingLevel::One).is_ok());
    }
    assert_eq!(storage, [0b11111]);
    assert_eq!(walk(&mem, 0, w, 0x7FFFFFF), Some((1, 0x8000_0000_0000_1003)));
}

#[test]
fn installed_leaf_reads_back_through_view() {
    let w = PhysWidth::new(48);
    let mut storage = [0u64];
    let mut bits = BoolBitset::new(&mut storage);
    let mut fa = BumpBitsetAllocator::new(&mut bits);
    let mut mem = SparseMemory::new();
    let mut mapper = Mapper::new(&mut fa, &mut mem, w).ok().unwrap();
    let f = leaf_flags();
    let entry: CommonMappedEntry =
        mapper.map_leaf(va(0x200), pa(0xA00, w), &f, PagingLevel::Two).ok().unwrap();
    let mut pte = PageTableEntry(entry.0);
    match pte.view_as_level::<false>(PagingLevel::Two) {
        Some(EntryView::Leaf(leaf)) => {
            assert_eq!(leaf.get_pointed_physical_address(w).pfn(), 0xA00);
            assert!(leaf.get_flags() == f);
        }
        _ => panic!(),
    }
}

#[test]
fn active_mapper_extends_existing_tables() {
    let w = PhysWidth::new(48);
    let mut storage = [0u64];
    let mut mem = SparseMemory::new();
    let root;
    {
        let mut bits = BoolBitset::new(&mut storage);
        let mut fa = BumpBitsetAllocator::new(&mut bits);
        {
            let mut mapper = Mapper::new(&mut fa, &mut mem, w).ok().unwrap();
            assert!(mapper.map_leaf(va(0), pa(1, w), &leaf_flags(), PagingLevel::One).is_ok());
            root = mapper.pml4().clone();
        }
        let mut active = ActiveMapper::new(&mut fa, &mut mem, root.clone(), w);
        let f = leaf_flags();
        assert!(active.map_leaf(va(1), pa(2, w), &f, PagingLevel::One).is_ok());
        assert_eq!(
            active.map_leaf(va(0), pa(2, w), &f, PagingLevel::One).err(),
            Some(ActiveError::EntryInUse)
        );
        assert_eq!(
            active.map_leaf(va(0), pa(2, w), &f, PagingLevel::Four).err(),
            Some(ActiveError::InvalidLevel)
        );
        assert_eq!(
            active.map_leaf(va(0x201), pa(0, w), &f, PagingLevel::Two).err(),
            Some(ActiveError::MisalignedAddress)
        );
        assert!(active.map(va(0x40000), pa(0x40000, w), &f, 262144 + 512 + 1).is_ok());
        assert_eq!(active.map(va(0x40000), pa(0, w), &f, 1).err(), Some(ActiveError::EntryInUse));
    }
    assert_eq!(walk(&mem, root.pfn(), w, 0), Some((1, 0x8000_0000_0000_1003)));
    assert_eq!(walk(&mem, root.pfn(), w, 1), Some((1, 0x8000_0000_0000_2003)));
    assert_eq!(walk(&mem, root.pfn(), w, 0x40000), Some((3, 0x8000_0000_4000_0083)));
    assert_eq!(walk(&mem, root.pfn(), w, 0x80000), Some((2, 0x8000_0000_8000_0083)));
    assert_eq!(walk(&mem, root.pfn(), w, 0x80200), Some((1, 0x8000_0000_8020_0003)));
}

#[test]
fn active_mapper_table_allocation_fails() {
    let w = PhysWidth::new(48);
    let mut storage = [!1u64];
    let mut mem = SparseMemory::new();
    let mut bits = BoolBitset::new(&mut storage);
    let mut fa = BumpBitsetAllocator::new(&mut bits);
    let root;
    {
        let mapper = Mapper::new(&mut fa, &mut mem, w).ok().unwrap();
        root = mapper.pml4().clone();
    }
    let mut active = ActiveMapper::new(&mut fa, &mut mem, root, w);
    assert_eq!(
        active.map(va(0), pa(0, w), &leaf_flags(), 3).err(),
        Some(ActiveError::TableAllocation)
    );
}

#[test]
fn sparse_memory_reads_zero_until_written() {
    let w = PhysWidth::new(48);
    let mut mem = SparseMemory::new();
    assert_eq!(mem.read(5, 0), 0);
    assert_eq!(mem.frames_kept(), 0);
    let t: PhysAddr<PageTable> = PhysAddr::new(5, 0, w);
    mem.entry_mut(&t, 511).0 = 77;
    assert_eq!(mem.read(5, 511), 77);
    assert_eq!(mem.read(5, 510), 0);
    assert_eq!(mem.read(6, 511), 0);
    assert_eq!(mem.frames_kept(), 1);
    mem.zero_table(&t);
    assert_eq!(mem.read(5, 511), 0);
    let u: PhysAddr<PageTable> = PhysAddr::new(6, 0, w);
    mem.zero_table(&u);
    assert_eq!(mem.frames_kept(), 1);
}

#[test]
fn allocated_frame_is_cleared_and_handed_on() {
    let w = PhysWidth::new(48);
    let mut mem = SparseMemory::new();
    let t: PhysAddr<PageTable> = PhysAddr::new(9, 0, w);
    let other: PhysAddr<PageTable> = PhysAddr::new(10, 0, w);
    mem.entry_mut(&t, 3).0 = 0x1234;
    mem.entry_mut(&other, 3).0 = 0x5678;
    // no frame: nothing is handed on, nothing is written
    assert!(zero_allocated(&mut mem, None).is_none());
    assert_eq!(mem.read(9, 3), 0x1234);
    // a frame: it is handed on, cleared
    let got = zero_allocated(&mut mem, Some(t.clone())).unwrap();
    assert_eq!(got.pfn(), 9);
    assert_eq!(got.offset(), 0);
    assert_eq!(got.width(), w);
    assert_eq!(mem.read(9, 3), 0);
    assert_eq!(mem.read(10, 3), 0x5678);

    // with the allocator: the first free frame, cleared
    let mut storage = [(1u64 << 10) - 1];
    {
        let mut bits = BoolBitset::new(&mut storage);
        let mut fa = BumpBitsetAllocator::new(&mut bits);
        let got = alloc_zeroed_table(&mut fa, &mut mem, w).unwrap();
        assert_eq!(got.pfn(), 10);
        assert_eq!(got.offset(), 0);
        assert_eq!(got.width(), w);
    }
    assert_eq!(storage, [(1u64 << 11) - 1]);
    assert_eq!(mem.read(10, 3), 0);
    // an allocator without frames: nothing, and nothing is written
    mem.entry_mut(&other, 3).0 = 0x5678;
    let mut storage = [u64::MAX];
    {
        let mut bits = BoolBitset::new(&mut storage);
        let mut fa = BumpBitsetAllocator::new(&mut bits);
        assert!(alloc_zeroed_table(&mut fa, &mut mem, w).is_none());
    }
    assert_eq!(mem.read(10, 3), 0x5678);
}

#[test]
fn map_counts_on_a_boundary_of_one_gib() {
    let w = PhysWidth::new(48);
    let mut storage = [0u64];
    let mut mem = SparseMemory::new();
    let pages: usize = 2 * 262144 + 3 * 512 + 5;
    {
        let mut bits = BoolBitset::new(&mut storage);
        let mut fa = BumpBitsetAllocator::new(&mut bits);
        let mut mapper = Mapper::new(&mut fa, &mut mem, w).ok().unwrap();
        let stats = mapper.map(va(0x40000), pa(0xC0000, w), &leaf_flags(), pages).ok().unwrap();
        assert_eq!(counts(&stats), (pages / 262144, (pages % 262144) / 512, pages % 512));
        assert_eq!(counts(&stats), (2, 3, 5));
    }
    assert_eq!(walk(&mem, 0, w, 0x40000).map(|leaf| leaf.0), Some(3));
    assert_eq!(walk(&mem, 0, w, 0xBFFFF).map(|leaf| leaf.0), Some(3));
    assert_eq!(walk(&mem, 0, w, 0xC0000).map(|leaf| leaf.0), Some(2));
    assert_eq!(walk(&mem, 0, w, 0xC05FF).map(|leaf| leaf.0), Some(2));
    assert_eq!(walk(&mem, 0, w, 0xC0600), Some((1, 0x8000_0001_4060_0003)));
    assert_eq!(walk(&mem, 0, w, 0xC0604), Some((1, 0x8000_0001_4060_4003)));
    assert_eq!(walk(&mem, 0, w, 0xC0605), None);
}

#[test]
fn map_fails_for_want_of_a_table_and_keeps_earlier_leaves() {
    let w = PhysWidth::new(48);
    // four free frames: the root and the three tables for the first pages
    let mut storage = [!0b1111u64];
    let mut mem = SparseMemory::new();
    {
        let mut bits = BoolBitset::new(&mut storage);
        let mut fa = BumpBitsetAllocator::new(&mut bits);
        let mut mapper = Mapper::new(&mut fa, &mut mem, w).ok().unwrap();
        // the last two pages lie in the next table of level one
        let got = mapper.map(va(510), pa(7, w), &leaf_flags(), 4);
        assert_eq!(got.err(), Some(Error::TableAllocation));
    }
    assert_eq!(storage, [u64::MAX]);
    assert_eq!(walk(&mem, 0, w, 510), Some((1, 0x8000_0000_0000_7003)));
    assert_eq!(walk(&mem, 0, w, 511), Some((1, 0x8000_0000_0000_8003)));
    assert_eq!(walk(&mem, 0, w, 512), None);
    assert_eq!(walk(&mem, 0, w, 513), None);
    // the table that the next leaf wanted is missing
    assert_eq!(mem.read(2, 1), 0);
}

#[test]
fn made_directories_are_permissive() {
    let w = PhysWidth::new(48);
    let mut storage = [0u64];
    let mut mem = SparseMemory::new();
    {
        let mut bits = BoolBitset::new(&mut storage);
        let mut fa = BumpBitsetAllocator::new(&mut bits);
        let mut mapper = Mapper::new(&mut fa, &mut mem, w).ok().unwrap();
        // a leaf that is read-only, for the kernel, and not to be executed
        let mut flags = leaf_flags();
        flags.directory_flags.rw = false;
        assert!(mapper.map_leaf(va(0), pa(9, w), &flags, PagingLevel::One).is_ok());
    }
    // present, writable, open to user mode, execution allowed
    assert_eq!(mem.read(0, 0), 0x1007);
    assert_eq!(mem.read(1, 0), 0x2007);
    assert_eq!(mem.read(2, 0), 0x3007);
    assert_eq!(mem.read(3, 0), 0x8000_0000_0000_9001);
}

#[test]
fn map_leaf_succeeds_with_a_frame_for_each_missing_table() {
    let w = PhysWidth::new(48);
    // four free frames: the root and the three tables on the way
    let mut storage = [!0b1111u64];
    let mut mem = SparseMemory::new();
    {
        let mut bits = BoolBitset::new(&mut storage);
        let mut fa = BumpBitsetAllocator::new(&mut bits);
        let mut mapper = Mapper::new(&mut fa, &mut mem, w).ok().unwrap();
        let f = leaf_flags();
        assert!(mapper.map_leaf(va(0), pa(5, w), &f, PagingLevel::One).is_ok());
        // the tables are there now: the next page asks for none
        assert!(mapper.map_leaf(va(1), pa(6, w), &f, PagingLevel::One).is_ok());
        // a page under another table of level one asks for one more
        let got = mapper.map_leaf(va(512), pa(7, w), &f, PagingLevel::One);
        assert_eq!(got.err(), Some(Error::TableAllocation));
    }
    assert_eq!(storage, [u64::MAX]);
}

#[test]
fn map_leaf_fails_with_a_frame_too_few() {
    let w = PhysWidth::new(48);
    // three free frames: the root and two of the three tables
    let mut storage = [!0b111u64];
    let mut mem = SparseMemory::new();
    {
        let mut bits = BoolBitset::new(&mut storage);
        let mut fa = BumpBitsetAllocator::new(&mut bits);
        let mut mapper = Mapper::new(&mut fa, &mut mem, w).ok().unwrap();
        let f = leaf_flags();
        let got = mapper.map_leaf(va(0), pa(5, w), &f, PagingLevel::One);
        assert_eq!(got.err(), Some(Error::TableAllocation));
        // the two tables that were made serve a leaf of level two
        assert!(mapper.map_leaf(va(0), pa(0, w), &f, PagingLevel::Two).is_ok());
    }
    assert_eq!(storage, [u64::MAX]);
}

#[test]
fn misaligned_leaf_on_a_fresh_mapper() {
    let w = PhysWidth::new(48);
    let mut storage = [0u64];
    let mut mem = SparseMemory::new();
    {
        let mut bits = BoolBitset::new(&mut storage);
        let mut fa = BumpBitsetAllocator::new(&mut bits);
        let mut mapper = Mapper::new(&mut fa, &mut mem, w).ok().unwrap();
        let f = leaf_flags();
        let misaligned = Some(Error::MisalignedAddress);
        assert_eq!(mapper.map_leaf(va(0), pa(1, w), &f, PagingLevel::Two).err(), misaligned);
        assert_eq!(mapper.map_leaf(va(1), pa(0, w), &f, PagingLevel::Two).err(), misaligned);
        assert_eq!(mapper.map_leaf(va(0x40000), pa(1, w), &f, PagingLevel::Three).err(), misaligned);
        assert_eq!(mapper.map_leaf(va(512), pa(0, w), &f, PagingLevel::Three).err(), misaligned);
    }
    // the root and the tables of levels three and two were made
    assert_eq!(storage, [0b111]);
    assert_eq!(mem.read(1, 0), 0x2007);
    assert_eq!(mem.read(2, 0), 0);
}

#[test]
fn misaligned_leaf_without_a_frame_for_its_table() {
    let w = PhysWidth::new(48);
    // one free frame: the root
    let mut storage = [!0b1u64];
    let mut mem = SparseMemory::new();
    {
        let mut bits = BoolBitset::new(&mut storage);
        let mut fa = BumpBitsetAllocator::new(&mut bits);
        let mut mapper = Mapper::new(&mut fa, &mut mem, w).ok().unwrap();
        let got = mapper.map_leaf(va(0), pa(1, w), &leaf_flags(), PagingLevel::Three);
        assert_eq!(got.err(), Some(Error::TableAllocation));
    }
}

#[test]
fn map_takes_no_more_tables_than_its_leaves_ask_for() {
    let w = PhysWidth::new(48);
    // the root, and four tables: one above the leaf of level three, three
    // above the leaf of level one
    let mut storage = [!0b1111u64];
    let mut mem = SparseMemory::new();
    {
        let mut bits = BoolBitset::new(&mut storage);
        let mut fa = BumpBitsetAllocator::new(&mut bits);
        let mut mapper = Mapper::new(&mut fa, &mut mem, w).ok().unwrap();
        let stats = mapper.map(va(0), pa(0, w), &leaf_flags(), 262145).ok().unwrap();
        assert_eq!(counts(&stats), (1, 0, 1));
    }
    // the table of level three serves both leaves: three tables were made
    assert_eq!(storage, [u64::MAX]);
}

#[test]
fn map_off_a_boundary_by_a_page() {
    let w = PhysWidth::new(48);
    let mut storage = [0u64];
    let mut mem = SparseMemory::new();
    {
        let mut bits = BoolBitset::new(&mut storage);
        let mut fa = BumpBitsetAllocator::new(&mut bits);
        let mut mapper = Mapper::new(&mut fa, &mut mem, w).ok().unwrap();
        let stats = mapper.map(va(1), pa(1, w), &leaf_flags(), 262145).ok().unwrap();
        assert_eq!(counts(&stats), (0, 511, 513));
    }
    // the root and five tables: three above the first pages, two more
    // above the last
    assert_eq!(storage, [0b11_1111]);
    for vpn in [1u64, 2, 511, 512, 1023, 262143, 262144, 262145] {
        let (level, raw) = walk(&mem, 0, w, vpn).unwrap();
        let base = (raw >> 12) & 0xF_FFFF_FFFF & !(if level == 2 { 0x1FF } else { 0 });
        let inside = if level == 2 { vpn & 0x1FF } else { 0 };
        assert_eq!(base + inside, vpn);
    }
    assert_eq!(walk(&mem, 0, w, 0), None);
    assert_eq!(walk(&mem, 0, w, 262146), None);
}
