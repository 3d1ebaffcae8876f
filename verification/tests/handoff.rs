use mm::boot::{MemoryDescriptor, MemoryRange, MemoryType};
use mm::common::PhysWidth;
use mm::handoff::setup;
use mm::mmu::memory::SparseMemory;
use mm::pmm::bitset::BoolBitset;
use mm::uefi::{Error, Status};

fn desc(memory_type: MemoryType, first_frame: u64, pages: u64) -> MemoryDescriptor {
    MemoryDescriptor {
        memory_type,
        physical_start: first_frame << 12,
        virtual_start: 0,
        number_of_pages: pages,
        attribute: 0,
        reserved: 0,
    }
}

/// What the tables say of page `vpn`: the level of the leaf and its word.
fn walk(mem: &SparseMemory, root: u64, width: PhysWidth, vpn: u64) -> Option<(u8, u64)> {
    let mut table = root;
    for level in [4u8, 3, 2, 1] {
        let index = ((vpn >> ((level - 1) * 9)) & 0x1FF) as usize;
        let raw = mem.read(table, index);
        if raw & 1 == 0 {
            return None;
        }
        if level == 1 || (level < 4 && raw & 0x80 != 0) {
            return Some((level, raw));
        }
        table = (raw >> 12) & width.solely_pfn_mask();
    }
    None
}

#[test]
fn setup_needs_both_ranges() {
    let w = PhysWidth::new(48);
    let cases: [Vec<MemoryDescriptor>; 4] = [
        vec![],
        vec![desc(MemoryType::EfiLoaderCode, 0x1000, 16)],
        vec![desc(MemoryType::EfiLoaderData, 0x2000, 600)],
        // loader data of 512 pages is not enough
        vec![
            desc(MemoryType::EfiLoaderCode, 0x1000, 16),
            desc(MemoryType::EfiLoaderData, 0x2000, 512),
        ],
    ];
    for descs in cases {
        let mut storage = [0u64; 4];
        let mut bits = BoolBitset::new(&mut storage);
        let mut mem = SparseMemory::new();
        match setup(&mut bits, &mut mem, &descs, w, &[]) {
            Err(e) => {
                assert_eq!(e.error, Error::NotFound);
                assert_eq!(e.code, Status(14));
            }
            Ok(_) => panic!(),
        }
        // nothing was taken
        assert_eq!(mem.frames_kept(), 0);
    }
}

#[test]
fn setup_without_frames_is_out_of_resources() {
    let w = PhysWidth::new(48);
    let descs = [
        desc(MemoryType::EfiLoaderCode, 0x1000, 16),
        desc(MemoryType::EfiLoaderData, 0x2000, 600),
    ];
    let mut storage = [u64::MAX; 4];
    let mut bits = BoolBitset::new(&mut storage);
    let mut mem = SparseMemory::new();
    match setup(&mut bits, &mut mem, &descs, w, &[]) {
        Err(e) => {
            assert_eq!(e.error, Error::OutOfResources);
            assert_eq!(e.code, Status(9));
        }
        Ok(_) => panic!(),
    }
}

#[test]
fn setup_with_too_few_frames_has_no_mapping() {
    let w = PhysWidth::new(48);
    let descs = [
        desc(MemoryType::EfiLoaderCode, 0x1000, 16),
        desc(MemoryType::EfiLoaderData, 0x2000, 600),
    ];
    // one free frame: the root table
    let mut storage = [!1u64];
    let mut bits = BoolBitset::new(&mut storage);
    let mut mem = SparseMemory::new();
    match setup(&mut bits, &mut mem, &descs, w, &[]) {
        Err(e) => {
            assert_eq!(e.error, Error::NoMapping);
            assert_eq!(e.code, Status(17));
        }
        Ok(_) => panic!(),
    }
}

#[test]
fn setup_builds_the_address_space() {
    let w = PhysWidth::new(48);
    let descs = [
        desc(MemoryType::EfiConventionalMemory, 0, 0x1000),
        desc(MemoryType::EfiLoaderData, 0x3000, 8),
        desc(MemoryType::EfiLoaderCode, 0x1000, 16),
        desc(MemoryType::EfiLoaderData, 0x2000, 600),
        desc(MemoryType::EfiLoaderCode, 0x5000, 16),
        desc(MemoryType::EfiLoaderData, 0x6000, 700),
    ];
    let ranges = [
        MemoryRange { pfn_start: 0, number_of_pages: 0x800 },
        MemoryRange { pfn_start: 0x40000, number_of_pages: 0x40000 },
    ];
    let mut storage = [0u64; 4];
    let mut mem = SparseMemory::new();
    let payload;
    {
        let mut bits = BoolBitset::new(&mut storage);
        payload = setup(&mut bits, &mut mem, &descs, w, &ranges).ok().unwrap();
    }
    let p = &payload.handoff_payload;
    assert_eq!(p.bitset_base.vpn(), 512);
    assert_eq!(p.bitset_base.offset(), 0);
    assert_eq!(p.bitset_size_bytes, 600 * 4096);
    assert_eq!(p.image_base.vpn(), 512 + 600);
    assert_eq!(p.im_image_base.vpn(), 0x1000);
    assert_eq!(p.image_size_bytes, 16 * 4096);
    assert_eq!(p.phys_width, w);
    assert_eq!(payload.stack.vpn(), 0x7FFFFFF);
    assert_eq!(payload.stack.offset(), 0xFF0);
    // the root table took the first free frame
    assert_eq!(payload.cr3, 0);
    let root = payload.cr3 >> 12;

    // the set of frames, not executable
    let nx = 0x8000_0000_0000_0003u64;
    // a page of 2 MiB first, as both ends lie on its boundary
    assert_eq!(walk(&mem, root, w, 512), Some((2, nx | 0x80 | (0x2000 << 12))));
    assert_eq!(walk(&mem, root, w, 1023), Some((2, nx | 0x80 | (0x2000 << 12))));
    assert_eq!(walk(&mem, root, w, 1024), Some((1, nx | (0x2200 << 12))));
    assert_eq!(walk(&mem, root, w, 512 + 599), Some((1, nx | ((0x2000 + 599) << 12))));
    assert_eq!(walk(&mem, root, w, 511), None);
    // the image behind it and at its own addresses, executable
    assert_eq!(walk(&mem, root, w, 512 + 600), Some((1, 0x3 | (0x1000 << 12))));
    assert_eq!(walk(&mem, root, w, 512 + 615), Some((1, 0x3 | (0x100F << 12))));
    assert_eq!(walk(&mem, root, w, 512 + 616), None);
    assert_eq!(walk(&mem, root, w, 0x1000), Some((1, 0x3 | (0x1000 << 12))));
    assert_eq!(walk(&mem, root, w, 0x100F), Some((1, 0x3 | (0x100F << 12))));
    assert_eq!(walk(&mem, root, w, 0x1010), None);
    // the stack: four pages downward, in new frames
    let first = payload.stack_first_frame.pfn();
    assert_eq!(walk(&mem, root, w, 0x7FFFFFF), Some((1, nx | (first << 12))));
    for i in 0..4u64 {
        assert!(matches!(walk(&mem, root, w, 0x7FFFFFF - i), Some((1, _))));
    }
    assert_eq!(walk(&mem, root, w, 0x7FFFFFF - 4), None);
    // memory at the fixed offset, by large pages where they fit
    assert_eq!(walk(&mem, root, w, 0x8000000), Some((2, nx | 0x80)));
    assert_eq!(walk(&mem, root, w, 0x8000000 + 0x7FF), Some((2, nx | 0x80 | (0x600 << 12))));
    assert_eq!(walk(&mem, root, w, 0x8000000 + 0x800), None);
    assert_eq!(walk(&mem, root, w, 0x8040000), Some((3, nx | 0x80 | (0x40000 << 12))));
    assert_eq!(walk(&mem, root, w, 0x807FFFF), Some((3, nx | 0x80 | (0x40000 << 12))));
    assert_eq!(walk(&mem, root, w, 0x8080000), None);
    // the frames of the tables and of the stack are in use
    assert_ne!(storage[0], 0);
    assert_eq!(storage[0] & (storage[0] + 1), 0);
}

#[test]
fn setup_refuses_ranges_that_meet() {
    let w = PhysWidth::new(48);
    // the image lies where the set of frames is mapped
    let descs = [
        desc(MemoryType::EfiLoaderCode, 600, 16),
        desc(MemoryType::EfiLoaderData, 0x2000, 600),
    ];
    let mut storage = [0u64; 4];
    let mut bits = BoolBitset::new(&mut storage);
    let mut mem = SparseMemory::new();
    match setup(&mut bits, &mut mem, &descs, w, &[]) {
        Err(e) => assert_eq!(e.error, Error::NoMapping),
        Ok(_) => panic!(),
    }
}
