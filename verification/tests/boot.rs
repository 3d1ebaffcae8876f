use mm::boot::{
    build_ram_bitset, punch_bitset_data_and_bios, MemoryDescriptor, MemoryRange, MemoryType,
    RAMChunks,
};
use mm::pmm::bitset::BoolBitset;

fn desc(memory_type: MemoryType, first_frame: u64, pages: u64) -> MemoryDescriptor {
    MemoryDescriptor {
        memory_type,
        physical_start: (first_frame << 12) | 0x123,
        virtual_start: 0,
        number_of_pages: pages,
        attribute: 0,
        reserved: 0,
    }
}

#[test]
fn ram_bitset_marks_free_ranges() {
    let mut storage = [0u64; 2];
    let descs = [
        desc(MemoryType::EfiConventionalMemory, 0, 4),
        desc(MemoryType::EfiLoaderCode, 4, 4),
        desc(MemoryType::EfiBootServicesCode, 8, 1),
        desc(MemoryType::EfiBootServicesData, 63, 2),
        desc(MemoryType::EfiReservedMemoryType, 70, 10),
        desc(MemoryType::EfiLoaderData, 80, 10),
        desc(MemoryType::EfiConventionalMemory, 127, 1),
        desc(MemoryType::EfiConventionalMemory, 100, 0),
    ];
    {
        let bits = build_ram_bitset(&mut storage, &descs);
        assert_eq!(bits.len(), 2);
        assert!(!bits.get(0) && !bits.get(3) && bits.get(4) && bits.get(7));
        assert!(!bits.get(8) && bits.get(9));
        assert!(bits.get(62) && !bits.get(63) && !bits.get(64) && bits.get(65));
        assert!(bits.get(70) && bits.get(85) && bits.get(100));
        assert!(bits.get(126) && !bits.get(127));
    }
    assert_eq!(storage, [!0x8000_0000_0000_010F, !0x8000_0000_0000_0001]);
}

#[test]
fn ram_bitset_without_free_memory() {
    let mut storage = [0u64; 1];
    let descs = [desc(MemoryType::EfiRuntimeServicesData, 0, 64)];
    build_ram_bitset(&mut storage, &descs);
    assert_eq!(storage, [u64::MAX]);
    let mut storage = [0u64; 1];
    build_ram_bitset(&mut storage, &[]);
    assert_eq!(storage, [u64::MAX]);
}

#[test]
fn ram_bitset_overlapping_ranges() {
    let mut storage = [0u64; 1];
    let descs = [
        desc(MemoryType::EfiConventionalMemory, 0, 8),
        desc(MemoryType::EfiUnusableMemory, 4, 8),
        desc(MemoryType::EfiBootServicesData, 6, 4),
    ];
    build_ram_bitset(&mut storage, &descs);
    assert_eq!(storage, [!0x3FF]);
}

#[test]
fn punch_marks_bitset_and_first_megabyte() {
    let mut storage = [0u64; 8];
    {
        let mut bits = BoolBitset::new(&mut storage);
        punch_bitset_data_and_bios(&mut bits, 3, 300);
        assert!(bits.get(0) && bits.get(255) && !bits.get(256));
        assert!(!bits.get(299) && bits.get(300) && bits.get(302) && !bits.get(303));
    }
    assert_eq!(
        storage,
        [u64::MAX, u64::MAX, u64::MAX, u64::MAX, 0b111 << 44, 0, 0, 0]
    );
}

#[test]
fn punch_keeps_bits_that_are_set() {
    let mut storage = [0u64, 0, 0, 0, 1 << 63];
    {
        let mut bits = BoolBitset::new(&mut storage);
        punch_bitset_data_and_bios(&mut bits, 0, 320);
    }
    assert_eq!(storage, [u64::MAX, u64::MAX, u64::MAX, u64::MAX, 1 << 63]);
}

#[test]
fn ranges_are_plain_values() {
    let r = MemoryRange { pfn_start: 5, number_of_pages: 7 };
    let chunks = RAMChunks { chunks: [r; 256], len: 1 };
    assert_eq!(chunks.chunks[0], MemoryRange { pfn_start: 5, number_of_pages: 7 });
    assert_eq!(chunks.len, 1);
}

use mm::boot::{build_hhdm_ram, calculate_bitset_pages, calculate_pfn_count};

#[test]
fn pfn_count_is_highest_end() {
    assert_eq!(calculate_pfn_count(&[]), None);
    let descs = [
        desc(MemoryType::EfiConventionalMemory, 0, 4),
        desc(MemoryType::EfiMemoryMappedIO, 1000, 24),
        desc(MemoryType::EfiLoaderCode, 100, 900),
    ];
    assert_eq!(calculate_pfn_count(&descs), Some(1024));
    assert_eq!(calculate_pfn_count(&descs[..1]), Some(4));
    assert_eq!(calculate_pfn_count(&[desc(MemoryType::EfiLoaderCode, 7, 0)]), Some(7));
}

#[test]
fn bitset_pages_round_up() {
    assert_eq!(calculate_bitset_pages(&[], 3), None);
    // one bit is one byte is one frame
    assert_eq!(calculate_bitset_pages(&[desc(MemoryType::EfiLoaderCode, 0, 1)], 0), Some(1));
    // 32768 bits fill a frame
    assert_eq!(calculate_bitset_pages(&[desc(MemoryType::EfiLoaderCode, 0, 32768)], 0), Some(1));
    assert_eq!(calculate_bitset_pages(&[desc(MemoryType::EfiLoaderCode, 1, 32768)], 0), Some(2));
    assert_eq!(calculate_bitset_pages(&[desc(MemoryType::EfiLoaderCode, 1, 32768)], 5), Some(7));
    // 4 GiB of memory: 2^20 frames, 128 KiB of bits
    assert_eq!(calculate_bitset_pages(&[desc(MemoryType::EfiLoaderCode, 0, 1 << 20)], 0), Some(32));
    // no frame at all
    assert_eq!(calculate_bitset_pages(&[desc(MemoryType::EfiLoaderCode, 0, 0)], 0), Some(0));
}

#[test]
fn chunks_take_256_ranges() {
    let mut chunks = RAMChunks::new();
    assert_eq!(chunks.len, 0);
    for i in 0..256u64 {
        let r = MemoryRange { pfn_start: i, number_of_pages: 1 };
        assert_eq!(chunks.push_to_chunks(r), Some(()));
    }
    assert_eq!(chunks.len, 256);
    assert_eq!(chunks.push_to_chunks(MemoryRange { pfn_start: 999, number_of_pages: 1 }), None);
    assert_eq!(chunks.len, 256);
    assert_eq!(chunks.chunks[255], MemoryRange { pfn_start: 255, number_of_pages: 1 });
    assert_eq!(chunks.chunks[0], MemoryRange { pfn_start: 0, number_of_pages: 1 });
}

fn runs_of(storage: &mut [u64]) -> Vec<(u64, usize)> {
    let bits = BoolBitset::new(storage);
    let mut chunks = RAMChunks::new();
    build_hhdm_ram(&bits, &mut chunks);
    chunks.chunks[..chunks.len].iter().map(|r| (r.pfn_start, r.number_of_pages)).collect()
}

#[test]
fn free_frames_are_gathered_into_runs() {
    // as many frames are looked at as the set has words: 8 here
    let mut storage = [0b1110_0110u64, 0, 0, 0, 0, 0, 0, 0];
    assert_eq!(runs_of(&mut storage), vec![(0, 1), (3, 2)]);
    let mut storage = [0u64; 4];
    assert_eq!(runs_of(&mut storage), vec![(0, 4)]);
    let mut storage = [u64::MAX; 4];
    assert_eq!(runs_of(&mut storage), vec![]);
    let mut storage = [0b0101u64, 0, 0, 0];
    assert_eq!(runs_of(&mut storage), vec![(1, 1), (3, 1)]);
    let mut storage = [0b0111u64, 0, 0, 0];
    assert_eq!(runs_of(&mut storage), vec![(3, 1)]);
    let mut storage: [u64; 0] = [];
    assert_eq!(runs_of(&mut storage), vec![]);
    // frames behind the words' count are not looked at
    let mut storage = [!0b1u64];
    assert_eq!(runs_of(&mut storage), vec![(0, 1)]);
}

#[test]
fn runs_beyond_256_are_left_out() {
    // 0101...: 300 free frames, each a run of its own
    let mut storage = [0x5555_5555_5555_5555u64; 600];
    let runs = runs_of(&mut storage);
    assert_eq!(runs.len(), 256);
    assert_eq!(runs[0], (1, 1));
    assert_eq!(runs[255], (511, 1));
}

#[test]
fn new_chunks_hold_empty_ranges() {
    let chunks = RAMChunks::new();
    assert_eq!(chunks.len, 0);
    for place in chunks.chunks.iter() {
        assert_eq!(*place, MemoryRange { pfn_start: 0, number_of_pages: 0 });
    }
}

#[test]
fn memory_kinds_have_the_numbers_of_the_firmware() {
    assert_eq!(MemoryType::EfiReservedMemoryType.number(), 0);
    assert_eq!(MemoryType::EfiLoaderCode.number(), 1);
    assert_eq!(MemoryType::EfiLoaderData.number(), 2);
    assert_eq!(MemoryType::EfiConventionalMemory.number(), 7);
    assert_eq!(MemoryType::EfiPersistentMemory.number(), 14);
    assert_eq!(MemoryType::EfiMaxMemoryType.number(), 16);
    for number in 0..=16u32 {
        assert_eq!(MemoryType::of_number(number).number(), number);
    }
    assert_eq!(MemoryType::of_number(17), MemoryType::EfiMaxMemoryType);
    assert_eq!(MemoryType::of_number(u32::MAX), MemoryType::EfiMaxMemoryType);
}
