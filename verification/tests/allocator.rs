use mm::common::{PhysAddr, PhysWidth};
use mm::pmm::bitset::BoolBitset;
use mm::pmm::{BumpBitsetAllocator, FrameAllocator};

#[test]
fn bitset_set_clear_get() {
    let mut storage = [0u64; 2];
    {
        let mut bits = BoolBitset::new(&mut storage);
        assert_eq!(bits.len(), 2);
        assert!(!bits.get(0));
        bits.set_at(0);
        bits.set_at(63);
        bits.set_at(64);
        bits.set_at(127);
        assert!(bits.get(0) && bits.get(63) && bits.get(64) && bits.get(127));
        assert!(!bits.get(1) && !bits.get(62) && !bits.get(65));
        bits.clear_at(63);
        assert!(!bits.get(63));
        bits.clear_at(5);
        assert!(!bits.get(5));
        bits.set_at(0);
        assert!(bits.get(0));
    }
    assert_eq!(storage, [1, 1 | (1 << 63)]);
}

#[test]
fn bitset_assign() {
    let mut storage = [0xF0u64];
    {
        let mut bits = BoolBitset::new(&mut storage);
        bits.assign_at(0, true);
        bits.assign_at(4, false);
        bits.assign_at(5, true);
        bits.assign_at(1, false);
        assert!(bits.get(0) && !bits.get(4) && bits.get(5) && !bits.get(1));
    }
    assert_eq!(storage, [0xE1]);
}

#[test]
fn allocator_hands_out_in_order() {
    let w = PhysWidth::new(36);
    let mut storage = [0b1011u64];
    let mut bits = BoolBitset::new(&mut storage);
    let mut fa = BumpBitsetAllocator::new(&mut bits);
    let a: PhysAddr<()> = fa.allocate_frame(w).unwrap();
    assert_eq!(a.pfn(), 2);
    assert_eq!(a.offset(), 0);
    assert_eq!(a.width(), w);
    let b: PhysAddr<()> = fa.allocate_frame(w).unwrap();
    assert_eq!(b.pfn(), 4);
    let c: PhysAddr<()> = fa.allocate_frame(w).unwrap();
    assert_eq!(c.pfn(), 5);
}

#[test]
fn allocator_exhaustion() {
    let w = PhysWidth::new(36);
    let mut storage = [u64::MAX; 3];
    let mut bits = BoolBitset::new(&mut storage);
    let mut fa = BumpBitsetAllocator::new(&mut bits);
    assert!(fa.allocate_frame::<()>(w).is_none());
    assert!(fa.allocate_frame::<()>(w).is_none());
}

#[test]
fn allocator_without_frames() {
    let w = PhysWidth::new(36);
    let mut storage: [u64; 0] = [];
    let mut bits = BoolBitset::new(&mut storage);
    let mut fa = BumpBitsetAllocator::new(&mut bits);
    assert!(fa.allocate_frame::<()>(w).is_none());
}

#[test]
fn allocator_uses_last_frame_then_fails() {
    let w = PhysWidth::new(36);
    let mut storage = [u64::MAX, u64::MAX >> 1];
    let mut bits = BoolBitset::new(&mut storage);
    let mut fa = BumpBitsetAllocator::new(&mut bits);
    assert_eq!(fa.allocate_frame::<()>(w).unwrap().pfn(), 127);
    assert!(fa.allocate_frame::<()>(w).is_none());
}

#[test]
fn allocator_wraps_around() {
    let w = PhysWidth::new(36);
    let mut storage = [0u64];
    let mut bits = BoolBitset::new(&mut storage);
    let mut fa = BumpBitsetAllocator::new(&mut bits);
    for expected in 0..64u64 {
        assert_eq!(fa.allocate_frame::<()>(w).unwrap().pfn(), expected);
    }
    assert!(fa.allocate_frame::<()>(w).is_none());
    // the cursor stands at 0 again; frame 60 is the only free one
    fa.deallocate_frame(PhysAddr::<()>::new(60, 0, w));
    assert_eq!(fa.allocate_frame::<()>(w).unwrap().pfn(), 60);
    // the cursor stands at 61; frame 3 is met after the wrap
    fa.deallocate_frame(PhysAddr::<()>::new(61, 0, w));
    assert_eq!(fa.allocate_frame::<()>(w).unwrap().pfn(), 61);
    fa.deallocate_frame(PhysAddr::<()>::new(62, 0, w));
    fa.deallocate_frame(PhysAddr::<()>::new(63, 0, w));
    assert_eq!(fa.allocate_frame::<()>(w).unwrap().pfn(), 62);
}

#[test]
fn allocator_reuses_freed_frame() {
    let w = PhysWidth::new(36);
    let mut storage = [0u64; 2];
    let mut bits = BoolBitset::new(&mut storage);
    let mut fa = BumpBitsetAllocator::new(&mut bits);
    let mut fifth = None;
    for i in 0..10u64 {
        let f: PhysAddr<()> = fa.allocate_frame(w).unwrap();
        assert_eq!(f.pfn(), i);
        if i == 5 {
            fifth = Some(f);
        }
    }
    // the cursor stands at 10, past frame 5
    fa.deallocate_frame(fifth.unwrap());
    assert_eq!(fa.allocate_frame::<()>(w).unwrap().pfn(), 5);
    assert_eq!(fa.allocate_frame::<()>(w).unwrap().pfn(), 10);
}

#[test]
fn allocator_keeps_cursor_when_later_frame_is_freed() {
    let w = PhysWidth::new(36);
    let mut storage = [0u64];
    let mut bits = BoolBitset::new(&mut storage);
    let mut fa = BumpBitsetAllocator::new(&mut bits);
    for _ in 0..4 {
        fa.allocate_frame::<()>(w).unwrap();
    }
    fa.deallocate_frame(PhysAddr::<()>::new(1, 0, w));
    // cursor at 1 now
    fa.deallocate_frame(PhysAddr::<()>::new(3, 0, w));
    assert_eq!(fa.allocate_frame::<()>(w).unwrap().pfn(), 1);
    assert_eq!(fa.allocate_frame::<()>(w).unwrap().pfn(), 3);
    assert_eq!(fa.allocate_frame::<()>(w).unwrap().pfn(), 4);
}

#[test]
fn allocator_marks_bits() {
    let w = PhysWidth::new(36);
    let mut storage = [0u64];
    {
        let mut bits = BoolBitset::new(&mut storage);
        let mut fa = BumpBitsetAllocator::new(&mut bits);
        fa.allocate_frame::<()>(w).unwrap();
        fa.allocate_frame::<()>(w).unwrap();
        fa.allocate_frame::<()>(w).unwrap();
        fa.deallocate_frame(PhysAddr::<()>::new(1, 0, w));
    }
    assert_eq!(storage, [0b101]);
}
