use mm::amd64::cpuid::CpuidResult;
use mm::amd64::features::PagingFeatures;

fn leaf(eax: u32, ecx: u32, edx: u32) -> CpuidResult {
    CpuidResult { eax, ebx: 0xFFFF_FFFF, ecx, edx }
}

#[test]
fn no_features() {
    let zero = leaf(0, 0, 0);
    let f = PagingFeatures::detect(&zero, &zero, &zero, &zero);
    assert_eq!(f.0, 0);
    assert!(!f.pae() && !f.pat() && !f.pcid() && !f.pku() && !f.cet());
    assert!(!f.la57() && !f.pks() && !f.nx() && !f.page1gb());
    assert_eq!(f.physical_address_width(), 0);
}

#[test]
fn all_features() {
    let ones = leaf(u32::MAX, u32::MAX, u32::MAX);
    let f = PagingFeatures::detect(&ones, &ones, &ones, &ones);
    assert_eq!(f.0, 0x1FFFF);
    assert!(f.pae() && f.pat() && f.pcid() && f.pku() && f.cet());
    assert!(f.la57() && f.pks() && f.nx() && f.page1gb());
    assert_eq!(f.physical_address_width(), 255);
}

#[test]
fn each_feature_has_its_bit() {
    let zero = leaf(0, 0, 0);
    let cases: [(usize, u32, u32, u32); 10] = [
        // leaf, register (1 ecx, 2 edx, 0 eax), bit, word
        (0, 2, 13, 1 << 0),
        (0, 2, 16, 1 << 1),
        (0, 1, 17, 1 << 2),
        (1, 1, 3, 1 << 3),
        (1, 1, 7, 1 << 4),
        (1, 1, 16, 1 << 5),
        (1, 1, 31, 1 << 6),
        (2, 2, 20, 1 << 7),
        (2, 2, 26, 1 << 8),
        (3, 0, 5, 1 << 14),
    ];
    for (which, register, bit, word) in cases {
        let one = match register {
            0 => leaf(1 << bit, 0, 0),
            1 => leaf(0, 1 << bit, 0),
            _ => leaf(0, 0, 1 << bit),
        };
        let leaves = [&zero, &zero, &zero, &zero];
        let mut leaves = leaves;
        leaves[which] = &one;
        let f = PagingFeatures::detect(leaves[0], leaves[1], leaves[2], leaves[3]);
        assert_eq!(f.0, word);
    }
}

#[test]
fn bits_of_other_leaves_do_not_count() {
    let zero = leaf(0, 0, 0);
    // the bits of leaf 1 in leaf 7 and the other way round
    let f = PagingFeatures::detect(
        &leaf(u32::MAX, (1 << 3) | (1 << 7) | (1 << 16) | (1 << 31), (1 << 20) | (1 << 26)),
        &leaf(u32::MAX, 1 << 17, u32::MAX),
        &leaf(u32::MAX, u32::MAX, (1 << 13) | (1 << 16)),
        &zero,
    );
    assert_eq!(f.0, 0);
}

#[test]
fn physical_address_width() {
    let zero = leaf(0, 0, 0);
    let f = PagingFeatures::detect(&zero, &zero, &zero, &leaf(0x3030, 0, 0));
    assert_eq!(f.physical_address_width(), 48);
    assert_eq!(f.0, 48 << 9);
    let f = PagingFeatures::detect(&zero, &zero, &zero, &leaf(0xFFFF_FF34, 0, 0));
    assert_eq!(f.physical_address_width(), 52);
}

#[test]
fn boot_asks_for_three_features() {
    // pae is bit 0, nx bit 7, pages of 1 GiB bit 8
    assert!(PagingFeatures(0b1_1000_0001).boots());
    assert!(PagingFeatures(0x1FFFF).boots());
    assert!(!PagingFeatures(0b1_1000_0000).boots());
    assert!(!PagingFeatures(0b1_0000_0001).boots());
    assert!(!PagingFeatures(0b0_1000_0001).boots());
    assert!(!PagingFeatures(0).boots());
    assert!(!PagingFeatures(0x1FFFF & !0x80).boots());
}
