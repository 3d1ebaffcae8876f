use mm::decoder::DescriptorEntry;

#[test]
fn entries_hold_tag_and_number() {
    assert_eq!(DescriptorEntry::new_lookup(5).0, 0xC005);
    assert_eq!(DescriptorEntry::new_branch(5).0, 0x4005);
    assert_eq!(DescriptorEntry::new_leaf(5).0, 0x8005);
    assert_eq!(DescriptorEntry::new_leaf(0x3FFF).0, 0xBFFF);
    assert_eq!(DescriptorEntry::new_branch(0).0, 0x4000);
}

#[test]
fn entries_unpack() {
    assert_eq!(DescriptorEntry::new_lookup(0x1234).unpack(), (DescriptorEntry::LOOKUP, 0x1234));
    assert_eq!(DescriptorEntry::new_branch(0x3FFF).unpack(), (DescriptorEntry::BRANCH, 0x3FFF));
    assert_eq!(DescriptorEntry::new_leaf(0).unpack(), (DescriptorEntry::LEAF, 0));
    assert_eq!(DescriptorEntry(0).unpack(), (DescriptorEntry::NOT_PRESENT, 0));
    assert_eq!(DescriptorEntry(0xFFFF).unpack(), (3, 0x3FFF));
}

#[test]
fn tags_stand_in_the_two_highest_bits() {
    assert_eq!(DescriptorEntry::TAG_NOT_PRESENT, DescriptorEntry::NOT_PRESENT << 14);
    assert_eq!(DescriptorEntry::TAG_BRANCH, DescriptorEntry::BRANCH << 14);
    assert_eq!(DescriptorEntry::TAG_LEAF, DescriptorEntry::LEAF << 14);
    assert_eq!(DescriptorEntry::TAG_LOOKUP, DescriptorEntry::LOOKUP << 14);
    assert_eq!(DescriptorEntry::MASK_DATA, 0x3FFF);
}
