use mm::common::{PagingLevel, PhysAddr, PhysWidth};
use mm::mmu::paging::PageTableEntry;
use mm::mmu::view::{DirectoryFlags, EntryView, LeafFlags, PagingAttributesViewer};

enum Flags {
    Directory(DirectoryFlags),
    Leaf(LeafFlags),
}

struct Entry {
    pte: PageTableEntry,
    flags: Option<Flags>,
    address: Option<PhysAddr<()>>,
    level: PagingLevel,
}

fn plain_flags() -> DirectoryFlags {
    DirectoryFlags {
        present: true,
        rw: true,
        us: false,
        pwt: false,
        pcd: false,
        accessed: false,
        restart: false,
        nx: false,
    }
}

fn plain_leaf_flags() -> LeafFlags {
    LeafFlags {
        directory_flags: plain_flags(),
        dirty: false,
        pat: false,
        global: false,
        protection_key: 0,
    }
}

#[test]
fn test_leaf_decode() {
    let phys_width = PhysWidth::new(48);
    let table: [Entry; 5] = [
        Entry { pte: PageTableEntry(0), flags: None, address: None, level: PagingLevel::One },
        Entry {
            // 4k
            pte: PageTableEntry(0x0000_0000_00AB_C003),
            flags: Some(Flags::Leaf(plain_leaf_flags())),
            address: Some(PhysAddr::new(0xABC, 0, phys_width)),
            level: PagingLevel::One,
        },
        Entry {
            // 2m
            pte: PageTableEntry(0x0000_0000_00A0_0083),
            flags: Some(Flags::Leaf(plain_leaf_flags())),
            address: Some(PhysAddr::new(0xA00, 0, phys_width)),
            level: PagingLevel::Two,
        },
        Entry {
            // 1g
            pte: PageTableEntry(0x0000_0000_4000_0083),
            flags: Some(Flags::Leaf(plain_leaf_flags())),
            address: Some(PhysAddr::new(0x40000, 0, phys_width)),
            level: PagingLevel::Three,
        },
        Entry {
            pte: PageTableEntry(0x0000_0000_00AB_C003),
            flags: Some(Flags::Directory(plain_flags())),
            address: Some(PhysAddr::new(0xABC, 0, phys_width)),
            level: PagingLevel::Three,
        },
    ];

    for mut e in table {
        let view_opt = e.pte.view_as_level::<false>(e.level);
        match view_opt {
            Some(v) => match v {
                EntryView::Directory(dir) => {
                    if let Some(Flags::Directory(f)) = e.flags {
                        assert!(
                            e.address == Some(dir.get_pointed_physical_address(phys_width).cast())
                        );
                        assert!(f == dir.get_flags());
                    } else {
                        panic!();
                    }
                }
                EntryView::Leaf(leaf) => {
                    if let Some(Flags::Leaf(l)) = e.flags {
                        assert!(e.address == Some(leaf.get_pointed_physical_address(phys_width)));
                        assert!(l == leaf.get_flags());
                    } else {
                        panic!();
                    }
                }
            },
            None => {
                assert!(e.flags.is_none())
            }
        }
    }
}
