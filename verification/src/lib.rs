//! Typed virtual-memory mapping for x86_64: address types, page-table entry
//! layouts, frame allocation and a page-table builder, with what the boot
//! path decides around them: the address space of the kernel, the steps of
//! fetching the memory map, processor features and descriptors, and numbers
//! as text for the console.

pub mod common;

pub use common::{PagingLevel, PagingMode, PhysAddr, PhysWidth, VirtAddr, HHDM_OFFSET};
pub mod mmu;
pub mod vmm;
pub mod pmm;
pub mod amd64;
pub mod boot;
pub mod uefi;
pub mod handoff;
pub mod debug;
pub mod mmap;
pub mod decoder;
