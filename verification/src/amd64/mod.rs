//! What the library knows of the processor: its features, and its
//! descriptor tables for segments and interrupt gates.

pub mod cpuid;
pub mod features;
pub mod gdt;
pub mod idt;
pub mod svm;
