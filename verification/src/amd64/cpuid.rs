//! What the processor answers to the `cpuid` instruction.

use vstd::prelude::*;

verus! {

/// The four registers that `cpuid` fills for one leaf.
pub struct CpuidResult {
    pub eax: u32,
    pub ebx: u32,
    pub ecx: u32,
    pub edx: u32,
}

} // verus!
