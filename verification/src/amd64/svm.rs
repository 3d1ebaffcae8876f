//! Whether the processor can run virtual machines, as far as the answers
//! of the processor decide it.

use super::cpuid::CpuidResult;
use vstd::prelude::*;

verus! {

/// What is to be done after the processor was asked for its extended
/// features.
#[derive(Debug, Copy, Clone, PartialEq, Eq, Structural)]
pub enum SvmProbe {
    /// The processor has no virtual machine extensions.
    Unavailable,
    /// The processor has them; whether the firmware has locked them off is
    /// in the control register of the virtual machine extensions.
    ReadVmCr,
}

/// The step after leaf 0x80000001 of `cpuid`: bit 2 of `ecx` says whether
/// the processor has the extensions.
pub fn svm_after_cpuid(extended: &CpuidResult) -> (next: SvmProbe)
    ensures
        next == if extended.ecx & 0b100 == 0 {
            SvmProbe::Unavailable
        } else {
            SvmProbe::ReadVmCr
        },
{
    if extended.ecx & 0b100 == 0 {
        SvmProbe::Unavailable
    } else {
        SvmProbe::ReadVmCr
    }
}

/// The step after the low half of the control register was read: the
/// extensions can be used where its bit 12 is clear.
pub fn svm_after_vm_cr(msr_low: u32) -> (available: bool)
    ensures
        available == (msr_low & 0x1000 != 0x1000),
{
    msr_low & 0x1000 != 0x1000
}

} // verus!
