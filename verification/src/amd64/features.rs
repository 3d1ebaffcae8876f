//! The features of the processor that paging depends on, gathered into one
//! word.

use super::cpuid::CpuidResult;
use vstd::prelude::*;

verus! {

/// Whether bit `bit` of `word` is set.
pub open spec fn bit_set(word: u32, bit: u32) -> bool {
    (word >> bit) & 1 == 1
}

/// The features of paging: bit 0 physical address extension, bit 1
/// page-attribute table, bit 2 process-context identifiers, bit 3 protection
/// keys for user pages, bit 4 control-flow enforcement, bit 5 five-level
/// paging, bit 6 protection keys for supervisor pages, bit 7 no-execute,
/// bit 8 pages of 1 GiB, and in bits 9 to 16 the width of a physical
/// address.
pub struct PagingFeatures(pub u32);

/// The word of features that the four leaves of `cpuid` give.
pub open spec fn features_of(
    basic: CpuidResult,
    structured: CpuidResult,
    extended: CpuidResult,
    sizes: CpuidResult,
) -> u32 {
    ((basic.edx >> 13) & 1) | ((basic.edx >> 15) & 2) | ((basic.ecx >> 15) & 4) | (structured.ecx
        & 8) | ((structured.ecx >> 3) & 16) | ((structured.ecx >> 11) & 32) | ((structured.ecx
        >> 25) & 64) | ((extended.edx >> 13) & 128) | ((extended.edx >> 18) & 256) | ((sizes.eax
        << 9) & (0xFFu32 << 9))
}

proof fn lemma_features(
    basic_ecx: u32,
    basic_edx: u32,
    structured_ecx: u32,
    extended_edx: u32,
    sizes_eax: u32,
)
    by (bit_vector)
    ensures
        ({
            let word = ((basic_edx >> 13) & 1) | ((basic_edx >> 15) & 2) | ((basic_ecx >> 15) & 4)
                | (structured_ecx & 8) | ((structured_ecx >> 3) & 16) | ((structured_ecx >> 11)
                & 32) | ((structured_ecx >> 25) & 64) | ((extended_edx >> 13) & 128) | ((
            extended_edx >> 18) & 256) | ((sizes_eax << 9) & (0xFFu32 << 9));
            &&& bit_set(word, 0) == bit_set(basic_edx, 13)
            &&& bit_set(word, 1) == bit_set(basic_edx, 16)
            &&& bit_set(word, 2) == bit_set(basic_ecx, 17)
            &&& bit_set(word, 3) == bit_set(structured_ecx, 3)
            &&& bit_set(word, 4) == bit_set(structured_ecx, 7)
            &&& bit_set(word, 5) == bit_set(structured_ecx, 16)
            &&& bit_set(word, 6) == bit_set(structured_ecx, 31)
            &&& bit_set(word, 7) == bit_set(extended_edx, 20)
            &&& bit_set(word, 8) == bit_set(extended_edx, 26)
            &&& (word >> 9) & 0xFF == sizes_eax & 0xFF
        }),
{
}

impl PagingFeatures {
    fn flag(&self, bit: u32) -> (set: bool)
        requires
            bit < 32,
        ensures
            set == bit_set(self.0, bit),
    {
        (self.0 >> bit) & 1 == 1
    }

    /// The features that the processor reports in four leaves of `cpuid`:
    /// `basic` is leaf 1, `structured` leaf 7 with subleaf 0, `extended`
    /// leaf 0x80000001 and `sizes` leaf 0x80000008.
    pub fn detect(
        basic: &CpuidResult,
        structured: &CpuidResult,
        extended: &CpuidResult,
        sizes: &CpuidResult,
    ) -> (features: PagingFeatures)
        ensures
            features.0 == features_of(*basic, *structured, *extended, *sizes),
            features.spec_pae() == bit_set(basic.edx, 13),
            features.spec_pat() == bit_set(basic.edx, 16),
            features.spec_pcid() == bit_set(basic.ecx, 17),
            features.spec_pku() == bit_set(structured.ecx, 3),
            features.spec_cet() == bit_set(structured.ecx, 7),
            features.spec_la57() == bit_set(structured.ecx, 16),
            features.spec_pks() == bit_set(structured.ecx, 31),
            features.spec_nx() == bit_set(extended.edx, 20),
            features.spec_page1gb() == bit_set(extended.edx, 26),
            features.spec_physical_address_width() == sizes.eax & 0xFF,
    {
        proof {
            lemma_features(basic.ecx, basic.edx, structured.ecx, extended.edx, sizes.eax);
        }
        let basic_ecx: u32 = basic.ecx;
        let basic_edx: u32 = basic.edx;
        let structured_ecx: u32 = structured.ecx;
        let extended_edx: u32 = extended.edx;
        let sizes_eax: u32 = sizes.eax;
        let mut word: u32 = 0;
        word = word | ((basic_edx >> 13) & 1);
        word = word | ((basic_edx >> 15) & 2);
        word = word | ((basic_ecx >> 15) & 4);
        word = word | (structured_ecx & 8);
        word = word | ((structured_ecx >> 3) & 16);
        word = word | ((structured_ecx >> 11) & 32);
        word = word | ((structured_ecx >> 25) & 64);
        word = word | ((extended_edx >> 13) & 128);
        word = word | ((extended_edx >> 18) & 256);
        word = word | ((sizes_eax << 9) & (0xFFu32 << 9));
        assert(word == ((basic_edx >> 13) & 1) | ((basic_edx >> 15) & 2) | ((basic_ecx >> 15) & 4)
            | (structured_ecx & 8) | ((structured_ecx >> 3) & 16) | ((structured_ecx >> 11) & 32)
            | ((structured_ecx >> 25) & 64) | ((extended_edx >> 13) & 128) | ((extended_edx >> 18)
            & 256) | ((sizes_eax << 9) & (0xFFu32 << 9))) by (bit_vector)
            requires
                word == 0u32 | ((basic_edx >> 13) & 1) | ((basic_edx >> 15) & 2) | ((basic_ecx
                    >> 15) & 4) | (structured_ecx & 8) | ((structured_ecx >> 3) & 16) | ((
                structured_ecx >> 11) & 32) | ((structured_ecx >> 25) & 64) | ((extended_edx >> 13)
                    & 128) | ((extended_edx >> 18) & 256) | ((sizes_eax << 9) & (0xFFu32 << 9)),
        ;
        let paging = PagingFeatures(word);
        paging
    }

    /// Physical address extension.
    pub open spec fn spec_pae(&self) -> bool {
        bit_set(self.0, 0)
    }

    /// The page-attribute table.
    pub open spec fn spec_pat(&self) -> bool {
        bit_set(self.0, 1)
    }

    /// Process-context identifiers.
    pub open spec fn spec_pcid(&self) -> bool {
        bit_set(self.0, 2)
    }

    /// Protection keys for user pages.
    pub open spec fn spec_pku(&self) -> bool {
        bit_set(self.0, 3)
    }

    /// Control-flow enforcement.
    pub open spec fn spec_cet(&self) -> bool {
        bit_set(self.0, 4)
    }

    /// Five-level paging.
    pub open spec fn spec_la57(&self) -> bool {
        bit_set(self.0, 5)
    }

    /// Protection keys for supervisor pages.
    pub open spec fn spec_pks(&self) -> bool {
        bit_set(self.0, 6)
    }

    /// Pages that cannot be executed.
    pub open spec fn spec_nx(&self) -> bool {
        bit_set(self.0, 7)
    }

    /// Pages of 1 GiB.
    pub open spec fn spec_page1gb(&self) -> bool {
        bit_set(self.0, 8)
    }

    /// The number of bits of a physical address.
    pub open spec fn spec_physical_address_width(&self) -> u32 {
        (self.0 >> 9) & 0xFF
    }

    /// Physical address extension.
    #[verifier::when_used_as_spec(spec_pae)]
    pub fn pae(&self) -> (set: bool)
        ensures
            set == self.spec_pae(),
    {
        self.flag(0)
    }

    /// The page-attribute table.
    #[verifier::when_used_as_spec(spec_pat)]
    pub fn pat(&self) -> (set: bool)
        ensures
            set == self.spec_pat(),
    {
        self.flag(1)
    }

    /// Process-context identifiers.
    #[verifier::when_used_as_spec(spec_pcid)]
    pub fn pcid(&self) -> (set: bool)
        ensures
            set == self.spec_pcid(),
    {
        self.flag(2)
    }

    /// Protection keys for user pages.
    #[verifier::when_used_as_spec(spec_pku)]
    pub fn pku(&self) -> (set: bool)
        ensures
            set == self.spec_pku(),
    {
        self.flag(3)
    }

    /// Control-flow enforcement.
    #[verifier::when_used_as_spec(spec_cet)]
    pub fn cet(&self) -> (set: bool)
        ensures
            set == self.spec_cet(),
    {
        self.flag(4)
    }

    /// Five-level paging.
    #[verifier::when_used_as_spec(spec_la57)]
    pub fn la57(&self) -> (set: bool)
        ensures
            set == self.spec_la57(),
    {
        self.flag(5)
    }

    /// Protection keys for supervisor pages.
    #[verifier::when_used_as_spec(spec_pks)]
    pub fn pks(&self) -> (set: bool)
        ensures
            set == self.spec_pks(),
    {
        self.flag(6)
    }

    /// Pages that cannot be executed.
    #[verifier::when_used_as_spec(spec_nx)]
    pub fn nx(&self) -> (set: bool)
        ensures
            set == self.spec_nx(),
    {
        self.flag(7)
    }

    /// Pages of 1 GiB.
    #[verifier::when_used_as_spec(spec_page1gb)]
    pub fn page1gb(&self) -> (set: bool)
        ensures
            set == self.spec_page1gb(),
    {
        self.flag(8)
    }

    /// Whether the processor has what the boot path asks for: the physical
    /// address extension, pages that cannot be executed, and pages of
    /// 1 GiB.
    pub fn boots(&self) -> (able: bool)
        ensures
            able == (self.spec_pae() && self.spec_nx() && self.spec_page1gb()),
    {
        self.pae() && self.nx() && self.page1gb()
    }

    /// The number of bits of a physical address.
    #[verifier::when_used_as_spec(spec_physical_address_width)]
    pub fn physical_address_width(&self) -> (width: u32)
        ensures
            width == self.spec_physical_address_width(),
    {
        (self.0 >> 9) & 0xFF
    }
}

} // verus!
