//! Physical and virtual address types.

use core::marker::PhantomData;
use vstd::prelude::*;

verus! {

/// Offset, in pages, of the direct map of physical memory in the virtual
/// address space.
pub const HHDM_OFFSET: u64 = 0x8000000;

/// The mask that keeps the low `n` bits of a word (`n` at most 63).
pub open spec fn low_mask(n: int) -> u64 {
    ((1u64 << (n as u64)) - 1) as u64
}

/// `x` sign-extended from bit `bits - 1`: the bits from `bits` upward are
/// copies of that bit.
pub open spec fn sign_extend(x: u64, bits: int) -> u64 {
    if x & (1u64 << ((bits - 1) as u64)) != 0 {
        x | !low_mask(bits)
    } else {
        x & low_mask(bits)
    }
}

proof fn lemma_low_mask(n: u64)
    by (bit_vector)
    requires
        n < 64,
    ensures
        (1u64 << n) >= 1,
        (1u64 << n) <= 0x8000_0000_0000_0000u64,
        n <= 40 ==> (1u64 << n) <= 0x100_0000_0000u64,
{
}

proof fn lemma_offset_mask(offset: u16)
    by (bit_vector)
    ensures
        offset & 0xFFF < 4096,
        offset < 4096 ==> offset & 0xFFF == offset,
{
}

proof fn lemma_mask_bounds(x: u64, n: u64)
    by (bit_vector)
    requires
        n < 64,
    ensures
        (x & (((1u64 << n) - 1) as u64)) < (1u64 << n),
        x < (1u64 << n) ==> (x & (((1u64 << n) - 1) as u64)) == x,
{
}

/// The number of physical address bits that the processor implements.
#[derive(Debug, Copy, Clone, PartialEq, Eq, Structural)]
pub struct PhysWidth(u8);

impl PhysWidth {
    /// The width in bits.
    pub closed spec fn bits(self) -> int {
        self.0 as int
    }

    /// Every width lies between 36 and 52 bits.
    #[verifier::type_invariant]
    pub open spec fn wf(self) -> bool {
        36 <= self.bits() <= 52
    }

    /// The number of frames that the width can address.
    pub open spec fn frames(self) -> int {
        (1u64 << ((self.bits() - 12) as u64)) as int
    }

    /// Whether the width can address frame `pfn`.
    pub open spec fn spec_is_pfn_valid(&self, pfn: u64) -> bool {
        pfn < self.frames()
    }

    /// The mask that keeps the bits of a frame number that the width can
    /// address.
    pub open spec fn spec_solely_pfn_mask(&self) -> u64 {
        low_mask(self.bits() - 12)
    }

    /// The width of `width` bits, which must lie between 36 and 52.
    pub fn new(width: u8) -> (w: Self)
        requires
            36 <= width <= 52,
        ensures
            w.wf(),
            w.bits() == width,
    {
        PhysWidth(width)
    }

    /// `new` for a width that was not checked yet: `None` outside 36..=52.
    pub fn try_new(width: u8) -> (w: Option<Self>)
        ensures
            w is Some <==> 36 <= width <= 52,
            w matches Some(p) ==> p.wf() && p.bits() == width,
    {
        if 36 <= width && width <= 52 {
            Some(PhysWidth::new(width))
        } else {
            None
        }
    }

    /// The width in bits.
    pub fn get(&self) -> (b: u8)
        ensures
            b == self.bits(),
            36 <= b <= 52,
    {
        proof {
            use_type_invariant(self);
        }
        self.0
    }

    /// Whether the width can address frame `pfn`: it is less than 2^(width - 12).
    #[verifier::when_used_as_spec(spec_is_pfn_valid)]
    pub fn is_pfn_valid(&self, pfn: u64) -> (valid: bool)
        ensures
            valid == self.spec_is_pfn_valid(pfn),
    {
        proof {
            use_type_invariant(self);
        }
        pfn < (1u64 << (self.0 - 12))
    }

    /// The mask that keeps the bits of a frame number that the width can
    /// address: 2^(width - 12) - 1.
    #[verifier::when_used_as_spec(spec_solely_pfn_mask)]
    pub fn solely_pfn_mask(&self) -> (mask: u64)
        ensures
            mask == self.spec_solely_pfn_mask(),
    {
        proof {
            use_type_invariant(self);
            lemma_low_mask((self.0 - 12) as u64);
        }
        (1u64 << (self.0 - 12)) - 1
    }

    /// No width addresses more than 2^40 frames.
    pub proof fn lemma_frames_bound(self)
        requires
            self.wf(),
        ensures
            0 < self.frames() <= 0x100_0000_0000,
    {
        lemma_low_mask((self.bits() - 12) as u64);
    }

    /// A frame number cut down by the mask is always valid.
    pub proof fn lemma_masked_pfn_valid(self, pfn: u64)
        requires
            self.wf(),
        ensures
            self.spec_is_pfn_valid(pfn & self.spec_solely_pfn_mask()),
            self.spec_is_pfn_valid(pfn) ==> pfn & self.spec_solely_pfn_mask() == pfn,
    {
        lemma_mask_bounds(pfn, (self.bits() - 12) as u64);
    }
}

/// A level of the paging hierarchy; level one holds the 4 KiB leaves.
#[derive(Debug, Copy, Clone, PartialEq, Eq, Structural)]
pub enum PagingLevel {
    One,
    Two,
    Three,
    Four,
    Five,
}

impl PagingLevel {
    /// The level as a number from 1 to 5.
    pub open spec fn spec_number(self) -> u8 {
        match self {
            PagingLevel::One => 1,
            PagingLevel::Two => 2,
            PagingLevel::Three => 3,
            PagingLevel::Four => 4,
            PagingLevel::Five => 5,
        }
    }

    /// The level as a number from 1 to 5.
    #[verifier::when_used_as_spec(spec_number)]
    pub fn number(self) -> (n: u8)
        ensures
            n == self.spec_number(),
    {
        match self {
            PagingLevel::One => 1,
            PagingLevel::Two => 2,
            PagingLevel::Three => 3,
            PagingLevel::Four => 4,
            PagingLevel::Five => 5,
        }
    }
}

/// The translation mode: how many bits of a linear address are significant.
#[derive(Debug, Copy, Clone, PartialEq, Eq, Structural)]
pub enum PagingMode {
    FourLevel,
    FiveLevel,
}

impl PagingMode {
    /// The number of significant linear-address bits: 48 or 57.
    pub open spec fn spec_bits(self) -> u8 {
        match self {
            PagingMode::FourLevel => 48,
            PagingMode::FiveLevel => 57,
        }
    }

    /// The number of significant linear-address bits: 48 or 57.
    #[verifier::when_used_as_spec(spec_bits)]
    pub fn bits(self) -> (n: u8)
        ensures
            n == self.spec_bits(),
    {
        match self {
            PagingMode::FourLevel => 48,
            PagingMode::FiveLevel => 57,
        }
    }

    /// The mode that a `FIVE` parameter of [`VirtAddr`] stands for.
    pub open spec fn spec_of(five_level: bool) -> PagingMode {
        if five_level {
            PagingMode::FiveLevel
        } else {
            PagingMode::FourLevel
        }
    }

    /// The mode that a `FIVE` parameter of [`VirtAddr`] stands for.
    #[verifier::when_used_as_spec(spec_of)]
    pub fn of(five_level: bool) -> (m: PagingMode)
        ensures
            m == Self::spec_of(five_level),
    {
        if five_level {
            PagingMode::FiveLevel
        } else {
            PagingMode::FourLevel
        }
    }

    /// Whether the mode has a table at `level`.
    pub open spec fn has_level(self, level: PagingLevel) -> bool {
        level is Five ==> self is FiveLevel
    }
}

/// A physical address: a frame number, an offset into the frame, and the
/// width it was made for. `T` says what the frame holds.
#[derive(Debug, PartialEq, Eq)]
pub struct PhysAddr<T> {
    pfn: u64,
    offset: u16,
    width: PhysWidth,
    phantom: PhantomData<T>,
}

impl<T> Clone for PhysAddr<T> {
    fn clone(&self) -> (c: Self)
        ensures
            c == *self,
    {
        Self { pfn: self.pfn, offset: self.offset, width: self.width, phantom: PhantomData }
    }
}

impl<T> PhysAddr<T> {
    /// The frame number.
    pub closed spec fn spec_pfn(&self) -> u64 {
        self.pfn
    }

    /// The offset into the frame.
    pub closed spec fn spec_offset(&self) -> u16 {
        self.offset
    }

    /// The width that the address was made for.
    pub closed spec fn spec_width(&self) -> PhysWidth {
        self.width
    }

    /// The frame number is representable at the width, and the offset lies
    /// within the frame.
    pub open spec fn wf(&self) -> bool {
        &&& self.spec_width().wf()
        &&& self.spec_width().spec_is_pfn_valid(self.spec_pfn())
        &&& self.spec_offset() < 4096
    }

    /// The address as one number: the frame number above the 12 bits of the
    /// offset.
    pub open spec fn spec_as_address(&self) -> u64 {
        (self.spec_pfn() << 12) | (self.spec_offset() as u64)
    }

    /// The address in frame `pfn`, which the width must be able to address.
    /// Of the offset the low 12 bits are kept.
    pub fn new(pfn: u64, offset: u16, width: PhysWidth) -> (a: Self)
        requires
            width.spec_is_pfn_valid(pfn),
        ensures
            a.wf(),
            a.spec_pfn() == pfn,
            a.spec_offset() == offset & 0xFFF,
            offset < 4096 ==> a.spec_offset() == offset,
            a.spec_width() == width,
    {
        proof {
            use_type_invariant(width);
            lemma_offset_mask(offset);
        }
        let offset: u16 = offset & 0xFFF;
        Self { pfn, offset, width, phantom: PhantomData }
    }

    /// `new` for a frame number that was not checked yet: `None` where the
    /// width cannot represent it.
    pub fn try_new(pfn: u64, offset: u16, width: PhysWidth) -> (a: Option<Self>)
        ensures
            a is Some <==> width.spec_is_pfn_valid(pfn),
            a matches Some(p) ==> p.wf() && p.spec_pfn() == pfn && p.spec_offset() == offset & 0xFFF
                && p.spec_width() == width && (offset < 4096 ==> p.spec_offset() == offset),
    {
        if width.is_pfn_valid(pfn) {
            Some(Self::new(pfn, offset, width))
        } else {
            None
        }
    }

    /// The same address, for a frame with another use.
    pub fn cast<U>(self) -> (a: PhysAddr<U>)
        ensures
            a.spec_pfn() == self.spec_pfn(),
            a.spec_offset() == self.spec_offset(),
            a.spec_width() == self.spec_width(),
    {
        PhysAddr { pfn: self.pfn, offset: self.offset, width: self.width, phantom: PhantomData }
    }

    /// The frame number.
    #[verifier::when_used_as_spec(spec_pfn)]
    pub fn pfn(&self) -> (pfn: u64)
        ensures
            pfn == self.spec_pfn(),
    {
        self.pfn
    }

    /// Replaces the frame number, whatever the width can address.
    pub fn set_pfn(&mut self, pfn: u64)
        ensures
            final(self).spec_pfn() == pfn,
            final(self).spec_offset() == old(self).spec_offset(),
            final(self).spec_width() == old(self).spec_width(),
    {
        self.pfn = pfn;
    }

    /// The offset into the frame.
    #[verifier::when_used_as_spec(spec_offset)]
    pub fn offset(&self) -> (offset: u16)
        ensures
            offset == self.spec_offset(),
    {
        self.offset
    }

    /// The width that the address was made for.
    #[verifier::when_used_as_spec(spec_width)]
    pub fn width(&self) -> (width: PhysWidth)
        ensures
            width == self.spec_width(),
    {
        self.width
    }

    /// The address as one number: the frame number above the 12 bits of the
    /// offset.
    #[verifier::when_used_as_spec(spec_as_address)]
    pub fn as_address(&self) -> (address: u64)
        ensures
            address == self.spec_as_address(),
    {
        (self.pfn << 12) | (self.offset as u64)
    }

    /// The virtual address of this frame where all of physical memory is
    /// mapped at its own addresses.
    pub fn as_im_virt<const FIVE: bool>(self) -> (va: VirtAddr<FIVE, T>)
        ensures
            va.spec_vpn() == self.spec_pfn() & VirtAddr::<FIVE, T>::vpn_mask(),
            va.spec_offset() == self.spec_offset() & 0xFFF,
    {
        VirtAddr::<FIVE, T>::new(self.pfn, self.offset)
    }

    /// The virtual address of this frame in the direct map, which starts
    /// `HHDM_OFFSET` pages into the address space.
    pub fn as_hhdm_virt<const FIVE: bool>(self) -> (va: VirtAddr<FIVE, T>)
        requires
            HHDM_OFFSET + self.spec_pfn() <= u64::MAX,
        ensures
            va.spec_vpn() == ((HHDM_OFFSET + self.spec_pfn()) as u64) & VirtAddr::<FIVE, T>::vpn_mask(),
            va.spec_offset() == self.spec_offset() & 0xFFF,
    {
        VirtAddr::<FIVE, T>::new(HHDM_OFFSET + self.pfn, self.offset)
    }
}

/// A virtual address: a page number and an offset into the page. `FIVE`
/// chooses five-level paging (57 significant bits) over four-level paging
/// (48 bits); `T` says what the address points to.
#[derive(Debug, PartialEq, Eq)]
pub struct VirtAddr<const FIVE: bool, T> {
    vpn: u64,
    offset: u16,
    phantom: PhantomData<T>,
}

impl<const FIVE: bool, T> Clone for VirtAddr<FIVE, T> {
    fn clone(&self) -> (c: Self)
        ensures
            c == *self,
    {
        Self { vpn: self.vpn, offset: self.offset, phantom: PhantomData }
    }
}

impl<const FIVE: bool, T> VirtAddr<FIVE, T> {
    /// The translation mode of this address type.
    pub open spec fn mode() -> PagingMode {
        PagingMode::spec_of(FIVE)
    }

    /// The mask that keeps the page-number bits that the mode translates.
    pub open spec fn vpn_mask() -> u64 {
        low_mask(Self::mode().spec_bits() - 12)
    }

    /// The page number.
    pub closed spec fn spec_vpn(&self) -> u64 {
        self.vpn
    }

    /// The offset into the page.
    pub closed spec fn spec_offset(&self) -> u16 {
        self.offset
    }

    /// The page number has no bits beyond those the mode translates, and
    /// the offset lies within the page.
    pub open spec fn wf(&self) -> bool {
        &&& self.spec_vpn() & Self::vpn_mask() == self.spec_vpn()
        &&& self.spec_offset() < 4096
    }

    /// The linear address, sign-extended from the highest bit that the mode
    /// translates.
    pub open spec fn spec_as_canonical_address(&self) -> u64 {
        sign_extend(
            (self.spec_vpn() << 12) | (self.spec_offset() as u64),
            Self::mode().spec_bits() as int,
        )
    }

    /// The nine bits of the page number that index the table of `level`.
    pub open spec fn spec_level_index(&self, level: PagingLevel) -> usize {
        ((self.spec_vpn() >> (((level.spec_number() - 1) * 9) as u64)) & 0x1FF) as usize
    }

    /// The address in page `vpn`. Of the page number the bits that the mode
    /// translates are kept, of the offset the low 12 bits.
    pub fn new(vpn: u64, offset: u16) -> (va: Self)
        ensures
            va.wf(),
            va.spec_vpn() == vpn & Self::vpn_mask(),
            va.spec_offset() == offset & 0xFFF,
            offset < 4096 ==> va.spec_offset() == offset,
            vpn <= Self::vpn_mask() ==> va.spec_vpn() == vpn,
            va.spec_vpn() <= Self::vpn_mask(),
    {
        let bits: u8 = PagingMode::of(FIVE).bits();
        proof {
            lemma_low_mask((bits - 12) as u64);
            lemma_offset_mask(offset);
        }
        let vpn_mask: u64 = (1u64 << (bits - 12)) - 1;
        proof {
            lemma_mask_idempotent(vpn, vpn_mask, (bits - 12) as u64);
        }
        let vpn: u64 = vpn & vpn_mask;
        let offset: u16 = offset & 0xFFF;
        Self { vpn, offset, phantom: PhantomData }
    }

    /// The same address, pointing to something else.
    pub fn cast<U>(self) -> (va: VirtAddr<FIVE, U>)
        ensures
            va.spec_vpn() == self.spec_vpn(),
            va.spec_offset() == self.spec_offset(),
    {
        VirtAddr { vpn: self.vpn, offset: self.offset, phantom: PhantomData }
    }

    /// The page number.
    #[verifier::when_used_as_spec(spec_vpn)]
    pub fn vpn(&self) -> (vpn: u64)
        ensures
            vpn == self.spec_vpn(),
    {
        self.vpn
    }

    /// Replaces the page number, whatever the mode translates.
    pub fn set_vpn(&mut self, vpn: u64)
        ensures
            final(self).spec_vpn() == vpn,
            final(self).spec_offset() == old(self).spec_offset(),
    {
        self.vpn = vpn;
    }

    /// The offset into the page.
    #[verifier::when_used_as_spec(spec_offset)]
    pub fn offset(&self) -> (offset: u16)
        ensures
            offset == self.spec_offset(),
    {
        self.offset
    }

    /// The linear address, with the bits above the mode's width filled with
    /// copies of its top bit.
    #[verifier::when_used_as_spec(spec_as_canonical_address)]
    pub fn as_canonical_address(&self) -> (address: u64)
        ensures
            address == self.spec_as_canonical_address(),
    {
        let addr: u64 = (self.vpn << 12) | (self.offset as u64);
        let bits: u8 = PagingMode::of(FIVE).bits();
        let shift: u8 = 64 - bits;
        let address: u64 = ((addr << shift) as i64 >> shift) as u64;
        proof {
            lemma_sign_extend(addr, FIVE);
        }
        address
    }

    /// The index into the table of `level` at which the address is looked
    /// up.
    #[verifier::when_used_as_spec(spec_level_index)]
    pub fn level_index(&self, level: PagingLevel) -> (index: usize)
        requires
            Self::mode().has_level(level),
        ensures
            index == self.spec_level_index(level),
            index == (self.spec_vpn() >> (((level.spec_number() - 1) * 9) as u64)) & 0x1FF,
            index < 512,
    {
        let shift: u8 = (level.number() - 1) * 9;
        let index: u64 = (self.vpn >> shift) & 0x1FF;
        assert(index < 512) by (bit_vector)
            requires
                exists|v: u64| index == v & 0x1FF,
        ;
        index as usize
    }
}

/// The page numbers that a mode translates: 36 bits with four levels, 45
/// with five.
pub proof fn lemma_vpn_mask<const FIVE: bool, T>()
    ensures
        VirtAddr::<FIVE, T>::vpn_mask() == if FIVE {
            0x1FFF_FFFF_FFFFu64
        } else {
            0xF_FFFF_FFFFu64
        },
{
    assert((((1u64 << 36u64) - 1) as u64) == 0xF_FFFF_FFFFu64 && (((1u64 << 45u64) - 1) as u64)
        == 0x1FFF_FFFF_FFFFu64) by (bit_vector);
}

/// With four levels bit 47 of an address is its sign: where it is set the
/// canonical address has all the bits from 47 upward set, else none of
/// them.
pub proof fn lemma_canonical_four_level<T>(va: VirtAddr<false, T>)
    ensures
        ({
            let address = (va.spec_vpn() << 12) | (va.spec_offset() as u64);
            va.spec_as_canonical_address() == if address & 0x0000_8000_0000_0000 != 0 {
                address | 0xFFFF_8000_0000_0000
            } else {
                address & 0x0000_7FFF_FFFF_FFFF
            }
        }),
{
    let address = (va.spec_vpn() << 12) | (va.spec_offset() as u64);
    lemma_sign_bit(address);
}

/// With five levels bit 56 of an address is its sign: where it is set the
/// canonical address has all the bits from 56 upward set, else none of
/// them.
pub proof fn lemma_canonical_five_level<T>(va: VirtAddr<true, T>)
    ensures
        ({
            let address = (va.spec_vpn() << 12) | (va.spec_offset() as u64);
            va.spec_as_canonical_address() == if address & 0x0100_0000_0000_0000 != 0 {
                address | 0xFF00_0000_0000_0000
            } else {
                address & 0x00FF_FFFF_FFFF_FFFF
            }
        }),
{
    let address = (va.spec_vpn() << 12) | (va.spec_offset() as u64);
    lemma_sign_bit(address);
}

proof fn lemma_sign_bit(address: u64)
    by (bit_vector)
    ensures
        sign_extend(address, 48) == if address & 0x0000_8000_0000_0000 != 0 {
            address | 0xFFFF_8000_0000_0000
        } else {
            address & 0x0000_7FFF_FFFF_FFFF
        },
        sign_extend(address, 57) == if address & 0x0100_0000_0000_0000 != 0 {
            address | 0xFF00_0000_0000_0000
        } else {
            address & 0x00FF_FFFF_FFFF_FFFF
        },
{
}

proof fn lemma_mask_idempotent(x: u64, mask: u64, n: u64)
    by (bit_vector)
    requires
        n < 64,
        mask == ((1u64 << n) - 1) as u64,
    ensures
        (x & mask) & mask == x & mask,
        x <= mask ==> x & mask == x,
        x & mask <= mask,
{
}

proof fn lemma_sign_extend(addr: u64, five: bool)
    by (bit_vector)
    ensures
        !five ==> (((addr << 16u64) as i64) >> 16i64) as u64 == if addr & (1u64 << 47u64) != 0 {
            addr | !(((1u64 << 48u64) - 1) as u64)
        } else {
            addr & (((1u64 << 48u64) - 1) as u64)
        },
        five ==> (((addr << 7u64) as i64) >> 7i64) as u64 == if addr & (1u64 << 56u64) != 0 {
            addr | !(((1u64 << 57u64) - 1) as u64)
        } else {
            addr & (((1u64 << 57u64) - 1) as u64)
        },
{
}

} // verus!
