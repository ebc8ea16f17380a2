//! Addresses of the `x86_64` architecture.
use vstd::prelude::*;
use crate::mem::{Address, PhysicalAddress};
use crate::paging::{PageSize, Physical, Size4Kb};
use crate::util::{align_down_u64, align_up_u64, lemma_aligned_by_mask};
use crate::Architecture;

pub mod ops;
pub mod page;

verus! {

/// The bits of a virtual address that repeat bit 47.
pub const SIGN_EXTEND_BITS: u64 = 0xFFFF_0000_0000_0000;

/// The bits that a physical address may use.
pub const PADDR_MASK: u64 = 0x000F_FFFF_FFFF_FFFF;

/// The canonical form of a raw virtual address: bits 48 to 63 repeat bit 47.
pub open spec fn canonical(value: u64) -> u64 {
    if (value >> 47) & 1 == 1 {
        value | SIGN_EXTEND_BITS
    } else {
        value & !SIGN_EXTEND_BITS
    }
}

/// The physical address that a raw number stands for: its low 52 bits.
pub open spec fn physical(value: u64) -> u64 {
    value & PADDR_MASK
}

/// Bit `i` of `value`.
pub open spec fn bit(value: u64, i: u64) -> bool {
    (value >> i) & 1 == 1
}

/// In a canonical address each of the bits 47 to 63 equals bit 47 of the raw
/// value, and the bits below are those of the raw value.
pub proof fn lemma_canonical_sign_extends(value: u64, i: u64)
    requires
        i < 64,
    ensures
        47 <= i ==> bit(canonical(value), i) == bit(value, 47),
        i < 47 ==> bit(canonical(value), i) == bit(value, i),
        canonical(canonical(value)) == canonical(value),
{
    assert(i < 64 && 47 <= i ==> ((if (value >> 47) & 1 == 1 {
        value | 0xFFFF_0000_0000_0000
    } else {
        value & !0xFFFF_0000_0000_0000u64
    }) >> i) & 1 == (value >> 47) & 1) by (bit_vector);
    assert(i < 47 ==> ((if (value >> 47) & 1 == 1 {
        value | 0xFFFF_0000_0000_0000
    } else {
        value & !0xFFFF_0000_0000_0000u64
    }) >> i) & 1 == (value >> i) & 1) by (bit_vector);
    lemma_canonical_idempotent(value);
}

/// Making an address canonical twice changes nothing.
pub proof fn lemma_canonical_idempotent(value: u64)
    ensures
        canonical(canonical(value)) == canonical(value),
{
    let c = canonical(value);
    assert(c == (if (value >> 47) & 1 == 1 {
        value | 0xFFFF_0000_0000_0000
    } else {
        value & !0xFFFF_0000_0000_0000u64
    }) ==> (if (c >> 47) & 1 == 1 {
        c | 0xFFFF_0000_0000_0000
    } else {
        c & !0xFFFF_0000_0000_0000u64
    }) == c) by (bit_vector);
}

/// In a physical address the bits 52 to 63 are zero, and the bits below are
/// those of the raw value.
pub proof fn lemma_physical_clears_high_bits(value: u64, i: u64)
    requires
        i < 64,
    ensures
        52 <= i ==> !bit(physical(value), i),
        i < 52 ==> bit(physical(value), i) == bit(value, i),
        physical(value) <= PADDR_MASK,
        physical(physical(value)) == physical(value),
{
    assert(i < 64 && 52 <= i ==> ((value & 0x000F_FFFF_FFFF_FFFF) >> i) & 1 == 0) by (bit_vector);
    assert(i < 52 ==> ((value & 0x000F_FFFF_FFFF_FFFF) >> i) & 1
        == (value >> i) & 1) by (bit_vector);
    assert(value & 0x000F_FFFF_FFFF_FFFF <= 0x000F_FFFF_FFFF_FFFF) by (bit_vector);
    assert((value & 0x000F_FFFF_FFFF_FFFF) & 0x000F_FFFF_FFFF_FFFF
        == value & 0x000F_FFFF_FFFF_FFFF) by (bit_vector);
}

/// Zero and one are in normal form in both address spaces.
pub proof fn lemma_small_addresses()
    ensures
        canonical(0) == 0,
        canonical(1) == 1,
        physical(0) == 0,
        physical(1) == 1,
{
    assert((if (0u64 >> 47) & 1 == 1 {
        0u64 | 0xFFFF_0000_0000_0000
    } else {
        0u64 & !0xFFFF_0000_0000_0000u64
    }) == 0 && (if (1u64 >> 47) & 1 == 1 {
        1u64 | 0xFFFF_0000_0000_0000
    } else {
        1u64 & !0xFFFF_0000_0000_0000u64
    }) == 1 && 0u64 & 0x000F_FFFF_FFFF_FFFF == 0 && 1u64 & 0x000F_FFFF_FFFF_FFFF == 1)
        by (bit_vector);
}

/// The `x86_64` architecture.
pub struct X86_64;

impl Architecture for X86_64 {
    type PAddr = PAddr;

    type VAddr = VAddr;

    /// This architecture's physical page type.
    type Frame = Physical<Size4Kb>;

    /// The name of the architecture (for logging, etc).
    const NAME: &'static str = "x86_64";

    const BITS: &'static str = "64";
}

/// An `x86_64` physical memory address.
#[derive(Copy, Clone, Debug, Eq, Ord, PartialEq, PartialOrd, Structural)]
pub struct PAddr(u64);

/// An `x86_64` virtual memory address.
#[derive(Copy, Clone, Debug, Eq, Ord, PartialEq, PartialOrd, Structural)]
pub struct VAddr(u64);

impl VAddr {
    /// A virtual address is always in canonical form.
    #[verifier::type_invariant]
    pub open spec fn is_canonical(self) -> bool {
        canonical(self.value()) == self.value()
    }

    /// The number that this address holds.
    pub closed spec fn value(self) -> u64 {
        self.0
    }

    /// The address that holds `value`, whatever `value` is.
    pub closed spec fn at(value: u64) -> VAddr {
        VAddr(value)
    }

    /// An address names the number it holds.
    pub broadcast proof fn lemma_at_value(value: u64)
        ensures
            #[trigger] VAddr::at(value).value() == value,
    {
    }

    /// Two addresses that hold the same number are the same address.
    pub proof fn lemma_value_injective(a: VAddr, b: VAddr)
        requires
            a.value() == b.value(),
        ensures
            a == b,
    {
    }

    /// Constructs a new canonical virtual address.
    pub fn new(value: u64) -> (addr: Self)
        ensures
            addr.value() == canonical(value),
    {
        proof {
            lemma_canonical_idempotent(value);
        }
        let canonical = if (value >> 47) & 1 == 1 {
            value | SIGN_EXTEND_BITS
        } else {
            value & !SIGN_EXTEND_BITS
        };
        VAddr(canonical)
    }

    /// The address as a `u64`: always in canonical form.
    pub fn as_u64(&self) -> (value: u64)
        ensures
            value == self.value(),
            canonical(value) == value,
    {
        proof {
            use_type_invariant(self);
        }
        self.0
    }

    /// The address as a `usize`: its low bits, where a `usize` is narrower.
    pub fn as_usize(&self) -> (value: usize)
        ensures
            value == self.value() as usize,
    {
        #[verifier::truncate]
        (self.0 as usize)
    }
}

impl PAddr {
    /// A physical address never has more than 52 bits.
    #[verifier::type_invariant]
    pub open spec fn is_physical(self) -> bool {
        physical(self.value()) == self.value()
    }

    /// The number that this address holds.
    pub closed spec fn value(self) -> u64 {
        self.0
    }

    /// The address that holds `value`, whatever `value` is.
    pub closed spec fn at(value: u64) -> PAddr {
        PAddr(value)
    }

    /// An address names the number it holds.
    pub broadcast proof fn lemma_at_value(value: u64)
        ensures
            #[trigger] PAddr::at(value).value() == value,
    {
    }

    /// Two addresses that hold the same number are the same address.
    pub proof fn lemma_value_injective(a: PAddr, b: PAddr)
        requires
            a.value() == b.value(),
        ensures
            a == b,
    {
    }

    /// Constructs a new physical address: the twelve highest bits are set to 0.
    pub fn new(value: u64) -> (addr: Self)
        ensures
            addr.value() == physical(value),
    {
        proof {
            lemma_physical_clears_high_bits(value, 0);
        }
        PAddr(value & PADDR_MASK)
    }

    /// The address as a `u64`: never above 52 bits.
    pub fn as_u64(&self) -> (value: u64)
        ensures
            value == self.value(),
            physical(value) == value,
    {
        proof {
            use_type_invariant(self);
        }
        self.0
    }
}

impl Address for VAddr {
    open spec fn raw(self) -> u64 {
        self.value()
    }

    open spec fn normal(raw: u64) -> u64 {
        canonical(raw)
    }

    proof fn lemma_normal_aligned(raw: u64, align: u64) {
        lemma_aligned_by_mask(raw, align);
        lemma_aligned_by_mask(canonical(raw), align);
        let mask = (align - 1) as u64;
        assert((if (raw >> 47) & 1 == 1 {
            raw | 0xFFFF_0000_0000_0000
        } else {
            raw & !0xFFFF_0000_0000_0000u64
        }) & mask == 0) by (bit_vector)
            requires
                align != 0,
                align & mask == 0,
                mask == (align - 1) as u64,
                raw & mask == 0,
        ;
    }

    fn from_raw(raw: u64) -> (a: Self) {
        VAddr::new(raw)
    }

    fn as_raw(&self) -> (r: u64) {
        self.0
    }

    fn align_down(&self, align: usize) -> (a: Self) {
        VAddr::new(align_down_u64(self.0, align as u64))
    }

    fn align_up(&self, align: usize) -> (a: Self) {
        VAddr::new(align_up_u64(self.0, align as u64))
    }

    fn is_page_aligned<P: PageSize>(&self) -> (b: bool) {
        self.0 % (P::SIZE as u64) == 0
    }
}

impl Address for PAddr {
    open spec fn raw(self) -> u64 {
        self.value()
    }

    open spec fn normal(raw: u64) -> u64 {
        physical(raw)
    }

    proof fn lemma_normal_aligned(raw: u64, align: u64) {
        lemma_aligned_by_mask(raw, align);
        lemma_aligned_by_mask(physical(raw), align);
        let mask = (align - 1) as u64;
        assert((raw & 0x000F_FFFF_FFFF_FFFF) & mask == 0) by (bit_vector)
            requires
                raw & mask == 0,
        ;
    }

    fn from_raw(raw: u64) -> (a: Self) {
        PAddr::new(raw)
    }

    fn as_raw(&self) -> (r: u64) {
        self.0
    }

    fn align_down(&self, align: usize) -> (a: Self) {
        PAddr::new(align_down_u64(self.0, align as u64))
    }

    fn align_up(&self, align: usize) -> (a: Self) {
        PAddr::new(align_up_u64(self.0, align as u64))
    }

    fn is_page_aligned<P: PageSize>(&self) -> (b: bool) {
        self.0 % (P::SIZE as u64) == 0
    }
}

impl PhysicalAddress for PAddr {
}

impl From<u64> for PAddr {
    fn from(addr: u64) -> (a: Self) {
        Self::new(addr)
    }
}

impl vstd::std_specs::convert::FromSpecImpl<u64> for PAddr {
    open spec fn obeys_from_spec() -> bool {
        true
    }

    open spec fn from_spec(addr: u64) -> Self {
        PAddr::at(physical(addr))
    }
}

impl From<u64> for VAddr {
    fn from(addr: u64) -> (a: Self) {
        Self::new(addr)
    }
}

impl vstd::std_specs::convert::FromSpecImpl<u64> for VAddr {
    open spec fn obeys_from_spec() -> bool {
        true
    }

    open spec fn from_spec(addr: u64) -> Self {
        VAddr::at(canonical(addr))
    }
}

} // verus!
