//! The 64-bit page table entry and its flags.
use vstd::prelude::*;
use crate::paging::entry::{Error, Opts, Repr, FRAME_ALIGN};
use crate::x64::page::table::ADDR_MASK;
use crate::x64::{physical, PAddr};

verus! {

/// Must be set to map a page or reference a page table.
pub const PRESENT: u64 = 0x1;

/// If unset, writes may not be allowed to the region controlled by the entry.
pub const WRITABLE: u64 = 0x2;

/// If set, ring 3 code can access this page.
pub const USER_ACCESSIBLE: u64 = 0x4;

/// If set, a "write-through" policy is used for the cache, else a
/// "write-back" policy is used.
pub const WRITE_THROUGH: u64 = 0x8;

/// Disables caching for the pointed entry if set.
pub const NO_CACHE: u64 = 0x10;

/// Set by the CPU when the pointed frame or table is read from.
pub const ACCESSED: u64 = 0x20;

/// Set by the CPU when the pointed frame is written to.
pub const DIRTY: u64 = 0x40;

/// If set, the entry maps a huge frame instead of a page table.
///
/// Only allowed in the PDPT or PD tables.
pub const HUGE_PAGE: u64 = 0x80;

/// If set, the mapping is present in all address spaces.
///
/// Global pages aren't flushed from the TLB on an address space switch.
pub const GLOBAL: u64 = 0x100;

/// If set, code in the mapped frames may not be executed.
pub const NO_EXECUTE: u64 = 0x8000_0000_0000_0000;

/// Every flag together.
pub const ALL_FLAGS: u64 = 0x8000_0000_0000_01ff;

/// A set of entry flags.
#[derive(Clone, Copy, Debug, PartialEq, Eq, Structural)]
pub struct Flags {
    bits: u64,
}

impl Flags {
    /// A set of flags holds flags only.
    #[verifier::type_invariant]
    pub open spec fn only_flags(self) -> bool {
        self.value() & !ALL_FLAGS == 0
    }

    /// The flags as bits of an entry.
    pub closed spec fn value(self) -> u64 {
        self.bits
    }

    /// The set that holds the flags among `bits`.
    pub closed spec fn of(bits: u64) -> Flags {
        Flags { bits: bits & ALL_FLAGS }
    }

    /// The set made from `bits` holds the flags among them, and a set holds
    /// flags only.
    pub broadcast proof fn lemma_of(bits: u64)
        ensures
            #[trigger] Flags::of(bits).value() == bits & ALL_FLAGS,
            Flags::of(bits).value() & !ALL_FLAGS == 0,
    {
        assert((bits & 0x8000_0000_0000_01ff) & !0x8000_0000_0000_01ffu64 == 0) by (bit_vector);
    }

    /// Two sets with the same bits are the same set.
    pub proof fn lemma_value_injective(a: Flags, b: Flags)
        requires
            a.value() == b.value(),
        ensures
            a == b,
    {
    }

    /// The set without any flag.
    pub fn empty() -> (flags: Self)
        ensures
            flags.value() == 0,
    {
        assert(0u64 & !0x8000_0000_0000_01ffu64 == 0) by (bit_vector);
        Flags { bits: 0 }
    }

    /// The set of every flag.
    pub fn all() -> (flags: Self)
        ensures
            flags.value() == ALL_FLAGS,
    {
        assert(0x8000_0000_0000_01ffu64 & !0x8000_0000_0000_01ffu64 == 0) by (bit_vector);
        Flags { bits: ALL_FLAGS }
    }

    /// The flags as bits of an entry.
    pub fn bits(&self) -> (bits: u64)
        ensures
            bits == self.value(),
            bits & !ALL_FLAGS == 0,
    {
        proof {
            use_type_invariant(self);
        }
        self.bits
    }

    /// The set that holds the flags among `bits`; other bits are dropped.
    pub fn from_bits_truncate(bits: u64) -> (flags: Self)
        ensures
            flags == Flags::of(bits),
            flags.value() == bits & ALL_FLAGS,
    {
        proof {
            Flags::lemma_of(bits);
        }
        Flags { bits: bits & ALL_FLAGS }
    }

    /// Says whether every flag of `other` is in this set.
    pub fn contains(&self, other: Flags) -> (b: bool)
        ensures
            b == (self.value() & other.value() == other.value()),
    {
        self.bits & other.bits == other.bits
    }

    /// Adds the flags of `other`.
    pub fn insert(&mut self, other: Flags)
        ensures
            final(self).value() == old(self).value() | other.value(),
    {
        proof {
            use_type_invariant(&*self);
            use_type_invariant(&other);
        }
        let a = self.bits;
        let b = other.bits;
        assert((a | b) & !0x8000_0000_0000_01ffu64 == 0) by (bit_vector)
            requires
                a & !0x8000_0000_0000_01ffu64 == 0,
                b & !0x8000_0000_0000_01ffu64 == 0,
        ;
        self.bits = a | b;
    }

    /// Takes out the flags of `other`.
    pub fn remove(&mut self, other: Flags)
        ensures
            final(self).value() == old(self).value() & !other.value(),
    {
        proof {
            use_type_invariant(&*self);
        }
        let a = self.bits;
        let b = other.bits;
        assert((a & !b) & !0x8000_0000_0000_01ffu64 == 0) by (bit_vector)
            requires
                a & !0x8000_0000_0000_01ffu64 == 0,
        ;
        self.bits = a & !b;
    }
}

impl Default for Flags {
    fn default() -> (flags: Self)
        ensures
            flags.value() == 0,
    {
        Flags::empty()
    }
}

impl Opts for Flags {
    open spec fn present(&self) -> bool {
        self.value() & PRESENT == PRESENT
    }

    open spec fn writable(&self) -> bool {
        self.value() & WRITABLE == WRITABLE
    }

    open spec fn executable(&self) -> bool {
        self.value() & NO_EXECUTE != NO_EXECUTE
    }

    open spec fn huge(&self) -> bool {
        self.value() & HUGE_PAGE == HUGE_PAGE
    }

    open spec fn wf(&self) -> bool {
        self.value() & !ALL_FLAGS == 0
    }

    open spec fn with_present(self, present: bool) -> Self {
        Flags::of(
            if present {
                self.value() | PRESENT
            } else {
                self.value() & !PRESENT
            },
        )
    }

    open spec fn with_writable(self, writable: bool) -> Self {
        Flags::of(
            if writable {
                self.value() | WRITABLE
            } else {
                self.value() & !WRITABLE
            },
        )
    }

    open spec fn with_executable(self, executable: bool) -> Self {
        Flags::of(
            if executable {
                self.value() & !NO_EXECUTE
            } else {
                self.value() | NO_EXECUTE
            },
        )
    }

    proof fn lemma_changes(self, value: bool) {
        let b = self.value();
        Flags::lemma_of(b | PRESENT);
        Flags::lemma_of(b & !PRESENT);
        Flags::lemma_of(b | WRITABLE);
        Flags::lemma_of(b & !WRITABLE);
        Flags::lemma_of(b | NO_EXECUTE);
        Flags::lemma_of(b & !NO_EXECUTE);
        assert({
            &&& ((b | 1) & 0x8000_0000_0000_01ff) & 1 == 1
            &&& ((b & !1) & 0x8000_0000_0000_01ff) & 1 != 1
            &&& (((b | 1) & 0x8000_0000_0000_01ff) & 2 == 2) == (b & 2 == 2)
            &&& (((b & !1) & 0x8000_0000_0000_01ff) & 2 == 2) == (b & 2 == 2)
            &&& (((b | 1) & 0x8000_0000_0000_01ff) & 0x80 == 0x80) == (b & 0x80 == 0x80)
            &&& (((b & !1) & 0x8000_0000_0000_01ff) & 0x80 == 0x80) == (b & 0x80 == 0x80)
            &&& (((b | 1) & 0x8000_0000_0000_01ff) & 0x8000_0000_0000_0000
                == 0x8000_0000_0000_0000) == (b & 0x8000_0000_0000_0000 == 0x8000_0000_0000_0000)
            &&& (((b & !1) & 0x8000_0000_0000_01ff) & 0x8000_0000_0000_0000
                == 0x8000_0000_0000_0000) == (b & 0x8000_0000_0000_0000 == 0x8000_0000_0000_0000)
        }) by (bit_vector);
        assert({
            &&& ((b | 2) & 0x8000_0000_0000_01ff) & 2 == 2
            &&& ((b & !2) & 0x8000_0000_0000_01ff) & 2 != 2
            &&& (((b | 2) & 0x8000_0000_0000_01ff) & 1 == 1) == (b & 1 == 1)
            &&& (((b & !2) & 0x8000_0000_0000_01ff) & 1 == 1) == (b & 1 == 1)
            &&& (((b | 2) & 0x8000_0000_0000_01ff) & 0x80 == 0x80) == (b & 0x80 == 0x80)
            &&& (((b & !2) & 0x8000_0000_0000_01ff) & 0x80 == 0x80) == (b & 0x80 == 0x80)
            &&& (((b | 2) & 0x8000_0000_0000_01ff) & 0x8000_0000_0000_0000
                == 0x8000_0000_0000_0000) == (b & 0x8000_0000_0000_0000 == 0x8000_0000_0000_0000)
            &&& (((b & !2) & 0x8000_0000_0000_01ff) & 0x8000_0000_0000_0000
                == 0x8000_0000_0000_0000) == (b & 0x8000_0000_0000_0000 == 0x8000_0000_0000_0000)
        }) by (bit_vector);
        assert({
            &&& ((b | 0x8000_0000_0000_0000) & 0x8000_0000_0000_01ff) & 0x8000_0000_0000_0000
                == 0x8000_0000_0000_0000
            &&& ((b & !0x8000_0000_0000_0000) & 0x8000_0000_0000_01ff) & 0x8000_0000_0000_0000
                != 0x8000_0000_0000_0000
            &&& (((b | 0x8000_0000_0000_0000) & 0x8000_0000_0000_01ff) & 1 == 1) == (b & 1 == 1)
            &&& (((b & !0x8000_0000_0000_0000) & 0x8000_0000_0000_01ff) & 1 == 1) == (b & 1 == 1)
            &&& (((b | 0x8000_0000_0000_0000) & 0x8000_0000_0000_01ff) & 2 == 2) == (b & 2 == 2)
            &&& (((b & !0x8000_0000_0000_0000) & 0x8000_0000_0000_01ff) & 2 == 2) == (b & 2 == 2)
            &&& (((b | 0x8000_0000_0000_0000) & 0x8000_0000_0000_01ff) & 0x80 == 0x80) == (b & 0x80
                == 0x80)
            &&& (((b & !0x8000_0000_0000_0000) & 0x8000_0000_0000_01ff) & 0x80 == 0x80) == (b & 0x80
                == 0x80)
        }) by (bit_vector);
    }

    fn is_present(&self) -> (b: bool) {
        self.bits & PRESENT == PRESENT
    }

    fn is_writable(&self) -> (b: bool) {
        self.bits & WRITABLE == WRITABLE
    }

    fn can_execute(&self) -> (b: bool) {
        self.bits & NO_EXECUTE != NO_EXECUTE
    }

    fn set_present(self, present: bool) -> (flags: Self) {
        if present {
            Flags::from_bits_truncate(self.bits | PRESENT)
        } else {
            Flags::from_bits_truncate(self.bits & !PRESENT)
        }
    }

    fn set_writable(self, writable: bool) -> (flags: Self) {
        if writable {
            Flags::from_bits_truncate(self.bits | WRITABLE)
        } else {
            Flags::from_bits_truncate(self.bits & !WRITABLE)
        }
    }

    fn set_executable(self, executable: bool) -> (flags: Self) {
        if executable {
            Flags::from_bits_truncate(self.bits & !NO_EXECUTE)
        } else {
            Flags::from_bits_truncate(self.bits | NO_EXECUTE)
        }
    }
}

/// A 64-bit page table entry.
///
/// Page table entries are laid out as follows:
///
/// ```notrust
/// 63    62 ...   52 ...                            12 ...   9 ...    0
/// +----+---------+---------------------------------+--------+-------+
/// | NX | unused | address of frame/next page table | unused | flags |
/// +----+--------+----------------------------------+--------+-------+
///      10 bits  40 bits                            2 bits   8 bits
/// ```
///
/// + The 63rd bit is the NO_EXECUTE flag.
/// + Bits 62 through 52 and 11 through 9 are unused by the CPU.
/// + Bits 51 through 12 are the page-aligned physical address of either the
///   frame or the next page table.
/// + Bits 8 through 0 are flags that configure the page table entry.
#[derive(Clone, Copy, Debug, PartialEq, Eq, Structural)]
pub struct Entry64(u64);

impl Entry64 {
    /// The entry as the hardware reads it.
    pub closed spec fn value(self) -> u64 {
        self.0
    }

    /// The entry that the hardware reads as `bits`.
    pub closed spec fn of(bits: u64) -> Entry64 {
        Entry64(bits)
    }

    /// An entry is known by its bits.
    pub broadcast proof fn lemma_of(bits: u64)
        ensures
            #[trigger] Entry64::of(bits).value() == bits,
    {
    }

    /// Two entries with the same bits are the same entry.
    pub proof fn lemma_value_injective(a: Entry64, b: Entry64)
        requires
            a.value() == b.value(),
        ensures
            a == b,
    {
    }

    /// The entry that the hardware reads as `bits`.
    pub fn from_bits(bits: u64) -> (entry: Self)
        ensures
            entry.value() == bits,
    {
        Entry64(bits)
    }

    /// The entry as the hardware reads it.
    pub fn bits(&self) -> (bits: u64)
        ensures
            bits == self.value(),
    {
        self.0
    }

    /// Says whether the entry maps a huge page.
    pub fn is_huge(&self) -> (b: bool)
        ensures
            b == (self.value() & HUGE_PAGE == HUGE_PAGE),
            b == self.flags_of().huge(),
    {
        proof {
            Flags::lemma_of(self.0);
            let v = self.0;
            assert((v & 0x8000_0000_0000_01ff) & 0x80 == v & 0x80) by (bit_vector);
        }
        self.0 & HUGE_PAGE == HUGE_PAGE
    }
}

impl Repr for Entry64 {
    type Flags = Flags;

    open spec fn flags_of(&self) -> Flags {
        Flags::of(self.value())
    }

    open spec fn addr_of(&self) -> PAddr {
        PAddr::at(self.value() & ADDR_MASK)
    }

    open spec fn pointing(addr: PAddr, flags: Flags) -> Self {
        Entry64::of(addr.value() | flags.value())
    }

    proof fn lemma_parts(self) {
        let v = self.value();
        Flags::lemma_of(v);
        PAddr::lemma_at_value(v & ADDR_MASK);
        assert((v & 0x000f_ffff_ffff_f000) & 0x000f_ffff_ffff_ffff == v & 0x000f_ffff_ffff_f000)
            by (bit_vector);
        assert((v & 0x000f_ffff_ffff_f000) % 4096 == 0) by (bit_vector);
    }

    proof fn lemma_pointing(addr: PAddr, flags: Flags) {
        let a = addr.value();
        let f = flags.value();
        Entry64::lemma_of(a | f);
        Flags::lemma_of(a | f);
        PAddr::lemma_at_value((a | f) & ADDR_MASK);
        assert((a | f) & 0x000f_ffff_ffff_f000 == a && (a | f) & 0x8000_0000_0000_01ff == f)
            by (bit_vector)
            requires
                a & 0x000f_ffff_ffff_ffff == a,
                a % 4096 == 0,
                f & !0x8000_0000_0000_01ffu64 == 0,
        ;
        PAddr::lemma_value_injective(Self::pointing(addr, flags).addr_of(), addr);
        Flags::lemma_value_injective(Self::pointing(addr, flags).flags_of(), flags);
    }

    fn flags(&self) -> (flags: Flags) {
        proof {
            Flags::lemma_of(self.0);
        }
        Flags::from_bits_truncate(self.0)
    }

    fn pointed_addr(&self) -> (addr: PAddr) {
        let addr = PAddr::new(self.0 & ADDR_MASK);
        proof {
            let v = self.0;
            assert((v & 0x000f_ffff_ffff_f000) & 0x000f_ffff_ffff_ffff == v & 0x000f_ffff_ffff_f000)
                by (bit_vector);
            PAddr::lemma_at_value(v & ADDR_MASK);
            PAddr::lemma_value_injective(addr, self.addr_of());
        }
        addr
    }

    fn validate_as_table(&self) -> (r: Result<(), Error>) {
        if self.is_huge() {
            Err(Error::Huge)
        } else {
            Ok(())
        }
    }

    fn set_addr(&mut self, addr: PAddr, flags: Flags) -> (r: Result<(), Error>) {
        let raw = addr.as_u64();
        if raw % FRAME_ALIGN != 0 {
            return Err(Error::NotAligned);
        }
        proof {
            Entry64::lemma_of(raw | flags.value());
            Entry64::lemma_value_injective(Entry64(raw
                | flags.value()), Self::pointing(addr, flags));
        }
        self.0 = raw | flags.bits();
        Ok(())
    }

    fn set_flags(&mut self, flags: Flags) {
        let addr = self.pointed_addr();
        proof {
            Entry64::lemma_of(addr.value() | flags.value());
            Entry64::lemma_value_injective(
                Entry64(addr.value() | flags.value()),
                Self::pointing(addr, flags),
            );
        }
        self.0 = addr.as_u64() | flags.bits();
    }
}

} // verus!
