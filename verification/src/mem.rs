//! Architecture-independent memory abstractions.
use vstd::prelude::*;
use vstd::arithmetic::power2::is_pow2;
use crate::mem::map::RegionKind;
use crate::mem::page::{FrameAllocator, Page};
use crate::paging::PageSize;
use crate::params::BootParams;
use crate::util::{align_down_spec, align_up_spec, is_aligned};
use crate::Architecture;

pub mod map;
pub mod order;
pub mod page;

verus! {

/// An address, whether physical or virtual: a 64-bit number kept in the
/// normal form of its address space.
pub trait Address: Sized + Copy {
    /// The number that this address holds.
    spec fn raw(self) -> u64;

    /// The normal form of a raw number in this address space.
    spec fn normal(raw: u64) -> u64;

    /// The normal form of a multiple of a power of two is a multiple of it.
    proof fn lemma_normal_aligned(raw: u64, align: u64)
        requires
            is_pow2(align as int),
            raw % align == 0,
        ensures
            Self::normal(raw) % align == 0,
    ;

    /// The address that a raw number stands for.
    fn from_raw(raw: u64) -> (a: Self)
        ensures
            a.raw() == Self::normal(raw),
    ;

    /// The number that this address holds.
    fn as_raw(&self) -> (r: u64)
        ensures
            r == self.raw(),
    ;

    /// Align this address down to the provided alignment.
    fn align_down(&self, align: usize) -> (a: Self)
        requires
            is_pow2(align as int),
        ensures
            a.raw() == Self::normal(align_down_spec(self.raw() as int, align as int) as u64),
    ;

    /// Align this address up to the provided alignment.
    fn align_up(&self, align: usize) -> (a: Self)
        requires
            is_pow2(align as int),
            self.raw() + align - 1 <= u64::MAX,
        ensures
            a.raw() == Self::normal(align_up_spec(self.raw() as int, align as int) as u64),
    ;

    /// Returns true if this address is aligned on a page boundary.
    fn is_page_aligned<P: PageSize>(&self) -> (b: bool)
        requires
            P::SIZE > 0,
        ensures
            b == is_aligned(self.raw() as int, P::SIZE as int),
    ;
}

/// A physical address.
pub trait PhysicalAddress: Address {
}

/// A memory region.
///
/// This represents a region of memory with a base address and a length,
/// such as those given to us by multiboot2 or other bootloaders. It is
/// not necessarily page-aligned; a given `Region` will likely encompass
/// several frames.
#[derive(Copy, Clone, Debug)]
pub struct Region<A> {
    /// The base address of the memory region.
    pub base_address: A,
    /// The size in bytes of the memory region.
    pub size: usize,
    /// Whether this memory region is usable.
    pub kind: RegionKind,
}

impl<A: Address> Region<A> {
    /// Returns the end address of the region.
    pub fn end_address(&self) -> (addr: A)
        requires
            self.base_address.raw() + self.size <= u64::MAX,
        ensures
            addr.raw() == A::normal((self.base_address.raw() + self.size) as u64),
    {
        A::from_raw(self.base_address.as_raw() + self.size as u64)
    }

    /// Returns true if this region is usable.
    pub fn is_usable(&self) -> (b: bool)
        ensures
            b == (self.kind == RegionKind::Usable),
    {
        match self.kind {
            RegionKind::Usable => true,
            _ => false,
        }
    }

    /// Returns the number of frames contained in a given region.
    pub fn num_frames<P: PageSize>(&self) -> (n: usize)
        requires
            P::SIZE > 0,
        ensures
            n == self.size / P::SIZE,
    {
        self.size / P::SIZE
    }
}

/// Control of the memory management unit.
pub trait MemCtrl {
    type Arch: Architecture;

    type Frame: Page;

    type Error;

    /// Initialize the MMU's paging.
    ///
    /// This function should not be called more than once. The kernel should
    /// not normally do so, but implementors of this trait may choose to add
    /// additional checks against repeated calls.
    fn init_paging<P, A>(params: &P, frame_allocator: &mut A) -> Result<(), Self::Error> where
        P: BootParams<Arch = Self::Arch>,
        A: FrameAllocator<Frame = Self::Frame>,
    ;

    /// Initializes the OS heap.
    ///
    /// This function should not be called more than once. Until it has
    /// returned `Ok`, heap-allocated types must not be used.
    fn init_heap<P, A>(params: &P, frame_allocator: &mut A) -> Result<(), Self::Error> where
        P: BootParams<Arch = Self::Arch>,
        A: FrameAllocator<Frame = Self::Frame>,
    ;
}

} // verus!
