//! Architecture-independent representation of platform-specific memory maps.
use vstd::prelude::*;
use crate::mem::Address;
use crate::paging::PageSize;

verus! {

/// Marker for the type of a memory region.
#[derive(Copy, Clone, Debug, PartialEq, Eq, Structural)]
pub enum RegionKind {
    /// Usable RAM
    Usable,
    /// RAM in use.
    InUse,
    /// RAM reserved (i.e. by ACPI).
    Unusable,
    /// RAM in use by the kernel.
    Kernel,
}

/// A memory region.
///
/// This represents a region of memory with a base address and a length,
/// such as those given to us by multiboot2 or other bootloaders. It is
/// not necessarily page-aligned; a given `Region` will likely encompass
/// several frames.
pub trait Region {
    type Addr: Address;

    /// The base address of the region.
    spec fn base(&self) -> Self::Addr;

    /// The size of the region in bytes.
    spec fn len(&self) -> usize;

    /// What the region is used for.
    spec fn kind(&self) -> RegionKind;

    /// Returns the base address of the memory region.
    fn base_address(&self) -> (addr: Self::Addr)
        ensures
            addr == self.base(),
    ;

    /// Returns the size in bytes of the memory region.
    fn size(&self) -> (size: usize)
        ensures
            size == self.len(),
    ;

    /// Returns the end address of the memory region.
    fn end_address(&self) -> (addr: Self::Addr)
        requires
            self.base().raw() + self.len() <= u64::MAX,
        ensures
            addr.raw() == Self::Addr::normal((self.base().raw() + self.len()) as u64),
    {
        let base = self.base_address().as_raw();
        let size = self.size();
        Self::Addr::from_raw(base + size as u64)
    }

    /// Returns the number of frames contained in a given region.
    fn num_frames<P: PageSize>(&self) -> (n: usize)
        requires
            P::SIZE > 0,
        ensures
            n == self.len() / P::SIZE,
    {
        self.size() / P::SIZE
    }

    /// Returns true if this region is usable.
    fn is_usable(&self) -> (b: bool)
        ensures
            b == (self.kind() == RegionKind::Usable),
    ;

    /// Returns true if this region is in use.
    fn is_used(&self) -> (b: bool)
        ensures
            b == (self.kind() == RegionKind::InUse),
    ;

    /// Returns true if this region is used by the kernel.
    fn is_kernel(&self) -> (b: bool)
        ensures
            b == (self.kind() == RegionKind::Kernel),
    ;
}

/// A region as plain data.
pub type GenericRegion<A> = crate::mem::Region<A>;

impl<A: Address> Region for GenericRegion<A> {
    type Addr = A;

    open spec fn base(&self) -> A {
        self.base_address
    }

    open spec fn len(&self) -> usize {
        self.size
    }

    open spec fn kind(&self) -> RegionKind {
        self.kind
    }

    fn base_address(&self) -> (addr: A) {
        self.base_address
    }

    fn size(&self) -> (size: usize) {
        self.size
    }

    fn is_usable(&self) -> (b: bool) {
        crate::mem::Region::is_usable(self)
    }

    fn is_used(&self) -> (b: bool) {
        match self.kind {
            RegionKind::InUse => true,
            _ => false,
        }
    }

    fn is_kernel(&self) -> (b: bool) {
        match self.kind {
            RegionKind::Kernel => true,
            _ => false,
        }
    }
}

} // verus!
