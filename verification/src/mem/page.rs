//! Pages, frame allocation and the mapping interface.
use vstd::prelude::*;
use vstd::arithmetic::power2::is_pow2;
use crate::mem::Address;
use crate::util::{align_down_spec, align_up_spec};
use crate::Architecture;

verus! {

/// A physical or virtual page.
pub trait Page: Sized {
    /// Page alignment.
    const SHIFT: usize;

    /// The size of a page in bytes.
    const SIZE: usize;

    /// The type of address used to address this `Page`.
    ///
    /// If this is a physical page frame, then its `Address` should be the
    /// architecture's corresponding physical address type, and if this is a
    /// virtual page, then its `Address` should be the virtual address type.
    type Address: Address;

    /// The address at which this page starts.
    spec fn base(&self) -> Self::Address;

    /// Round `addr` up to the closest `Page`.
    fn from_addr_up(addr: Self::Address) -> (page: Self)
        requires
            is_pow2(Self::SIZE as int),
            addr.raw() + Self::SIZE - 1 <= u64::MAX,
        ensures
            page.base().raw() == Self::Address::normal(
                align_up_spec(addr.raw() as int, Self::SIZE as int) as u64,
            ),
    ;

    /// Round `addr` down to the closest `Page`.
    fn from_addr_down(addr: Self::Address) -> (page: Self)
        requires
            is_pow2(Self::SIZE as int),
        ensures
            page.base().raw() == Self::Address::normal(
                align_down_spec(addr.raw() as int, Self::SIZE as int) as u64,
            ),
    ;

    /// Returns the base `Address` where this page starts.
    fn base_address(&self) -> (addr: Self::Address)
        ensures
            addr == self.base(),
    ;

    /// Returns the end `Address` of this `Page`.
    fn end_address(&self) -> (addr: Self::Address)
        requires
            self.base().raw() + Self::SIZE <= u64::MAX,
        ensures
            addr.raw() == Self::Address::normal((self.base().raw() + Self::SIZE) as u64),
    ;

    /// Return the page's number: how many pages of this size lie below it.
    fn number(&self) -> (n: usize)
        requires
            Self::SIZE > 0,
        ensures
            n == (self.base().raw() / (Self::SIZE as u64)) as usize,
    ;
}

/// An allocator that provides page frames.
///
/// Nothing is promised of what an allocator hands out. A caller may give
/// back only frames that it got from the same allocator, and may not use a
/// frame after it gave it back.
pub trait FrameAllocator {
    /// Architecture-dependent size of a physical page.
    const FRAME_SIZE: usize = <Self::Frame as Page>::SIZE;

    /// Type representing frames provided by this allocator.
    type Frame: Page;

    type Error;

    /// Returns a new `Frame`.
    fn allocate(&mut self) -> Result<Self::Frame, Self::Error>;

    /// Deallocate a `Frame`.
    fn dealloc(&mut self, frame: Self::Frame) -> Result<(), Self::Error>;
}

/// On some architectures, such as x86, page table changes must be flushed
/// from one or more caches or buffers before they are valid. This type
/// represents that operation.
///
/// On architectures where a commit operation is not necessary, this trait
/// is implemented by `()`; commiting a `()`-typed update will do nothing.
pub trait TableUpdate {
    /// Optionally, information about the committed change may be returned to
    /// the kernel.
    type Item;

    /// Commit the page table update, returning an `Item`.
    fn commit(self) -> Self::Item;
}

impl TableUpdate for () {
    type Item = ();

    fn commit(self) -> Self::Item {
    }
}

/// Why a page could not be mapped.
pub enum MapError<A: FrameAllocator, B> {
    /// The page is mapped already.
    AlreadyMapped,
    /// The allocator could not provide a frame for a table.
    Alloc(A::Error),
    /// An entry refused the change.
    Other(B),
}

impl<A: FrameAllocator, B> From<B> for MapError<A, B> {
    fn from(error: B) -> (e: Self) {
        MapError::Other(error)
    }
}

impl<A: FrameAllocator, B> vstd::std_specs::convert::FromSpecImpl<B> for MapError<A, B> {
    open spec fn obeys_from_spec() -> bool {
        true
    }

    open spec fn from_spec(error: B) -> Self {
        MapError::Other(error)
    }
}

/// The mapping of virtual pages of type `P` to physical frames of type `F`.
pub trait Mapper<P: Page, F: Page> {
    type Arch: Architecture;

    /// Architecture-dependent flags that configure a virtual page.
    type Flags;

    /// The type returned by a page table update.
    ///
    /// This must be committed for the update to have an effect.
    type Update: TableUpdate;

    /// Any errors that can occur when mapping a page.
    type Error;

    /// The tables are fit for use.
    spec fn valid(&self) -> bool;

    /// The frame that `page` is mapped to, if it is mapped.
    spec fn mapped_frame(&self, page: P) -> Option<F>;

    /// Translates a virtual address to the corresponding physical address.
    ///
    /// # Returns
    /// + `Some(PAddr)` containing the physical address corresponding to
    ///                 `vaddr`, if it is mapped.
    /// + `None`: if the address is not mapped.
    fn translate(&self, vaddr: P::Address) -> (r: Option<F::Address>)
        requires
            self.valid(),
    ;

    /// Translates a virtual page to a physical frame.
    fn translate_page(&self, page: P) -> (r: Option<F>)
        requires
            self.valid(),
        ensures
            r == self.mapped_frame(page),
    ;

    /// Modifies the page tables so that `page` maps to `frame`. Where that
    /// fails, each page is mapped as it was.
    ///
    /// # Arguments
    /// + `page`: the virtual `Page` to map
    /// + `frame`: the physical `Frame` that `Page` should map to.
    /// + `flags`: the page table entry flags.
    /// + `alloc`: a memory allocator
    fn map<A>(&mut self, page: P, frame: F, flags: Self::Flags, alloc: &mut A) -> (r: Result<
        Self::Update,
        MapError<A, Self::Error>,
    >) where A: FrameAllocator<Frame = F>
        requires
            old(self).valid(),
        ensures
            final(self).valid(),
            r is Err ==> forall|other: P|
                #[trigger] final(self).mapped_frame(other) == old(self).mapped_frame(other),
    ;

    /// Identity maps a given `frame`.
    ///
    /// # Arguments
    /// + `frame`: the physical `Frame` to identity map
    /// + `flags`: the page table entry flags.
    /// + `alloc`: a memory allocator
    fn identity_map<A>(&mut self, frame: F, flags: Self::Flags, alloc: &mut A) -> (r: Result<
        Self::Update,
        MapError<A, Self::Error>,
    >) where A: FrameAllocator<Frame = F>
        requires
            old(self).valid(),
        ensures
            final(self).valid(),
            r is Err ==> forall|other: P|
                #[trigger] final(self).mapped_frame(other) == old(self).mapped_frame(other),
    ;

    /// Maps the given page to any free frame.
    ///
    /// This is like the fire and forget version of `map`: we just pick the
    /// first available free frame and map the page to it.
    ///
    /// # Arguments
    /// + `page`: the page to map
    /// + `flags`: the page table entry flags.
    /// + `alloc`: a memory allocator
    fn map_to_any<A>(&mut self, page: P, flags: Self::Flags, alloc: &mut A) -> (r: Result<
        Self::Update,
        MapError<A, Self::Error>,
    >) where A: FrameAllocator<Frame = F>
        requires
            old(self).valid(),
        ensures
            final(self).valid(),
            r is Err ==> forall|other: P|
                #[trigger] final(self).mapped_frame(other) == old(self).mapped_frame(other),
    ;

    /// Unmaps the given page.
    ///
    /// All freed frames are returned to the given `FrameAllocator`. The
    /// allocator may refuse a frame, and no error of the mapper can hold
    /// the allocator's error; so the error is a `MapError`, as of `map`,
    /// whose `Alloc` carries it to the caller.
    fn unmap<A>(&mut self, page: P, alloc: &mut A) -> (r: Result<
        Self::Update,
        MapError<A, Self::Error>,
    >) where A: FrameAllocator<Frame = F>
        requires
            old(self).valid(),
        ensures
            final(self).valid(),
            r is Ok ==> final(self).mapped_frame(page) is None,
    ;

    /// Updates the flags on the given `page`.
    fn set_flags(&mut self, page: P, flags: Self::Flags) -> (r: Result<Self::Update, Self::Error>)
        requires
            old(self).valid(),
        ensures
            final(self).valid(),
            r is Err ==> forall|other: P|
                #[trigger] final(self).mapped_frame(other) == old(self).mapped_frame(other),
    ;
}

/// Represents a contiguous range of pages.
#[derive(Copy, Clone)]
pub struct Range<P> {
    pub start: P,
    pub end: P,
}

} // verus!
