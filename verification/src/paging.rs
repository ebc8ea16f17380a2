//! Pages of the x86 family and the token that stands for a pending
//! invalidation of the translation cache.
use vstd::prelude::*;
use vstd::arithmetic::power2::is_pow2;
use core::marker::PhantomData;
use crate::mem::page::TableUpdate;
use crate::mem::Address;
use crate::util::{
    align_down_spec, align_up_spec, is_aligned, lemma_align_bounds, lemma_page_alignments,
    lemma_pow2_positive,
};
use crate::x64::{PAddr, VAddr};

pub mod entry;
pub mod table;

verus! {

/// A page size of the architecture, as a type.
pub trait PageSize: Copy {
    /// The size of such a page in bytes.
    const SIZE: usize;
}

/// The bytes in a kilobyte.
pub const KILOBYTE: usize = 1024;

/// The bytes in a megabyte.
pub const MEGABYTE: usize = 1024 * 1024;

/// 4 KiB pages.
#[derive(Clone, Copy, PartialEq, Eq, PartialOrd, Ord)]
pub struct Size4Kb;

/// 2 MiB pages.
#[derive(Clone, Copy, PartialEq, Eq, PartialOrd, Ord)]
pub struct Size2Mb;

impl PageSize for Size4Kb {
    const SIZE: usize = 4096;
}

impl PageSize for Size2Mb {
    const SIZE: usize = 2 * 1024 * 1024;
}

/// The sizes of small and large pages in bytes; each is a power of two.
pub proof fn lemma_page_sizes()
    ensures
        Size4Kb::SIZE == 4096,
        Size2Mb::SIZE == 0x20_0000,
        is_pow2(4096),
        is_pow2(0x20_0000),
{
    lemma_page_alignments();
}

/// A page of size `S` that starts at an address of type `A`.
#[derive(Debug)]
pub struct Page<A: Address, S: PageSize> {
    start_addr: A,
    _sz: PhantomData<S>,
}

impl<A: Address, S: PageSize> Clone for Page<A, S> {
    fn clone(&self) -> (page: Self)
        ensures
            page == *self,
    {
        proof {
            use_type_invariant(self);
        }
        Page { start_addr: self.start_addr, _sz: PhantomData }
    }
}

impl<A: Address, S: PageSize> Copy for Page<A, S> {
}

/// A virtual page.
pub type Virtual<S = Size4Kb> = Page<VAddr, S>;

/// A physical page frame.
pub type Physical<S = Size4Kb> = Page<PAddr, S>;

impl<A: Address, S: PageSize> Page<A, S> {
    /// A page starts on a multiple of its size.
    #[verifier::type_invariant]
    pub open spec fn on_boundary(self) -> bool {
        is_aligned(self.start().raw() as int, S::SIZE as int)
    }

    /// The address at which the page starts.
    pub closed spec fn start(&self) -> A {
        self.start_addr
    }

    /// The page that starts at `addr`, whatever `addr` is.
    pub closed spec fn starting_at(addr: A) -> Self {
        Page { start_addr: addr, _sz: PhantomData }
    }

    /// A page is known by the address at which it starts.
    pub broadcast proof fn lemma_starting_at(addr: A)
        ensures
            #[trigger] Self::starting_at(addr).start() == addr,
    {
    }

    /// Two pages that start at the same address are the same page.
    pub proof fn lemma_start_injective(a: Self, b: Self)
        requires
            a.start() == b.start(),
        ensures
            a == b,
    {
    }
}

/// The size of a page is the size that its type names; its shift is 12.
pub proof fn lemma_page_consts<A: Address, S: PageSize>()
    ensures
        <Page<A, S> as crate::mem::page::Page>::SIZE == S::SIZE,
        <Page<A, S> as crate::mem::page::Page>::SHIFT == 12,
{
}

/// A frame is known by the number that its start address holds.
pub proof fn lemma_frame_by_value<S: PageSize>(frame: Physical<S>, value: u64)
    requires
        frame.start().value() == value,
    ensures
        frame == Physical::<S>::starting_at(PAddr::at(value)),
{
    PAddr::lemma_at_value(value);
    PAddr::lemma_value_injective(frame.start(), PAddr::at(value));
    Physical::<S>::lemma_starting_at(PAddr::at(value));
    Physical::<S>::lemma_start_injective(frame, Physical::<S>::starting_at(PAddr::at(value)));
}

/// A virtual page is known by the number that its start address holds.
pub proof fn lemma_page_by_value<S: PageSize>(page: Virtual<S>, value: u64)
    requires
        page.start().value() == value,
    ensures
        page == Virtual::<S>::starting_at(VAddr::at(value)),
{
    VAddr::lemma_at_value(value);
    VAddr::lemma_value_injective(page.start(), VAddr::at(value));
    Virtual::<S>::lemma_starting_at(VAddr::at(value));
    Virtual::<S>::lemma_start_injective(page, Virtual::<S>::starting_at(VAddr::at(value)));
}

impl<A: Address, S: PageSize> crate::mem::page::Page for Page<A, S> {
    /// Page alignment.
    const SHIFT: usize = 12;

    /// The size of a page in bytes.
    const SIZE: usize = S::SIZE;

    type Address = A;

    open spec fn base(&self) -> A {
        self.start()
    }

    fn from_addr_up(addr: A) -> (page: Self) {
        proof {
            lemma_pow2_positive(S::SIZE as int);
            lemma_align_bounds(addr.raw() as int, S::SIZE as int);
            A::lemma_normal_aligned(
                align_up_spec(addr.raw() as int, S::SIZE as int) as u64,
                S::SIZE as u64,
            );
        }
        Page { start_addr: addr.align_up(S::SIZE), _sz: PhantomData }
    }

    fn from_addr_down(addr: A) -> (page: Self) {
        proof {
            lemma_pow2_positive(S::SIZE as int);
            lemma_align_bounds(addr.raw() as int, S::SIZE as int);
            A::lemma_normal_aligned(
                align_down_spec(addr.raw() as int, S::SIZE as int) as u64,
                S::SIZE as u64,
            );
        }
        Page { start_addr: addr.align_down(S::SIZE), _sz: PhantomData }
    }

    fn base_address(&self) -> (addr: A) {
        self.start_addr
    }

    fn end_address(&self) -> (addr: A) {
        A::from_raw(self.start_addr.as_raw() + S::SIZE as u64)
    }

    fn number(&self) -> (n: usize) {
        #[verifier::truncate]
        ((self.start_addr.as_raw() / (S::SIZE as u64)) as usize)
    }
}

/// A change of the page tables that the translation cache has not seen yet.
///
/// The token is made by a change of the tables and is used up by `commit`,
/// which names the address to invalidate.
#[must_use]
pub struct FlushTlb<S: PageSize> {
    page: Virtual<S>,
}

impl<S: PageSize> FlushTlb<S> {
    /// The page whose translation is to be invalidated.
    pub closed spec fn page(&self) -> Virtual<S> {
        self.page
    }

    /// The token for a change of the mapping of `page`.
    pub fn new(page: Virtual<S>) -> (update: Self)
        ensures
            update.page() == page,
    {
        Self { page }
    }
}

impl<S: PageSize> TableUpdate for FlushTlb<S> {
    /// The linear address that the invalidation instruction takes.
    type Item = VAddr;

    fn commit(self) -> (addr: VAddr)
        ensures
            addr == self.page().start(),
    {
        self.page.start_addr
    }
}

} // verus!
