//! Paging on `x86_64`.
use vstd::prelude::*;
use vstd::arithmetic::power2::is_pow2;
use crate::paging::PageSize;
use crate::util::lemma_page_alignments;

pub mod table;

verus! {

/// 1 gigabyte "huge" pages.
#[derive(Clone, Copy, PartialEq, Eq, PartialOrd, Ord)]
pub struct Size1Gb;

impl PageSize for Size1Gb {
    const SIZE: usize = 1024 * 1024 * 1024;
}

/// The size of a huge page in bytes, a power of two.
pub proof fn lemma_huge_page_size()
    ensures
        Size1Gb::SIZE == 0x4000_0000,
        is_pow2(0x4000_0000),
{
    lemma_page_alignments();
}

} // verus!
