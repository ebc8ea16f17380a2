//! The levels of the `x86_64` page tables.
use vstd::prelude::*;
use crate::paging::table::{HoldsSize, Level, Pd, Sublevel};
use crate::paging::{Size2Mb, Size4Kb};
use crate::x64::page::Size1Gb;

verus! {

/// Marker for page directory meta-level 4 (level 4) page tables.
#[derive(Copy, Clone, Debug, Eq, PartialEq)]
pub struct Pml4;

/// Marker for page directory pointer table (level 3) page tables.
#[derive(Copy, Clone, Debug, Eq, PartialEq)]
pub struct Pdpt;

impl Level for Pml4 {
    const ADDR_SHIFT: usize = 39;

    const INDEX_MASK: usize = 0o777;
}

impl Sublevel for Pml4 {
    type Next = Pdpt;
}

impl HoldsSize<Size4Kb> for Pml4 {
}

impl HoldsSize<Size2Mb> for Pml4 {
}

impl HoldsSize<Size1Gb> for Pml4 {
}

impl Level for Pdpt {
    const ADDR_SHIFT: usize = 30;

    const INDEX_MASK: usize = 0o777;
}

impl Sublevel for Pdpt {
    type Next = Pd;
}

impl HoldsSize<Size4Kb> for Pdpt {
}

impl HoldsSize<Size2Mb> for Pdpt {
}

impl HoldsSize<Size1Gb> for Pdpt {
}

/// The shift and the index mask of the two upper levels.
pub proof fn lemma_upper_levels()
    ensures
        Pml4::ADDR_SHIFT == 39,
        Pml4::INDEX_MASK == 0x1ff,
        Pdpt::ADDR_SHIFT == 30,
        Pdpt::INDEX_MASK == 0x1ff,
{
}

} // verus!
