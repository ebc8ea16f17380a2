//! Equality and order of memory regions.
use vstd::prelude::*;
use vstd::std_specs::cmp::{PartialEqSpec, PartialEqSpecImpl, PartialOrdSpec, PartialOrdSpecImpl};
use core::cmp::Ordering;
use crate::mem::Region;

verus! {

/// Two regions are equal where base, size and kind are.
impl<A: PartialEq> PartialEq for Region<A> {
    fn eq(&self, other: &Self) -> (b: bool) {
        self.base_address == other.base_address && self.size == other.size && self.kind
            == other.kind
    }
}

impl<A: PartialEq> PartialEqSpecImpl for Region<A> {
    open spec fn obeys_eq_spec() -> bool {
        A::obeys_eq_spec()
    }

    open spec fn eq_spec(&self, other: &Self) -> bool {
        self.base_address.eq_spec(&other.base_address) && self.size == other.size && self.kind
            == other.kind
    }
}

/// Regions are ordered by their base address alone.
impl<A: PartialOrd> PartialOrd for Region<A> {
    fn partial_cmp(&self, other: &Self) -> (r: Option<Ordering>) {
        self.base_address.partial_cmp(&other.base_address)
    }
}

impl<A: PartialOrd> PartialOrdSpecImpl for Region<A> {
    open spec fn obeys_partial_cmp_spec() -> bool {
        A::obeys_partial_cmp_spec()
    }

    open spec fn partial_cmp_spec(&self, other: &Self) -> Option<Ordering> {
        self.base_address.partial_cmp_spec(&other.base_address)
    }
}

} // verus!
