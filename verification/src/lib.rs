//! The base hardware abstraction layer: addresses, pages and frames, and the
//! page tables of `x86_64`.
use vstd::prelude::*;

pub mod cpu;
pub mod mem;
pub mod paging;
pub mod params;
pub mod util;
pub mod x64;

verus! {

/// What an architecture brings: its address and frame types and its name.
pub trait Architecture {
    /// This architecture's physical address type.
    type PAddr: mem::Address;

    /// This architecture's virtual address type.
    type VAddr: mem::Address;

    /// This architecture's physical page type.
    type Frame: mem::page::Page;

    /// The name of the architecture (for logging, etc).
    const NAME: &'static str;

    const BITS: &'static str;
}

} // verus!
