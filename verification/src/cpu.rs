//! Bringing up a CPU and its interrupts.
use vstd::prelude::*;
use crate::params::BootParams;
use crate::Architecture;

verus! {

/// A processor that the kernel can bring up.
pub trait Cpu: Sized {
    /// The architecture of the processor.
    type Arch: Architecture;

    /// Identifier for a given CPU.
    type Id;

    /// Error returned by CPU initialization.
    type InitError;

    fn init<P: BootParams<Arch = Self::Arch>>(params: &P, id: Self::Id) -> Result<
        Self,
        Self::InitError,
    >;
}

/// Controls CPU interrupts.
pub trait IrqCtrl: Sized {
    type Arch: Architecture;

    /// Error returned by interrupt initialization.
    type InitError;

    /// Initializes interrupts.
    fn init<P: BootParams<Arch = Self::Arch>>(params: &P) -> Result<(), Self::InitError>;

    /// Enables interrupts.
    fn enable(&mut self);

    /// Disables interrupts.
    fn disable_irq(&mut self);

    /// Returns `true` if interrupts are enabled.
    fn is_enabled(&self) -> bool;
}

} // verus!
