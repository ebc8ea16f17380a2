//! What an entry of a page table offers, whatever its width.
use vstd::prelude::*;
use vstd::arithmetic::power2::is_pow2;
use core::marker::PhantomData;
use crate::mem::page::Page;
use crate::paging::{lemma_frame_by_value, PageSize, Physical};
use crate::util::{align_down_spec, is_aligned};
use crate::x64::{physical, PAddr};

verus! {

/// The alignment that an entry asks of the address it is to point to.
pub const FRAME_ALIGN: u64 = 4096;

/// Why an entry could not be read or changed.
#[derive(Debug, PartialEq, Eq, Structural, Clone, Copy)]
pub enum Error {
    /// The entry was not present.
    NotPresent,
    /// The entry's address was not aligned on a page boundary.
    NotAligned,
    /// The entry maps a huge page, so no table lies below it.
    Huge,
}

/// The flags of an entry.
pub trait Opts: Sized + Copy {
    /// The entry is mapped to a frame or a table.
    spec fn present(&self) -> bool;

    /// Writes through the entry are allowed.
    spec fn writable(&self) -> bool;

    /// Code in the mapped memory may be executed.
    spec fn executable(&self) -> bool;

    /// The entry maps a huge page instead of a table.
    spec fn huge(&self) -> bool;

    /// The flags hold nothing but flags.
    spec fn wf(&self) -> bool;

    /// These flags with presence set to `present`.
    spec fn with_present(self, present: bool) -> Self;

    /// These flags with write access set to `writable`.
    spec fn with_writable(self, writable: bool) -> Self;

    /// These flags with execution set to `executable`.
    spec fn with_executable(self, executable: bool) -> Self;

    /// Each of the three changes sets what it names and leaves the other
    /// three properties as they were.
    proof fn lemma_changes(self, value: bool)
        ensures
            self.wf() ==> self.with_present(value).wf() && self.with_writable(value).wf()
                && self.with_executable(value).wf(),
            self.with_present(value).present() == value,
            self.with_present(value).writable() == self.writable(),
            self.with_present(value).executable() == self.executable(),
            self.with_present(value).huge() == self.huge(),
            self.with_writable(value).present() == self.present(),
            self.with_writable(value).writable() == value,
            self.with_writable(value).executable() == self.executable(),
            self.with_writable(value).huge() == self.huge(),
            self.with_executable(value).present() == self.present(),
            self.with_executable(value).writable() == self.writable(),
            self.with_executable(value).executable() == value,
            self.with_executable(value).huge() == self.huge(),
    ;

    /// Returns true if this entry is mapped to a frame, or false if it is
    /// unused.
    fn is_present(&self) -> (b: bool)
        ensures
            b == self.present(),
    ;

    /// Returns true if this entry is writable.
    fn is_writable(&self) -> (b: bool)
        ensures
            b == self.writable(),
    ;

    /// Returns true if the page is executable.
    fn can_execute(&self) -> (b: bool)
        ensures
            b == self.executable(),
    ;

    /// Sets whether or not the entry is present.
    fn set_present(self, present: bool) -> (flags: Self)
        ensures
            flags == self.with_present(present),
    ;

    /// Sets whether the entry is writable.
    fn set_writable(self, writable: bool) -> (flags: Self)
        ensures
            flags == self.with_writable(writable),
    ;

    /// Sets whether the page is executable.
    fn set_executable(self, executable: bool) -> (flags: Self)
        ensures
            flags == self.with_executable(executable),
    ;
}

/// An entry of a page table as the hardware reads it.
pub trait Repr: Sized + Copy {
    type Flags: Opts;

    /// The entry's flags.
    spec fn flags_of(&self) -> Self::Flags;

    /// The address that the entry points to, whatever its flags are.
    spec fn addr_of(&self) -> PAddr;

    /// The entry that points to `addr` with `flags`.
    spec fn pointing(addr: PAddr, flags: Self::Flags) -> Self;

    /// The flags and the address of an entry are well formed, and the address
    /// is frame-aligned.
    proof fn lemma_parts(self)
        ensures
            self.flags_of().wf(),
            physical(self.addr_of().value()) == self.addr_of().value(),
            is_aligned(self.addr_of().value() as int, FRAME_ALIGN as int),
    ;

    /// An entry made from a frame-aligned address and flags gives back that
    /// address and those flags.
    proof fn lemma_pointing(addr: PAddr, flags: Self::Flags)
        requires
            physical(addr.value()) == addr.value(),
            is_aligned(addr.value() as int, FRAME_ALIGN as int),
            flags.wf(),
        ensures
            Self::pointing(addr, flags).addr_of() == addr,
            Self::pointing(addr, flags).flags_of() == flags,
    ;

    /// Access the entry's bitflags.
    fn flags(&self) -> (flags: Self::Flags)
        ensures
            flags == self.flags_of(),
            flags.wf(),
    ;

    /// Returns the physical address pointed to by this page table entry
    fn pointed_addr(&self) -> (addr: PAddr)
        ensures
            addr == self.addr_of(),
    ;

    /// Says whether a table may lie below this entry: not below a huge page.
    fn validate_as_table(&self) -> (r: Result<(), Error>)
        ensures
            r == (if self.flags_of().huge() {
                Err::<(), Error>(Error::Huge)
            } else {
                Ok::<(), Error>(())
            }),
    ;

    /// Points the entry to `addr` with `flags`, if `addr` is frame-aligned.
    fn set_addr(&mut self, addr: PAddr, flags: Self::Flags) -> (r: Result<(), Error>)
        ensures
            is_aligned(addr.value() as int, FRAME_ALIGN as int) ==> r == Ok::<(), Error>(())
                && *final(self) == Self::pointing(addr, flags),
            !is_aligned(addr.value() as int, FRAME_ALIGN as int) ==> r == Err::<(), Error>(
                Error::NotAligned,
            ) && *final(self) == *old(self),
    ;

    /// Rewrites the flags and keeps the address.
    fn set_flags(&mut self, flags: Self::Flags)
        ensures
            *final(self) == Self::pointing(old(self).addr_of(), flags),
    ;
}

/// The frame that an entry points to, or why it points to none.
pub open spec fn frame_of<S: PageSize, R: Repr>(entry: R) -> Result<Physical<S>, Error> {
    if !entry.flags_of().present() {
        Err(Error::NotPresent)
    } else if entry.flags_of().huge() {
        Err(Error::Huge)
    } else {
        Ok(
            Physical::<S>::starting_at(
                PAddr::at(
                    physical(align_down_spec(entry.addr_of().value() as int,
                        S::SIZE as int) as u64),
                ),
            ),
        )
    }
}

/// A shared view of one entry of a table that maps pages of size `S`.
pub struct Handle<'a, S: PageSize, R: Repr> {
    pub repr: &'a R,
    pub _size: PhantomData<S>,
}

/// An exclusive view of one entry of a table that maps pages of size `S`.
pub struct HandleMut<'a, S: PageSize, R: Repr> {
    pub repr: &'a mut R,
    pub _size: PhantomData<S>,
}

impl<'a, S: PageSize, R: Repr> Handle<'a, S, R> {
    /// A view of the entry `repr`.
    pub fn new(repr: &'a R) -> (handle: Self)
        ensures
            *handle.repr == *repr,
    {
        Self { repr, _size: PhantomData }
    }

    /// Access the entry's bitflags.
    pub fn flags(&self) -> (flags: R::Flags)
        ensures
            flags == self.repr.flags_of(),
    {
        self.repr.flags()
    }

    /// Returns the physical address pointed to by this page table entry
    pub fn pointed_addr(&self) -> (addr: PAddr)
        ensures
            addr == self.repr.addr_of(),
    {
        self.repr.pointed_addr()
    }

    /// Returns the frame in memory pointed to by this page table entry.
    pub fn pointed_frame(&self) -> (r: Result<Physical<S>, Error>)
        requires
            is_pow2(S::SIZE as int),
        ensures
            r == frame_of::<S, R>(*self.repr),
    {
        let flags = self.flags();
        if !flags.is_present() {
            return Err(Error::NotPresent);
        }
        match self.repr.validate_as_table() {
            Err(e) => Err(e),
            Ok(_) => {
                let frame = Physical::<S>::from_addr_down(self.pointed_addr());
                proof {
                    lemma_frame_by_value(frame, frame.start().value());
                }
                Ok(frame)
            },
        }
    }
}

impl<'a, S: PageSize, R: Repr> HandleMut<'a, S, R> {
    /// The entry as it stands.
    pub open spec fn entry(&self) -> R {
        *self.repr
    }

    /// A view of the entry `repr` through which the entry is written.
    pub fn new(repr: &'a mut R) -> (handle: Self)
        ensures
            handle.entry() == *old(repr),
            *final(handle.repr) == *final(repr),
    {
        Self { repr, _size: PhantomData }
    }

    /// Access the entry's bitflags.
    pub fn flags(&self) -> (flags: R::Flags)
        ensures
            flags == self.entry().flags_of(),
    {
        self.repr.flags()
    }

    /// Returns the physical address pointed to by this page table entry
    pub fn pointed_addr(&self) -> (addr: PAddr)
        ensures
            addr == self.entry().addr_of(),
    {
        self.repr.pointed_addr()
    }

    /// Returns the frame in memory pointed to by this page table entry.
    pub fn pointed_frame(&self) -> (r: Result<Physical<S>, Error>)
        requires
            is_pow2(S::SIZE as int),
        ensures
            r == frame_of::<S, R>(self.entry()),
    {
        let flags = self.flags();
        if !flags.is_present() {
            return Err(Error::NotPresent);
        }
        match self.repr.validate_as_table() {
            Err(e) => Err(e),
            Ok(_) => {
                let frame = Physical::<S>::from_addr_down(self.pointed_addr());
                proof {
                    lemma_frame_by_value(frame, frame.start().value());
                }
                Ok(frame)
            },
        }
    }

    /// Points the entry to `addr` with `flags`, if `addr` is frame-aligned.
    pub fn set_addr(&mut self, addr: PAddr, flags: R::Flags) -> (r: Result<(), Error>)
        ensures
            *final(final(self).repr) == *final(old(self).repr),
            is_aligned(addr.value() as int, FRAME_ALIGN as int) ==> r == Ok::<(), Error>(())
                && final(self).entry() == R::pointing(addr, flags),
            !is_aligned(addr.value() as int, FRAME_ALIGN as int) ==> r == Err::<(), Error>(
                Error::NotAligned,
            ) && final(self).entry() == old(self).entry(),
    {
        self.repr.set_addr(addr, flags)
    }

    /// Points the entry to `frame` with `flags`, unless the entry maps a huge
    /// page or the frame does not start on a frame boundary.
    pub fn set_frame(&mut self, frame: Physical<S>, flags: R::Flags) -> (r: Result<(), Error>)
        ensures
            *final(final(self).repr) == *final(old(self).repr),
            r == set_frame_result::<S, R>(old(self).entry(), frame),
            final(self).entry() == set_frame_entry::<S, R>(old(self).entry(), frame, flags),
    {
        match self.repr.validate_as_table() {
            Err(e) => Err(e),
            Ok(_) => self.set_addr(frame.base_address(), flags),
        }
    }
}

/// What setting a frame on `entry` answers.
pub open spec fn set_frame_result<S: PageSize, R: Repr>(entry: R, frame: Physical<S>) -> Result<
    (),
    Error,
> {
    if entry.flags_of().huge() {
        Err(Error::Huge)
    } else if !is_aligned(frame.start().value() as int, FRAME_ALIGN as int) {
        Err(Error::NotAligned)
    } else {
        Ok(())
    }
}

/// The entry that setting a frame on `entry` leaves.
pub open spec fn set_frame_entry<S: PageSize, R: Repr>(
    entry: R,
    frame: Physical<S>,
    flags: R::Flags,
) -> R {
    if set_frame_result::<S, R>(entry, frame) is Ok {
        R::pointing(frame.start(), flags)
    } else {
        entry
    }
}

} // verus!
