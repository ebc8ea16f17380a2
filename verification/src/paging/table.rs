//! Page tables: 512 entries each, in levels, each level with its slice of a
//! virtual address.
use vstd::prelude::*;
use core::marker::PhantomData;
use std::collections::HashMap;
use crate::mem::page::{FrameAllocator, MapError, Page};
use crate::paging::entry::{Error, Handle, HandleMut, Opts, Repr, FRAME_ALIGN};
use crate::paging::{lemma_page_sizes, PageSize, Physical, Size2Mb, Size4Kb, Virtual};
use crate::util::is_aligned;
use crate::x64::{canonical, PAddr, VAddr};

verus! {

/// The number of entries in a table.
pub const NUM_ENTRIES: usize = 512;

/// Marker indicating a page table level.
pub trait Level {
    /// How much to shift an address by to find its index in this table.
    const ADDR_SHIFT: usize;

    /// Mask for indices
    const INDEX_MASK: usize = 0o777;
}

/// A level below which another level lies.
pub trait Sublevel: Level {
    type Next: Level;
}

/// A level on or below which pages of size `S` are mapped.
pub trait HoldsSize<S: PageSize>: Level {
}

/// The slice of the address `value` that indexes a table whose level shifts
/// by `shift` and masks with `mask`.
pub open spec fn index_at(value: u64, shift: usize, mask: usize) -> usize {
    ((value >> (shift as u64)) & (mask as u64)) as usize
}

/// Trait implemented by `Level` for types which can index a page.
pub trait IndexedBy<I> {
    /// The index that `idx` stands for.
    spec fn index_spec(idx: &I) -> usize;

    /// The level can take an index from `idx`.
    spec fn indexable(idx: &I) -> bool;

    /// The index into a table of this level that `idx` stands for.
    fn index_of(idx: &I) -> (index: usize)
        requires
            Self::indexable(idx),
        ensures
            index == Self::index_spec(idx),
            index < NUM_ENTRIES,
    ;
}

impl<T: Level> IndexedBy<VAddr> for T {
    open spec fn index_spec(addr: &VAddr) -> usize {
        index_at(addr.value(), Self::ADDR_SHIFT, Self::INDEX_MASK)
    }

    open spec fn indexable(addr: &VAddr) -> bool {
        Self::ADDR_SHIFT < 64 && Self::INDEX_MASK < NUM_ENTRIES
    }

    fn index_of(addr: &VAddr) -> (index: usize) {
        let shifted = addr.as_u64() >> (Self::ADDR_SHIFT as u64);
        let mask = Self::INDEX_MASK as u64;
        let index = shifted & mask;
        assert(index <= mask) by (bit_vector)
            requires
                index == shifted & mask,
        ;
        index as usize
    }
}

impl<T, S> IndexedBy<Virtual<S>> for T where T: Level + HoldsSize<S>, S: PageSize {
    open spec fn index_spec(page: &Virtual<S>) -> usize {
        index_at(page.start().value(), Self::ADDR_SHIFT, Self::INDEX_MASK)
    }

    open spec fn indexable(page: &Virtual<S>) -> bool {
        Self::ADDR_SHIFT < 64 && Self::INDEX_MASK < NUM_ENTRIES
    }

    fn index_of(page: &Virtual<S>) -> (index: usize) {
        <T as IndexedBy<VAddr>>::index_of(&page.base_address())
    }
}

impl<T: Level> IndexedBy<usize> for T {
    open spec fn index_spec(idx: &usize) -> usize {
        *idx
    }

    open spec fn indexable(idx: &usize) -> bool {
        *idx < NUM_ENTRIES
    }

    /// Indexing a table by a `usize` just gets positional indices.
    fn index_of(idx: &usize) -> (index: usize) {
        *idx
    }
}

/// Marker for page directory (level 2) page tables.
#[derive(Copy, Clone, Debug, Eq, PartialEq)]
pub struct Pd;

/// Marker for page table (level 1) page tables.
#[derive(Copy, Clone, Debug, Eq, PartialEq)]
pub struct Pt;

impl Level for Pd {
    const ADDR_SHIFT: usize = 21;

    const INDEX_MASK: usize = 0o777;
}

impl Sublevel for Pd {
    type Next = Pt;
}

impl HoldsSize<Size4Kb> for Pd {
}

impl HoldsSize<Size2Mb> for Pd {
}

impl Level for Pt {
    const ADDR_SHIFT: usize = 12;

    const INDEX_MASK: usize = 0o777;
}

impl HoldsSize<Size4Kb> for Pt {
}

/// The shift and the index mask of the two lower levels.
pub proof fn lemma_lower_levels()
    ensures
        Pd::ADDR_SHIFT == 21,
        Pd::INDEX_MASK == 0x1ff,
        Pt::ADDR_SHIFT == 12,
        Pt::INDEX_MASK == 0x1ff,
{
}

/// The entry `entry` with its presence cleared: what zeroing a table leaves
/// of it.
pub open spec fn cleared<E: Repr>(entry: E) -> E {
    E::pointing(entry.addr_of(), entry.flags_of().with_present(false))
}

/// A cleared entry is not present; its address and its other properties
/// are those of the entry.
pub proof fn lemma_cleared<E: Repr>(entry: E)
    ensures
        !cleared(entry).flags_of().present(),
        cleared(entry).flags_of() == entry.flags_of().with_present(false),
        cleared(entry).flags_of().huge() == entry.flags_of().huge(),
        cleared(entry).flags_of().writable() == entry.flags_of().writable(),
        cleared(entry).flags_of().executable() == entry.flags_of().executable(),
        cleared(entry).addr_of() == entry.addr_of(),
{
    entry.lemma_parts();
    entry.flags_of().lemma_changes(false);
    E::lemma_pointing(entry.addr_of(), entry.flags_of().with_present(false));
}

/// The address at which the table below entry `i` of the table at `table`
/// is visible, when the root table is mapped into one of its own entries.
pub open spec fn child_address(table: VAddr, i: usize) -> VAddr {
    VAddr::at(child_value(table.value(), i as u64))
}

/// The number of the address of the table below entry `i` of the table whose
/// address has the number `table`.
pub open spec fn child_value(table: u64, i: u64) -> u64 {
    canonical((table << 9) | (i << 12))
}

/// A page table: its entries, and the address at which it is visible.
pub struct Table<E, L: Level> {
    entries: [E; NUM_ENTRIES],
    addr: VAddr,
    _level: PhantomData<L>,
}

impl<E: Repr, L: Level> Table<E, L> {
    /// The entries of the table, in order.
    pub closed spec fn view(&self) -> Seq<E> {
        self.entries@
    }

    /// The address at which the table is visible.
    pub closed spec fn address(&self) -> VAddr {
        self.addr
    }

    /// A table has `NUM_ENTRIES` entries.
    pub broadcast proof fn lemma_len(&self)
        ensures
            #[trigger] self@.len() == NUM_ENTRIES,
    {
    }

    /// Two tables with the same entries at the same address are the same.
    pub proof fn lemma_same(a: Self, b: Self)
        requires
            a@ == b@,
            a.address() == b.address(),
        ensures
            a == b,
    {
        assert(a.entries == b.entries);
    }

    /// The table at `addr` whose entries all equal `entry`.
    pub fn filled(addr: VAddr, entry: E) -> (table: Self)
        ensures
            table.address() == addr,
            table@ == Seq::new(NUM_ENTRIES as nat, |i: int| entry),
    {
        let table = Table { entries: [entry;NUM_ENTRIES], addr, _level: PhantomData };
        table
    }

    /// The address at which the table is visible.
    pub fn location(&self) -> (addr: VAddr)
        ensures
            addr == self.address(),
    {
        self.addr
    }

    /// The entry that `i` indexes.
    pub fn index<I>(&self, i: &I) -> (entry: &E) where L: IndexedBy<I>
        requires
            L::indexable(i),
        ensures
            *entry == self@[L::index_spec(i) as int],
    {
        &self.entries[L::index_of(i)]
    }

    /// The entry that `i` indexes, for writing.
    pub fn index_mut<I>(&mut self, i: &I) -> (entry: &mut E) where L: IndexedBy<I>
        requires
            L::indexable(i),
        ensures
            *entry == old(self)@[L::index_spec(i) as int],
            final(self)@ == old(self)@.update(L::index_spec(i) as int, *final(entry)),
            final(self).address() == old(self).address(),
    {
        &mut self.entries[L::index_of(i)]
    }

    /// Clears the presence of every entry.
    pub fn zero(&mut self)
        ensures
            final(self).address() == old(self).address(),
            final(self)@ == old(self)@.map_values(|e: E| cleared(e)),
    {
        let mut i: usize = 0;
        while i < NUM_ENTRIES
            invariant
                i <= NUM_ENTRIES,
                self.addr == old(self).addr,
                forall|j: int| 0 <= j < i ==> self.entries@[j] == cleared(old(self).entries@[j]),
                forall|j: int| i <= j < NUM_ENTRIES ==> self.entries@[j] == old(self).entries@[j],
            decreases NUM_ENTRIES - i,
        {
            let flags = self.entries[i].flags().set_present(false);
            self.entries[i].set_flags(flags);
            i += 1;
        }
    }
}

/// A shared view of an entry.
pub type Entry<'a, S, R> = Handle<'a, S, R>;

/// An exclusive view of an entry.
pub type EntryMut<'a, S, R> = HandleMut<'a, S, R>;

/// A table from which the entries that map pages of size `S` are reached:
/// they lie in the table itself, or in a table of a level below it.
pub trait GetEntry<S: PageSize, R: Repr>: Sized {
    /// The level of the table.
    type Level: HoldsSize<S>;

    /// The level of the table in which the entries lie.
    type Last: HoldsSize<S>;

    /// The memory of the tables that lie between this table and the
    /// entries: nothing where the entries lie in this table.
    type Below;

    /// The memory below is fit for use with this table.
    spec fn ready(&self, below: &Self::Below) -> bool;

    /// The entry that is reached by the index `at` into this table and the
    /// index `last` into the table of the entries, if the way to it is
    /// there.
    spec fn slot(&self, below: &Self::Below, at: usize, last: usize) -> Option<R>;

    /// A table has to be made before an entry below the index `at` into
    /// this table is reached.
    spec fn lacks_table(&self, at: usize) -> bool;

    /// Why no entry can be reached below the index `at` into this table,
    /// whatever is made: because a huge page is mapped there.
    spec fn barred(&self, at: usize) -> Option<Error>;

    /// `after` and `after_below` are this table and the memory below it when
    /// the entry that `at` and `last` lead to has been left as `entry`.
    spec fn left_as(
        &self,
        below: &Self::Below,
        at: usize,
        last: usize,
        entry: R,
        after: &Self,
        after_below: &Self::Below,
    ) -> bool;

    /// The entry that maps what `i` indexes: `Some` exactly where the way
    /// to it is there.
    fn entry<'a, I>(&'a self, i: &I, below: &'a Self::Below) -> (r: Option<Entry<'a, S, R>>) where
        Self::Level: IndexedBy<I>,
        Self::Last: IndexedBy<I>,

        requires
            Self::Level::indexable(i),
            Self::Last::indexable(i),
            self.ready(below),
        ensures
            match (self.slot(below, Self::Level::index_spec(i), Self::Last::index_spec(i)), r) {
                (Some(entry), Some(handle)) => *handle.repr == entry,
                (None, None) => true,
                _ => false,
            },
    ;

    /// The entry that maps what `i` indexes, for writing: `Some` exactly
    /// where the way to it is there.
    fn entry_mut<'a, I>(&'a mut self, i: &I, below: &'a mut Self::Below) -> (r: Option<
        EntryMut<'a, S, R>,
    >) where Self::Level: IndexedBy<I>, Self::Last: IndexedBy<I>
        requires
            Self::Level::indexable(i),
            Self::Last::indexable(i),
            old(self).ready(old(below)),
        ensures
            match (old(self).slot(
                old(below),
                Self::Level::index_spec(i),
                Self::Last::index_spec(i),
            ), r) {
                (Some(entry), Some(handle)) => handle.entry() == entry && old(self).left_as(
                    old(below),
                    Self::Level::index_spec(i),
                    Self::Last::index_spec(i),
                    *final(handle.repr),
                    final(self),
                    final(below),
                ),
                (None, None) => *final(self) == *old(self) && *final(below) == *old(below),
                _ => false,
            },
    ;

    /// The entry that maps what `i` indexes, for writing; the table that it
    /// lies in is made first where it is missing, in a frame from `alloc`,
    /// which is left alone where no table has to be made.
    fn get_or_create_entry<'a, I, A>(
        &'a mut self,
        i: &I,
        below: &'a mut Self::Below,
        alloc: &mut A,
    ) -> (r: Result<EntryMut<'a, S, R>, MapError<A, Error>>) where
        Self::Level: IndexedBy<I>,
        Self::Last: IndexedBy<I>,
        A: FrameAllocator<Frame = Physical<Size4Kb>>,

        requires
            Self::Level::indexable(i),
            Self::Last::indexable(i),
            old(self).ready(old(below)),
        ensures
            !old(self).lacks_table(Self::Level::index_spec(i)) ==> *final(alloc) == *old(alloc),
            old(self).barred(Self::Level::index_spec(i)) matches Some(e) ==> r matches Err(
                MapError::Other(x),
            ) && x == e,
            match r {
                Ok(handle) => match old(self).slot(
                    old(below),
                    Self::Level::index_spec(i),
                    Self::Last::index_spec(i),
                ) {
                    Some(entry) => handle.entry() == entry && old(self).left_as(
                        old(below),
                        Self::Level::index_spec(i),
                        Self::Last::index_spec(i),
                        *final(handle.repr),
                        final(self),
                        final(below),
                    ),
                    None => old(self).lacks_table(Self::Level::index_spec(i))
                        && !handle.entry().flags_of().present(),
                },
                Err(MapError::Other(e)) => old(self).barred(Self::Level::index_spec(i)) == Some(e),
                Err(MapError::Alloc(_)) => old(self).lacks_table(Self::Level::index_spec(i)),
                Err(MapError::AlreadyMapped) => false,
            },
    ;
}

impl<R: Repr> GetEntry<Size2Mb, R> for Table<R, Pd> {
    type Level = Pd;

    type Last = Pd;

    type Below = ();

    open spec fn ready(&self, below: &()) -> bool {
        true
    }

    open spec fn slot(&self, below: &(), at: usize, last: usize) -> Option<R> {
        Some(self@[at as int])
    }

    open spec fn lacks_table(&self, at: usize) -> bool {
        false
    }

    open spec fn barred(&self, at: usize) -> Option<Error> {
        None
    }

    open spec fn left_as(
        &self,
        below: &(),
        at: usize,
        last: usize,
        entry: R,
        after: &Self,
        after_below: &(),
    ) -> bool {
        after.address() == self.address() && after@ =~= self@.update(at as int, entry)
    }

    fn entry<'a, I>(&'a self, i: &I, below: &'a ()) -> (r: Option<Entry<'a, Size2Mb, R>>) where
        Pd: IndexedBy<I>,
     {
        Some(Handle::new(self.index(i)))
    }

    fn entry_mut<'a, I>(&'a mut self, i: &I, below: &'a mut ()) -> (r: Option<
        EntryMut<'a, Size2Mb, R>,
    >) where Pd: IndexedBy<I> {
        Some(HandleMut::new(self.index_mut(i)))
    }

    fn get_or_create_entry<'a, I, A>(&'a mut self, i: &I, below: &'a mut (), alloc: &mut A) -> (r:
        Result<EntryMut<'a, Size2Mb, R>, MapError<A, Error>>) where
        Pd: IndexedBy<I>,
        A: FrameAllocator<Frame = Physical<Size4Kb>>,
     {
        Ok(HandleMut::new(self.index_mut(i)))
    }
}

impl<R: Repr> GetEntry<Size4Kb, R> for Table<R, Pt> {
    type Level = Pt;

    type Last = Pt;

    type Below = ();

    open spec fn ready(&self, below: &()) -> bool {
        true
    }

    open spec fn slot(&self, below: &(), at: usize, last: usize) -> Option<R> {
        Some(self@[at as int])
    }

    open spec fn lacks_table(&self, at: usize) -> bool {
        false
    }

    open spec fn barred(&self, at: usize) -> Option<Error> {
        None
    }

    open spec fn left_as(
        &self,
        below: &(),
        at: usize,
        last: usize,
        entry: R,
        after: &Self,
        after_below: &(),
    ) -> bool {
        after.address() == self.address() && after@ =~= self@.update(at as int, entry)
    }

    fn entry<'a, I>(&'a self, i: &I, below: &'a ()) -> (r: Option<Entry<'a, Size4Kb, R>>) where
        Pt: IndexedBy<I>,
     {
        Some(Handle::new(self.index(i)))
    }

    fn entry_mut<'a, I>(&'a mut self, i: &I, below: &'a mut ()) -> (r: Option<
        EntryMut<'a, Size4Kb, R>,
    >) where Pt: IndexedBy<I> {
        Some(HandleMut::new(self.index_mut(i)))
    }

    fn get_or_create_entry<'a, I, A>(&'a mut self, i: &I, below: &'a mut (), alloc: &mut A) -> (r:
        Result<EntryMut<'a, Size4Kb, R>, MapError<A, Error>>) where
        Pt: IndexedBy<I>,
        A: FrameAllocator<Frame = Physical<Size4Kb>>,
     {
        Ok(HandleMut::new(self.index_mut(i)))
    }
}

/// From a page directory the entries of 4 KiB pages are reached through
/// the tables of the last level, which lie in the memory below it.
impl<R: Repr> GetEntry<Size4Kb, R> for Table<R, Pd> {
    type Level = Pd;

    type Last = Pt;

    type Below = Tables<R, Pt>;

    open spec fn ready(&self, below: &Tables<R, Pt>) -> bool {
        below.wf() && self.linked(below)
    }

    open spec fn slot(&self, below: &Tables<R, Pt>, at: usize, last: usize) -> Option<R> {
        let entry = self@[at as int];
        if entry.flags_of().present() && !entry.flags_of().huge() {
            Some(below.read(child_address(self.address(), at))[last as int])
        } else {
            None
        }
    }

    open spec fn lacks_table(&self, at: usize) -> bool {
        self.needs_frame(at)
    }

    open spec fn barred(&self, at: usize) -> Option<Error> {
        if self@[at as int].flags_of().huge() {
            Some(Error::Huge)
        } else {
            None
        }
    }

    open spec fn left_as(
        &self,
        below: &Tables<R, Pt>,
        at: usize,
        last: usize,
        entry: R,
        after: &Self,
        after_below: &Tables<R, Pt>,
    ) -> bool {
        let child = child_address(self.address(), at);
        &&& after.address() == self.address()
        &&& after@ == self@
        &&& after_below.wf()
        &&& after_below.blank() == below.blank()
        &&& after_below@ =~= below@.insert(
            child.value(),
            below.read(child).update(last as int, entry),
        )
    }

    fn entry<'a, I>(&'a self, i: &I, below: &'a Tables<R, Pt>) -> (r: Option<
        Entry<'a, Size4Kb, R>,
    >) where Pd: IndexedBy<I>, Pt: IndexedBy<I> {
        match self.index(i).validate_as_table() {
            Err(_) => None,
            Ok(_) => match self.next_table(i, below) {
                None => None,
                Some(next) => Some(Handle::new(next.index(i))),
            },
        }
    }

    fn entry_mut<'a, I>(&'a mut self, i: &I, below: &'a mut Tables<R, Pt>) -> (r: Option<
        EntryMut<'a, Size4Kb, R>,
    >) where Pd: IndexedBy<I>, Pt: IndexedBy<I> {
        match self.index(i).validate_as_table() {
            Err(_) => None,
            Ok(_) => match self.next_table_mut(i, below) {
                None => None,
                Some(next) => Some(HandleMut::new(next.index_mut(i))),
            },
        }
    }

    fn get_or_create_entry<'a, I, A>(
        &'a mut self,
        i: &I,
        below: &'a mut Tables<R, Pt>,
        alloc: &mut A,
    ) -> (r: Result<EntryMut<'a, Size4Kb, R>, MapError<A, Error>>) where
        Pd: IndexedBy<I>,
        Pt: IndexedBy<I>,
        A: FrameAllocator<Frame = Physical<Size4Kb>>,
     {
        proof {
            self.lemma_len();
            assert forall|e: R| !(#[trigger] cleared(e)).flags_of().present() by {
                lemma_cleared(e);
            }
            let child = child_address(self.address(), Pd::index_spec(i));
            if below@.contains_key(child.value()) {
                below.lemma_lens(child.value());
            }
        }
        let ghost before = *below;
        let ghost made = self.needs_frame(Pd::index_spec(i));
        let ghost child = child_address(self.address(), Pd::index_spec(i));
        match self.create_next(i, below, alloc) {
            Err(e) => Err(e),
            Ok(next) => {
                let last = <Pt as IndexedBy<I>>::index_of(i);
                proof {
                    next.lemma_len();
                    if made {
                        assert(next@[last as int] == cleared(before.read(child)[last as int]));
                    }
                }
                Ok(HandleMut::new(next.index_mut(i)))
            },
        }
    }
}

/// The address at which the table below entry `i` of the table at `table`
/// is visible.
pub fn child_of(table: VAddr, i: usize) -> (child: VAddr)
    ensures
        child == child_address(table, i),
{
    let child = VAddr::new((table.as_u64() << 9) | ((i as u64) << 12));
    proof {
        VAddr::lemma_at_value(child_value(table.value(), i as u64));
        VAddr::lemma_value_injective(child, child_address(table, i));
    }
    child
}

/// The entry that comes to stand where `entry` stood when a table in the
/// frame at `addr` is put below it: present and writable.
pub open spec fn linked_entry<E: Repr>(entry: E, addr: PAddr) -> E {
    E::pointing(addr, entry.flags_of().with_present(true).with_writable(true))
}

/// An entry below which a table was put is present and writable and points
/// to the table's frame; its other properties are those of the entry before.
pub proof fn lemma_linked_entry<E: Repr>(entry: E, addr: PAddr)
    requires
        addr.is_physical(),
        is_aligned(addr.value() as int, FRAME_ALIGN as int),
    ensures
        linked_entry(entry, addr).flags_of().present(),
        linked_entry(entry, addr).flags_of().writable(),
        linked_entry(entry, addr).flags_of().huge() == entry.flags_of().huge(),
        linked_entry(entry, addr).flags_of().executable() == entry.flags_of().executable(),
        linked_entry(entry, addr).addr_of() == addr,
{
    entry.lemma_parts();
    entry.flags_of().lemma_changes(true);
    entry.flags_of().with_present(true).lemma_changes(true);
    E::lemma_pointing(addr, entry.flags_of().with_present(true).with_writable(true));
}

impl<E: Repr, L: Sublevel> Table<E, L> {
    /// The address at which the table below entry `i` is visible, if that
    /// entry is present.
    pub open spec fn next_address(&self, i: usize) -> Option<VAddr> {
        if self@[i as int].flags_of().present() {
            Some(child_address(self.address(), i))
        } else {
            None
        }
    }

    /// Below each present entry of this table a table stands in `below`.
    pub open spec fn linked(&self, below: &Tables<E, L::Next>) -> bool {
        forall|i: usize|
            i < NUM_ENTRIES && (#[trigger] self@[i as int]).flags_of().present()
                ==> below@.contains_key(child_address(self.address(), i).value())
    }

    /// Entry `i` neither leads to a table nor maps a huge page: to go below
    /// it, a table must be made, in a frame of its own.
    pub open spec fn needs_frame(&self, i: usize) -> bool {
        !self@[i as int].flags_of().huge() && !self@[i as int].flags_of().present()
    }

    /// Making the table below an entry is done once: when a table was put
    /// below entry `i`, that entry needs no frame any more, and it leads to
    /// the table at the same address ever after.
    pub proof fn lemma_create_once(before: Self, after: Self, i: usize, addr: PAddr)
        requires
            i < NUM_ENTRIES,
            before.needs_frame(i),
            addr.is_physical(),
            is_aligned(addr.value() as int, FRAME_ALIGN as int),
            after@ == before@.update(i as int, linked_entry(before@[i as int], addr)),
            after.address() == before.address(),
        ensures
            !after.needs_frame(i),
            after.next_address(i) == Some(child_address(before.address(), i)),
    {
        before.lemma_len();
        lemma_linked_entry(before@[i as int], addr);
    }

    /// Returns the address of the next table, or None if none exists.
    pub fn next_table_addr(&self, i: usize) -> (r: Option<VAddr>)
        requires
            i < NUM_ENTRIES,
        ensures
            r == self.next_address(i),
    {
        if self.entries[i].flags().is_present() {
            Some(child_of(self.addr, i))
        } else {
            None
        }
    }

    /// Returns the next table, or `None` if none exists: if the entry is not
    /// present.
    pub fn next_table<'a, I>(&self, i: &I, below: &'a Tables<E, L::Next>) -> (r: Option<
        &'a Table<E, L::Next>,
    >) where L: IndexedBy<I>
        requires
            L::indexable(i),
            below.wf(),
            self.linked(below),
        ensures
            match (self.next_address(L::index_spec(i)), r) {
                (Some(addr), Some(t)) => below.holds(addr, *t),
                (None, None) => true,
                _ => false,
            },
    {
        proof {
            self.lemma_len();
        }
        match self.next_table_addr(L::index_of(i)) {
            Some(addr) => below.get(addr),
            None => None,
        }
    }

    /// Mutably borrows the next table, if the entry is present.
    pub fn next_table_mut<'a, I>(&self, i: &I, below: &'a mut Tables<E, L::Next>) -> (r: Option<
        &'a mut Table<E, L::Next>,
    >) where L: IndexedBy<I>
        requires
            L::indexable(i),
            old(below).wf(),
            self.linked(old(below)),
        ensures
            match (self.next_address(L::index_spec(i)), r) {
                (Some(addr), Some(t)) => old(below).holds(addr, *t) && old(below).written(
                    *final(below),
                    addr,
                    *final(t),
                ),
                (None, None) => *final(below) == *old(below),
                _ => false,
            },
    {
        proof {
            self.lemma_len();
        }
        match self.next_table_addr(L::index_of(i)) {
            Some(addr) => below.get_mut(addr),
            None => None,
        }
    }

    /// Puts a table below entry `i`, in the frame that an allocator answered
    /// with, and hands out that table with every entry cleared; or hands on
    /// the allocator's failure.
    pub fn link_next<'a, A>(
        &mut self,
        i: usize,
        below: &'a mut Tables<E, L::Next>,
        answer: Result<Physical<Size4Kb>, A::Error>,
    ) -> (r: Result<&'a mut Table<E, L::Next>, MapError<A, Error>>) where
        A: FrameAllocator<Frame = Physical<Size4Kb>>,

        requires
            i < NUM_ENTRIES,
            old(below).wf(),
        ensures
            final(self).address() == old(self).address(),
            match answer {
                Err(e) => {
                    &&& r matches Err(MapError::Alloc(x)) && x == e
                    &&& final(self)@ == old(self)@
                    &&& *final(below) == *old(below)
                },
                Ok(frame) => {
                    let child = child_address(old(self).address(), i);
                    &&& r matches Ok(t) && t.address() == child && t@ == old(below).read(
                        child,
                    ).map_values(|e: E| cleared(e)) && old(below).written(
                        *final(below),
                        child,
                        *final(t),
                    )
                    &&& final(self)@ == old(self)@.update(
                        i as int,
                        linked_entry(old(self)@[i as int], frame.start()),
                    )
                    &&& final(self)@[i as int].addr_of() == frame.start()
                    &&& final(self)@[i as int].flags_of()
                        == old(self)@[i as int].flags_of().with_present(true).with_writable(true)
                    &&& frame.start().is_physical()
                    &&& is_aligned(frame.start().value() as int, FRAME_ALIGN as int)
                },
            },
    {
        match answer {
            Err(e) => Err(MapError::Alloc(e)),
            Ok(frame) => {
                let entry = &mut self.entries[i];
                let flags = entry.flags().set_present(true).set_writable(true);
                let addr = frame.base_address();
                proof {
                    use_type_invariant(&addr);
                    use_type_invariant(&frame);
                    lemma_page_sizes();
                    entry.flags_of().lemma_changes(true);
                    entry.flags_of().with_present(true).lemma_changes(true);
                    E::lemma_pointing(addr, flags);
                }
                match entry.set_addr(addr, flags) {
                    Err(e) => Err(MapError::Other(e)),
                    Ok(_) => {
                        let table = below.install(child_of(self.addr, i));
                        table.zero();
                        Ok(table)
                    },
                }
            },
        }
    }

    /// Returns the next table, creating it if it does not exist: in the
    /// frame that the first of `answers` holds. That answer is what an
    /// allocator said when asked for a frame; it is taken out of `answers`
    /// only where a table has to be made.
    pub fn create_next_with<'a, A, I>(
        &mut self,
        i: &I,
        below: &'a mut Tables<E, L::Next>,
        answers: &mut Vec<Result<Physical<Size4Kb>, A::Error>>,
    ) -> (r: Result<&'a mut Table<E, L::Next>, MapError<A, Error>>) where
        L: IndexedBy<I>,
        A: FrameAllocator<Frame = Physical<Size4Kb>>,

        requires
            L::indexable(i),
            old(below).wf(),
            old(self).needs_frame(L::index_spec(i)) ==> old(answers)@.len() > 0,
        ensures
            final(self).address() == old(self).address(),
            r matches Ok(t) ==> !final(self).needs_frame(L::index_spec(i))
                && final(self).next_address(L::index_spec(i)) == Some(t.address()),
            ({
                let idx = L::index_spec(i);
                let entry = old(self)@[idx as int];
                let child = child_address(old(self).address(), idx);
                if entry.flags_of().huge() {
                    &&& r matches Err(MapError::Other(err)) && err == Error::Huge
                    &&& final(self)@ == old(self)@
                    &&& *final(below) == *old(below)
                    &&& final(answers)@ == old(answers)@
                } else if entry.flags_of().present() {
                    &&& r matches Ok(t) && t.address() == child && t@ == old(below).read(child)
                        && old(below).written(*final(below), child, *final(t))
                    &&& final(self)@ == old(self)@
                    &&& final(answers)@ == old(answers)@
                } else {
                    &&& final(answers)@ == old(answers)@.remove(0)
                    &&& match old(answers)@[0] {
                        Err(e) => {
                            &&& r matches Err(MapError::Alloc(x)) && x == e
                            &&& final(self)@ == old(self)@
                            &&& *final(below) == *old(below)
                        },
                        Ok(frame) => {
                            &&& r matches Ok(t) && t.address() == child && t@ == old(below).read(
                                child,
                            ).map_values(|e: E| cleared(e)) && old(below).written(
                                *final(below),
                                child,
                                *final(t),
                            )
                            &&& final(self)@ == old(self)@.update(
                                idx as int,
                                linked_entry(entry, frame.start()),
                            )
                            &&& frame.start().is_physical()
                            &&& is_aligned(frame.start().value() as int, FRAME_ALIGN as int)
                        },
                    }
                }
            }),
    {
        let idx = L::index_of(i);
        proof {
            self.lemma_len();
            self@[idx as int].flags_of().lemma_changes(true);
            self@[idx as int].flags_of().with_present(true).lemma_changes(true);
        }
        match self.entries[idx].validate_as_table() {
            Err(e) => {
                return Err(MapError::Other(e));
            },
            Ok(_) => {},
        }
        if self.entries[idx].flags().is_present() {
            return Ok(below.install(child_of(self.addr, idx)));
        }
        let answer = answers.remove(0);
        self.link_next::<A>(idx, below, answer)
    }

    /// Returns the next table, creating it if it does not exist.
    pub fn create_next<'a, A, I>(
        &mut self,
        i: &I,
        below: &'a mut Tables<E, L::Next>,
        alloc: &mut A,
    ) -> (r: Result<&'a mut Table<E, L::Next>, MapError<A, Error>>) where
        L: IndexedBy<I>,
        A: FrameAllocator<Frame = Physical<Size4Kb>>,

        requires
            L::indexable(i),
            old(below).wf(),
        ensures
            final(self).address() == old(self).address(),
            !old(self).needs_frame(L::index_spec(i)) ==> *final(alloc) == *old(alloc),
            r matches Ok(t) ==> !final(self).needs_frame(L::index_spec(i))
                && final(self).next_address(L::index_spec(i)) == Some(t.address()),
            ({
                let idx = L::index_spec(i);
                let entry = old(self)@[idx as int];
                let child = child_address(old(self).address(), idx);
                if entry.flags_of().huge() {
                    &&& r matches Err(MapError::Other(err)) && err == Error::Huge
                    &&& final(self)@ == old(self)@
                    &&& *final(below) == *old(below)
                } else if entry.flags_of().present() {
                    &&& r matches Ok(t) && t.address() == child && t@ == old(below).read(child)
                        && old(below).written(*final(below), child, *final(t))
                    &&& final(self)@ == old(self)@
                } else {
                    match r {
                        Ok(t) => {
                            let addr = final(self)@[idx as int].addr_of();
                            &&& t.address() == child
                            &&& t@ == old(below).read(child).map_values(|e: E| cleared(e))
                            &&& old(below).written(*final(below), child, *final(t))
                            &&& final(self)@ == old(self)@.update(
                                idx as int,
                                linked_entry(entry, addr),
                            )
                            &&& addr.is_physical()
                            &&& is_aligned(addr.value() as int, FRAME_ALIGN as int)
                        },
                        Err(MapError::Alloc(_)) => final(self)@ == old(self)@ && *final(below)
                            == *old(below),
                        Err(MapError::Other(_)) => false,
                        Err(MapError::AlreadyMapped) => false,
                    }
                }
            }),
    {
        let idx = L::index_of(i);
        proof {
            self.lemma_len();
            self@[idx as int].flags_of().lemma_changes(true);
            self@[idx as int].flags_of().with_present(true).lemma_changes(true);
        }
        // First, ensure that the entry at the given index is valid to point to
        // a page table: that it does not map a huge page.
        match self.entries[idx].validate_as_table() {
            Err(e) => {
                return Err(MapError::Other(e));
            },
            Ok(_) => {},
        }
        // If the entry is valid, and a page table already exists in that
        // frame, just return it.
        if self.entries[idx].flags().is_present() {
            return Ok(below.install(child_of(self.addr, idx)));
        }
        // Otherwise, the next table for that index doesn't exist yet.
        // Allocate a new frame to hold the page table.
        let answer = alloc.allocate();
        self.link_next::<A>(idx, below, answer)
    }
}

/// The tables of one level, each under the address at which it is visible.
///
/// This is the memory that the tables of that level lie in. A place that
/// nothing was written to reads as a table of `blank` entries.
pub struct Tables<E, L: Level> {
    slots: Vec<Table<E, L>>,
    index: HashMap<u64, usize>,
    blank: E,
}

impl<E: Repr, L: Level> Tables<E, L> {
    /// The entries of each table, by the number of the table's address.
    pub closed spec fn view(&self) -> Map<u64, Seq<E>> {
        Map::new(
            |a: u64| self.index@.contains_key(a),
            |a: u64| self.slots@[self.index@[a] as int]@,
        )
    }

    /// What a place reads as that nothing was written to.
    pub closed spec fn blank(&self) -> E {
        self.blank
    }

    /// Each address leads to one table, which lies at that address, and each
    /// table is led to.
    pub closed spec fn wf(&self) -> bool {
        &&& forall|a: u64| #[trigger]
            self.index@.contains_key(a) ==> self.index@[a] < self.slots.len()
                && self.slots@[self.index@[a] as int].address().value() == a
        &&& forall|s: int|
            0 <= s < self.slots.len() ==> self.index@.contains_key(
                (#[trigger] self.slots@[s]).address().value(),
            ) && self.index@[self.slots@[s].address().value()] == s
    }

    /// Every table has `NUM_ENTRIES` entries.
    pub proof fn lemma_lens(&self, a: u64)
        requires
            self@.contains_key(a),
        ensures
            self@[a].len() == NUM_ENTRIES,
    {
    }

    /// No tables yet.
    pub fn new(blank: E) -> (tables: Self)
        ensures
            tables.wf(),
            tables@ == Map::<u64, Seq<E>>::empty(),
            tables.blank() == blank,
    {
        broadcast use vstd::std_specs::hash::group_hash_axioms;

        let tables = Tables { slots: Vec::new(), index: HashMap::new(), blank };
        tables
    }

    /// Below each present entry of each of these tables a table stands in
    /// `below`.
    pub open spec fn linked<N: Level>(&self, below: &Tables<E, N>) -> bool {
        forall|a: u64, i: usize|
            self@.contains_key(a) && i < NUM_ENTRIES
                && (#[trigger] self@[a][i as int]).flags_of().present()
                ==> below@.contains_key(child_value(a, i as u64))
    }

    /// The entries of a table that nothing was written to.
    pub open spec fn blank_table(&self) -> Seq<E> {
        Seq::new(NUM_ENTRIES as nat, |i: int| self.blank())
    }

    /// The entries that are read at `addr`: those of the table there, or
    /// blank ones where nothing was written.
    pub open spec fn read(&self, addr: VAddr) -> Seq<E> {
        if self@.contains_key(addr.value()) {
            self@[addr.value()]
        } else {
            self.blank_table()
        }
    }

    /// The table at `addr` is `table`.
    pub open spec fn holds(&self, addr: VAddr, table: Table<E, L>) -> bool {
        self@.contains_key(addr.value()) && table@ == self@[addr.value()] && table.address()
            == addr
    }

    /// These tables become `after` when the table at `addr` is left as
    /// `table`: what was written to the table is written to the tables, as
    /// long as the table stays at its address.
    pub open spec fn written(&self, after: Self, addr: VAddr, table: Table<E, L>) -> bool {
        table.address() == addr ==> {
            &&& after.wf()
            &&& after.blank() == self.blank()
            &&& after@ =~= self@.insert(addr.value(), table@)
        }
    }

    /// The table at `addr`, for writing, if there is one. What is written
    /// to the table is written to these tables.
    pub fn get_mut(&mut self, addr: VAddr) -> (r: Option<&mut Table<E, L>>)
        requires
            old(self).wf(),
        ensures
            match r {
                Some(t) => old(self).holds(addr, *t) && old(self).written(
                    *final(self),
                    addr,
                    *final(t),
                ),
                None => !old(self)@.contains_key(addr.value()) && *final(self) == *old(self),
            },
    {
        broadcast use vstd::std_specs::hash::group_hash_axioms;

        let key = addr.as_u64();
        let found = match self.index.get(&key) {
            Some(slot) => Some(*slot),
            None => None,
        };
        match found {
            Some(slot) => {
                let t = &mut self.slots[slot];
                proof {
                    VAddr::lemma_value_injective(t.address(), addr);
                }
                Some(t)
            },
            None => None,
        }
    }

    /// The table at `addr`, for writing; a blank table is put there first
    /// where there is none. What is written to the table is written to these
    /// tables.
    pub fn install(&mut self, addr: VAddr) -> (t: &mut Table<E, L>)
        requires
            old(self).wf(),
        ensures
            t@ == old(self).read(addr),
            t.address() == addr,
            old(self).written(*final(self), addr, *final(t)),
    {
        broadcast use vstd::std_specs::hash::group_hash_axioms;

        let key = addr.as_u64();
        let found = match self.index.get(&key) {
            Some(slot) => Some(*slot),
            None => None,
        };
        let slot = match found {
            Some(slot) => slot,
            None => {
                let slot = self.slots.len();
                self.slots.push(Table::filled(addr, self.blank));
                self.index.insert(key, slot);
                assert(self.wf()) by {
                    assert forall|a: u64| #[trigger]
                        self.index@.contains_key(a) implies self.index@[a] < self.slots.len()
                        && self.slots@[self.index@[a] as int].address().value() == a by {}
                    assert forall|s: int| 0 <= s < self.slots.len()
                        implies self.index@.contains_key(
                        (#[trigger] self.slots@[s]).address().value(),
                    ) && self.index@[self.slots@[s].address().value()] == s by {}
                }
                slot
            },
        };
        let t = &mut self.slots[slot];
        proof {
            VAddr::lemma_value_injective(t.address(), addr);
        }
        t
    }

    /// The table at `addr`, if there is one.
    pub fn get(&self, addr: VAddr) -> (r: Option<&Table<E, L>>)
        requires
            self.wf(),
        ensures
            match r {
                Some(t) => self.holds(addr, *t),
                None => !self@.contains_key(addr.value()),
            },
    {
        broadcast use vstd::std_specs::hash::group_hash_axioms;

        let key = addr.as_u64();
        match self.index.get(&key) {
            Some(slot) => {
                let t = &self.slots[*slot];
                proof {
                    VAddr::lemma_value_injective(t.address(), addr);
                }
                Some(t)
            },
            None => None,
        }
    }
}

} // verus!
