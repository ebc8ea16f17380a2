use hal9000::mem::page::{FrameAllocator, MapError, Mapper, Page, TableUpdate};
use hal9000::paging::entry::{Error, Opts, Repr};
use hal9000::paging::table::{
    child_of, GetEntry, IndexedBy, Level, Pd, Pt, Table, Tables, NUM_ENTRIES,
};
use hal9000::paging::{Physical, Size2Mb, Size4Kb, Virtual};
use hal9000::x64::page::table::entry::{Entry64, Flags, HUGE_PAGE, NO_EXECUTE, PRESENT, WRITABLE};
use hal9000::x64::page::table::level::{Pdpt, Pml4};
use hal9000::x64::page::table::{CurrentPageTable, PML4_ADDR};
use hal9000::x64::{PAddr, VAddr};

/// Hands out the frames from `next` on, `left` of them, and counts.
struct Frames {
    next: u64,
    left: usize,
    given: usize,
    returned: Vec<u64>,
    takes_back: bool,
}

impl Frames {
    fn new(first: u64, left: usize) -> Self {
        Frames { next: first, left, given: 0, returned: Vec::new(), takes_back: true }
    }
}

impl FrameAllocator for Frames {
    type Frame = Physical<Size4Kb>;
    type Error = &'static str;

    fn allocate(&mut self) -> Result<Physical<Size4Kb>, &'static str> {
        if self.left == 0 {
            return Err("out of frames");
        }
        let frame = Physical::<Size4Kb>::from_addr_down(PAddr::new(self.next));
        self.next += 0x1000;
        self.left -= 1;
        self.given += 1;
        Ok(frame)
    }

    fn dealloc(&mut self, frame: Physical<Size4Kb>) -> Result<(), &'static str> {
        if !self.takes_back {
            return Err("not mine");
        }
        self.returned.push(frame.base_address().as_u64());
        Ok(())
    }
}

fn page(addr: u64) -> Virtual<Size4Kb> {
    Virtual::<Size4Kb>::from_addr_down(VAddr::new(addr))
}

fn frame(addr: u64) -> Physical<Size4Kb> {
    Physical::<Size4Kb>::from_addr_down(PAddr::new(addr))
}

fn writable() -> Flags {
    Flags::from_bits_truncate(WRITABLE)
}

fn translated(space: &CurrentPageTable, addr: u64) -> Option<u64> {
    space.translate_page(page(addr)).map(|f| f.base_address().as_u64())
}

#[test]
fn level_shifts_and_masks() {
    assert_eq!(Pml4::ADDR_SHIFT, 39);
    assert_eq!(Pdpt::ADDR_SHIFT, 30);
    assert_eq!(Pd::ADDR_SHIFT, 21);
    assert_eq!(Pt::ADDR_SHIFT, 12);
    assert_eq!(Pml4::INDEX_MASK, 0o777);
    assert_eq!(Pdpt::INDEX_MASK, 0x1ff);
    assert_eq!(Pd::INDEX_MASK, 0x1ff);
    assert_eq!(Pt::INDEX_MASK, 0x1ff);
    assert_eq!(NUM_ENTRIES, 512);
    assert_eq!(PML4_ADDR, 0xFFFF_FFFF_FFFF_F000);
}

#[test]
fn an_address_indexes_each_level_by_its_own_nine_bits() {
    let addr = VAddr::new(0x0000_7654_3210_f123);
    let raw = addr.as_u64();
    assert_eq!(<Pml4 as IndexedBy<VAddr>>::index_of(&addr), ((raw >> 39) & 0x1ff) as usize);
    assert_eq!(<Pdpt as IndexedBy<VAddr>>::index_of(&addr), ((raw >> 30) & 0x1ff) as usize);
    assert_eq!(<Pd as IndexedBy<VAddr>>::index_of(&addr), ((raw >> 21) & 0x1ff) as usize);
    assert_eq!(<Pt as IndexedBy<VAddr>>::index_of(&addr), ((raw >> 12) & 0x1ff) as usize);
    let addr = VAddr::new((3 << 39) | (5 << 30) | (7 << 21) | (11 << 12) | 0x123);
    assert_eq!(<Pml4 as IndexedBy<VAddr>>::index_of(&addr), 3);
    assert_eq!(<Pdpt as IndexedBy<VAddr>>::index_of(&addr), 5);
    assert_eq!(<Pd as IndexedBy<VAddr>>::index_of(&addr), 7);
    assert_eq!(<Pt as IndexedBy<VAddr>>::index_of(&addr), 11);
    let last = VAddr::new(0xffff_ffff_ffff_ffff);
    assert_eq!(<Pml4 as IndexedBy<VAddr>>::index_of(&last), 511);
    assert_eq!(<Pt as IndexedBy<VAddr>>::index_of(&last), 511);
}

#[test]
fn a_page_indexes_like_its_address_and_a_number_like_itself() {
    let p = page((3 << 39) | (5 << 30) | (7 << 21) | (11 << 12));
    assert_eq!(<Pml4 as IndexedBy<Virtual<Size4Kb>>>::index_of(&p), 3);
    assert_eq!(<Pdpt as IndexedBy<Virtual<Size4Kb>>>::index_of(&p), 5);
    assert_eq!(<Pd as IndexedBy<Virtual<Size4Kb>>>::index_of(&p), 7);
    assert_eq!(<Pt as IndexedBy<Virtual<Size4Kb>>>::index_of(&p), 11);
    let large = Virtual::<Size2Mb>::from_addr_down(VAddr::new((7 << 21) | 0x1234));
    assert_eq!(<Pd as IndexedBy<Virtual<Size2Mb>>>::index_of(&large), 7);
    assert_eq!(<Pd as IndexedBy<usize>>::index_of(&42), 42);
    assert_eq!(<Pml4 as IndexedBy<usize>>::index_of(&511), 511);
}

#[test]
fn child_tables_lie_in_the_window_of_the_root() {
    let root = VAddr::new(PML4_ADDR);
    let pdpt = child_of(root, 0);
    assert_eq!(pdpt.as_u64(), 0xffff_ffff_ffe0_0000);
    assert_eq!(child_of(root, 1).as_u64(), 0xffff_ffff_ffe0_1000);
    // The last entry of the root leads back to the root.
    assert_eq!(child_of(root, 511).as_u64(), PML4_ADDR);
    let pd = child_of(pdpt, 0);
    assert_eq!(pd.as_u64(), 0xffff_ffff_c000_0000);
    let pt = child_of(pd, 0);
    assert_eq!(pt.as_u64(), 0xffff_ff80_0000_0000);
    assert_eq!(child_of(child_of(child_of(root, 1), 2), 3).as_u64(), 0xffff_ff80_4040_3000);
}

#[test]
fn zero_clears_presence_and_keeps_the_rest() {
    let mut table = Table::<Entry64, Pt>::filled(
        VAddr::new(0xffff_ff80_0000_0000),
        Entry64::from_bits(0x5000 | PRESENT | WRITABLE | NO_EXECUTE),
    );
    *table.index_mut(&7usize) = Entry64::from_bits(0x9000 | PRESENT | 0x200);
    table.zero();
    assert_eq!(table.index(&0usize).bits(), 0x5000 | WRITABLE | NO_EXECUTE);
    assert_eq!(table.index(&7usize).bits(), 0x9000);
    assert_eq!(table.index(&511usize).bits(), 0x5000 | WRITABLE | NO_EXECUTE);
    for i in 0..NUM_ENTRIES {
        assert!(!table.index(&i).flags().is_present());
    }
    assert_eq!(table.location().as_u64(), 0xffff_ff80_0000_0000);
}

#[test]
fn next_table_addr_wants_a_present_entry() {
    let mut table = Table::<Entry64, Pml4>::filled(VAddr::new(PML4_ADDR), Entry64::from_bits(0));
    assert!(table.next_table_addr(3).is_none());
    *table.index_mut(&3usize) = Entry64::from_bits(0x4000 | PRESENT);
    assert_eq!(table.next_table_addr(3).unwrap().as_u64(), 0xffff_ffff_ffe0_3000);
    assert!(table.next_table_addr(4).is_none());
    let mut below = Tables::<Entry64, Pdpt>::new(Entry64::from_bits(0));
    below.install(VAddr::new(0xffff_ffff_ffe0_3000));
    assert_eq!(
        table.next_table(&3usize, &below).map(|t| t.location().as_u64()),
        Some(0xffff_ffff_ffe0_3000)
    );
    assert!(table.next_table(&4usize, &below).is_none());
    assert!(table.next_table_mut(&3usize, &mut below).is_some());
    assert!(table.next_table_mut(&4usize, &mut below).is_none());
}

#[test]
fn create_next_makes_the_table_once() {
    let mut root = Table::<Entry64, Pml4>::filled(VAddr::new(PML4_ADDR), Entry64::from_bits(0));
    let mut below = Tables::<Entry64, Pdpt>::new(Entry64::from_bits(0));
    let mut alloc = Frames::new(0x10_0000, 8);
    let first = {
        let child = root.create_next(&5usize, &mut below, &mut alloc).ok().unwrap();
        for i in 0..NUM_ENTRIES {
            assert_eq!(child.index(&i).bits(), 0);
        }
        *child.index_mut(&9usize) = Entry64::from_bits(0x7000 | PRESENT);
        child.location().as_u64()
    };
    assert_eq!(alloc.given, 1);
    assert_eq!(root.index(&5usize).bits(), 0x10_0000 | PRESENT | WRITABLE);
    let second = {
        let child = root.create_next(&5usize, &mut below, &mut alloc).ok().unwrap();
        // The same table: what was written through the first reference is there.
        assert_eq!(child.index(&9usize).bits(), 0x7000 | PRESENT);
        child.location().as_u64()
    };
    assert_eq!(first, second);
    assert_eq!(first, 0xffff_ffff_ffe0_5000);
    assert_eq!(alloc.given, 1);
    assert_eq!(root.index(&5usize).bits(), 0x10_0000 | PRESENT | WRITABLE);
    let found = root.next_table(&5usize, &below).unwrap();
    assert_eq!(found.location().as_u64(), first);
    assert_eq!(found.index(&9usize).bits(), 0x7000 | PRESENT);
    let found = root.next_table_mut(&5usize, &mut below).unwrap();
    assert_eq!(found.location().as_u64(), first);
}

#[test]
fn create_next_stops_at_a_huge_page() {
    let mut dir = Table::<Entry64, Pd>::filled(VAddr::new(0xffff_ffff_c000_0000),
        Entry64::from_bits(0));
    *dir.index_mut(&1usize) = Entry64::from_bits(0x20_0000 | PRESENT | HUGE_PAGE);
    let mut below = Tables::<Entry64, Pt>::new(Entry64::from_bits(0));
    let mut alloc = Frames::new(0x10_0000, 8);
    let r = dir.create_next(&1usize, &mut below, &mut alloc);
    assert!(matches!(r, Err(MapError::Other(Error::Huge))));
    assert_eq!(alloc.given, 0);
    assert_eq!(dir.index(&1usize).bits(), 0x20_0000 | PRESENT | HUGE_PAGE);
}

#[test]
fn create_next_passes_the_allocators_failure_on() {
    let mut root = Table::<Entry64, Pml4>::filled(VAddr::new(PML4_ADDR), Entry64::from_bits(0));
    let mut below = Tables::<Entry64, Pdpt>::new(Entry64::from_bits(0));
    let mut alloc = Frames::new(0x10_0000, 0);
    let r = root.create_next(&5usize, &mut below, &mut alloc);
    assert!(matches!(r, Err(MapError::Alloc("out of frames"))));
    assert_eq!(root.index(&5usize).bits(), 0);
    assert!(root.next_table(&5usize, &below).is_none());
}

#[test]
fn link_next_takes_the_answer_as_it_comes() {
    let mut root = Table::<Entry64, Pml4>::filled(VAddr::new(PML4_ADDR), Entry64::from_bits(0));
    let mut below = Tables::<Entry64, Pdpt>::new(Entry64::from_bits(0x3000 | PRESENT));
    let r = root.link_next::<Frames>(2, &mut below, Err("no"));
    assert!(matches!(r, Err(MapError::Alloc("no"))));
    let child = root.link_next::<Frames>(2, &mut below, Ok(frame(0x8000))).ok().unwrap();
    // What the memory held is there, without its presence.
    assert_eq!(child.index(&0usize).bits(), 0x3000);
    assert_eq!(child.location().as_u64(), 0xffff_ffff_ffe0_2000);
    assert_eq!(root.index(&2usize).bits(), 0x8000 | PRESENT | WRITABLE);
}

#[test]
fn entries_of_the_last_levels() {
    let mut table =
        Table::<Entry64, Pt>::filled(VAddr::new(0xffff_ff80_0000_0000), Entry64::from_bits(0));
    let mut alloc = Frames::new(0x10_0000, 8);
    let mut nothing = ();
    {
        let mut handle =
            GetEntry::<Size4Kb, Entry64>::entry_mut(&mut table, &4usize, &mut nothing).unwrap();
        let flags = Flags::from_bits_truncate(PRESENT);
        assert_eq!(handle.set_frame(frame(0x6000), flags), Ok(()));
    }
    {
        let handle = GetEntry::<Size4Kb, Entry64>::entry(&table, &4usize, &()).unwrap();
        assert_eq!(handle.pointed_frame().unwrap().base_address().as_u64(), 0x6000);
    }
    {
        let handle = GetEntry::<Size4Kb, Entry64>::get_or_create_entry(
            &mut table,
            &5usize,
            &mut nothing,
            &mut alloc,
        )
        .ok()
        .unwrap();
        assert_eq!(handle.pointed_frame().err(), Some(Error::NotPresent));
    }
    assert_eq!(alloc.given, 0);
    let mut dir =
        Table::<Entry64, Pd>::filled(VAddr::new(0xffff_ffff_c000_0000), Entry64::from_bits(0));
    {
        let mut handle =
            GetEntry::<Size2Mb, Entry64>::entry_mut(&mut dir, &1usize, &mut nothing).unwrap();
        let large = Physical::<Size2Mb>::from_addr_down(PAddr::new(0x40_0000));
        assert_eq!(handle.set_frame(large, Flags::from_bits_truncate(PRESENT)), Ok(()));
    }
    let handle = GetEntry::<Size2Mb, Entry64>::entry(&dir, &1usize, &()).unwrap();
    assert_eq!(handle.pointed_addr().as_u64(), 0x40_0000);
    let handle =
        GetEntry::<Size2Mb, Entry64>::get_or_create_entry(&mut dir, &1usize, &mut nothing,
            &mut alloc)
            .ok()
            .unwrap();
    assert_eq!(handle.pointed_addr().as_u64(), 0x40_0000);
}

#[test]
fn entries_of_small_pages_are_reached_through_a_directory() {
    let mut dir =
        Table::<Entry64, Pd>::filled(VAddr::new(0xffff_ffff_c000_0000), Entry64::from_bits(0));
    let mut below = Tables::<Entry64, Pt>::new(Entry64::from_bits(0));
    let mut alloc = Frames::new(0x10_0000, 8);
    let p = page((3 << 21) | (5 << 12));
    // No table below the directory yet: no entry is reached.
    assert!(GetEntry::<Size4Kb, Entry64>::entry(&dir, &p, &below).is_none());
    assert!(GetEntry::<Size4Kb, Entry64>::entry_mut(&mut dir, &p, &mut below).is_none());
    assert_eq!(alloc.given, 0);
    {
        let mut handle =
            GetEntry::<Size4Kb, Entry64>::get_or_create_entry(&mut dir, &p, &mut below, &mut alloc)
                .ok()
                .unwrap();
        assert!(!handle.flags().is_present());
        assert_eq!(handle.set_frame(frame(0x7000), Flags::from_bits_truncate(PRESENT)), Ok(()));
    }
    assert_eq!(alloc.given, 1);
    assert_eq!(dir.index(&3usize).bits(), 0x10_0000 | PRESENT | WRITABLE);
    {
        let handle = GetEntry::<Size4Kb, Entry64>::entry(&dir, &p, &below).unwrap();
        assert_eq!(handle.pointed_frame().unwrap().base_address().as_u64(), 0x7000);
    }
    {
        let mut handle =
            GetEntry::<Size4Kb, Entry64>::entry_mut(&mut dir, &p, &mut below).unwrap();
        assert_eq!(handle.set_frame(frame(0x8000), Flags::from_bits_truncate(PRESENT)), Ok(()));
    }
    // The table is there: the allocator is left alone.
    {
        let handle =
            GetEntry::<Size4Kb, Entry64>::get_or_create_entry(&mut dir, &p, &mut below, &mut alloc)
                .ok()
                .unwrap();
        assert_eq!(handle.pointed_addr().as_u64(), 0x8000);
    }
    assert_eq!(alloc.given, 1);
    // Below a huge page no entry of a small page is reached.
    *dir.index_mut(&4usize) = Entry64::from_bits(0x80_0000 | PRESENT | HUGE_PAGE);
    let q = page(4 << 21);
    assert!(GetEntry::<Size4Kb, Entry64>::entry(&dir, &q, &below).is_none());
    let r = GetEntry::<Size4Kb, Entry64>::get_or_create_entry(&mut dir, &q, &mut below, &mut alloc);
    assert!(matches!(r, Err(MapError::Other(Error::Huge))));
    let mut none = Frames::new(0, 0);
    let r = GetEntry::<Size4Kb, Entry64>::get_or_create_entry(
        &mut dir,
        &page(7 << 21),
        &mut below,
        &mut none,
    );
    assert!(matches!(r, Err(MapError::Alloc("out of frames"))));
}

#[test]
fn nothing_is_mapped_in_a_new_space() {
    let space = CurrentPageTable::new();
    assert!(translated(&space, 0).is_none());
    assert!(translated(&space, 0x1000).is_none());
    assert!(translated(&space, 0xffff_8000_0000_0000).is_none());
    assert!(space.translate(VAddr::new(0x1234)).is_none());
}

#[test]
fn mapping_into_an_empty_space_takes_three_frames() {
    let mut space = CurrentPageTable::new();
    let mut alloc = Frames::new(0x10_0000, 16);
    let update = space.map(page(0x1000), frame(0x2000), writable(), &mut alloc).ok().unwrap();
    assert_eq!(alloc.given, 3);
    assert_eq!(update.commit().as_u64(), 0x1000);
    assert_eq!(translated(&space, 0x1000), Some(0x2000));
    assert_eq!(translated(&space, 0x0000), None);
    assert_eq!(translated(&space, 0x2000), None);
}

#[test]
fn a_mapped_page_is_translated_to_its_frame() {
    let mut space = CurrentPageTable::new();
    let mut alloc = Frames::new(0x10_0000, 64);
    let pairs = [
        (0x0000_0000_0000_1000u64, 0x2000u64),
        (0x0000_0000_0020_0000, 0x5000),
        (0x0000_0040_0000_3000, 0x000f_ffff_ffff_f000),
        (0xffff_8000_0000_0000, 0x7000),
        (0xffff_ffff_ffdf_f000, 0x9000),
    ];
    for (virt, phys) in pairs {
        let flags = Flags::from_bits_truncate(WRITABLE | NO_EXECUTE);
        assert!(space.map(page(virt), frame(phys), flags, &mut alloc).is_ok());
    }
    for (virt, phys) in pairs {
        assert_eq!(translated(&space, virt), Some(phys));
    }
    assert_eq!(space.translate(VAddr::new(0x1abc)).map(|a| a.as_u64()), Some(0x2abc));
    assert_eq!(space.translate(VAddr::new(0x20_0fff)).map(|a| a.as_u64()), Some(0x5fff));
    assert_eq!(space.translate(VAddr::new(0x3000)), None);
}

#[test]
fn pages_of_one_table_share_its_frames() {
    let mut space = CurrentPageTable::new();
    let mut alloc = Frames::new(0x10_0000, 64);
    assert!(space.map(page(0x1000), frame(0x2000), writable(), &mut alloc).is_ok());
    assert_eq!(alloc.given, 3);
    // Same last-level table.
    assert!(space.map(page(0x3000), frame(0x4000), writable(), &mut alloc).is_ok());
    assert_eq!(alloc.given, 3);
    // Another last-level table below the same directory.
    assert!(space.map(page(0x20_0000), frame(0x5000), writable(), &mut alloc).is_ok());
    assert_eq!(alloc.given, 4);
    // Another directory.
    assert!(space.map(page(0x4000_0000), frame(0x6000), writable(), &mut alloc).is_ok());
    assert_eq!(alloc.given, 6);
    // Another entry of the root.
    assert!(space.map(page(0x80_0000_0000), frame(0x7000), writable(), &mut alloc).is_ok());
    assert_eq!(alloc.given, 9);
    assert_eq!(translated(&space, 0x1000), Some(0x2000));
    assert_eq!(translated(&space, 0x3000), Some(0x4000));
    assert_eq!(translated(&space, 0x20_0000), Some(0x5000));
    assert_eq!(translated(&space, 0x4000_0000), Some(0x6000));
    assert_eq!(translated(&space, 0x80_0000_0000), Some(0x7000));
}

#[test]
fn a_page_is_not_mapped_twice() {
    let mut space = CurrentPageTable::new();
    let mut alloc = Frames::new(0x10_0000, 16);
    assert!(space.map(page(0x1000), frame(0x2000), writable(), &mut alloc).is_ok());
    assert!(space.map(page(0x5000), frame(0x6000), writable(), &mut alloc).is_ok());
    let given = alloc.given;
    let second = space.map(page(0x1000), frame(0x3000), Flags::empty(), &mut alloc);
    assert!(matches!(second, Err(MapError::AlreadyMapped)));
    assert_eq!(alloc.given, given);
    assert_eq!(translated(&space, 0x1000), Some(0x2000));
    assert_eq!(translated(&space, 0x5000), Some(0x6000));
}

#[test]
fn map_passes_the_allocators_failure_on() {
    let mut space = CurrentPageTable::new();
    let mut alloc = Frames::new(0x10_0000, 2);
    let r = space.map(page(0x1000), frame(0x2000), writable(), &mut alloc);
    assert!(matches!(r, Err(MapError::Alloc("out of frames"))));
    assert_eq!(alloc.given, 2);
    assert_eq!(translated(&space, 0x1000), None);
    // The two tables that were made are kept: one more frame is enough now.
    let mut alloc = Frames::new(0x20_0000, 1);
    assert!(space.map(page(0x1000), frame(0x2000), writable(), &mut alloc).is_ok());
    assert_eq!(alloc.given, 1);
    assert_eq!(translated(&space, 0x1000), Some(0x2000));
}

#[test]
fn a_page_mapped_as_huge_on_the_last_level_has_no_frame() {
    let mut space = CurrentPageTable::new();
    let mut alloc = Frames::new(0x10_0000, 16);
    let flags = Flags::from_bits_truncate(HUGE_PAGE);
    assert!(space.map(page(0x1000), frame(0x2000), flags, &mut alloc).is_ok());
    assert_eq!(translated(&space, 0x1000), None);
    let again = space.map(page(0x1000), frame(0x2000), flags, &mut alloc);
    assert!(matches!(again, Err(MapError::AlreadyMapped)));
}

#[test]
fn unmap_gives_the_frame_back() {
    let mut space = CurrentPageTable::new();
    let mut alloc = Frames::new(0x10_0000, 16);
    assert!(space.map(page(0x1000), frame(0x2000), writable(), &mut alloc).is_ok());
    assert!(space.map(page(0x3000), frame(0x4000), writable(), &mut alloc).is_ok());
    let update = space.unmap(page(0x1000), &mut alloc).ok().unwrap();
    assert_eq!(update.commit().as_u64(), 0x1000);
    assert_eq!(alloc.returned, vec![0x2000]);
    assert_eq!(translated(&space, 0x1000), None);
    assert_eq!(translated(&space, 0x3000), Some(0x4000));
    // Unmapped, the page can be mapped again, and needs no new table.
    let given = alloc.given;
    assert!(space.map(page(0x1000), frame(0x8000), writable(), &mut alloc).is_ok());
    assert_eq!(alloc.given, given);
    assert_eq!(translated(&space, 0x1000), Some(0x8000));
}

#[test]
fn unmap_of_an_unmapped_page_fails() {
    let mut space = CurrentPageTable::new();
    let mut alloc = Frames::new(0x10_0000, 16);
    let r = space.unmap(page(0x1000), &mut alloc);
    assert!(matches!(r, Err(MapError::Other(Error::NotPresent))));
    assert!(space.map(page(0x1000), frame(0x2000), writable(), &mut alloc).is_ok());
    let r = space.unmap(page(0x2000), &mut alloc);
    assert!(matches!(r, Err(MapError::Other(Error::NotPresent))));
    assert!(alloc.returned.is_empty());
    assert!(space.unmap(page(0x1000), &mut alloc).is_ok());
    let r = space.unmap(page(0x1000), &mut alloc);
    assert!(matches!(r, Err(MapError::Other(Error::NotPresent))));
}

#[test]
fn unmap_reports_a_frame_that_is_not_taken_back() {
    let mut space = CurrentPageTable::new();
    let mut alloc = Frames::new(0x10_0000, 16);
    assert!(space.map(page(0x1000), frame(0x2000), writable(), &mut alloc).is_ok());
    alloc.takes_back = false;
    let r = space.unmap(page(0x1000), &mut alloc);
    assert!(matches!(r, Err(MapError::Alloc("not mine"))));
    assert_eq!(translated(&space, 0x1000), None);
}

#[test]
fn set_flags_keeps_the_frame() {
    let mut space = CurrentPageTable::new();
    let mut alloc = Frames::new(0x10_0000, 16);
    assert!(space.map(page(0x1000), frame(0x2000), writable(), &mut alloc).is_ok());
    let flags = Flags::from_bits_truncate(PRESENT | NO_EXECUTE);
    let update = space.set_flags(page(0x1000), flags).ok().unwrap();
    assert_eq!(update.commit().as_u64(), 0x1000);
    assert_eq!(translated(&space, 0x1000), Some(0x2000));
    // Flags without presence take the mapping away.
    assert!(space.set_flags(page(0x1000), Flags::empty()).is_ok());
    assert_eq!(translated(&space, 0x1000), None);
    assert_eq!(space.set_flags(page(0x1000), flags).err(), Some(Error::NotPresent));
    assert_eq!(space.set_flags(page(0x7000), flags).err(), Some(Error::NotPresent));
}

#[test]
fn map_refuses_an_entry_marked_huge() {
    let mut space = CurrentPageTable::new();
    let mut alloc = Frames::new(0x10_0000, 16);
    assert!(space.map(page(0x1000), frame(0x2000), writable(), &mut alloc).is_ok());
    // Not present any more, but marked as a huge page.
    assert!(space.set_flags(page(0x1000), Flags::from_bits_truncate(HUGE_PAGE)).is_ok());
    let r = space.map(page(0x1000), frame(0x3000), writable(), &mut alloc);
    assert!(matches!(r, Err(MapError::Other(Error::Huge))));
    assert_eq!(translated(&space, 0x1000), None);
}

#[test]
fn identity_map_uses_the_frames_address() {
    let mut space = CurrentPageTable::new();
    let mut alloc = Frames::new(0x10_0000, 16);
    let update = space.identity_map(frame(0xb8000), writable(), &mut alloc).ok().unwrap();
    assert_eq!(update.commit().as_u64(), 0xb8000);
    assert_eq!(translated(&space, 0xb8000), Some(0xb8000));
    let r = space.identity_map(frame(0xb8000), writable(), &mut alloc);
    assert!(matches!(r, Err(MapError::AlreadyMapped)));
    // A frame with bit 47 set is found in the high half.
    assert!(space.identity_map(frame(0x0000_8000_0000_0000), writable(), &mut alloc).is_ok());
    assert_eq!(translated(&space, 0xffff_8000_0000_0000), Some(0x0000_8000_0000_0000));
}

#[test]
fn map_to_any_takes_a_frame_from_the_allocator() {
    let mut space = CurrentPageTable::new();
    let mut alloc = Frames::new(0x10_0000, 16);
    assert!(space.map_to_any(page(0x1000), writable(), &mut alloc).is_ok());
    // The frame of the page came first, the three tables after it.
    assert_eq!(alloc.given, 4);
    assert_eq!(translated(&space, 0x1000), Some(0x10_0000));
    let r = space.map_to_any(page(0x1000), writable(), &mut alloc);
    assert!(matches!(r, Err(MapError::AlreadyMapped)));
    assert_eq!(alloc.given, 5);
    assert_eq!(alloc.returned, vec![0x10_4000]);
    assert_eq!(translated(&space, 0x1000), Some(0x10_0000));
}

#[test]
fn map_to_any_without_frames() {
    let mut space = CurrentPageTable::new();
    let mut alloc = Frames::new(0x10_0000, 0);
    let r = space.map_to_any(page(0x1000), writable(), &mut alloc);
    assert!(matches!(r, Err(MapError::Alloc("out of frames"))));
    let mut alloc = Frames::new(0x10_0000, 2);
    let r = space.map_to_any(page(0x1000), writable(), &mut alloc);
    assert!(matches!(r, Err(MapError::Alloc("out of frames"))));
    assert_eq!(alloc.returned, vec![0x10_0000]);
    assert_eq!(translated(&space, 0x1000), None);
    alloc.left = 1;
    alloc.takes_back = false;
    let r = space.map_to_any(page(0x20_0000), writable(), &mut alloc);
    assert!(matches!(r, Err(MapError::Alloc("not mine"))));
}

#[test]
fn the_mapper_interface_leads_to_the_same_tables() {
    let mut space = CurrentPageTable::new();
    let mut alloc = Frames::new(0x10_0000, 16);
    assert!(Mapper::map(&mut space, page(0x1000), frame(0x2000), writable(), &mut alloc).is_ok());
    assert_eq!(
        Mapper::translate_page(&space, page(0x1000)).map(|f| f.base_address().as_u64()),
        Some(0x2000)
    );
    assert_eq!(Mapper::translate(&space, VAddr::new(0x1008)).map(|a| a.as_u64()), Some(0x2008));
    assert!(Mapper::set_flags(&mut space, page(0x1000),
        Flags::from_bits_truncate(PRESENT)).is_ok());
    assert!(Mapper::unmap(&mut space, page(0x1000), &mut alloc).is_ok());
    assert!(Mapper::identity_map(&mut space, frame(0x3000), writable(), &mut alloc).is_ok());
    assert!(Mapper::map_to_any(&mut space, page(0x5000), writable(), &mut alloc).is_ok());
    assert_eq!(translated(&space, 0x1000), None);
    assert_eq!(translated(&space, 0x3000), Some(0x3000));
}

#[test]
fn map_error_from_an_entry_error() {
    let e: MapError<Frames, Error> = MapError::from(Error::NotAligned);
    assert!(matches!(e, MapError::Other(Error::NotAligned)));
}

#[test]
fn page_table_for_walks_three_levels() {
    let mut root = Table::<Entry64, Pml4>::filled(VAddr::new(PML4_ADDR), Entry64::from_bits(0));
    let mut pdpts = Tables::<Entry64, Pdpt>::new(Entry64::from_bits(0));
    let mut pds = Tables::<Entry64, Pd>::new(Entry64::from_bits(0));
    let mut pts = Tables::<Entry64, Pt>::new(Entry64::from_bits(0));
    let mut alloc = Frames::new(0x10_0000, 16);
    let p = page(0x1000);
    assert!(root.page_table_for(&p, &pdpts, &pds, &pts).is_none());
    {
        let pdpt = root.create_next(&p, &mut pdpts, &mut alloc).ok().unwrap();
        let pd = pdpt.create_next(&p, &mut pds, &mut alloc).ok().unwrap();
        let pt = pd.create_next(&p, &mut pts, &mut alloc).ok().unwrap();
        *pt.index_mut(&p) = Entry64::from_bits(0x2000 | PRESENT);
    }
    let pt = root.page_table_for(&p, &pdpts, &pds, &pts).unwrap();
    assert_eq!(pt.location().as_u64(), 0xffff_ff80_0000_0000);
    assert_eq!(pt.index(&p).bits(), 0x2000 | PRESENT);
    assert!(root.page_table_for(&page(0x80_0000_0000), &pdpts, &pds, &pts).is_none());
    {
        let pt = root.page_table_mut_for(&p, &pdpts, &pds, &mut pts).unwrap();
        *pt.index_mut(&p) = Entry64::from_bits(0x3000 | PRESENT);
    }
    let pt = root.page_table_for(&p, &pdpts, &pds, &pts).unwrap();
    assert_eq!(pt.index(&p).pointed_addr().as_u64(), 0x3000);
    assert!(pts.get(VAddr::new(0xffff_ff80_0000_0000)).is_some());
    assert!(pts.get(VAddr::new(0xffff_ff80_0000_1000)).is_none());
    assert!(pts.get_mut(VAddr::new(0xffff_ff80_0000_0000)).is_some());
    assert_eq!(pts.install(VAddr::new(0xffff_ff80_0000_1000)).index(&0usize).bits(), 0);
}

#[test]
fn release_hands_out_the_frame() {
    let mut space = CurrentPageTable::new();
    let mut alloc = Frames::new(0x10_0000, 16);
    assert_eq!(space.release(page(0x1000)).err(), Some(Error::NotPresent));
    assert!(space.map(page(0x1000), frame(0x2000), writable(), &mut alloc).is_ok());
    assert_eq!(space.release(page(0x1000)).ok().map(|f| f.base_address().as_u64()), Some(0x2000));
    assert_eq!(translated(&space, 0x1000), None);
    assert_eq!(space.release(page(0x1000)).err(), Some(Error::NotPresent));
    // A page mapped as huge on the last level is not released.
    let huge = Flags::from_bits_truncate(HUGE_PAGE);
    assert!(space.map(page(0x3000), frame(0x4000), huge, &mut alloc).is_ok());
    assert_eq!(space.release(page(0x3000)).err(), Some(Error::Huge));
    let r = space.unmap(page(0x3000), &mut alloc);
    assert!(matches!(r, Err(MapError::Other(Error::Huge))));
}

#[test]
fn the_allocators_frame_size_is_the_size_of_its_frames() {
    assert_eq!(<Frames as FrameAllocator>::FRAME_SIZE, 4096);
}

#[test]
fn pages_with_the_same_indices_are_the_same_page() {
    let addrs = [
        0u64,
        0x1000,
        0x20_0000,
        0x4000_0000,
        0x80_0000_0000,
        0x0000_7fff_ffff_f000,
        0xffff_8000_0000_0000,
        0xffff_ffff_ffff_f000,
    ];
    let indices = |a: u64| {
        let p = page(a);
        (
            <Pml4 as IndexedBy<Virtual<Size4Kb>>>::index_of(&p),
            <Pdpt as IndexedBy<Virtual<Size4Kb>>>::index_of(&p),
            <Pd as IndexedBy<Virtual<Size4Kb>>>::index_of(&p),
            <Pt as IndexedBy<Virtual<Size4Kb>>>::index_of(&p),
        )
    };
    for a in addrs {
        for b in addrs {
            assert_eq!(indices(a) == indices(b), a == b);
        }
    }
    // Within a page the indices do not change.
    assert_eq!(indices(0x1000), indices(0x1fff));
}

#[test]
fn create_next_with_takes_an_answer_only_where_a_table_is_made() {
    let mut root = Table::<Entry64, Pml4>::filled(VAddr::new(PML4_ADDR), Entry64::from_bits(0));
    let mut below = Tables::<Entry64, Pdpt>::new(Entry64::from_bits(0));
    let mut answers: Vec<Result<Physical<Size4Kb>, &'static str>> =
        vec![Ok(frame(0x8000)), Ok(frame(0x9000)), Err("none left")];
    {
        let child =
            root.create_next_with::<Frames, usize>(&1, &mut below, &mut answers).ok().unwrap();
        assert_eq!(child.location().as_u64(), 0xffff_ffff_ffe0_1000);
    }
    assert_eq!(answers.len(), 2);
    assert_eq!(root.index(&1usize).bits(), 0x8000 | PRESENT | WRITABLE);
    // The table is there now: no answer is taken.
    assert!(root.create_next_with::<Frames, usize>(&1, &mut below, &mut answers).is_ok());
    assert_eq!(answers.len(), 2);
    assert!(root.create_next_with::<Frames, usize>(&2, &mut below, &mut answers).is_ok());
    assert_eq!(answers.len(), 1);
    assert_eq!(root.index(&2usize).bits(), 0x9000 | PRESENT | WRITABLE);
    let r = root.create_next_with::<Frames, usize>(&3, &mut below, &mut answers);
    assert!(matches!(r, Err(MapError::Alloc("none left"))));
    assert!(answers.is_empty());
    assert_eq!(root.index(&3usize).bits(), 0);
    *root.index_mut(&4usize) = Entry64::from_bits(PRESENT | HUGE_PAGE);
    let r = root.create_next_with::<Frames, usize>(&4, &mut below, &mut answers);
    assert!(matches!(r, Err(MapError::Other(Error::Huge))));
}

#[test]
fn missing_tables_counts_the_levels_to_make() {
    let mut space = CurrentPageTable::new();
    let mut alloc = Frames::new(0x10_0000, 16);
    assert_eq!(space.missing_tables(page(0x1000)), 3);
    assert!(space.map(page(0x1000), frame(0x2000), writable(), &mut alloc).is_ok());
    assert_eq!(space.missing_tables(page(0x1000)), 0);
    assert_eq!(space.missing_tables(page(0x3000)), 0);
    assert_eq!(space.missing_tables(page(0x20_0000)), 1);
    assert_eq!(space.missing_tables(page(0x4000_0000)), 2);
    assert_eq!(space.missing_tables(page(0x80_0000_0000)), 3);
}

#[test]
fn map_with_answers_that_are_all_frames() {
    let mut space = CurrentPageTable::new();
    let answers: Vec<Result<Physical<Size4Kb>, &'static str>> =
        vec![Ok(frame(0x10_0000)), Ok(frame(0x10_1000)), Ok(frame(0x10_2000))];
    let update =
        space.map_with::<Frames>(page(0x1000), frame(0x2000), writable(), answers).ok().unwrap();
    assert_eq!(update.commit().as_u64(), 0x1000);
    assert_eq!(translated(&space, 0x1000), Some(0x2000));
    assert_eq!(space.missing_tables(page(0x1000)), 0);
    // No answer is needed where no table is missing.
    let r = space.map_with::<Frames>(page(0x3000), frame(0x4000), writable(), Vec::new());
    assert!(r.is_ok());
    assert_eq!(translated(&space, 0x3000), Some(0x4000));
    let r = space.map_with::<Frames>(page(0x3000), frame(0x5000), writable(), Vec::new());
    assert!(matches!(r, Err(MapError::AlreadyMapped)));
    assert_eq!(translated(&space, 0x3000), Some(0x4000));
}

#[test]
fn map_with_answers_that_end_in_a_failure() {
    for made in 0..3usize {
        let mut space = CurrentPageTable::new();
        let mut answers: Vec<Result<Physical<Size4Kb>, &'static str>> = Vec::new();
        for k in 0..made {
            answers.push(Ok(frame(0x10_0000 + 0x1000 * k as u64)));
        }
        answers.push(Err("none left"));
        let r = space.map_with::<Frames>(page(0x1000), frame(0x2000), writable(), answers);
        assert!(matches!(r, Err(MapError::Alloc("none left"))));
        assert_eq!(translated(&space, 0x1000), None);
        // The tables that were made stay: that many fewer are missing.
        assert_eq!(space.missing_tables(page(0x1000)), 3 - made);
        // And they hold no mapping.
        assert_eq!(translated(&space, 0x3000), None);
        assert_eq!(translated(&space, 0x20_0000), None);
        let mut alloc = Frames::new(0x20_0000, 16);
        assert!(space.map(page(0x1000), frame(0x2000), writable(), &mut alloc).is_ok());
        assert_eq!(alloc.given, 3 - made);
        assert!(alloc.returned.is_empty());
        assert_eq!(translated(&space, 0x1000), Some(0x2000));
    }
}

#[test]
fn map_asks_the_allocator_once_for_each_missing_table() {
    let mut space = CurrentPageTable::new();
    let mut alloc = Frames::new(0x10_0000, 16);
    assert!(space.map(page(0x1000), frame(0x2000), writable(), &mut alloc).is_ok());
    assert_eq!(alloc.given, 3);
    assert!(alloc.returned.is_empty());
    // The tables lie in the frames in the order in which they were handed out.
    assert_eq!(translated(&space, 0x1000), Some(0x2000));
    let mut one = Frames::new(0x30_0000, 1);
    let r = space.map(page(0x4000_0000), frame(0x6000), writable(), &mut one);
    assert!(matches!(r, Err(MapError::Alloc("out of frames"))));
    // Asked twice: once with success, once without.
    assert_eq!(one.given, 1);
    assert_eq!(space.missing_tables(page(0x4000_0000)), 1);
}
