use hal9000::mem::map::{GenericRegion, Region, RegionKind};
use hal9000::mem::page::{Page, TableUpdate};
use hal9000::paging::{FlushTlb, Physical, Size2Mb, Size4Kb, Virtual};
use hal9000::x64::page::Size1Gb;
use hal9000::x64::{PAddr, VAddr, X86_64};
use hal9000::Architecture;
use std::cmp::Ordering;

#[test]
fn pages_round_their_address() {
    let down = Virtual::<Size4Kb>::from_addr_down(VAddr::new(0x1234));
    assert_eq!(down.base_address().as_u64(), 0x1000);
    let up = Virtual::<Size4Kb>::from_addr_up(VAddr::new(0x1234));
    assert_eq!(up.base_address().as_u64(), 0x2000);
    let exact = Virtual::<Size4Kb>::from_addr_up(VAddr::new(0x3000));
    assert_eq!(exact.base_address().as_u64(), 0x3000);
    let large = Physical::<Size2Mb>::from_addr_down(PAddr::new(0x7f_ffff));
    assert_eq!(large.base_address().as_u64(), 0x60_0000);
    let huge = Physical::<Size1Gb>::from_addr_up(PAddr::new(1));
    assert_eq!(huge.base_address().as_u64(), 0x4000_0000);
}

#[test]
fn pages_end_one_size_after_their_start() {
    let small = Virtual::<Size4Kb>::from_addr_down(VAddr::new(0x1000));
    assert_eq!(small.end_address().as_u64(), 0x2000);
    let large = Physical::<Size2Mb>::from_addr_down(PAddr::new(0x20_0000));
    assert_eq!(large.end_address().as_u64(), 0x40_0000);
    let huge = Physical::<Size1Gb>::from_addr_down(PAddr::new(0));
    assert_eq!(huge.end_address().as_u64(), 0x4000_0000);
    // The page below the high half ends where the high half starts.
    let last_low = Virtual::<Size4Kb>::from_addr_down(VAddr::new(0x0000_7fff_ffff_f000));
    assert_eq!(last_low.end_address().as_u64(), 0xffff_8000_0000_0000);
}

#[test]
fn pages_are_numbered_by_size() {
    assert_eq!(Virtual::<Size4Kb>::from_addr_down(VAddr::new(0x5000)).number(), 5);
    assert_eq!(Physical::<Size2Mb>::from_addr_down(PAddr::new(0x60_0000)).number(), 3);
    assert_eq!(Physical::<Size4Kb>::from_addr_down(PAddr::new(0xfff)).number(), 0);
}

#[test]
fn page_constants() {
    assert_eq!(<Virtual<Size4Kb> as Page>::SIZE, 4096);
    assert_eq!(<Physical<Size2Mb> as Page>::SIZE, 2 * 1024 * 1024);
    assert_eq!(<Physical<Size1Gb> as Page>::SIZE, 1024 * 1024 * 1024);
    assert_eq!(<Virtual<Size4Kb> as Page>::SHIFT, 12);
}

#[test]
fn flush_names_the_address_of_its_page() {
    let page = Virtual::<Size4Kb>::from_addr_down(VAddr::new(0xffff_8000_0000_1234));
    let update = FlushTlb::new(page);
    assert_eq!(update.commit().as_u64(), 0xffff_8000_0000_1000);
    ().commit();
}

fn region(base: u64, size: usize, kind: RegionKind) -> GenericRegion<PAddr> {
    GenericRegion { base_address: PAddr::new(base), size, kind }
}

#[test]
fn regions_end_after_their_size() {
    let r = region(0x10_0000, 0x5000, RegionKind::Usable);
    assert_eq!(r.base_address().as_u64(), 0x10_0000);
    assert_eq!(r.size(), 0x5000);
    assert_eq!(r.end_address().as_u64(), 0x10_5000);
}

#[test]
fn regions_count_whole_frames() {
    let r = region(0, 0x5fff, RegionKind::Usable);
    assert_eq!(r.num_frames::<Size4Kb>(), 5);
    assert_eq!(r.num_frames::<Size2Mb>(), 0);
    assert_eq!(region(0, 0x40_0000, RegionKind::Usable).num_frames::<Size2Mb>(), 2);
    assert_eq!(region(0, 0, RegionKind::Usable).num_frames::<Size4Kb>(), 0);
}

#[test]
fn regions_know_their_kind() {
    let usable = region(0, 1, RegionKind::Usable);
    assert!(usable.is_usable() && !usable.is_used() && !usable.is_kernel());
    let used = region(0, 1, RegionKind::InUse);
    assert!(!used.is_usable() && used.is_used() && !used.is_kernel());
    let kernel = region(0, 1, RegionKind::Kernel);
    assert!(!kernel.is_usable() && !kernel.is_used() && kernel.is_kernel());
    let reserved = region(0, 1, RegionKind::Unusable);
    assert!(!reserved.is_usable() && !reserved.is_used() && !reserved.is_kernel());
}

#[test]
fn regions_are_equal_in_every_part() {
    let r = region(0x1000, 0x2000, RegionKind::Usable);
    assert!(r == region(0x1000, 0x2000, RegionKind::Usable));
    assert!(r != region(0x2000, 0x2000, RegionKind::Usable));
    assert!(r != region(0x1000, 0x3000, RegionKind::Usable));
    assert!(r != region(0x1000, 0x2000, RegionKind::Kernel));
}

#[test]
fn regions_are_ordered_by_their_base() {
    let low = region(0x1000, 0x9000, RegionKind::Kernel);
    let high = region(0x2000, 0x1000, RegionKind::Usable);
    assert_eq!(low.partial_cmp(&high), Some(Ordering::Less));
    assert_eq!(high.partial_cmp(&low), Some(Ordering::Greater));
    assert_eq!(
        low.partial_cmp(&region(0x1000, 1, RegionKind::Unusable)),
        Some(Ordering::Equal)
    );
    assert!(low < high);
}

#[test]
fn the_architecture_names_itself() {
    assert_eq!(X86_64::NAME, "x86_64");
    assert_eq!(X86_64::BITS, "64");
}
