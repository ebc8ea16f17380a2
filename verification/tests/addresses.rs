use bit_field::BitField;
use hal9000::mem::Address;
use hal9000::paging::{Size2Mb, Size4Kb};
use hal9000::util::Align;
use hal9000::x64::page::Size1Gb;
use hal9000::x64::{PAddr, VAddr};

const SAMPLES: [u64; 12] = [
    0,
    1,
    0xfff,
    0x1000,
    0x0000_7fff_ffff_ffff,
    0x0000_8000_0000_0000,
    0x0000_8000_0000_1000,
    0x0123_4567_89ab_cdef,
    0x8000_0000_0000_0000,
    0xffff_7fff_ffff_ffff,
    0xffff_8000_0000_0000,
    0xffff_ffff_ffff_ffff,
];

#[test]
fn it_works() {
    assert_eq!(2 + 2, 4);
}

#[test]
fn vaddrs_are_canonical() {
    for value in SAMPLES {
        let vaddr = VAddr::new(value);
        if value.get_bit(47) {
            assert_eq!(vaddr.as_u64().get_bits(48..64), 0xffff);
        } else {
            assert_eq!(vaddr.as_u64().get_bits(48..64), 0x0000);
        }
        assert_eq!(vaddr.as_u64().get_bits(0..48), value.get_bits(0..48));
        assert_eq!(VAddr::new(vaddr.as_u64()), vaddr);
    }
}

#[test]
fn paddrs_are_canonical() {
    for value in SAMPLES {
        let paddr = PAddr::new(value);
        assert_eq!(paddr.as_u64().get_bits(52..64), 0);
        assert_eq!(paddr.as_u64().get_bits(0..52), value.get_bits(0..52));
        assert_eq!(PAddr::new(paddr.as_u64()), paddr);
    }
}

#[test]
fn vaddr_with_bit_47_is_sign_extended() {
    assert_eq!(VAddr::new(0x0000_8000_0000_1000).as_u64(), 0xFFFF_8000_0000_1000);
    assert_eq!(VAddr::new(0xFFFF_7000_0000_1000).as_u64(), 0x0000_7000_0000_1000);
    assert_eq!(VAddr::new(0x1000).as_usize(), 0x1000);
}

#[test]
fn paddr_drops_the_twelve_highest_bits() {
    assert_eq!(PAddr::new(0xFFFF_FFFF_FFFF_FFFF).as_u64(), 0x000F_FFFF_FFFF_FFFF);
    assert_eq!(PAddr::new(0x2001).as_u64(), 0x2001);
}

#[test]
fn align_up_and_down_of_seventeen() {
    assert_eq!(17u64.align_up(16), 32);
    assert_eq!(17u64.align_down(16), 16);
    assert_eq!(17u8.align_up(16), 32);
    assert_eq!(17u8.align_down(16), 16);
    assert_eq!(17u16.align_up(16), 32);
    assert_eq!(17u16.align_down(16), 16);
    assert_eq!(17u32.align_up(16), 32);
    assert_eq!(17u32.align_down(16), 16);
    assert_eq!(17usize.align_up(16), 32);
    assert_eq!(17usize.align_down(16), 16);
}

#[test]
fn aligned_numbers_stay() {
    assert_eq!(32u64.align_up(16), 32);
    assert_eq!(32u64.align_down(16), 32);
    assert_eq!(0u64.align_up(4096), 0);
    assert_eq!(5u64.align_up(1), 5);
    assert_eq!(5u64.align_down(1), 5);
    assert_eq!(255u8.align_down(128), 128);
    assert_eq!(0xffff_ffff_ffff_f001u64.align_down(4096), 0xffff_ffff_ffff_f000);
}

#[test]
fn alignment_bounds_hold_on_samples() {
    for value in [0u64, 1, 15, 16, 17, 4095, 4096, 4097, 0x1234_5678] {
        for shift in [0u32, 1, 4, 12, 21] {
            let n = 1u64 << shift;
            let down = value.align_down(n);
            let up = value.align_up(n);
            assert!(down <= value && value < down + n);
            assert_eq!(down % n, 0);
            assert!(value <= up && up < value + n);
            assert_eq!(up % n, 0);
        }
    }
}

#[test]
fn addresses_align_in_their_normal_form() {
    assert_eq!(Address::align_down(&VAddr::new(0x1fff), 4096).as_u64(), 0x1000);
    assert_eq!(Address::align_up(&VAddr::new(0x1001), 4096).as_u64(), 0x2000);
    assert_eq!(Address::align_down(&PAddr::new(0x2001), 4096).as_u64(), 0x2000);
    assert_eq!(Address::align_up(&PAddr::new(0x2001), 4096).as_u64(), 0x3000);
    // Rounding up into bit 47 makes the address a high one.
    assert_eq!(
        Address::align_up(&VAddr::new(0x0000_7fff_ffff_f001), 4096).as_u64(),
        0xffff_8000_0000_0000
    );
    // Rounding up past 52 bits wraps a physical address to zero.
    assert_eq!(Address::align_up(&PAddr::new(0x000f_ffff_ffff_ffff), 4096).as_u64(), 0);
}

#[test]
fn page_alignment_of_addresses() {
    assert!(VAddr::new(0x1000).is_page_aligned::<Size4Kb>());
    assert!(!VAddr::new(0x1001).is_page_aligned::<Size4Kb>());
    assert!(PAddr::new(0x20_0000).is_page_aligned::<Size2Mb>());
    assert!(!PAddr::new(0x2000).is_page_aligned::<Size2Mb>());
    assert!(PAddr::new(0x4000_0000).is_page_aligned::<Size1Gb>());
    assert!(!PAddr::new(0x20_0000).is_page_aligned::<Size1Gb>());
}

#[test]
fn raw_conversions() {
    assert_eq!(VAddr::from_raw(0x0000_8000_0000_0000).as_raw(), 0xffff_8000_0000_0000);
    assert_eq!(PAddr::from_raw(0xfff0_0000_0000_1234).as_raw(), 0x1234);
    assert_eq!(VAddr::from(0x0000_8000_0000_0000u64).as_u64(), 0xffff_8000_0000_0000);
    assert_eq!(PAddr::from(0xffff_ffff_ffff_ffffu64).as_u64(), 0x000f_ffff_ffff_ffff);
    assert_eq!(VAddr::from(0x1000usize).as_u64(), 0x1000);
    assert_eq!(PAddr::from(0x2000usize).as_u64(), 0x2000);
}

#[test]
fn address_arithmetic() {
    let a = VAddr::new(0x3000);
    let b = VAddr::new(0x1000);
    assert_eq!((a + b).as_u64(), 0x4000);
    assert_eq!((a - b).as_u64(), 0x2000);
    assert_eq!((a * VAddr::new(2)).as_u64(), 0x6000);
    assert_eq!((a / b).as_u64(), 3);
    assert_eq!((a % VAddr::new(0x2000)).as_u64(), 0x1000);
    assert_eq!((a & b).as_u64(), 0x1000);
    assert_eq!((!VAddr::new(0)).as_u64(), 0xffff_ffff_ffff_ffff);
    assert_eq!((!VAddr::new(0xffff_ffff_ffff_ffff)).as_u64(), 0);
    // A sum that reaches bit 47 is made canonical.
    assert_eq!(
        (VAddr::new(0x0000_7fff_ffff_f000) + VAddr::new(0x1000)).as_u64(),
        0xffff_8000_0000_0000
    );
    let p = PAddr::new(0x3000);
    let q = PAddr::new(0x1000);
    assert_eq!((p + q).as_u64(), 0x4000);
    assert_eq!((p - q).as_u64(), 0x2000);
    assert_eq!((p * PAddr::new(2)).as_u64(), 0x6000);
    assert_eq!((p / q).as_u64(), 3);
    assert_eq!((p % PAddr::new(0x2000)).as_u64(), 0x1000);
    assert_eq!((p & q).as_u64(), 0x1000);
    assert_eq!((!PAddr::new(0)).as_u64(), 0x000f_ffff_ffff_ffff);
    // A sum past 52 bits loses what lies above.
    assert_eq!((PAddr::new(0x000f_ffff_ffff_f000) + PAddr::new(0x1000)).as_u64(), 0);
}

#[test]
fn stepping_through_addresses() {
    assert_eq!(VAddr::new(0x1000).add_one().as_u64(), 0x1001);
    assert_eq!(VAddr::new(0x1000).sub_one().as_u64(), 0x0fff);
    assert_eq!(VAddr::new(0x1000).add_usize(0x234).map(|a| a.as_u64()), Some(0x1234));
    // One past the low half is the first address of the high half.
    assert_eq!(VAddr::new(0x0000_7fff_ffff_ffff).add_one().as_u64(), 0xffff_8000_0000_0000);
    assert_eq!(VAddr::new(0xffff_8000_0000_0000).sub_one().as_u64(), 0x0000_7fff_ffff_ffff);
    let mut v = VAddr::new(0x5000);
    assert_eq!(v.replace_one().as_u64(), 1);
    assert_eq!(v.as_u64(), 1);
    assert_eq!(v.replace_zero().as_u64(), 0);
    assert_eq!(v.as_u64(), 0);
    assert_eq!(PAddr::new(0x1000).add_one().as_u64(), 0x1001);
    assert_eq!(PAddr::new(0x1000).sub_one().as_u64(), 0x0fff);
    assert_eq!(PAddr::new(0x1000).add_usize(0x234).map(|a| a.as_u64()), Some(0x1234));
    assert_eq!(PAddr::new(0x000f_ffff_ffff_ffff).add_one().as_u64(), 0);
    let mut p = PAddr::new(0x5000);
    assert_eq!(p.replace_one().as_u64(), 1);
    assert_eq!(p.as_u64(), 1);
    assert_eq!(p.replace_zero().as_u64(), 0);
    assert_eq!(p.as_u64(), 0);
}
