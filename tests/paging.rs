use rvos::cpu::{build_satp, SatpMode};
use rvos::page::{unmap, virt_to_phys, EntryBits, MapError, PageTable};

#[test]
fn satp_packs_mode_asid_and_root() {
    let w = build_satp(SatpMode::Sv39, 5, 0x8000_1000);
    assert_eq!(w >> 60, 8);
    assert_eq!((w >> 44) & 0xffff, 5);
    assert_eq!(w & 0xfff_ffff_ffff, (0x8000_1000u64 >> 12) & 0xff_ffff_ffff);
    assert_eq!(w, 0x8000_5000_0008_0001);
}

#[test]
fn satp_off_and_sv48() {
    assert_eq!(build_satp(SatpMode::Off, 0, 0), 0);
    assert_eq!(build_satp(SatpMode::Sv48, 0x1_0001, 0x1000) >> 44, (9 << 16) | 1);
}

#[test]
fn empty_table_translates_nothing() {
    let t = PageTable::new();
    assert_eq!(virt_to_phys(&t, 0), None);
    assert_eq!(virt_to_phys(&t, 0x4000_1234), None);
}

#[test]
fn mapped_page_translates_with_offset() {
    let mut t = PageTable::new();
    let bits = EntryBits::UserReadWrite.val();
    assert_eq!(rvos::page::map(&mut t, 0x2000_3000, 0x8020_5000, bits, 0), Ok(()));
    assert_eq!(virt_to_phys(&t, 0x2000_3000), Some(0x8020_5000));
    assert_eq!(virt_to_phys(&t, 0x2000_3abc), Some(0x8020_5abc));
    assert_eq!(virt_to_phys(&t, 0x2000_4000), None);
    assert_eq!(virt_to_phys(&t, 0x6000_3000), None);
}

#[test]
fn several_mappings_share_tables() {
    let mut t = PageTable::new();
    let bits = EntryBits::ReadExecute.val();
    assert_eq!(rvos::page::map(&mut t, 0x1000, 0x9000_0000, bits, 0), Ok(()));
    assert_eq!(rvos::page::map(&mut t, 0x2000, 0x9000_7000, bits, 0), Ok(()));
    assert_eq!(virt_to_phys(&t, 0x1004), Some(0x9000_0004));
    assert_eq!(virt_to_phys(&t, 0x2ff8), Some(0x9000_7ff8));
}

#[test]
fn large_page_leaf() {
    let mut t = PageTable::new();
    let bits = EntryBits::ReadWrite.val();
    assert_eq!(rvos::page::map(&mut t, 0x4020_0000, 0x8040_0000, bits, 1), Ok(()));
    assert_eq!(virt_to_phys(&t, 0x4021_2345), Some(0x8041_2345));
    assert_eq!(rvos::page::map(&mut t, 0x4021_0000, 0x1000, bits, 0), Err(MapError::LeafInPath));
}

#[test]
fn unmap_removes_translation() {
    let mut t = PageTable::new();
    let bits = EntryBits::ReadWrite.val();
    rvos::page::map(&mut t, 0x5000, 0x8000_9000, bits, 0).unwrap();
    assert!(unmap(&mut t, 0x5000));
    assert_eq!(virt_to_phys(&t, 0x5000), None);
    assert!(!unmap(&mut t, 0x5000));
}

#[test]
fn entry_bits_values() {
    assert_eq!(EntryBits::Valid.val(), 1);
    assert_eq!(EntryBits::UserReadWrite.val(), 22);
    assert_eq!(EntryBits::Dirty.val(), 128);
}

#[test]
fn map_leaves_other_addresses_alone() {
    let mut t = PageTable::new();
    let bits = EntryBits::ReadWrite.val();
    rvos::page::map(&mut t, 0x40_0000, 0x8800_0000, bits, 0).unwrap();
    rvos::page::map(&mut t, 0x40_1000, 0x8800_5000, bits, 0).unwrap();
    rvos::page::map(&mut t, 0x8000_0000, 0x8900_0000, bits, 0).unwrap();
    assert_eq!(virt_to_phys(&t, 0x40_0123), Some(0x8800_0123));
    assert_eq!(virt_to_phys(&t, 0x40_1123), Some(0x8800_5123));
    assert_eq!(virt_to_phys(&t, 0x8000_0008), Some(0x8900_0008));
    assert_eq!(virt_to_phys(&t, 0x40_2000), None);
    assert_eq!(virt_to_phys(&t, 0x7fff_f000), None);
}

#[test]
fn unmap_leaves_other_pages_mapped() {
    let mut t = PageTable::new();
    let bits = EntryBits::ReadWrite.val();
    rvos::page::map(&mut t, 0x5000, 0x8000_9000, bits, 0).unwrap();
    rvos::page::map(&mut t, 0x6000, 0x8000_a000, bits, 0).unwrap();
    assert!(unmap(&mut t, 0x5abc));
    assert_eq!(virt_to_phys(&t, 0x5000), None);
    assert_eq!(virt_to_phys(&t, 0x6010), Some(0x8000_a010));
}
