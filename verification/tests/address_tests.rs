use snespatch::address::{Address, AddressError, Mapper};

#[test]
fn pc_range_limits() {
    assert!(Address::new_from_pc(0x3f_ffff, Mapper::Lorom).is_some());
    assert!(Address::new_from_pc(0x40_0000, Mapper::Lorom).is_none());
    assert!(Address::new_from_pc(0x40_0000, Mapper::Hirom).is_none());
    assert!(Address::new_from_pc(0x7f_ffff, Mapper::Exlorom).is_some());
    assert!(Address::new_from_pc(0x80_0000, Mapper::Exhirom).is_none());
    assert!(Address::new_from_pc(0x1f_ffff, Mapper::Sfxrom).is_some());
    assert!(Address::new_from_pc(0x20_0000, Mapper::Sfxrom).is_none());
    assert!(Address::new_from_pc(0x7f_ffff, Mapper::Sa1rom([0, 1, 2, 3])).is_some());
}

#[test]
fn snes_rejects_wram_mirror() {
    assert_eq!(
        Address::new_from_snes(0x7e_0000, Mapper::Lorom),
        Err(AddressError::OutOfRange)
    );
    assert_eq!(
        Address::new_from_snes(0x7f_ffff, Mapper::Hirom),
        Err(AddressError::OutOfRange)
    );
}

#[test]
fn snes_unsupported_modes_are_distinct() {
    assert_eq!(
        Address::new_from_snes(0xc0_8000, Mapper::Sfxrom),
        Err(AddressError::Unsupported)
    );
    assert_eq!(
        Address::new_from_snes(0xc0_8000, Mapper::Sa1rom([0, 1, 2, 3])),
        Err(AddressError::Unsupported)
    );
}

#[test]
fn snes_lorom_fold() {
    let a = Address::new_from_snes(0x80_8000, Mapper::Lorom).unwrap();
    assert_eq!(a.pc_ofs(), 0);
    let b = Address::new_from_snes(0x81_8123, Mapper::Lorom).unwrap();
    assert_eq!(b.pc_ofs(), 0x8123);
    // A bank address without the ROM-select bit is rejected.
    assert_eq!(
        Address::new_from_snes(0x80_7fff, Mapper::Lorom),
        Err(AddressError::OutOfRange)
    );
}

#[test]
fn round_trip_lorom() {
    for &pc in &[0usize, 1, 0x7fff, 0x8000, 0x123456, 0x3f_ffff] {
        let a = Address::new_from_pc(pc, Mapper::Lorom).unwrap();
        let snes = a.snes_ofs().unwrap() as usize;
        let back = Address::new_from_snes(snes, Mapper::Lorom).unwrap();
        assert_eq!(back.pc_ofs(), pc);
    }
}

#[test]
fn round_trip_hirom_and_extended() {
    for &pc in &[0usize, 0x1000, 0x8000, 0x3f_ffff] {
        let a = Address::new_from_pc(pc, Mapper::Hirom).unwrap();
        let snes = a.snes_ofs().unwrap() as usize;
        let back = Address::new_from_snes(snes, Mapper::Hirom).unwrap();
        assert_eq!(back.pc_ofs(), pc);
    }
    for &pc in &[0usize, 0x2000, 0x37_ffff, 0x40_0000, 0x7f_ffff] {
        let a = Address::new_from_pc(pc, Mapper::Exlorom).unwrap();
        let snes = a.snes_ofs().unwrap() as usize;
        let back = Address::new_from_snes(snes, Mapper::Exlorom).unwrap();
        assert_eq!(back.pc_ofs(), pc);
    }
    for &pc in &[0usize, 0x2000, 0x3d_ffff, 0x3e_8000, 0x40_0000, 0x7f_ffff] {
        let a = Address::new_from_pc(pc, Mapper::Exhirom).unwrap();
        let snes = a.snes_ofs().unwrap() as usize;
        let back = Address::new_from_snes(snes, Mapper::Exhirom).unwrap();
        assert_eq!(back.pc_ofs(), pc);
    }
}

#[test]
fn snes_ofs_none_for_chip_modes() {
    let a = Address::new_from_pc(0x1000, Mapper::Sa1rom([0, 1, 2, 3])).unwrap();
    assert!(a.snes_ofs().is_none());
    let b = Address::new_from_pc(0x1000, Mapper::Sfxrom).unwrap();
    assert!(b.snes_ofs().is_none());
}

#[test]
fn from_snes_bytes_assembles_little_endian() {
    let bytes = [0x34u8, 0x92, 0x81];
    let a = Address::new_from_snes_bytes(&bytes, Mapper::Lorom).unwrap();
    // 0x819234 folds to ((0x810000 & 0x7f0000) >> 1) | 0x1234.
    assert_eq!(a.pc_ofs(), ((0x81_0000 & 0x7f_0000) >> 1) | 0x1234);
}

#[test]
fn segment_only_for_chip_modes() {
    let a = Address::new_from_pc(0x25_0000, Mapper::Sa1rom([0, 1, 2, 3])).unwrap();
    assert_eq!(a.segment(), Some(2));
    let b = Address::new_from_pc(0x25_0000, Mapper::Exlorom).unwrap();
    assert_eq!(b.segment(), None);
}

#[test]
fn region_base_values() {
    let m = Mapper::Sddrom([0, 1, 2, 3]);
    assert_eq!(m.region_base(0), 0xc0_0000);
    assert_eq!(m.region_base(3), 0xc0_0000 + 3 * 0x10_0000);
}
