use snespatch::address::{Address, Mapper};
use snespatch::level_table::{
    get_level_ptr, get_level_ptr_ofs, get_version, get_version_table_ptr, init_version_table,
    is_rats_clnp, rm_level, set_level_ptr, set_version,
};
use snespatch::rats::insert_free;

fn blank_image(len: usize) -> Vec<u8> {
    vec![0u8; len]
}

#[test]
fn level_ptr_slot_location() {
    // Level slots sit at bank address 0x05e000 onward, three bytes each.
    let a = get_level_ptr_ofs(0);
    assert_eq!(a.pc_ofs(), ((0x5_e000 & 0x7f_0000) >> 1) | (0x5_e000 & 0x7fff));
    let b = get_level_ptr_ofs(1);
    assert_eq!(b.pc_ofs(), a.pc_ofs() + 3);
}

#[test]
fn level_ptr_write_read_round_trip() {
    let mut img = blank_image(0x90000);
    set_level_ptr(&mut img, 5, 0x10_8000);
    let a = get_level_ptr(&img, 5).unwrap();
    // 0x108000 folds to 0x080000.
    assert_eq!(a.pc_ofs(), 0x8_0000);
    // An all-zero slot does not name a ROM address.
    assert!(get_level_ptr(&img, 6).is_err());
}

#[test]
fn clnp_header_check() {
    let mut img = blank_image(0x90000);
    let mut payload = vec![0x43u8, 0x4c, 0x4e, 0x50];
    payload.extend_from_slice(&[9; 20]);
    let a = insert_free(&mut img, &payload).unwrap();
    let tag_start = a.pc_ofs() - 8;
    assert!(is_rats_clnp(&img, tag_start));
    assert!(!is_rats_clnp(&img, tag_start + 1));
}

#[test]
fn rm_level_clears_record_and_pointer() {
    let mut img = blank_image(0x90000);
    let mut payload = vec![0x43u8, 0x4c, 0x4e, 0x50];
    payload.extend_from_slice(&[7; 96]);
    let a = insert_free(&mut img, &payload).unwrap();
    let tag_start = a.pc_ofs() - 8;
    // Point the level slot at the record's body, past tag and marker.
    let body = Address::new_from_pc(tag_start + 12, Mapper::Lorom).unwrap();
    set_level_ptr(&mut img, 7, body.snes_ofs().unwrap());

    let (freed, extent) = rm_level(&mut img, 7).unwrap();
    assert_eq!(freed.pc_ofs(), tag_start);
    // Tag, marker, and the 96 body bytes.
    assert_eq!(extent, 108);
    for j in tag_start..tag_start + extent {
        assert_eq!(img[j], 0);
    }
    // The slot is cleared too.
    assert!(get_level_ptr(&img, 7).is_err());
}

#[test]
fn rm_level_without_record_leaves_image() {
    let mut img = blank_image(0x90000);
    let before = img.clone();
    assert!(rm_level(&mut img, 3).is_none());
    assert_eq!(img, before);
}

#[test]
fn version_table_needs_free_space() {
    // An image with no free run past the reserved region cannot hold the
    // table; nothing changes.
    let mut img = blank_image(0x80010);
    let before = img.clone();
    assert!(init_version_table(&mut img).is_none());
    assert_eq!(img, before);
}

#[test]
fn version_table_life_cycle() {
    let mut img = blank_image(0x90000);
    // No table yet: reads are all zero and stamping fails.
    assert!(get_version_table_ptr(&img).is_none());
    assert_eq!(get_version(&img, 9), (0, 0, 0));
    assert!(!set_version(&mut img, 9));

    let a = init_version_table(&mut img).unwrap();
    assert!(get_version_table_ptr(&img).is_some());
    assert_eq!(get_version(&img, 9), (0, 0, 0));

    assert!(set_version(&mut img, 9));
    assert_eq!(get_version(&img, 9), (0, 1, 0));
    assert_eq!(get_version(&img, 10), (0, 0, 0));
    // The stamp sits inside the table's tagged record.
    let t = get_version_table_ptr(&img).unwrap().pc_ofs();
    assert_eq!(t, a.pc_ofs());
    assert_eq!(img[t + 9 * 3 + 1], 1);
}
