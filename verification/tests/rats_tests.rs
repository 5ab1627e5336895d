use snespatch::rats::{find_aligned, find_free, insert, insert_free, rats_len, read_u16, remove};

fn zeroed_image(len: usize) -> Vec<u8> {
    vec![0u8; len]
}

#[test]
fn read_u16_little_endian() {
    let buf = [0x34u8, 0x12, 0xff];
    assert_eq!(read_u16(&buf, 0), 0x1234);
    assert_eq!(read_u16(&buf, 1), 0xff12);
}

#[test]
fn insert_writes_tag_and_payload() {
    let mut buf: Vec<u8> = Vec::new();
    insert(&mut buf, &[7, 8, 9]);
    // Magic, length minus one little-endian, its complement, payload.
    assert_eq!(
        buf,
        vec![0x53, 0x54, 0x41, 0x52, 2, 0, !2u8, !0u8, 7, 8, 9]
    );
}

#[test]
fn inserted_tag_validates() {
    let mut buf: Vec<u8> = Vec::new();
    insert(&mut buf, &[1; 100]);
    // The whole record is the tag plus the hundred payload bytes.
    assert_eq!(rats_len(&buf, 0), Some(108));
}

#[test]
fn corrupting_any_tag_byte_invalidates() {
    for k in 0..8 {
        let mut buf: Vec<u8> = Vec::new();
        insert(&mut buf, &[5; 10]);
        buf[k] ^= 0x01;
        assert_eq!(rats_len(&buf, 0), None, "corrupted byte {} still validated", k);
    }
}

#[test]
fn find_free_skips_tagged_records() {
    let mut img = zeroed_image(0x90000);
    // Occupy the first free byte run with a record.
    let payload = [9u8; 16];
    let a = insert_free(&mut img, &payload).unwrap();
    assert_eq!(a.pc_ofs(), 0x80000 + 8);
    // The next search must land past the whole record.
    let b = find_free(&img, 16).unwrap();
    assert!(b.pc_ofs() >= 0x80000 + 8 + 16);
}

#[test]
fn find_aligned_returns_aligned_start() {
    let img = zeroed_image(0x90000);
    let a = find_aligned(&img, 0x100, 8).unwrap();
    assert_eq!(a.pc_ofs() & 0xff, 0);
    assert!(a.pc_ofs() >= 0x80000);
}

#[test]
fn find_free_fails_when_image_exhausted() {
    // Too short an image: the scan never reaches a free run.
    let img = zeroed_image(0x80010);
    assert!(find_free(&img, 0x100).is_none());
}

#[test]
fn insert_free_then_remove_round_trip() {
    let mut img = zeroed_image(0x90000);
    // A hundred-byte payload opening with the cleared-block marker.
    let mut payload = vec![0u8; 100];
    payload[0] = 0x43;
    payload[1] = 0x4c;
    payload[2] = 0x4e;
    payload[3] = 0x50;
    for i in 4..100 {
        payload[i] = i as u8;
    }
    let a = insert_free(&mut img, &payload).unwrap();
    let tag_start = a.pc_ofs() - 8;
    // The record pointer of the cleared-block convention stands just
    // past the marker, twelve bytes after the tag.
    let (freed_at, freed_len) = remove(&mut img, tag_start + 12).unwrap();
    assert_eq!(freed_at, tag_start);
    assert!(freed_len >= 108);
    for j in tag_start..tag_start + freed_len {
        assert_eq!(img[j], 0, "byte {} not zeroed", j);
    }
}

#[test]
fn remove_without_marker_fails_untouched() {
    let mut img = zeroed_image(0x90000);
    let payload = [7u8; 20];
    let a = insert_free(&mut img, &payload).unwrap();
    let before = img.clone();
    // The payload does not open with the marker, so removal must fail.
    assert!(remove(&mut img, a.pc_ofs() + 4).is_none());
    assert_eq!(img, before);
}
