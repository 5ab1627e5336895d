use snespatch::binlevel::{write_entrance, write_entrances, write_level_body, write_long};
use snespatch::entrance::{EntranceId, EntrancePlacement};
use snespatch::level::{place_sprites, Level, LevelHeader, Palette, PScrGrid, SnesPal};
use snespatch::spr::{SprSet, SpritePlacement};

fn empty_level_with_header(header: LevelHeader) -> Level {
    let fg = PScrGrid::new(32, 32);
    let bg = PScrGrid::new(32, 32);
    Level::from_parts(fg, bg, vec![false; 1024], Vec::new(), header)
}

#[test]
fn long_pointers_are_three_bytes() {
    let mut v = Vec::new();
    write_long(&mut v, 0x12_3456);
    assert_eq!(v, vec![0x56, 0x34, 0x12]);
}

#[test]
fn entrance_record_bit_packing() {
    let mut v = Vec::new();
    // Level 0x105 at (3, 7), animation 2, water set, slippery clear,
    // the fixed fields as the encoder writes them.
    write_entrance(&mut v, 0x105, 3, 7, 2, 0, 0, 3, false, true, false);
    assert_eq!(v.len(), 6);
    assert_eq!(v[0], 0x05);
    assert_eq!(v[1], 0x01 | (2 << 1) | ((3u16 << 4) as u8));
    assert_eq!(v[2], 0);
    assert_eq!(v[3], 7 << 4);
    assert_eq!(v[4], (7u16 >> 4) as u8 | (3 << 6));
    assert_eq!(v[5], 1 << 6);
}

#[test]
fn entrance_table_sorts_primary_first() {
    let sec = EntrancePlacement::from_parts(0x10, 2, true, 1, 1, 0, false, false).unwrap();
    let pri = EntrancePlacement::from_parts(0x10, 1, false, 2, 2, 0, false, false).unwrap();
    let fg = PScrGrid::new(32, 32);
    let bg = PScrGrid::new(32, 32);
    let level = Level::from_parts(
        fg,
        bg,
        vec![false; 1024],
        vec![sec, pri],
        LevelHeader::default(),
    );
    let mut v = Vec::new();
    write_entrances(&mut v, &level);
    // One count byte and two six-byte records.
    assert_eq!(v.len(), 13);
    // Exactly one primary entrance.
    assert_eq!(v[0], 1);
    // The primary record comes first: its position x is 2.
    assert_eq!(v[1], 0x10);
    assert_eq!(v[2], (2u16 << 4) as u8);
}

#[test]
fn level_body_layout_for_blank_level() {
    let level = empty_level_with_header(LevelHeader::default());
    let base: u32 = 0x10_8000;
    let mut out = Vec::new();
    let len = write_level_body(&mut out, &level, base).unwrap();
    assert_eq!(out.len(), len as usize);

    // One catalogue screen of 512 planar bytes: a run of 256 times 0x25
    // and a run of 256 zeroes, then the sentinel.
    let rle = [0x00u8, 0x01, 0x25, 0x00, 0x01, 0x00, 0, 0];
    assert_eq!(&out[8..16], &rle);

    // The screen-index table: 2048 zero bytes.
    assert!(out[16..16 + 2048].iter().all(|&b| b == 0));

    // The sprite block: a reserved byte, a zeroed offset table, and the
    // lone terminator sub-stream.
    let spr_off = 16 + 2048;
    assert_eq!(out[spr_off], 0);
    assert!(out[spr_off + 1..spr_off + 257].iter().all(|&b| b == 0));
    assert_eq!(&out[spr_off + 257..spr_off + 261], &[0x80, 0, 0, 0]);

    // base + 8 + 8 + 2048 + 261 is odd, so one padding byte precedes
    // the (empty) palette section.
    let ent_off = spr_off + 261 + 1;
    // Entrance table: a lone zero count.
    assert_eq!(out[ent_off], 0);
    // Exit table: one record of three zero bytes.
    let exit_off = ent_off + 1;
    assert_eq!(&out[exit_off..exit_off + 3], &[0, 0, 0]);

    // Header record.
    let hdr_off = exit_off + 3;
    // Pointers, dimensions, mode, palette, audio, tilesets, timer, and
    // the entrance pointer: eighteen bytes in all.
    assert_eq!(out.len(), hdr_off + 18);
    let dex_addr = base + 16;
    assert_eq!(
        &out[hdr_off..hdr_off + 3],
        &[dex_addr as u8, (dex_addr >> 8) as u8, (dex_addr >> 16) as u8]
    );
    let exit_addr = base + exit_off as u32;
    assert_eq!(
        &out[hdr_off + 3..hdr_off + 6],
        &[exit_addr as u8, (exit_addr >> 8) as u8, (exit_addr >> 16) as u8]
    );
    // Width, height, mode byte.
    assert_eq!(&out[hdr_off + 6..hdr_off + 9], &[32, 32, 0]);
    // The default shared palette: sp 0, sky 2, bg 1, fg 0.
    assert_eq!(&out[hdr_off + 9..hdr_off + 12], &[0, 2 << 3, 1]);
    // Audio track, tilesets, timer byte.
    assert_eq!(out[hdr_off + 12], 2);
    assert_eq!(out[hdr_off + 13], (8 << 4) | 7);
    assert_eq!(out[hdr_off + 14], (3 << 4) | 2);

    // The backfilled pointers: the sprite block and the header.
    let spr_addr = base + spr_off as u32;
    assert_eq!(&out[0..3], &[spr_addr as u8, (spr_addr >> 8) as u8, (spr_addr >> 16) as u8]);
    let hdr_addr = base + hdr_off as u32;
    assert_eq!(&out[3..6], &[hdr_addr as u8, (hdr_addr >> 8) as u8, (hdr_addr >> 16) as u8]);
    assert_eq!(&out[6..8], &[0, 0]);
}

#[test]
fn level_body_custom_palette() {
    let mut words = vec![0u16; 257];
    words[0] = 0x7fff;
    words[256] = 0x1234;
    let header = LevelHeader {
        palette: Palette::Custom(SnesPal::from_words(words)),
        ..LevelHeader::default()
    };
    let level = empty_level_with_header(header);
    let base: u32 = 0x10_8000;
    let mut out = Vec::new();
    let len = write_level_body(&mut out, &level, base).unwrap();
    assert_eq!(out.len(), len as usize);

    // Sections up to the palette are as in the blank level.
    let after_spr = 8 + 8 + 2048 + 261;
    // base + after_spr is odd: one padding zero, then 514 palette bytes.
    let pal_off = after_spr + 1;
    assert_eq!(&out[pal_off..pal_off + 2], &[0xff, 0x7f]);
    assert_eq!(&out[pal_off + 512..pal_off + 514], &[0x34, 0x12]);

    // The header names the palette by address with its low bit set.
    let hdr_off = pal_off + 514 + 1 + 3;
    let pal_addr = (base + pal_off as u32) | 1;
    assert_eq!(
        &out[hdr_off + 9..hdr_off + 12],
        &[pal_addr as u8, (pal_addr >> 8) as u8, (pal_addr >> 16) as u8]
    );
    assert_eq!(out.len(), hdr_off + 18);
}

#[test]
fn level_body_sprite_block() {
    let mut fg = PScrGrid::new(32, 32);
    let mut set = SprSet::new();
    set.insert(SpritePlacement::new(5, 0, 0, false, [0; 4]));
    place_sprites(&mut fg, &set);
    let bg = PScrGrid::new(32, 32);
    let level = Level::from_parts(fg, bg, vec![false; 1024], Vec::new(), LevelHeader::default());
    let mut out = Vec::new();
    let len = write_level_body(&mut out, &level, 0x10_8000).unwrap();
    assert_eq!(out.len(), len as usize);

    // Two catalogue screens of identical tiles: four runs of 256 bytes,
    // then the sentinel — fourteen bytes of tile stream.
    let spr_block = 8 + 14 + 2048;
    // The first position indexes the sprite screen, everything else the
    // shared blank screen.
    assert_eq!(out[8 + 14], 0);
    assert_eq!(out[8 + 14 + 1], 1);
    assert_eq!(out[8 + 14 + 2047], 1);

    // Reserved byte, then the offset table: the sprite screen's entry
    // names the sub-stream one record in (past the initial terminator),
    // doubled, with the running sprite index zero.
    assert_eq!(out[spr_block], 0);
    assert_eq!(out[spr_block + 1], 2);
    assert_eq!(out[spr_block + 2], 0);
    assert!(out[spr_block + 3..spr_block + 257].iter().all(|&b| b == 0));

    // The sub-streams: the initial terminator, the sprite's four-byte
    // record, and its terminator.
    let bin = spr_block + 257;
    assert_eq!(&out[bin..bin + 4], &[0x80, 0, 0, 0]);
    assert_eq!(&out[bin + 4..bin + 8], &[0, 5, 0, 0]);
    assert_eq!(&out[bin + 8..bin + 12], &[0x80, 0, 0, 0]);
}
