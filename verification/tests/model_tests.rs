use snespatch::level::{pscreens_from_linear_tiles, PScrGrid, PScreen, ScreenDex, SnesPal};
use snespatch::spr::SpritePlacement;

#[test]
fn screen_tiles_start_as_filler() {
    let s = PScreen::new();
    assert_eq!(s.tile(0, 0), 0x0025);
    assert_eq!(s.tile(15, 15), 0x0025);
}

#[test]
fn screen_tile_set_and_get() {
    let mut s = PScreen::new();
    s.set_tile(3, 7, 0x1a2b);
    assert_eq!(s.tile(3, 7), 0x1a2b);
    assert_eq!(s.tile(7, 3), 0x0025);
}

#[test]
fn screen_duplicate_matches() {
    let mut s = PScreen::new();
    s.set_tile(1, 1, 0x42);
    s.sprites.insert(SpritePlacement::new(9, 4, 4, true, [1, 2, 3, 4]));
    let d = s.duplicate();
    assert_eq!(d.tile(1, 1), 0x42);
    assert_eq!(d.sprite_count(), 1);
    assert!(d.sprite_at(0).same_as(s.sprite_at(0)));
}

#[test]
fn grid_screen_lookup_is_row_major() {
    let mut g = PScrGrid::new(4, 4);
    g.set_tile_at(2, 1, 0, 0, 0x77);
    assert_eq!(g.screen_at(2, 1).tile(0, 0), 0x77);
    assert_eq!(g.screen_at(1, 2).tile(0, 0), 0x0025);
}

#[test]
fn empty_dex_has_no_entries() {
    let d = ScreenDex::empty(4, 4);
    assert_eq!(d.screens.len(), 0);
    assert_eq!(d.dex.len(), 0);
    assert_eq!(d.width, 4);
    assert_eq!(d.height, 4);
}

#[test]
fn dex_from_grid_deduplicates() {
    let mut g = PScrGrid::new(2, 2);
    g.set_tile_at(1, 1, 0, 0, 0x99);
    let d = ScreenDex::from_scr_grid(&g);
    // Three blank screens share one entry; the odd one out gets its own.
    assert_eq!(d.screens.len(), 2);
    assert_eq!(d.dex, vec![0, 0, 0, 1]);
    assert_eq!(d.filter, vec![false; 4]);
    // Lookups go through the index.
    assert_eq!(d.screen_at(1, 1).tile(0, 0), 0x99);
    assert_eq!(d.screen_at(0, 1).tile(0, 0), 0x0025);
}

#[test]
fn dex_tile_bytes_cover_whole_catalogue() {
    let g = PScrGrid::new(2, 2);
    let d = ScreenDex::from_scr_grid(&g);
    assert_eq!(d.tile_bytes().len(), 512);
}

#[test]
fn palette_words_serialize_little_endian() {
    let mut words = vec![0u16; 257];
    words[0] = 0x0102;
    words[1] = 0xfffe;
    let pal = SnesPal::from_words(words);
    let b = pal.to_binary_snes();
    assert_eq!(b.len(), 514);
    assert_eq!(&b[0..4], &[0x02, 0x01, 0xfe, 0xff]);
}

#[test]
fn sprite_order_method_matches_fields() {
    let a = SpritePlacement::new(1, 0, 0, false, [0; 4]);
    let b = SpritePlacement::new(2, 0, 0, false, [0; 4]);
    assert!(a.le(&b));
    assert!(!b.le(&a));
    assert!(a.le(&a));
    // Screen row dominates everything else.
    let low_row = SpritePlacement::new(200, 15, 0, true, [9; 4]);
    let high_row = SpritePlacement::new(1, 0, 16, false, [0; 4]);
    assert!(low_row.le(&high_row));
}

#[test]
fn fallible_catalogue_reports_overflow() {
    // A level with 129 distinct foreground screens overflows the
    // catalogue; one with a single repeated screen does not.
    let mut fg = PScrGrid::new(32, 32);
    for k in 0..129usize {
        fg.set_tile_at(k % 32, k / 32, 0, 0, 0x100 + k as u16);
    }
    let bg = PScrGrid::new(32, 32);
    let level = snespatch::level::Level::from_parts(
        fg,
        bg,
        vec![false; 1024],
        Vec::new(),
        snespatch::level::LevelHeader::default(),
    );
    assert!(ScreenDex::try_from_level(&level).is_none());

    let plain = snespatch::level::Level::from_parts(
        PScrGrid::new(32, 32),
        PScrGrid::new(32, 32),
        vec![false; 1024],
        Vec::new(),
        snespatch::level::LevelHeader::default(),
    );
    let d = ScreenDex::try_from_level(&plain).unwrap();
    assert_eq!(d.screens.len(), 1);
}

#[test]
fn zero_width_layout_from_empty_dump() {
    let tiles: Vec<u16> = Vec::new();
    let g = pscreens_from_linear_tiles(&tiles, 0, 4);
    let d = ScreenDex::from_scr_grid(&g);
    assert_eq!(d.dex.len(), 0);
    assert_eq!(d.screens.len(), 0);
}
