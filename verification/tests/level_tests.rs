use snespatch::entrance::{EntranceId, EntrancePlacement};
use snespatch::level::{Level, LevelHeader, PScrGrid, PScreen, ScreenDex, place_exits, place_sprites, pscreens_from_linear_tiles, tile_bytes};
use snespatch::rle::{make_runs, Run};
use snespatch::spr::{SprSet, SpritePlacement};

fn uniform_level() -> Level {
    let fg = PScrGrid::new(32, 32);
    let bg = PScrGrid::new(32, 32);
    let sf = vec![false; 1024];
    Level::from_parts(fg, bg, sf, Vec::new(), LevelHeader::default())
}

#[test]
fn screen_content_equality_is_sprite_sensitive() {
    let a = PScreen::new();
    let b = PScreen::new();
    assert!(a.content_eq(&b));
    let mut c = PScreen::new();
    let mut d = PScreen::new();
    let spr = SpritePlacement::new(4, 10, 10, false, [0; 4]);
    c.sprites.insert(spr);
    d.sprites.insert(spr);
    // Identical tiles, identical sprites: still never equal.
    assert!(!c.content_eq(&d));
    assert!(!c.content_eq(&c));
}

#[test]
fn screen_equality_needs_equal_tiles_and_exit() {
    let a = PScreen::new();
    let mut b = PScreen::new();
    b.set_tile(3, 4, 0x99);
    assert!(!a.content_eq(&b));
    let mut c = PScreen::new();
    c.exit = EntranceId::from_parts(5, 0, false).unwrap();
    assert!(!a.content_eq(&c));
}

#[test]
fn uniform_level_collapses_to_one_entry() {
    let level = uniform_level();
    let dex = ScreenDex::from_level(&level);
    assert_eq!(dex.screens.len(), 1);
    assert_eq!(dex.dex.len(), 2048);
    assert!(dex.dex.iter().all(|&b| b == 0));
    assert!(dex.dex_bytes().iter().all(|&b| b == 0));
}

#[test]
fn sprites_prevent_collapse() {
    let mut fg = PScrGrid::new(32, 32);
    let spr = SpritePlacement::new(1, 0, 0, false, [0; 4]);
    let mut one = SprSet::new();
    one.insert(spr);
    place_sprites(&mut fg, &one);
    let mut two = SprSet::new();
    two.insert(SpritePlacement::new(1, 16, 0, false, [0; 4]));
    place_sprites(&mut fg, &two);
    let bg = PScrGrid::new(32, 32);
    let level = Level::from_parts(fg, bg, vec![false; 1024], Vec::new(), LevelHeader::default());
    let dex = ScreenDex::from_level(&level);
    // The two sprite-bearing screens each take a fresh entry beside the
    // shared blank one.
    assert_eq!(dex.screens.len(), 3);
    assert_ne!(dex.dex[0], dex.dex[1]);
    assert_ne!(dex.dex[0], dex.dex[2]);
}

#[test]
fn dex_bytes_fold_scroll_flag() {
    let mut fg = PScrGrid::new(32, 32);
    fg.set_tile_at(0, 0, 0, 0, 0x31);
    let bg = PScrGrid::new(32, 32);
    let mut sf = vec![false; 1024];
    sf[0] = true;
    sf[5] = true;
    let level = Level::from_parts(fg, bg, sf, Vec::new(), LevelHeader::default());
    let dex = ScreenDex::from_level(&level);
    let bytes = dex.dex_bytes();
    assert_eq!(bytes.len(), 2048);
    assert_eq!(bytes[0], dex.dex[0] | 0x80);
    assert_eq!(bytes[5], dex.dex[5] | 0x80);
    assert_eq!(bytes[1], dex.dex[1]);
}

#[test]
fn tile_bytes_are_planar() {
    let mut scr = PScreen::new();
    scr.set_tile(0, 0, 0x1234);
    let screens = vec![scr];
    let bytes = tile_bytes(&screens);
    assert_eq!(bytes.len(), 512);
    // Low plane first, high plane after.
    assert_eq!(bytes[0], 0x34);
    assert_eq!(bytes[1], 0x25);
    assert_eq!(bytes[256], 0x12);
    assert_eq!(bytes[257], 0x00);
}

#[test]
fn linear_tiles_land_on_screens() {
    // A 2-by-1 screen layout: 32 tiles per row, 16 rows.
    let mut tiles = vec![0u16; 32 * 16];
    // Tile at overall column 17, row 3: screen (1, 0), local (1, 3).
    tiles[3 * 32 + 17] = 0x4242;
    let grid = pscreens_from_linear_tiles(&tiles, 2, 1);
    assert_eq!(grid.screen_at(1, 0).tile(1, 3), 0x4242);
    assert_eq!(grid.screen_at(0, 0).tile(1, 3), 0);
}

#[test]
fn place_exits_sets_named_screens() {
    let mut grid = PScrGrid::new(32, 32);
    let id = EntranceId::from_parts(7, 1, true).unwrap();
    let entries = vec![((2u8, 3u8), id)];
    place_exits(&mut grid, &entries);
    assert_eq!(grid.screen_at(2, 3).exit_id(), id);
    assert_eq!(grid.screen_at(3, 2).exit_id(), EntranceId::default());
}

#[test]
fn sprite_set_keeps_serialization_order() {
    let mut set = SprSet::new();
    let late = SpritePlacement::new(1, 0, 31, false, [0; 4]);
    let early = SpritePlacement::new(1, 5, 0, false, [0; 4]);
    set.insert(late);
    set.insert(early);
    assert_eq!(set.len(), 2);
    // Row-major by screen: the sprite on screen row 0 walks first.
    assert_eq!(set.index(0).pos_y, 0);
    assert_eq!(set.index(1).pos_y, 31);
    // Inserting a duplicate changes nothing.
    set.insert(early);
    assert_eq!(set.len(), 2);
}

#[test]
fn sprite_record_bytes() {
    // A short record: no trailing extension bytes.
    let s = SpritePlacement::new(0x123, 5, 9, true, [0xab, 0, 0, 0]);
    let b = s.to_bytes();
    assert_eq!(b.len(), 4);
    assert_eq!(b[0], ((0x123u16 >> 5) & 0x18) as u8 | 4);
    assert_eq!(b[1], 0x23);
    assert_eq!(b[2], (9u8 << 4) | 0x0b);
    assert_eq!(b[3], (5u8 << 4) | 0x0a);
    // A long record carries the three extension bytes and a zero.
    let l = SpritePlacement::new(1, 0, 0, false, [0, 7, 8, 9]);
    let lb = l.to_bytes();
    assert_eq!(lb.len(), 8);
    assert_eq!(&lb[4..], &[7, 8, 9, 0]);
}

#[test]
fn entrance_id_parsing() {
    let id = EntranceId::from_name("105#m1").unwrap();
    assert_eq!(id.levelnum, 0x105);
    assert_eq!(id.sub_id, 1);
    assert!(!id.secondary);
    let sec = EntranceId::from_num_and_fragment(0x1ff, "s1f").unwrap();
    assert!(sec.secondary);
    assert_eq!(sec.sub_id, 0x1f);
    // Out-of-range pieces are rejected.
    assert!(EntranceId::from_name("300#m11").is_none());
    assert!(EntranceId::from_name("abc").is_none());
    assert!(EntranceId::from_name("zz#m0").is_none());
    assert!(EntranceId::from_parts(0x200, 0, false).is_none());
    assert!(EntranceId::from_parts(0, 0x21, true).is_none());
    assert!(EntranceId::main(0x1ff).is_some());
    assert!(EntranceId::main(0x200).is_none());
}

#[test]
fn entrance_exit_record_bytes() {
    let id = EntranceId::from_parts(0x105, 3, true).unwrap();
    assert_eq!(id.to_bytes(), [0x05, 0x01, 0x83]);
    let main = EntranceId::main(0x42).unwrap();
    assert_eq!(main.to_bytes(), [0x42, 0x00, 0x00]);
}

#[test]
fn entrance_placement_builders() {
    let p = EntrancePlacement::from_parts(3, 1, false, 10, 20, 2, true, false).unwrap();
    assert_eq!(p.pos_x, 10);
    assert!(p.slippery && !p.water);
    assert!(EntrancePlacement::from_parts(0x300, 0, false, 0, 0, 0, false, false).is_none());
    let q = EntrancePlacement::from_name("1c#s05", 1, 2, 3, false, true).unwrap();
    assert_eq!(q.id.levelnum, 0x1c);
    assert!(q.id.secondary);
}

#[test]
fn runs_split_exactly() {
    let data = vec![5u8, 5, 5, 2, 9, 9];
    let runs = make_runs(&data);
    assert_eq!(
        runs,
        vec![
            Run { val: 5, length: 3 },
            Run { val: 2, length: 1 },
            Run { val: 9, length: 2 },
        ]
    );
    assert_eq!(make_runs(&Vec::new()), Vec::<Run>::new());
}
