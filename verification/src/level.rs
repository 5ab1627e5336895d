//! The in-memory level model: tile screens, screen grids, the
//! deduplicating screen catalogue, and the level record around them.

use vstd::prelude::*;
use crate::spr::{SprSet, SpritePlacement, spr_in, spr_eq};
use crate::entrance::{EntranceId, EntrancePlacement, id_wf};

verus! {

/// What a screen is mathematically: its 256 tiles, its sprites in
/// serialization order, and its exit identifier.
pub struct ScreenView {
    pub tiles: Seq<u16>,
    pub sprites: Seq<SpritePlacement>,
    pub exit: EntranceId,
}

/// A 16-by-16 screen of tile indices, the sprites placed on it, and the
/// exit its pipes and doors lead to.
#[derive(Debug)]
pub struct PScreen {
    tiles: Vec<u16>,
    pub sprites: SprSet,
    pub exit: EntranceId,
}

impl View for PScreen {
    type V = ScreenView;

    closed spec fn view(&self) -> ScreenView {
        ScreenView { tiles: self.tiles@, sprites: self.sprites@, exit: self.exit }
    }
}

/// Screen equality is content-and-absence-of-sprites sensitive: two
/// screens are equal only when both are sprite-free and their tiles and
/// exits agree. A screen carrying any sprite equals no screen, itself
/// included.
pub open spec fn screen_eq(a: ScreenView, b: ScreenView) -> bool {
    &&& a.sprites.len() == 0
    &&& b.sprites.len() == 0
    &&& a.tiles == b.tiles
    &&& a.exit == b.exit
}

/// A screen whose tile vector holds exactly 256 entries and whose
/// sprite set is sorted as the set type keeps it.
pub open spec fn screen_wf(s: ScreenView) -> bool {
    &&& s.tiles.len() == 256
    &&& crate::spr::spr_sorted(s.sprites)
}

impl PScreen {
    /// A fresh screen: every tile the default filler, no sprites, the
    /// default exit.
    pub fn new() -> (r: PScreen)
        ensures
            r@.tiles == Seq::new(256, |i: int| 0x0025u16),
            r@.sprites.len() == 0,
            !r@.exit.secondary && r@.exit.levelnum == 0 && r@.exit.sub_id == 0,
            screen_wf(r@),
    {
        let mut tiles: Vec<u16> = Vec::new();
        let mut i: usize = 0;
        while i < 256
            invariant
                i <= 256,
                tiles@.len() == i,
                forall|j: int| 0 <= j < i ==> tiles@[j] == 0x0025u16,
            decreases 256 - i,
        {
            tiles.push(0x0025);
            i += 1;
        }
        proof {
            assert(tiles@ =~= Seq::new(256, |j: int| 0x0025u16));
        }
        PScreen { tiles, sprites: SprSet::new(), exit: EntranceId::default() }
    }

    /// The tile at column `x`, row `y`.
    pub fn tile(&self, x: usize, y: usize) -> (r: u16)
        requires
            x < 16,
            y < 16,
            screen_wf(self@),
        ensures
            r == self@.tiles[y * 16 + x],
    {
        self.tiles[y * 16 + x]
    }

    /// Replaces the tile at column `x`, row `y`.
    pub fn set_tile(&mut self, x: usize, y: usize, v: u16)
        requires
            x < 16,
            y < 16,
            screen_wf(old(self)@),
        ensures
            final(self)@.tiles == old(self)@.tiles.update(y * 16 + x, v),
            final(self)@.sprites == old(self)@.sprites,
            final(self)@.exit == old(self)@.exit,
            screen_wf(final(self)@),
    {
        self.tiles.set(y * 16 + x, v);
    }

    /// An element-for-element copy of the screen.
    pub fn duplicate(&self) -> (r: PScreen)
        requires
            crate::spr::spr_sorted(self@.sprites),
        ensures
            r@.tiles == self@.tiles,
            r@.sprites == self@.sprites,
            r@.exit == self@.exit,
    {
        let mut tiles: Vec<u16> = Vec::new();
        let n = self.tiles.len();
        let mut i: usize = 0;
        while i < n
            invariant
                i <= n,
                n == self@.tiles.len(),
                tiles@ == self@.tiles.subrange(0, i as int),
            decreases n - i,
        {
            tiles.push(self.tiles[i]);
            proof {
                assert(tiles@ =~= self@.tiles.subrange(0, i + 1));
            }
            i += 1;
        }
        proof {
            assert(tiles@ =~= self@.tiles);
        }
        let mut sprites = SprSet::new();
        let m = self.sprites.len();
        let mut k: usize = 0;
        // Re-inserting in order reproduces the set element for element.
        while k < m
            invariant
                k <= m,
                m == self.sprites@.len(),
                crate::spr::spr_sorted(self.sprites@),
                sprites@ == self.sprites@.subrange(0, k as int),
                sprites.wf(),
            decreases m - k,
        {
            let s = *self.sprites.index(k);
            proof {
                assert(forall|j: int| 0 <= j < k
                    ==> crate::spr::spr_le(#[trigger] self.sprites@[j], self.sprites@[k as int])
                        && !spr_eq(self.sprites@[j], self.sprites@[k as int]));
                assert(!spr_in(sprites@, s));
            }
            sprites.push_greatest(s);
            proof {
                assert(sprites@ =~= self.sprites@.subrange(0, k + 1));
            }
            k += 1;
        }
        proof {
            assert(sprites@ =~= self.sprites@);
        }
        PScreen { tiles, sprites, exit: self.exit }
    }

    /// How many sprites the screen carries.
    pub fn sprite_count(&self) -> (r: usize)
        ensures
            r == self@.sprites.len(),
    {
        self.sprites.len()
    }

    /// The sprite at the given position of the serialization order.
    pub fn sprite_at(&self, i: usize) -> (r: &SpritePlacement)
        requires
            i < self@.sprites.len(),
        ensures
            *r == self@.sprites[i as int],
    {
        self.sprites.index(i)
    }

    /// The exit identifier the screen's pipes and doors lead to.
    pub fn exit_id(&self) -> (r: EntranceId)
        ensures
            r == self@.exit,
    {
        self.exit
    }

    /// Whether the two screens are equal in the catalogue's sense: both
    /// sprite-free, with the same tiles and the same exit.
    pub fn content_eq(&self, other: &PScreen) -> (r: bool)
        requires
            screen_wf(self@),
            screen_wf(other@),
        ensures
            r == screen_eq(self@, other@),
    {
        if self.sprites.len() != 0 || other.sprites.len() != 0 {
            return false;
        }
        if self.exit.levelnum != other.exit.levelnum || self.exit.sub_id != other.exit.sub_id
            || self.exit.secondary != other.exit.secondary {
            return false;
        }
        let mut i: usize = 0;
        while i < 256
            invariant
                i <= 256,
                screen_wf(self@),
                screen_wf(other@),
                forall|j: int| 0 <= j < i ==> self@.tiles[j] == other@.tiles[j],
            decreases 256 - i,
        {
            if self.tiles[i] != other.tiles[i] {
                return false;
            }
            i += 1;
        }
        proof {
            assert(self@.tiles =~= other@.tiles);
        }
        true
    }
}

/// A rectangular arrangement of screens, row-major.
#[derive(Debug)]
pub struct PScrGrid {
    pscreens: Vec<PScreen>,
    width: usize,
    height: usize,
}

impl PScrGrid {
    /// The screens in row-major order.
    pub closed spec fn screens(&self) -> Seq<ScreenView> {
        Seq::new(self.pscreens@.len() as nat, |i: int| self.pscreens@[i]@)
    }

    /// The grid's width in screens.
    pub closed spec fn spec_width(&self) -> int {
        self.width as int
    }

    /// The grid's height in screens.
    pub closed spec fn spec_height(&self) -> int {
        self.height as int
    }

    /// The grid's shape stays inside the layout limits and every screen
    /// is sound.
    pub open spec fn wf(&self) -> bool {
        &&& self.spec_width() < 128
        &&& self.spec_height() < 128
        &&& self.spec_width() * self.spec_height() <= 1024
        &&& self.screens().len() == self.spec_width() * self.spec_height()
        &&& forall|i: int| 0 <= i < self.screens().len() ==> screen_wf(#[trigger] self.screens()[i])
    }

    /// A grid of fresh screens. The layout may be at most 127 screens
    /// wide and tall and hold at most 1024 screens in all.
    pub fn new(width: usize, height: usize) -> (r: PScrGrid)
        requires
            width < 128,
            height < 128,
            width * height <= 1024,
        ensures
            r.wf(),
            r.spec_width() == width,
            r.spec_height() == height,
            forall|i: int| 0 <= i < r.screens().len() ==> {
                &&& (#[trigger] r.screens()[i]).tiles == Seq::new(256, |j: int| 0x0025u16)
                &&& r.screens()[i].sprites.len() == 0
                &&& !r.screens()[i].exit.secondary
                &&& r.screens()[i].exit.levelnum == 0
                &&& r.screens()[i].exit.sub_id == 0
            },
    {
        proof {
            assert(width * height < 16384) by (nonlinear_arith)
                requires width < 128 && height < 128;
        }
        let total = width * height;
        let mut scrs: Vec<PScreen> = Vec::new();
        let mut i: usize = 0;
        while i < total
            invariant
                i <= total,
                scrs@.len() == i,
                forall|j: int| 0 <= j < i ==> {
                    &&& (#[trigger] scrs@[j])@.tiles == Seq::new(256, |q: int| 0x0025u16)
                    &&& scrs@[j]@.sprites.len() == 0
                    &&& !scrs@[j]@.exit.secondary
                    &&& scrs@[j]@.exit.levelnum == 0
                    &&& scrs@[j]@.exit.sub_id == 0
                    &&& screen_wf(scrs@[j]@)
                },
            decreases total - i,
        {
            scrs.push(PScreen::new());
            i += 1;
        }
        PScrGrid { pscreens: scrs, width, height }
    }

    /// The screen at column `x`, row `y`.
    pub fn screen_at(&self, x: usize, y: usize) -> (r: &PScreen)
        requires
            self.wf(),
            x < self.spec_width(),
            y < self.spec_height(),
        ensures
            r@ == self.screens()[y * self.spec_width() + x],
    {
        proof {
            lemma_grid_index(x as int, y as int, self.spec_width(), self.spec_height());
        }
        &self.pscreens[y * self.width + x]
    }

    /// Replaces one tile of the screen at column `x`, row `y`.
    pub fn set_tile_at(&mut self, x: usize, y: usize, tx: usize, ty: usize, v: u16)
        requires
            old(self).wf(),
            x < old(self).spec_width(),
            y < old(self).spec_height(),
            tx < 16,
            ty < 16,
        ensures
            final(self).wf(),
            final(self).spec_width() == old(self).spec_width(),
            final(self).spec_height() == old(self).spec_height(),
            ({
                let idx = y * old(self).spec_width() + x;
                &&& final(self).screens()[idx].tiles
                    == old(self).screens()[idx].tiles.update(ty * 16 + tx, v)
                &&& final(self).screens()[idx].sprites == old(self).screens()[idx].sprites
                &&& final(self).screens()[idx].exit == old(self).screens()[idx].exit
                &&& forall|j: int| 0 <= j < final(self).screens().len() && j != idx
                    ==> final(self).screens()[j] == old(self).screens()[j]
            }),
    {
        proof {
            lemma_grid_index(x as int, y as int, self.spec_width(), self.spec_height());
            assert(screen_wf(self.screens()[y * self.spec_width() + x]));
        }
        let idx = y * self.width + x;
        let scr = &mut self.pscreens[idx];
        scr.set_tile(tx, ty, v);
        proof {
            assert forall|j: int| 0 <= j < final(self).screens().len()
                implies screen_wf(#[trigger] final(self).screens()[j]) by {
                assert(screen_wf(old(self).screens()[j]));
            }
        }
    }

    /// Adds a sprite to the screen at column `x`, row `y`.
    pub fn insert_sprite_at(&mut self, x: usize, y: usize, spr: SpritePlacement)
        requires
            old(self).wf(),
            x < old(self).spec_width(),
            y < old(self).spec_height(),
        ensures
            final(self).wf(),
            final(self).spec_width() == old(self).spec_width(),
            final(self).spec_height() == old(self).spec_height(),
            ({
                let idx = y * old(self).spec_width() + x;
                &&& final(self).screens()[idx].tiles == old(self).screens()[idx].tiles
                &&& final(self).screens()[idx].exit == old(self).screens()[idx].exit
                &&& forall|z: SpritePlacement| spr_in(final(self).screens()[idx].sprites, z)
                    <==> spr_in(old(self).screens()[idx].sprites, z) || spr_eq(z, spr)
                &&& forall|j: int| 0 <= j < final(self).screens().len() && j != idx
                    ==> final(self).screens()[j] == old(self).screens()[j]
            }),
    {
        proof {
            lemma_grid_index(x as int, y as int, self.spec_width(), self.spec_height());
            assert(screen_wf(self.screens()[y * self.spec_width() + x]));
        }
        let idx = y * self.width + x;
        let scr = &mut self.pscreens[idx];
        scr.sprites.insert(spr);
        proof {
            assert forall|j: int| 0 <= j < final(self).screens().len()
                implies screen_wf(#[trigger] final(self).screens()[j]) by {
                assert(screen_wf(old(self).screens()[j]));
            }
        }
    }

    /// Replaces the exit of the screen at column `x`, row `y`.
    pub fn set_exit_at(&mut self, x: usize, y: usize, e: EntranceId)
        requires
            old(self).wf(),
            x < old(self).spec_width(),
            y < old(self).spec_height(),
        ensures
            final(self).wf(),
            final(self).spec_width() == old(self).spec_width(),
            final(self).spec_height() == old(self).spec_height(),
            ({
                let idx = y * old(self).spec_width() + x;
                &&& final(self).screens()[idx].tiles == old(self).screens()[idx].tiles
                &&& final(self).screens()[idx].sprites == old(self).screens()[idx].sprites
                &&& final(self).screens()[idx].exit == e
                &&& forall|j: int| 0 <= j < final(self).screens().len() && j != idx
                    ==> final(self).screens()[j] == old(self).screens()[j]
            }),
    {
        proof {
            lemma_grid_index(x as int, y as int, self.spec_width(), self.spec_height());
            assert(screen_wf(self.screens()[y * self.spec_width() + x]));
        }
        let idx = y * self.width + x;
        let scr = &mut self.pscreens[idx];
        scr.exit = e;
        proof {
            assert forall|j: int| 0 <= j < final(self).screens().len()
                implies screen_wf(#[trigger] final(self).screens()[j]) by {
                assert(screen_wf(old(self).screens()[j]));
            }
        }
    }
}

/// A row-major position lies inside the grid's screen vector.
proof fn lemma_grid_index(x: int, y: int, w: int, h: int)
    by (nonlinear_arith)
    requires
        0 <= x < w,
        0 <= y < h,
    ensures
        0 <= y * w + x < w * h,
{
}

/// The position inside a linear tile dump — rows of `w * 16` tiles —
/// where the tile at column `tx`, row `ty` of the screen at `sx`, `sy`
/// stands.
pub open spec fn linear_tile_index(w: int, sx: int, sy: int, tx: int, ty: int) -> int {
    (sy * 16 + ty) * (w * 16) + sx * 16 + tx
}

/// Builds a screen grid from a linear tile dump: each dumped tile lands
/// on its screen, and every position past the dump keeps the default
/// filler tile.
pub fn pscreens_from_linear_tiles(tiles: &[u16], width: usize, height: usize) -> (r: PScrGrid)
    requires
        width < 128,
        height < 128,
        width * height <= 1024,
        tiles@.len() <= 256 * (width * height),
    ensures
        r.wf(),
        r.spec_width() == width,
        r.spec_height() == height,
        forall|sx: int, sy: int, tx: int, ty: int|
            0 <= sx < width && 0 <= sy < height && 0 <= tx < 16 && 0 <= ty < 16
            ==> #[trigger] r.screens()[sy * width + sx].tiles[ty * 16 + tx]
                == (if linear_tile_index(width as int, sx, sy, tx, ty) < tiles@.len() {
                    tiles@[linear_tile_index(width as int, sx, sy, tx, ty)]
                } else {
                    0x0025u16
                }),
        forall|i: int| 0 <= i < r.screens().len()
            ==> (#[trigger] r.screens()[i]).sprites.len() == 0,
{
    let mut grid = PScrGrid::new(width, height);
    let row_width = width * 16;
    let n = tiles.len();
    let mut i: usize = 0;
    proof {
        assert forall|sx: int, sy: int, tx: int, ty: int|
            0 <= sx < width && 0 <= sy < height && 0 <= tx < 16 && 0 <= ty < 16
            implies #[trigger] grid.screens()[sy * width + sx].tiles[ty * 16 + tx] == 0x0025u16 by {
            lemma_grid_index(sx, sy, width as int, height as int);
        }
    }
    while i < n
        invariant
            i <= n,
            n == tiles@.len(),
            n <= 256 * (width * height),
            width < 128,
            height < 128,
            width * height <= 1024,
            row_width == width * 16,
            grid.wf(),
            grid.spec_width() == width,
            grid.spec_height() == height,
            forall|sx: int, sy: int, tx: int, ty: int|
                0 <= sx < width && 0 <= sy < height && 0 <= tx < 16 && 0 <= ty < 16
                ==> #[trigger] grid.screens()[sy * width + sx].tiles[ty * 16 + tx]
                    == (if linear_tile_index(width as int, sx, sy, tx, ty) < i {
                        tiles@[linear_tile_index(width as int, sx, sy, tx, ty)]
                    } else {
                        0x0025u16
                    }),
            forall|q: int| 0 <= q < grid.screens().len()
                ==> (#[trigger] grid.screens()[q]).sprites.len() == 0,
        decreases n - i,
    {
        proof {
            // A nonempty dump forces a nonempty layout.
            if width == 0 {
                assert(256 * (width as int * height as int) == 0);
                assert(false);
            }
            lemma_linear_tile_decompose(width as int, height as int, i as int);
        }
        let ax = i % row_width;
        let ay = i / row_width;
        let ghost prev = grid;
        grid.set_tile_at(ax / 16, ay / 16, ax % 16, ay % 16, tiles[i]);
        proof {
            let w = width as int;
            let sx0 = ax as int / 16;
            let sy0 = ay as int / 16;
            let tx0 = ax as int % 16;
            let ty0 = ay as int % 16;
            assert forall|sx: int, sy: int, tx: int, ty: int|
                0 <= sx < width && 0 <= sy < height && 0 <= tx < 16 && 0 <= ty < 16
                implies #[trigger] grid.screens()[sy * width + sx].tiles[ty * 16 + tx]
                    == (if linear_tile_index(w, sx, sy, tx, ty) < i + 1 {
                        tiles@[linear_tile_index(w, sx, sy, tx, ty)]
                    } else {
                        0x0025u16
                    }) by {
                lemma_grid_index(sx, sy, w, height as int);
                lemma_grid_index(sx0, sy0, w, height as int);
                if sx == sx0 && sy == sy0 && tx == tx0 && ty == ty0 {
                } else {
                    lemma_linear_tile_distinct(w, sx, sy, tx, ty, sx0, sy0, tx0, ty0);
                    if sy * width + sx == sy0 * w + sx0 {
                        lemma_grid_pos_distinct(w, sx, sy, sx0, sy0);
                        assert(grid.screens()[sy * width + sx].tiles[ty * 16 + tx]
                            == prev.screens()[sy * width + sx].tiles[ty * 16 + tx]);
                    }
                }
            }
        }
        i += 1;
    }
    grid
}

/// Splitting a linear tile position by rows and screens lands back on
/// the same position.
proof fn lemma_linear_tile_decompose(w: int, h: int, i: int)
    requires
        1 <= w,
        0 <= i < 256 * (w * h),
    ensures
        ({
            let ax = i % (w * 16);
            let ay = i / (w * 16);
            &&& 0 <= ax / 16 < w
            &&& 0 <= ay / 16 < h
            &&& 0 <= ax % 16 < 16
            &&& 0 <= ay % 16 < 16
            &&& linear_tile_index(w, ax / 16, ay / 16, ax % 16, ay % 16) == i
        }),
{
    let ax = i % (w * 16);
    let ay = i / (w * 16);
    vstd::arithmetic::div_mod::lemma_fundamental_div_mod(i, w * 16);
    assert(w * 16 > 0) by (nonlinear_arith)
        requires 1 <= w;
    assert(0 <= ax < w * 16);
    assert(ay >= 0) by (nonlinear_arith)
        requires i >= 0 && w * 16 > 0 && i == ay * (w * 16) + ax && 0 <= ax < w * 16;
    assert(ay < 16 * h) by (nonlinear_arith)
        requires i < 256 * (w * h) && w * 16 > 0 && i == ay * (w * 16) + ax && 0 <= ax && 0 <= ay;
    vstd::arithmetic::div_mod::lemma_fundamental_div_mod(ax, 16);
    vstd::arithmetic::div_mod::lemma_fundamental_div_mod(ay, 16);
    assert(ax / 16 < w) by (nonlinear_arith)
        requires ax < w * 16 && ax == (ax / 16) * 16 + ax % 16 && 0 <= ax % 16 < 16;
    assert(ay / 16 < h) by (nonlinear_arith)
        requires ay < 16 * h && ay == (ay / 16) * 16 + ay % 16 && 0 <= ay % 16 < 16;
    assert((ay / 16 * 16 + ay % 16) * (w * 16) + (ax / 16 * 16 + ax % 16) == ay * (w * 16) + ax)
        by (nonlinear_arith)
        requires ax == (ax / 16) * 16 + ax % 16 && ay == (ay / 16) * 16 + ay % 16;
}

/// Two different tile coordinates never share a linear position.
proof fn lemma_linear_tile_distinct(w: int, sx: int, sy: int, tx: int, ty: int, sx2: int, sy2: int, tx2: int, ty2: int)
    by (nonlinear_arith)
    requires
        0 <= sx < w,
        0 <= sx2 < w,
        0 <= tx < 16,
        0 <= tx2 < 16,
        0 <= ty < 16,
        0 <= ty2 < 16,
        0 <= sy,
        0 <= sy2,
        !(sx == sx2 && sy == sy2 && tx == tx2 && ty == ty2),
    ensures
        linear_tile_index(w, sx, sy, tx, ty) != linear_tile_index(w, sx2, sy2, tx2, ty2),
{
}

/// Two different screen coordinates never share a row-major position.
proof fn lemma_grid_pos_distinct(w: int, sx: int, sy: int, sx2: int, sy2: int)
    by (nonlinear_arith)
    requires
        0 <= sx < w,
        0 <= sx2 < w,
        0 <= sy,
        0 <= sy2,
        sy * w + sx == sy2 * w + sx2,
    ensures
        sx == sx2 && sy == sy2,
{
}

/// Drops every sprite of the set onto the screen it stands on.
pub fn place_sprites(scrgrid: &mut PScrGrid, sprs: &SprSet)
    requires
        old(scrgrid).wf(),
        sprs.wf(),
        forall|k: int| 0 <= k < sprs@.len()
            ==> (#[trigger] sprs@[k]).pos_x / 16 < old(scrgrid).spec_width()
                && sprs@[k].pos_y / 16 < old(scrgrid).spec_height(),
    ensures
        final(scrgrid).wf(),
        final(scrgrid).spec_width() == old(scrgrid).spec_width(),
        final(scrgrid).spec_height() == old(scrgrid).spec_height(),
        forall|q: int| 0 <= q < final(scrgrid).screens().len() ==> {
            &&& (#[trigger] final(scrgrid).screens()[q]).tiles == old(scrgrid).screens()[q].tiles
            &&& final(scrgrid).screens()[q].exit == old(scrgrid).screens()[q].exit
        },
        forall|q: int, z: SpritePlacement| 0 <= q < final(scrgrid).screens().len()
            ==> (#[trigger] spr_in(final(scrgrid).screens()[q].sprites, z)
                <==> spr_in(old(scrgrid).screens()[q].sprites, z)
                    || (spr_in(sprs@, z) && z.pos_y / 16 * old(scrgrid).spec_width() + z.pos_x / 16 == q)),
{
    let m = sprs.len();
    let mut k: usize = 0;
    while k < m
        invariant
            k <= m,
            m == sprs@.len(),
            sprs.wf(),
            forall|j: int| 0 <= j < sprs@.len()
                ==> (#[trigger] sprs@[j]).pos_x / 16 < old(scrgrid).spec_width()
                    && sprs@[j].pos_y / 16 < old(scrgrid).spec_height(),
            scrgrid.wf(),
            scrgrid.spec_width() == old(scrgrid).spec_width(),
            scrgrid.spec_height() == old(scrgrid).spec_height(),
            forall|q: int| 0 <= q < scrgrid.screens().len() ==> {
                &&& (#[trigger] scrgrid.screens()[q]).tiles == old(scrgrid).screens()[q].tiles
                &&& scrgrid.screens()[q].exit == old(scrgrid).screens()[q].exit
            },
            forall|q: int, z: SpritePlacement| 0 <= q < scrgrid.screens().len()
                ==> (#[trigger] spr_in(scrgrid.screens()[q].sprites, z)
                    <==> spr_in(old(scrgrid).screens()[q].sprites, z)
                        || (spr_in(sprs@.subrange(0, k as int), z)
                            && z.pos_y / 16 * old(scrgrid).spec_width() + z.pos_x / 16 == q)),
        decreases m - k,
    {
        let spr = *sprs.index(k);
        let sx = spr.scr_x();
        let sy = spr.scr_y();
        let ghost prev = *scrgrid;
        scrgrid.insert_sprite_at(sx, sy, spr);
        proof {
            let w = old(scrgrid).spec_width();
            let idx = sy * w + sx;
            lemma_grid_index(sx as int, sy as int, w, old(scrgrid).spec_height());
            assert forall|q: int, z: SpritePlacement| 0 <= q < scrgrid.screens().len()
                implies (#[trigger] spr_in(scrgrid.screens()[q].sprites, z)
                    <==> spr_in(old(scrgrid).screens()[q].sprites, z)
                        || (spr_in(sprs@.subrange(0, k + 1), z)
                            && z.pos_y / 16 * w + z.pos_x / 16 == q)) by {
                if spr_in(sprs@.subrange(0, k + 1), z) && !spr_in(sprs@.subrange(0, k as int), z) {
                    let t = choose|t: int| 0 <= t < k + 1 && spr_eq(#[trigger] sprs@.subrange(0, k + 1)[t], z);
                    assert(spr_eq(sprs@[k as int], z));
                }
                if spr_in(sprs@.subrange(0, k as int), z) {
                    let t = choose|t: int| 0 <= t < k && spr_eq(#[trigger] sprs@.subrange(0, k as int)[t], z);
                    assert(spr_eq(sprs@.subrange(0, k + 1)[t], z));
                }
                if spr_eq(z, spr) {
                    crate::spr::lemma_spr_eq_sym(z, spr);
                    assert(spr_eq(sprs@.subrange(0, k + 1)[k as int], z));
                }
            }
        }
        k += 1;
    }
    proof {
        assert(sprs@.subrange(0, m as int) =~= sprs@);
    }
}

/// The exit a screen ends up with after the override entries are
/// applied in order: the last in-range entry naming the screen wins.
pub open spec fn exit_override(entries: Seq<((u8, u8), EntranceId)>, x: int, y: int, def: EntranceId) -> EntranceId
    decreases entries.len(),
{
    if entries.len() == 0 {
        def
    } else {
        let e = entries.last();
        if e.0.0 == x && e.0.1 == y && x < 32 && y < 32 {
            e.1
        } else {
            exit_override(entries.drop_last(), x, y, def)
        }
    }
}

/// Applies an exit table to a 32-by-32 grid: each in-range entry replaces
/// the exit of the screen it names; entries outside the grid are ignored.
pub fn place_exits(scrgrid: &mut PScrGrid, exits: &Vec<((u8, u8), EntranceId)>)
    requires
        old(scrgrid).wf(),
        old(scrgrid).spec_width() == 32,
        old(scrgrid).spec_height() == 32,
    ensures
        final(scrgrid).wf(),
        final(scrgrid).spec_width() == 32,
        final(scrgrid).spec_height() == 32,
        forall|q: int| 0 <= q < final(scrgrid).screens().len() ==> {
            &&& (#[trigger] final(scrgrid).screens()[q]).tiles == old(scrgrid).screens()[q].tiles
            &&& final(scrgrid).screens()[q].sprites == old(scrgrid).screens()[q].sprites
        },
        forall|x: int, y: int| 0 <= x < 32 && 0 <= y < 32
            ==> #[trigger] final(scrgrid).screens()[y * 32 + x].exit
                == exit_override(exits@, x, y, old(scrgrid).screens()[y * 32 + x].exit),
{
    let m = exits.len();
    let mut k: usize = 0;
    while k < m
        invariant
            k <= m,
            m == exits@.len(),
            scrgrid.wf(),
            scrgrid.spec_width() == 32,
            scrgrid.spec_height() == 32,
            forall|q: int| 0 <= q < scrgrid.screens().len() ==> {
                &&& (#[trigger] scrgrid.screens()[q]).tiles == old(scrgrid).screens()[q].tiles
                &&& scrgrid.screens()[q].sprites == old(scrgrid).screens()[q].sprites
            },
            forall|x: int, y: int| 0 <= x < 32 && 0 <= y < 32
                ==> #[trigger] scrgrid.screens()[y * 32 + x].exit
                    == exit_override(exits@.subrange(0, k as int), x, y, old(scrgrid).screens()[y * 32 + x].exit),
        decreases m - k,
    {
        let (pos, id) = exits[k];
        let (ex, ey) = pos;
        if ex < 32 && ey < 32 {
            scrgrid.set_exit_at(ex as usize, ey as usize, id);
            proof {
                lemma_grid_index(ex as int, ey as int, 32, 32);
                assert forall|x: int, y: int| 0 <= x < 32 && 0 <= y < 32
                    implies #[trigger] scrgrid.screens()[y * 32 + x].exit
                        == exit_override(exits@.subrange(0, k + 1), x, y, old(scrgrid).screens()[y * 32 + x].exit) by {
                    let pre = exits@.subrange(0, k as int);
                    let cur = exits@.subrange(0, k + 1);
                    assert(cur.last() == exits@[k as int]);
                    assert(cur.drop_last() =~= pre);
                    if !(ex == x && ey == y) {
                        if y * 32 + x == ey as int * 32 + ex as int {
                            lemma_grid_pos_distinct(32, x, y, ex as int, ey as int);
                        }
                    }
                }
            }
        } else {
            proof {
                assert forall|x: int, y: int| 0 <= x < 32 && 0 <= y < 32
                    implies #[trigger] scrgrid.screens()[y * 32 + x].exit
                        == exit_override(exits@.subrange(0, k + 1), x, y, old(scrgrid).screens()[y * 32 + x].exit) by {
                    let pre = exits@.subrange(0, k as int);
                    let cur = exits@.subrange(0, k + 1);
                    assert(cur.last() == exits@[k as int]);
                    assert(cur.drop_last() =~= pre);
                }
            }
        }
        k += 1;
    }
    proof {
        assert(exits@.subrange(0, m as int) =~= exits@);
    }
}

/// The first catalogue position at or past `from` holding a screen equal
/// to `s`.
pub open spec fn first_match(cat: Seq<ScreenView>, s: ScreenView, from: int) -> Option<int>
    decreases cat.len() - from,
{
    if from < 0 || from >= cat.len() {
        None
    } else if screen_eq(cat[from], s) {
        Some(from)
    } else {
        first_match(cat, s, from + 1)
    }
}

/// The catalogue after the first `k` input screens are processed: each
/// screen already present is passed over, each new one appended.
pub open spec fn cat_after(input: Seq<ScreenView>, k: int) -> Seq<ScreenView>
    decreases k,
{
    if k <= 0 {
        Seq::empty()
    } else {
        let c = cat_after(input, k - 1);
        match first_match(c, input[k - 1], 0) {
            Some(_) => c,
            None => c.push(input[k - 1]),
        }
    }
}

/// The catalogue position recorded for input screen `k`: the first equal
/// entry, or the fresh position the screen is appended at.
pub open spec fn dex_value(input: Seq<ScreenView>, k: int) -> int {
    match first_match(cat_after(input, k), input[k], 0) {
        Some(i) => i,
        None => cat_after(input, k).len() as int,
    }
}

/// What a search result means: a hit is the first equal entry, a miss
/// says no entry is equal.
pub proof fn lemma_first_match_props(cat: Seq<ScreenView>, s: ScreenView, from: int)
    requires
        0 <= from,
    ensures
        first_match(cat, s, from) matches Some(i)
            ==> from <= i < cat.len() && screen_eq(cat[i], s)
                && (forall|j: int| from <= j < i ==> !screen_eq(#[trigger] cat[j], s)),
        first_match(cat, s, from) is None
            ==> forall|j: int| from <= j < cat.len() ==> !screen_eq(#[trigger] cat[j], s),
    decreases cat.len() - from,
{
    if from < cat.len() && !screen_eq(cat[from], s) {
        lemma_first_match_props(cat, s, from + 1);
    }
}

/// The catalogue only ever grows, and what is in it stays where it is.
pub proof fn lemma_cat_monotone(input: Seq<ScreenView>, k1: int, k2: int)
    requires
        0 <= k1 <= k2,
    ensures
        cat_after(input, k1).len() <= cat_after(input, k2).len(),
        forall|i: int| 0 <= i < cat_after(input, k1).len()
            ==> #[trigger] cat_after(input, k2)[i] == cat_after(input, k1)[i],
    decreases k2 - k1,
{
    if k1 < k2 {
        lemma_cat_monotone(input, k1, k2 - 1);
    }
}

/// A deduplicating screen catalogue: the distinct screens, a per-position
/// index into them, and the per-position scroll-filter flag.
#[derive(Debug)]
pub struct ScreenDex {
    pub screens: Vec<PScreen>,
    pub dex: Vec<u8>,
    pub filter: Vec<bool>,
    pub width: usize,
    pub height: usize,
}

/// The catalogue's screens as their mathematical views.
pub open spec fn dex_screens(d: ScreenDex) -> Seq<ScreenView> {
    Seq::new(d.screens@.len() as nat, |i: int| d.screens@[i]@)
}

/// The catalogue stays inside its on-disk limits: at most 128 entries,
/// every index in range, and the filter no longer than the index table.
pub open spec fn dex_wf(d: ScreenDex) -> bool {
    &&& d.screens@.len() <= 128
    &&& forall|i: int| 0 <= i < d.dex@.len() ==> #[trigger] d.dex@[i] < d.screens@.len()
    &&& d.filter@.len() <= d.dex@.len()
    &&& forall|i: int| 0 <= i < d.screens@.len() ==> screen_wf(#[trigger] d.screens@[i]@)
}

/// Appends input screen `k` to the catalogue under construction: records
/// the position of an equal entry, or appends the screen fresh. Reports
/// failure, changing nothing, when a fresh entry would overflow the
/// catalogue's 128 slots.
fn dedup_step(
    screens: &mut Vec<PScreen>,
    dex: &mut Vec<u8>,
    scr: &PScreen,
    Ghost(input): Ghost<Seq<ScreenView>>,
    Ghost(k): Ghost<int>,
) -> (ok: bool)
    requires
        0 <= k < input.len(),
        scr@ == input[k],
        screen_wf(scr@),
        Seq::new(old(screens)@.len() as nat, |i: int| old(screens)@[i]@) == cat_after(input, k),
        old(dex)@.len() == k,
        cat_after(input, k).len() <= 128,
        forall|i: int| 0 <= i < old(screens)@.len() ==> screen_wf(#[trigger] old(screens)@[i]@),
    ensures
        ok == (cat_after(input, k + 1).len() <= 128),
        !ok ==> final(screens)@ == old(screens)@ && final(dex)@ == old(dex)@,
        ok ==> {
            &&& Seq::new(final(screens)@.len() as nat, |i: int| final(screens)@[i]@) == cat_after(input, k + 1)
            &&& final(dex)@.len() == k + 1
            &&& final(dex)@ == old(dex)@.push(dex_value(input, k) as u8)
            &&& 0 <= dex_value(input, k) < 128
            &&& dex_value(input, k) < cat_after(input, k + 1).len()
            &&& forall|i: int| 0 <= i < final(screens)@.len() ==> screen_wf(#[trigger] final(screens)@[i]@)
        },
{
    proof {
        lemma_cat_monotone(input, k, k + 1);
    }
    let ghost cat = Seq::new(screens@.len() as nat, |i: int| screens@[i]@);
    proof {
        lemma_first_match_props(cat, scr@, 0);
    }
    let n = screens.len();
    let mut j: usize = 0;
    let mut found: bool = false;
    let mut pos: usize = 0;
    while j < n && !found
        invariant
            j <= n,
            n == screens@.len(),
            n <= 128,
            cat == Seq::new(screens@.len() as nat, |i: int| screens@[i]@),
            screen_wf(scr@),
            forall|i: int| 0 <= i < screens@.len() ==> screen_wf(#[trigger] screens@[i]@),
            !found ==> first_match(cat, scr@, 0) == first_match(cat, scr@, j as int),
            found ==> first_match(cat, scr@, 0) == Some(pos as int) && pos < n,
        decreases n - j + (if found { 0int } else { 1int }),
    {
        if screens[j].content_eq(scr) {
            found = true;
            pos = j;
        } else {
            j += 1;
        }
    }
    if found {
        dex.push(pos as u8);
        proof {
            assert(first_match(cat, scr@, 0) == Some(pos as int));
            assert(cat_after(input, k + 1) == cat);
        }
        true
    } else {
        proof {
            assert(first_match(cat, scr@, 0) is None);
            assert(cat_after(input, k + 1).len() == cat.len() + 1);
        }
        let here = screens.len();
        if here >= 128 {
            return false;
        }
        screens.push(scr.duplicate());
        dex.push(here as u8);
        proof {
            assert(Seq::new(screens@.len() as nat, |i: int| screens@[i]@)
                =~= cat.push(scr@));
        }
        true
    }
}

impl ScreenDex {
    /// An empty catalogue for a grid of the given shape.
    pub fn empty(width: usize, height: usize) -> (r: ScreenDex)
        requires
            width < 128,
            height < 128,
            width * height < 1024,
        ensures
            r.screens@.len() == 0,
            r.dex@.len() == 0,
            r.filter@.len() == 0,
            r.width == width,
            r.height == height,
            dex_wf(r),
    {
        ScreenDex {
            screens: Vec::new(),
            dex: Vec::new(),
            filter: Vec::new(),
            width,
            height,
        }
    }

    /// Builds the catalogue of a whole level — the foreground screens in
    /// row-major order, then the background screens, deduplicated in
    /// encounter order, the scroll filter copied verbatim — or reports
    /// that the level's distinct screens overflow the catalogue's 128
    /// entries.
    pub fn try_from_level(level: &Level) -> (r: Option<ScreenDex>)
        requires
            level.wf(),
        ensures
            r is Some <==> cat_after(level.all_screens(), level.all_screens().len() as int).len() <= 128,
            r matches Some(d) ==> {
                &&& dex_wf(d)
                &&& dex_screens(d) == cat_after(level.all_screens(), level.all_screens().len() as int)
                &&& d.dex@.len() == level.all_screens().len()
                &&& forall|t: int| 0 <= t < d.dex@.len()
                    ==> #[trigger] d.dex@[t] == dex_value(level.all_screens(), t)
                &&& d.filter@ == level.spec_sf()
                &&& d.width == 32
                &&& d.height == 32
            },
    {
        let ghost input = level.all_screens();
        let mut screens: Vec<PScreen> = Vec::new();
        let mut dex: Vec<u8> = Vec::new();
        let fg_n = level.fg.pscreens.len();
        let mut i: usize = 0;
        while i < fg_n
            invariant
                i <= fg_n,
                fg_n == 1024,
                level.wf(),
                input == level.all_screens(),
                cat_after(input, i as int).len() <= 128,
                Seq::new(screens@.len() as nat, |q: int| screens@[q]@) == cat_after(input, i as int),
                dex@.len() == i,
                forall|t: int| 0 <= t < i ==> #[trigger] dex@[t] == dex_value(input, t)
                    && dex@[t] < cat_after(input, t + 1).len(),
                forall|q: int| 0 <= q < screens@.len() ==> screen_wf(#[trigger] screens@[q]@),
            decreases fg_n - i,
        {
            let scr = &level.fg.pscreens[i];
            proof {
                assert(scr@ == input[i as int]);
                assert(screen_wf(scr@));
            }
            if !dedup_step(&mut screens, &mut dex, scr, Ghost(input), Ghost(i as int)) {
                proof {
                    lemma_cat_monotone(input, i + 1, input.len() as int);
                }
                return None;
            }
            i += 1;
        }
        let bg_n = level.bg.pscreens.len();
        let mut b: usize = 0;
        while b < bg_n
            invariant
                b <= bg_n,
                bg_n == 1024,
                level.wf(),
                input == level.all_screens(),
                cat_after(input, 1024 + b).len() <= 128,
                Seq::new(screens@.len() as nat, |q: int| screens@[q]@) == cat_after(input, 1024 + b),
                dex@.len() == 1024 + b,
                forall|t: int| 0 <= t < 1024 + b ==> #[trigger] dex@[t] == dex_value(input, t)
                    && dex@[t] < cat_after(input, t + 1).len(),
                forall|q: int| 0 <= q < screens@.len() ==> screen_wf(#[trigger] screens@[q]@),
            decreases bg_n - b,
        {
            let scr = &level.bg.pscreens[b];
            proof {
                assert(scr@ == input[1024 + b]);
                assert(screen_wf(scr@));
            }
            if !dedup_step(&mut screens, &mut dex, scr, Ghost(input), Ghost(1024 + b as int)) {
                proof {
                    lemma_cat_monotone(input, 1024 + b + 1, input.len() as int);
                }
                return None;
            }
            b += 1;
        }
        let mut filter: Vec<bool> = Vec::new();
        let sf_n = level.sf.len();
        let mut f: usize = 0;
        while f < sf_n
            invariant
                f <= sf_n,
                sf_n == level.sf@.len(),
                filter@ == level.sf@.subrange(0, f as int),
            decreases sf_n - f,
        {
            filter.push(level.sf[f]);
            proof {
                assert(filter@ =~= level.sf@.subrange(0, f + 1));
            }
            f += 1;
        }
        proof {
            assert(filter@ =~= level.sf@);
            assert(input.len() == 2048);
            assert forall|t: int| 0 <= t < dex@.len()
                implies #[trigger] dex@[t] < screens@.len() by {
                lemma_cat_monotone(input, t + 1, 2048);
            }
        }
        Some(ScreenDex { screens, dex, filter, width: 32, height: 32 })
    }

    /// Builds the catalogue of a whole level whose distinct screens are
    /// known to fit the 128 entries.
    pub fn from_level(level: &Level) -> (r: ScreenDex)
        requires
            level.wf(),
            cat_after(level.all_screens(), level.all_screens().len() as int).len() <= 128,
        ensures
            dex_wf(r),
            dex_screens(r) == cat_after(level.all_screens(), level.all_screens().len() as int),
            r.dex@.len() == level.all_screens().len(),
            forall|t: int| 0 <= t < r.dex@.len()
                ==> #[trigger] r.dex@[t] == dex_value(level.all_screens(), t),
            r.filter@ == level.spec_sf(),
            r.width == 32,
            r.height == 32,
    {
        match Self::try_from_level(level) {
            Some(d) => d,
            None => {
                // Unreachable: the catalogue was promised to fit.
                proof {
                    assert(false);
                }
                ScreenDex::empty(0, 0)
            },
        }
    }

    /// Builds a catalogue from a single grid, with a cleared scroll
    /// filter.
    pub fn from_scr_grid(grid: &PScrGrid) -> (r: ScreenDex)
        requires
            grid.wf(),
            cat_after(grid.screens(), grid.screens().len() as int).len() <= 128,
        ensures
            dex_wf(r),
            dex_screens(r) == cat_after(grid.screens(), grid.screens().len() as int),
            r.dex@.len() == grid.screens().len(),
            forall|t: int| 0 <= t < r.dex@.len()
                ==> #[trigger] r.dex@[t] == dex_value(grid.screens(), t),
            r.filter@ == Seq::new(grid.screens().len() as nat, |i: int| false),
            r.width == grid.spec_width(),
            r.height == grid.spec_height(),
    {
        let ghost input = grid.screens();
        let mut screens: Vec<PScreen> = Vec::new();
        let mut dex: Vec<u8> = Vec::new();
        let n = grid.pscreens.len();
        let mut i: usize = 0;
        while i < n
            invariant
                i <= n,
                n == input.len(),
                grid.wf(),
                input == grid.screens(),
                cat_after(input, input.len() as int).len() <= 128,
                Seq::new(screens@.len() as nat, |q: int| screens@[q]@) == cat_after(input, i as int),
                dex@.len() == i,
                forall|t: int| 0 <= t < i ==> #[trigger] dex@[t] == dex_value(input, t)
                    && dex@[t] < cat_after(input, t + 1).len(),
                forall|q: int| 0 <= q < screens@.len() ==> screen_wf(#[trigger] screens@[q]@),
            decreases n - i,
        {
            let scr = &grid.pscreens[i];
            proof {
                lemma_cat_monotone(input, i as int, input.len() as int);
            }
            let ok = dedup_step(&mut screens, &mut dex, scr, Ghost(input), Ghost(i as int));
            proof {
                lemma_cat_monotone(input, i + 1, input.len() as int);
                assert(ok);
            }
            i += 1;
        }
        let mut filter: Vec<bool> = Vec::new();
        let mut f: usize = 0;
        while f < n
            invariant
                f <= n,
                filter@ == Seq::new(f as nat, |q: int| false),
            decreases n - f,
        {
            filter.push(false);
            proof {
                assert(filter@ =~= Seq::new((f + 1) as nat, |q: int| false));
            }
            f += 1;
        }
        proof {
            assert forall|t: int| 0 <= t < dex@.len()
                implies #[trigger] dex@[t] < screens@.len() by {
                lemma_cat_monotone(input, t + 1, input.len() as int);
            }
        }
        ScreenDex { screens, dex, filter, width: grid.width, height: grid.height }
    }

    /// The catalogue screen standing at grid position `x`, `y`.
    pub fn screen_at(&self, x: usize, y: usize) -> (r: &PScreen)
        requires
            dex_wf(*self),
            x < self.width,
            y < self.height,
            y * self.width + x < self.dex@.len(),
        ensures
            r@ == dex_screens(*self)[self.dex@[y * self.width + x] as int],
    {
        let dn = self.dex.len();
        proof {
            assert(y * self.width + x < dn);
        }
        let idx = y * self.width + x;
        &self.screens[self.dex[idx] as usize]
    }

    /// The planar tile bytes of the whole catalogue, entry by entry.
    pub fn tile_bytes(&self) -> (r: Vec<u8>)
        requires
            dex_wf(*self),
        ensures
            r@ == spec_tile_bytes(dex_screens(*self), dex_screens(*self).len() as int),
    {
        tile_bytes(&self.screens)
    }

    /// The screen-index table with the scroll-filter flag folded into
    /// bit 7 of each byte.
    pub fn dex_bytes(&self) -> (r: Vec<u8>)
        ensures
            r@ == spec_dex_bytes(self.dex@, self.filter@),
    {
        let mut v: Vec<u8> = Vec::new();
        let n = self.dex.len();
        let fl = self.filter.len();
        let mut i: usize = 0;
        while i < n
            invariant
                i <= n,
                n == self.dex@.len(),
                fl == self.filter@.len(),
                v@ == spec_dex_bytes(self.dex@, self.filter@).subrange(0, i as int),
            decreases n - i,
        {
            let b = if i < fl && self.filter[i] {
                self.dex[i] | 0x80
            } else {
                self.dex[i]
            };
            v.push(b);
            proof {
                assert(v@ =~= spec_dex_bytes(self.dex@, self.filter@).subrange(0, i + 1));
            }
            i += 1;
        }
        proof {
            assert(v@ =~= spec_dex_bytes(self.dex@, self.filter@));
        }
        v
    }
}

/// The index table with each position's scroll flag in bit 7.
pub open spec fn spec_dex_bytes(dex: Seq<u8>, filter: Seq<bool>) -> Seq<u8> {
    Seq::new(dex.len(), |i: int| if i < filter.len() && filter[i] { dex[i] | 0x80 } else { dex[i] })
}

/// One screen's tiles as bytes: the whole low plane, then the whole high
/// plane.
pub open spec fn spec_scr_bytes(s: ScreenView) -> Seq<u8> {
    Seq::new(256, |k: int| (s.tiles[k] & 0xff) as u8)
        + Seq::new(256, |k: int| (s.tiles[k] >> 8) as u8)
}

/// The planar tile bytes of the first `k` screens.
pub open spec fn spec_tile_bytes(ss: Seq<ScreenView>, k: int) -> Seq<u8>
    decreases k,
{
    if k <= 0 {
        Seq::empty()
    } else {
        spec_tile_bytes(ss, k - 1) + spec_scr_bytes(ss[k - 1])
    }
}

/// Appends one screen's planar tile bytes.
pub fn push_scr_bytes(v: &mut Vec<u8>, scr: &PScreen)
    requires
        screen_wf(scr@),
    ensures
        final(v)@ == old(v)@ + spec_scr_bytes(scr@),
{
    let mut k: usize = 0;
    while k < 256
        invariant
            k <= 256,
            screen_wf(scr@),
            v@ == old(v)@ + Seq::new(k as nat, |q: int| (scr@.tiles[q] & 0xff) as u8),
        decreases 256 - k,
    {
        v.push((scr.tile(k % 16, k / 16) & 0xff) as u8);
        proof {
            assert(k / 16 * 16 + k % 16 == k as int);
            assert(v@ =~= old(v)@ + Seq::new((k + 1) as nat, |q: int| (scr@.tiles[q] & 0xff) as u8));
        }
        k += 1;
    }
    let mut h: usize = 0;
    while h < 256
        invariant
            h <= 256,
            screen_wf(scr@),
            v@ == old(v)@ + Seq::new(256, |q: int| (scr@.tiles[q] & 0xff) as u8)
                + Seq::new(h as nat, |q: int| (scr@.tiles[q] >> 8) as u8),
        decreases 256 - h,
    {
        v.push((scr.tile(h % 16, h / 16) >> 8) as u8);
        proof {
            assert(h / 16 * 16 + h % 16 == h as int);
            assert(v@ =~= old(v)@ + Seq::new(256, |q: int| (scr@.tiles[q] & 0xff) as u8)
                + Seq::new((h + 1) as nat, |q: int| (scr@.tiles[q] >> 8) as u8));
        }
        h += 1;
    }
    proof {
        assert(v@ =~= old(v)@ + spec_scr_bytes(scr@));
    }
}

/// The planar tile bytes of a whole screen list.
pub fn tile_bytes(screens: &Vec<PScreen>) -> (r: Vec<u8>)
    requires
        forall|i: int| 0 <= i < screens@.len() ==> screen_wf(#[trigger] screens@[i]@),
    ensures
        r@ == spec_tile_bytes(
            Seq::new(screens@.len() as nat, |i: int| screens@[i]@),
            screens@.len() as int,
        ),
{
    let ghost views = Seq::new(screens@.len() as nat, |i: int| screens@[i]@);
    let mut v: Vec<u8> = Vec::new();
    let n = screens.len();
    let mut i: usize = 0;
    while i < n
        invariant
            i <= n,
            n == screens@.len(),
            views == Seq::new(screens@.len() as nat, |q: int| screens@[q]@),
            forall|q: int| 0 <= q < screens@.len() ==> screen_wf(#[trigger] screens@[q]@),
            v@ == spec_tile_bytes(views, i as int),
        decreases n - i,
    {
        push_scr_bytes(&mut v, &screens[i]);
        i += 1;
    }
    v
}

/// A shared-palette reference: the four slot numbers packed into the
/// header.
#[derive(Clone, Copy, Debug)]
pub struct SharedPal {
    pub fg: u8,
    pub bg: u8,
    pub sp: u8,
    pub sky: u8,
}

/// A custom palette, held as the 257 packed 16-bit platform colors that
/// the binary record stores.
#[derive(Debug)]
pub struct SnesPal {
    pub words: Vec<u16>,
}

/// A custom palette carries exactly 257 colors: the backdrop, then the
/// 256 table entries.
pub open spec fn pal_wf(p: SnesPal) -> bool {
    p.words@.len() == 257
}

impl SnesPal {
    /// Wraps 257 packed colors as a palette.
    pub fn from_words(words: Vec<u16>) -> (r: SnesPal)
        requires
            words@.len() == 257,
        ensures
            r.words@ == words@,
            pal_wf(r),
    {
        SnesPal { words }
    }

    /// The palette as the record stores it: each color as a little-endian
    /// word.
    pub fn to_binary_snes(&self) -> (r: Vec<u8>)
        ensures
            r@ == spec_pal_words_bytes(self.words@),
    {
        let mut v: Vec<u8> = Vec::new();
        let n = self.words.len();
        let mut i: usize = 0;
        while i < n
            invariant
                i <= n,
                n == self.words@.len(),
                v@ == spec_pal_words_bytes(self.words@.subrange(0, i as int)),
            decreases n - i,
        {
            let w = self.words[i];
            v.push(w as u8);
            v.push((w >> 8) as u8);
            proof {
                lemma_pal_words_bytes_step(self.words@, i as int);
                assert(self.words@.subrange(0, i + 1).drop_last()
                    =~= self.words@.subrange(0, i as int));
            }
            i += 1;
        }
        proof {
            assert(self.words@.subrange(0, n as int) =~= self.words@);
        }
        v
    }
}

/// Packed colors as little-endian bytes, in order.
pub open spec fn spec_pal_words_bytes(words: Seq<u16>) -> Seq<u8>
    decreases words.len(),
{
    if words.len() == 0 {
        Seq::empty()
    } else {
        spec_pal_words_bytes(words.drop_last())
            + seq![words.last() as u8, (words.last() >> 8) as u8]
    }
}

proof fn lemma_pal_words_bytes_step(words: Seq<u16>, i: int)
    requires
        0 <= i < words.len(),
    ensures
        spec_pal_words_bytes(words.subrange(0, i + 1))
            == spec_pal_words_bytes(words.subrange(0, i))
                + seq![words[i] as u8, (words[i] >> 8) as u8],
{
    let cur = words.subrange(0, i + 1);
    assert(cur.drop_last() =~= words.subrange(0, i));
    assert(cur.last() == words[i]);
}

/// The level's palette: a shared-slot reference, or a full custom table.
#[derive(Debug)]
pub enum Palette {
    Shared(SharedPal),
    Custom(SnesPal),
}

/// The header record's logical fields.
#[derive(Debug)]
pub struct LevelHeader {
    pub palette: Palette,
    pub mode: u8,
    pub audio_track: u8,
    pub tileset_fg: u8,
    pub tileset_sp: u8,
    pub time: u8,
    pub scroll: u8,
    pub l3_img: u8,
    pub l3_prio: bool,
}

/// A header whose custom palette, if any, is whole.
pub open spec fn header_wf(h: LevelHeader) -> bool {
    match h.palette {
        Palette::Custom(p) => pal_wf(p),
        Palette::Shared(_) => true,
    }
}

impl Default for LevelHeader {
    /// The conventional starting header: shared palette slots, default
    /// music and tilesets.
    fn default() -> (r: LevelHeader)
        ensures
            header_wf(r),
            r.palette matches Palette::Shared(p)
                && p.fg == 0 && p.bg == 1 && p.sp == 0 && p.sky == 2,
            r.mode == 0 && r.scroll == 2 && r.audio_track == 2 && r.time == 3,
            r.tileset_fg == 7 && r.tileset_sp == 8 && r.l3_img == 0 && !r.l3_prio,
    {
        LevelHeader {
            palette: Palette::Shared(SharedPal { fg: 0, bg: 1, sp: 0, sky: 2 }),
            mode: 0,
            scroll: 2,
            audio_track: 0x02,
            time: 3,
            tileset_fg: 7,
            tileset_sp: 8,
            l3_img: 0,
            l3_prio: false,
        }
    }
}

/// How many of the first `k` entrances are secondary.
pub open spec fn count_secondary(s: Seq<EntrancePlacement>, k: int) -> int
    decreases k,
{
    if k <= 0 {
        0
    } else {
        count_secondary(s, k - 1) + if s[k - 1].id.secondary { 1int } else { 0int }
    }
}

/// How many of the first `k` entrances are primary.
pub open spec fn count_primary(s: Seq<EntrancePlacement>, k: int) -> int
    decreases k,
{
    if k <= 0 {
        0
    } else {
        count_primary(s, k - 1) + if s[k - 1].id.secondary { 0int } else { 1int }
    }
}

/// A whole level: the two screen grids, the scroll filter, the entrance
/// table, and the header.
#[derive(Debug)]
pub struct Level {
    fg: PScrGrid,
    bg: PScrGrid,
    sf: Vec<bool>,
    entrances: Vec<EntrancePlacement>,
    header: LevelHeader,
}

impl Level {
    /// The foreground screens, row-major.
    pub closed spec fn fg_screens(&self) -> Seq<ScreenView> {
        self.fg.screens()
    }

    /// The background screens, row-major.
    pub closed spec fn bg_screens(&self) -> Seq<ScreenView> {
        self.bg.screens()
    }

    /// The scroll-filter flags, one per grid position.
    pub closed spec fn spec_sf(&self) -> Seq<bool> {
        self.sf@
    }

    /// The entrance table.
    pub closed spec fn spec_entrances(&self) -> Seq<EntrancePlacement> {
        self.entrances@
    }

    /// The header record's fields.
    pub closed spec fn spec_header(&self) -> LevelHeader {
        self.header
    }

    /// The entrance table, for serialization.
    pub fn entrances(&self) -> (r: &Vec<EntrancePlacement>)
        ensures
            r@ == self.spec_entrances(),
    {
        &self.entrances
    }

    /// The header, for serialization.
    pub fn header(&self) -> (r: &LevelHeader)
        ensures
            *r == self.spec_header(),
    {
        &self.header
    }

    /// The foreground screens followed by the background screens: the
    /// order every per-position table uses.
    pub open spec fn all_screens(&self) -> Seq<ScreenView> {
        self.fg_screens() + self.bg_screens()
    }

    /// Both grids sound and 32 by 32.
    pub closed spec fn grids_wf(&self) -> bool {
        &&& self.fg.wf()
        &&& self.bg.wf()
        &&& self.fg.spec_width() == 32
        &&& self.fg.spec_height() == 32
        &&& self.bg.spec_width() == 32
        &&& self.bg.spec_height() == 32
    }

    /// The level invariants the importer establishes: both grids sound
    /// and 32 by 32, the filter one flag per position, at most 2 primary
    /// and 32 secondary entrances, each sub-id in its range.
    pub open spec fn wf(&self) -> bool {
        &&& self.grids_wf()
        &&& self.spec_sf().len() == 1024
        &&& count_secondary(self.spec_entrances(), self.spec_entrances().len() as int) <= 32
        &&& count_primary(self.spec_entrances(), self.spec_entrances().len() as int) <= 2
        &&& forall|i: int| 0 <= i < self.spec_entrances().len() ==> {
            &&& id_wf((#[trigger] self.spec_entrances()[i]).id)
            &&& (self.spec_entrances()[i].id.secondary ==> self.spec_entrances()[i].id.sub_id < 0x20)
            &&& (!self.spec_entrances()[i].id.secondary ==> self.spec_entrances()[i].id.sub_id < 2)
        }
        &&& header_wf(self.spec_header())
    }

    /// Assembles a level from validated parts. Every invariant is the
    /// caller's to establish; an importer that cannot must not call.
    pub fn from_parts(fg: PScrGrid, bg: PScrGrid, sf: Vec<bool>, entrances: Vec<EntrancePlacement>, header: LevelHeader) -> (r: Level)
        requires
            fg.wf(),
            bg.wf(),
            fg.spec_width() == 32 && fg.spec_height() == 32,
            bg.spec_width() == 32 && bg.spec_height() == 32,
            sf@.len() == 1024,
            count_secondary(entrances@, entrances@.len() as int) <= 32,
            count_primary(entrances@, entrances@.len() as int) <= 2,
            forall|i: int| 0 <= i < entrances@.len() ==> {
                &&& id_wf((#[trigger] entrances@[i]).id)
                &&& (entrances@[i].id.secondary ==> entrances@[i].id.sub_id < 0x20)
                &&& (!entrances@[i].id.secondary ==> entrances@[i].id.sub_id < 2)
            },
            header_wf(header),
        ensures
            r.wf(),
            r.fg_screens() == fg.screens(),
            r.bg_screens() == bg.screens(),
            r.spec_sf() == sf@,
            r.spec_entrances() == entrances@,
            r.spec_header() == header,
    {
        Level { fg, bg, sf, entrances, header }
    }

    /// A sound level holds 1024 foreground and 1024 background screens,
    /// each of them sound.
    pub proof fn lemma_screens_shape(&self)
        requires
            self.wf(),
        ensures
            self.fg_screens().len() == 1024,
            self.bg_screens().len() == 1024,
            self.all_screens().len() == 2048,
            forall|i: int| 0 <= i < self.all_screens().len()
                ==> screen_wf(#[trigger] self.all_screens()[i]),
    {
        assert forall|i: int| 0 <= i < self.all_screens().len()
            implies screen_wf(#[trigger] self.all_screens()[i]) by {
            if i < 1024 {
                assert(self.all_screens()[i] == self.fg.screens()[i]);
            } else {
                assert(self.all_screens()[i] == self.bg.screens()[i - 1024]);
            }
        }
    }

    /// The level's width in screens.
    pub fn width(&self) -> (r: usize)
        requires
            self.wf(),
        ensures
            r == 32,
    {
        self.fg.width
    }

    /// The level's height in screens.
    pub fn height(&self) -> (r: usize)
        requires
            self.wf(),
        ensures
            r == 32,
    {
        self.fg.height
    }

    /// The planar tile bytes of every screen, foreground first.
    pub fn tile_bytes(&self) -> (r: Vec<u8>)
        requires
            self.wf(),
        ensures
            r@ == spec_tile_bytes(self.all_screens(), self.all_screens().len() as int),
    {
        let ghost all = self.all_screens();
        let mut v: Vec<u8> = Vec::new();
        let n = self.fg.pscreens.len();
        let mut i: usize = 0;
        while i < n
            invariant
                i <= n,
                n == self.fg_screens().len(),
                self.wf(),
                all == self.all_screens(),
                v@ == spec_tile_bytes(all, i as int),
            decreases n - i,
        {
            proof {
                assert(all[i as int] == self.fg_screens()[i as int]);
            }
            push_scr_bytes(&mut v, &self.fg.pscreens[i]);
            i += 1;
        }
        let m = self.bg.pscreens.len();
        let mut b: usize = 0;
        while b < m
            invariant
                b <= m,
                n == self.fg_screens().len(),
                m == self.bg_screens().len(),
                self.wf(),
                all == self.all_screens(),
                v@ == spec_tile_bytes(all, n + b),
            decreases m - b,
        {
            proof {
                assert(all[n + b] == self.bg_screens()[b as int]);
            }
            push_scr_bytes(&mut v, &self.bg.pscreens[b]);
            b += 1;
        }
        v
    }
}

/// A search over a catalogue whose first equal entry is known lands on
/// exactly that entry.
proof fn lemma_first_match_exact_from(cat: Seq<ScreenView>, s: ScreenView, from: int, di: int)
    requires
        0 <= from <= di < cat.len(),
        screen_eq(cat[di], s),
        forall|t: int| from <= t < di ==> !screen_eq(#[trigger] cat[t], s),
    ensures
        first_match(cat, s, from) == Some(di),
    decreases di - from,
{
    if from < di {
        lemma_first_match_exact_from(cat, s, from + 1, di);
    }
}

/// Two sprite-free input screens with the same tiles and exit are
/// recorded under one and the same catalogue entry.
pub proof fn lemma_dedup_collapse(input: Seq<ScreenView>, i: int, j: int)
    requires
        0 <= i < j < input.len(),
        screen_eq(input[i], input[j]),
    ensures
        dex_value(input, i) == dex_value(input, j),
{
    let ci = cat_after(input, i);
    let ci1 = cat_after(input, i + 1);
    let cj = cat_after(input, j);
    let di = dex_value(input, i);
    lemma_first_match_props(ci, input[i], 0);
    lemma_cat_monotone(input, i, i + 1);
    lemma_cat_monotone(input, i + 1, j);
    // The entry at di equals input[i], and nothing before it does.
    assert(0 <= di < ci1.len());
    assert(screen_eq(ci1[di], input[i]));
    assert forall|t: int| 0 <= t < di implies !screen_eq(#[trigger] ci1[t], input[i]) by {
        match first_match(ci, input[i], 0) {
            Some(_) => {},
            None => {
                assert(ci1[t] == ci[t]);
            },
        }
    }
    assert(screen_eq(cj[di], input[j]));
    assert forall|t: int| 0 <= t < di implies !screen_eq(#[trigger] cj[t], input[j]) by {
        assert(cj[t] == ci1[t]);
    }
    lemma_first_match_exact_from(cj, input[j], 0, di);
}

/// A screen carrying any sprite always earns a fresh catalogue entry:
/// it never shares one with any earlier screen.
pub proof fn lemma_sprites_never_collapse(input: Seq<ScreenView>, i: int, j: int)
    requires
        0 <= i < j < input.len(),
        input[j].sprites.len() > 0,
    ensures
        dex_value(input, i) != dex_value(input, j),
{
    let cj = cat_after(input, j);
    lemma_first_match_props(cj, input[j], 0);
    assert(first_match(cj, input[j], 0) is None) by {
        match first_match(cj, input[j], 0) {
            Some(p) => {
                assert(screen_eq(cj[p], input[j]));
                assert(false);
            },
            None => {},
        }
    }
    assert(dex_value(input, j) == cj.len());
    lemma_first_match_props(cat_after(input, i), input[i], 0);
    assert(dex_value(input, i) < cat_after(input, i + 1).len());
    lemma_cat_monotone(input, i + 1, j);
}

/// A run of screens that are all equal to the first collapses to a
/// single catalogue entry, every position indexing entry zero.
pub proof fn lemma_uniform_dedup(input: Seq<ScreenView>, m: int)
    requires
        1 <= m <= input.len(),
        forall|k: int| 0 <= k < input.len() ==> screen_eq(input[0], #[trigger] input[k]),
    ensures
        cat_after(input, m) =~= seq![input[0]],
        forall|k: int| 0 <= k < m ==> dex_value(input, k) == 0,
    decreases m,
{
    if m == 1 {
        assert(cat_after(input, 0) =~= Seq::<ScreenView>::empty());
        assert(cat_after(input, 1) =~= seq![input[0]]);
        assert(dex_value(input, 0) == 0);
    } else {
        lemma_uniform_dedup(input, m - 1);
        let c = cat_after(input, m - 1);
        assert(screen_eq(c[0], input[m - 1]));
        lemma_first_match_exact_from(c, input[m - 1], 0, 0);
        assert(cat_after(input, m) =~= seq![input[0]]);
        assert(dex_value(input, m - 1) == 0);
    }
}

} // verus!
