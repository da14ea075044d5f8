use vstd::prelude::*;
use crate::config::UiMapTileCfg;

verus! {

/// A drawn screen cell: the atlas tile, its colors (0 to 255 per channel) and
/// whether the tile is drawn at all or only its background.
#[derive(Clone, Copy, Debug, PartialEq, Eq)]
pub struct Tile {
    pub n: u8,
    pub fg_color: [u8; 4],
    pub bg_color: [u8; 3],
    pub visible: bool,
}

impl Default for Tile {
    fn default() -> (t: Self)
        ensures
            t.n == 0,
            t.fg_color == [255u8, 255u8, 255u8, 255u8],
            t.bg_color == [0u8, 0u8, 0u8],
            t.visible,
    {
        Tile { n: 0, fg_color: [255, 255, 255, 255], bg_color: [0, 0, 0], visible: true }
    }
}

/// What a rendered world tile is drawn as: an entity with its configuration,
/// or a plain atlas tile.
#[derive(Clone, Copy, Debug)]
pub enum TileVariant {
    Entity(UiMapTileCfg),
    Simple(u8),
}

/// The screen cell for a variant: white on black, as the entity configuration
/// says for an entity.
pub fn tile_for(v: TileVariant) -> (t: Tile)
    ensures
        t.visible,
        t.bg_color == [0u8, 0u8, 0u8],
        match v {
            TileVariant::Simple(n) => t.n == n && t.fg_color == [255u8, 255u8, 255u8, 255u8],
            TileVariant::Entity(cfg) => t.n == cfg.tile_n as u8 && t.fg_color == cfg.fg,
        },
{
    match v {
        TileVariant::Simple(n) => Tile { n, fg_color: [255, 255, 255, 255], bg_color: [0, 0, 0], visible: true },
        TileVariant::Entity(cfg) => Tile {
            n: cfg.tile_n as u8,
            fg_color: cfg.fg,
            bg_color: [0, 0, 0],
            visible: true,
        },
    }
}

/// A screen of `width * height` cells, row by row.
pub struct TileMap {
    size: (u32, u32),
    tiles: Vec<Tile>,
}

impl TileMap {
    pub closed spec fn spec_size(&self) -> (u32, u32) {
        self.size
    }

    pub closed spec fn cells(&self) -> Seq<Tile> {
        self.tiles@
    }

    pub open spec fn wf(&self) -> bool {
        self.cells().len() == self.spec_size().0 * self.spec_size().1
    }

    /// The cell at `(x, y)`.
    pub open spec fn spec_tile(&self, x: int, y: int) -> Tile {
        self.cells()[x + y * self.spec_size().0]
    }

    /// A screen of the given size, every cell the default tile.
    pub fn new(size: (u32, u32)) -> (m: Self)
        requires
            size.0 * size.1 <= u32::MAX,
        ensures
            m.wf(),
            m.spec_size() == size,
            forall|i: int| 0 <= i < m.cells().len() ==> m.cells()[i] == Tile::default_spec(),
    {
        let n = size.0 * size.1;
        let mut tiles: Vec<Tile> = Vec::new();
        let mut i: u32 = 0;
        while i < n
            invariant
                i <= n,
                tiles@.len() == i,
                forall|j: int| 0 <= j < i ==> tiles@[j] == Tile::default_spec(),
            decreases n - i,
        {
            tiles.push(Tile::default_tile());
            i = i + 1;
        }
        TileMap { size, tiles }
    }

    pub fn set_tile(&mut self, x: u32, y: u32, t: Tile)
        requires
            old(self).wf(),
            x < old(self).spec_size().0,
            y < old(self).spec_size().1,
        ensures
            final(self).wf(),
            final(self).spec_size() == old(self).spec_size(),
            final(self).cells() == old(self).cells().update(x + y * old(self).spec_size().0, t),
    {
        let w = self.size.0 as usize;
        let len = self.tiles.len();
        proof {
            let h = self.size.1 as int;
            assert(0 <= y * w <= x + y * w < w * h) by (nonlinear_arith)
                requires 0 <= x < w, 0 <= y < h;
        }
        self.tiles.set(x as usize + (y as usize) * w, t);
    }

    pub fn size(&self) -> (r: (u32, u32))
        ensures
            r == self.spec_size(),
    {
        self.size
    }

    /// The cell at `(x, y)`.
    pub fn get_tile(&self, x: u32, y: u32) -> (t: Tile)
        requires
            self.wf(),
            x < self.spec_size().0,
            y < self.spec_size().1,
        ensures
            t == self.spec_tile(x as int, y as int),
    {
        let w = self.size.0 as usize;
        let len = self.tiles.len();
        proof {
            let h = self.size.1 as int;
            assert(0 <= y * w <= x + y * w < w * h) by (nonlinear_arith)
                requires 0 <= x < w, 0 <= y < h;
        }
        self.tiles[x as usize + (y as usize) * w]
    }
}

impl Tile {
    pub open spec fn default_spec() -> Tile {
        Tile { n: 0, fg_color: [255u8, 255u8, 255u8, 255u8], bg_color: [0u8, 0u8, 0u8], visible: true }
    }

    /// The default tile: atlas tile 0, white on black, drawn.
    pub fn default_tile() -> (t: Tile)
        ensures
            t == Tile::default_spec(),
    {
        Tile { n: 0, fg_color: [255, 255, 255, 255], bg_color: [0, 0, 0], visible: true }
    }
}

/// The default tile drawing byte `n`.
pub open spec fn text_tile(n: u8) -> Tile {
    Tile { n, ..Tile::default_spec() }
}

/// Writes the bytes of `s` as tiles along row `y` from column `x`, stopping at
/// the right edge of the screen.
pub fn put_str(map: &mut TileMap, x: u32, y: u32, s: &[u8])
    requires
        old(map).wf(),
        y < old(map).spec_size().1,
    ensures
        final(map).wf(),
        final(map).spec_size() == old(map).spec_size(),
        forall|a: int, b: int|
            0 <= a < old(map).spec_size().0 && 0 <= b < old(map).spec_size().1
                ==> #[trigger] final(map).spec_tile(a, b) == if b == y && x <= a < x + s@.len() {
                text_tile(s@[a - x])
            } else {
                old(map).spec_tile(a, b)
            },
{
    let (mw, _) = map.size();
    let n = s.len();
    let mut i: usize = 0;
    while i < n && (i as u128) + (x as u128) < mw as u128
        invariant
            map.wf(),
            map.spec_size() == old(map).spec_size(),
            mw == map.spec_size().0,
            y < map.spec_size().1,
            n == s@.len(),
            i <= n,
            forall|a: int, b: int|
                0 <= a < mw && 0 <= b < map.spec_size().1 ==> #[trigger] map.spec_tile(a, b) == if b
                    == y && x <= a < x + i {
                    text_tile(s@[a - x])
                } else {
                    old(map).spec_tile(a, b)
                },
        decreases n - i,
    {
        let ghost before = *map;
        let item = s[i];
        let t = Tile { n: item, ..Tile::default_tile() };
        assert(t == text_tile(s@[i as int]));
        map.set_tile(i as u32 + x, y, t);
        proof {
            assert forall|a: int, b: int|
                0 <= a < mw && 0 <= b < map.spec_size().1 implies #[trigger] map.spec_tile(a, b) == if b
                    == y && x <= a < x + i + 1 {
                    text_tile(s@[a - x])
                } else {
                    old(map).spec_tile(a, b)
                } by {
                let h = map.spec_size().1 as int;
                let (j, idx) = (a + b * mw, (i + x) + y * mw);
                assert(0 <= j < mw * h && 0 <= idx < mw * h) by (nonlinear_arith)
                    requires 0 <= a < mw, 0 <= b < h, 0 <= i + x < mw, 0 <= y < h, j == a + b * mw,
                        idx == (i + x) + y * mw;
                assert(before.cells().len() == mw * h);
                if j == idx {
                    assert(a == i + x && b == y) by (nonlinear_arith)
                        requires j == idx, j == a + b * mw, idx == (i + x) + y * mw, 0 <= a < mw,
                            0 <= i + x < mw, 0 <= b, 0 <= y;
                } else {
                    assert(before.cells().update(idx, t)[j] == before.cells()[j]);
                    assert(map.spec_tile(a, b) == before.spec_tile(a, b));
                }
            }
        }
        i = i + 1;
    }
}

} // verus!
