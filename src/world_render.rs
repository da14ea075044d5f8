use vstd::prelude::*;
use vstd::view::View as _;
use crate::level_map::{LevelMap, in_grid};
use crate::render::{Tile, TilesIter, clip};

verus! {

/// A window onto a map level, in map coordinates; it may start off the map.
#[derive(Clone, Copy, Debug)]
pub struct View {
    x: i32,
    y: i32,
    level: u32,
    width: u32,
    height: u32,
}

/// A window that starts on the map: `(x, y, level, width, height)`.
#[derive(Clone, Copy, Debug)]
pub struct NormalizedView {
    x: u32,
    y: u32,
    level: u32,
    width: u32,
    height: u32,
}

impl View {
    /// `(x, y, level, width, height)`.
    pub closed spec fn spec_fields(&self) -> (i32, i32, u32, u32, u32) {
        (self.x, self.y, self.level, self.width, self.height)
    }

    pub fn new(x: i32, y: i32, level: u32, width: u32, height: u32) -> (v: Self)
        ensures
            v.spec_fields() == (x, y, level, width, height),
    {
        View { x, y, level, width, height }
    }

    /// The window with a start before the map moved onto its edge.
    pub fn normalize(&self) -> (n: NormalizedView)
        ensures
            ({
                let (x, y, level, width, height) = self.spec_fields();
                n.spec_fields() == (
                    (if x < 0 { 0 } else { x as u32 }),
                    (if y < 0 { 0 } else { y as u32 }),
                    level,
                    width,
                    height,
                )
            }),
    {
        let x: u32 = if self.x < 0 { 0 } else { self.x as u32 };
        let y: u32 = if self.y < 0 { 0 } else { self.y as u32 };
        NormalizedView::new(x, y, self.level, self.width, self.height)
    }
}

impl NormalizedView {
    /// `(x, y, level, width, height)`.
    pub closed spec fn spec_fields(&self) -> (u32, u32, u32, u32, u32) {
        (self.x, self.y, self.level, self.width, self.height)
    }

    pub fn new(x: u32, y: u32, level: u32, width: u32, height: u32) -> (v: Self)
        ensures
            v.spec_fields() == (x, y, level, width, height),
    {
        NormalizedView { x, y, level, width, height }
    }
}

/// The rendered tiles of a window onto one map level, row by row.
pub struct RenderedWorldView {
    size: (u32, u32),
    tiles: Vec<Tile>,
}

impl RenderedWorldView {
    pub closed spec fn spec_size(&self) -> (u32, u32) {
        self.size
    }

    pub closed spec fn spec_tiles(&self) -> Seq<Tile> {
        self.tiles@
    }

    pub fn tiles_count(&self) -> (r: u32)
        requires
            self.spec_tiles().len() <= u32::MAX,
        ensures
            r == self.spec_tiles().len(),
    {
        self.tiles.len() as u32
    }

    /// Walks the tiles with their coordinates inside the window.
    pub fn iter(&self) -> (it: TilesIter<'_>)
        requires
            self.spec_tiles().len() <= u32::MAX,
        ensures
            it.spec_position() == (0u32, 0u32, 0u32),
            it.spec_size() == (self.spec_size().0, self.spec_size().1, 1u32),
            it.spec_tiles() == self.spec_tiles(),
            it.spec_index() == 0,
    {
        TilesIter::new((self.size.0, self.size.1, 1), &self.tiles)
    }

    /// The index in `tiles` of map cell `(x, y)` on `level`, for tiles of a
    /// window `v` of the given size; `None` off the window or past the tiles.
    pub fn get_abs_mut(tiles: &Vec<Tile>, size: (u32, u32), v: &NormalizedView, x: u32, y: u32, level: u32) -> (r: Option<usize>)
        ensures
            ({
                let (vx, vy) = (v.spec_fields().0 as int, v.spec_fields().1 as int);
                let n = (x - vx) + (y - vy) * size.0 + level * size.0 * size.1;
                r == if vx <= x < vx + size.0 && vy <= y < vy + size.1 && n < tiles@.len() {
                    Some(n as usize)
                } else {
                    None::<usize>
                }
            }),
    {
        let (w, h) = size;
        if x < v.x || x as u64 >= v.x as u64 + w as u64 || y < v.y || y as u64 >= v.y as u64 + h as u64 {
            return None;
        }
        let (nx, ny) = ((x - v.x) as u64, (y - v.y) as u64);
        proof {
            assert(ny * w <= 0xffff_ffff * 0xffff_ffff) by (nonlinear_arith)
                requires 0 <= ny <= 0xffff_ffff, 0 <= w <= 0xffff_ffff;
            assert(level * w <= 0xffff_ffff * 0xffff_ffff) by (nonlinear_arith)
                requires 0 <= level <= 0xffff_ffff, 0 <= w <= 0xffff_ffff;
            assert(level * w * h <= 0xffff_ffff * 0xffff_ffff * 0xffff_ffff) by (nonlinear_arith)
                requires 0 <= level <= 0xffff_ffff, 0 <= w <= 0xffff_ffff, 0 <= h <= 0xffff_ffff;
        }
        let n = nx as u128 + (ny as u128) * (w as u128) + (level as u128) * (w as u128) * (h as u128);
        if n >= tiles.len() as u128 {
            return None;
        }
        Some(n as usize)
    }
}

/// Renders the window `view` of one level of `map`, clipped to the map.
pub fn render_map(map: &LevelMap<u8>, view: &View) -> (r: RenderedWorldView)
    requires
        map.wf(),
        view.spec_fields().2 < map.spec_size().2,
    ensures
        ({
            let (vx, vy, level, vw, vh) = view.spec_fields();
            let sx = if vx < 0 { 0u32 } else { vx as u32 };
            let sy = if vy < 0 { 0u32 } else { vy as u32 };
            let (w, h) = (clip(sx, vw, map.spec_size().0), clip(sy, vh, map.spec_size().1));
            &&& r.spec_size() == (w, h)
            &&& r.spec_tiles().len() == w * h
            &&& forall|i: int, j: int|
                0 <= i < w && 0 <= j < h ==> (#[trigger] r.spec_tiles()[i + j * w]).ground
                    == map.spec_at(sx + i, sy + j, level as int) && r.spec_tiles()[i + j
                    * w].effects.is_none()
        }),
{
    let n_view = view.normalize();
    let (mw, mh, _) = map.size();
    let (sx, sy, level) = (n_view.x, n_view.y, n_view.level);
    let (vw, vh) = (n_view.width, n_view.height);
    let w: u32 = if (sx as u64) + (vw as u64) < mw as u64 { sx + vw } else { mw };
    let w: u32 = if w > sx { w - sx } else { 0 };
    let h: u32 = if (sy as u64) + (vh as u64) < mh as u64 { sy + vh } else { mh };
    let h: u32 = if h > sy { h - sy } else { 0 };
    let mut tiles: Vec<Tile> = Vec::new();
    let mut j: u32 = 0;
    while j < h
        invariant
            map.wf(),
            map.spec_size().0 == mw && map.spec_size().1 == mh,
            level < map.spec_size().2,
            (w == 0 || sx + w <= mw) && (h == 0 || sy + h <= mh),
            j <= h,
            tiles@.len() == j * w,
            forall|a: int, b: int|
                0 <= a < w && 0 <= b < j ==> {
                    &&& a + b * w < tiles@.len()
                    &&& (#[trigger] tiles@[a + b * w]).ground == map.spec_at(sx + a, sy + b, level as int)
                    &&& tiles@[a + b * w].effects.is_none()
                },
        decreases h - j,
    {
        let mut i: u32 = 0;
        while i < w
            invariant
                map.wf(),
                map.spec_size().0 == mw && map.spec_size().1 == mh,
                level < map.spec_size().2,
                (w == 0 || sx + w <= mw) && (h == 0 || sy + h <= mh),
                j < h,
                i <= w,
                tiles@.len() == j * w + i,
                forall|a: int, b: int|
                    0 <= a < w && 0 <= b <= j && (b < j || a < i) ==> {
                        &&& a + b * w < tiles@.len()
                        &&& (#[trigger] tiles@[a + b * w]).ground == map.spec_at(sx + a, sy + b, level as int)
                        &&& tiles@[a + b * w].effects.is_none()
                    },
            decreases w - i,
        {
            let g = *map.get_at(sx + i, sy + j, level);
            let ghost before = tiles@;
            tiles.push(Tile::new(g));
            proof {
                assert forall|a: int, b: int|
                    0 <= a < w && 0 <= b <= j && (b < j || a < i + 1) implies {
                        &&& a + b * w < tiles@.len()
                        &&& (#[trigger] tiles@[a + b * w]).ground == map.spec_at(sx + a, sy + b, level as int)
                        &&& tiles@[a + b * w].effects.is_none()
                    } by {
                    if b < j || a < i {
                        if b < j {
                            assert(a + b * w < j * w) by (nonlinear_arith)
                                requires 0 <= a < w, 0 <= b < j;
                        }
                        assert(tiles@[a + b * w] == before[a + b * w]);
                    } else {
                        assert(a == i && b == j);
                    }
                }
            }
            i = i + 1;
        }
        proof {
            assert((j + 1) * w == j * w + w) by (nonlinear_arith);
        }
        j = j + 1;
    }
    proof {
        assert(h * w == w * h) by (nonlinear_arith);
    }
    RenderedWorldView { size: (w, h), tiles }
}

} // verus!
