use vstd::prelude::*;
use crate::level_map::{LevelMap, in_grid};
use crate::shadowcast::{OPAQUE, OpacityOracle, cast, field_of_view, opacity_fn};

verus! {

/// The opacity of a map around an origin: a cell holding 1 is a wall, every
/// other cell is open, and whatever lies off the map is a wall.
pub struct MapOpacity<'a> {
    map: &'a LevelMap<u8>,
    x: u32,
    y: u32,
    level: u32,
}

/// The opacity of cell `(x + dx, y + dy)` on the given level of `map`.
pub open spec fn map_opacity(map: LevelMap<u8>, x: int, y: int, level: int, dx: int, dy: int) -> u64 {
    let (mx, my) = (x + dx, y + dy);
    if !in_grid(map.spec_size(), mx, my, level) {
        OPAQUE
    } else if map.spec_at(mx, my, level) == 1 {
        OPAQUE
    } else {
        0
    }
}

/// [`map_opacity`] as a function of the offset.
pub open spec fn map_opacity_fn(map: LevelMap<u8>, x: int, y: int, level: int) -> spec_fn(int, int) -> u64 {
    |dx: int, dy: int| map_opacity(map, x, y, level, dx, dy)
}

impl<'a> MapOpacity<'a> {
    #[verifier::type_invariant]
    closed spec fn inv(self) -> bool {
        self.map.wf() && self.level < self.map.spec_size().2
    }

    pub closed spec fn spec_map(self) -> LevelMap<u8> {
        *self.map
    }

    pub closed spec fn origin(self) -> (int, int, int) {
        (self.x as int, self.y as int, self.level as int)
    }

    pub fn new(map: &'a LevelMap<u8>, x: u32, y: u32, level: u32) -> (o: Self)
        requires
            map.wf(),
            level < map.spec_size().2,
        ensures
            o.spec_map() == *map,
            o.origin() == (x as int, y as int, level as int),
    {
        MapOpacity { map, x, y, level }
    }
}

impl<'a> OpacityOracle for MapOpacity<'a> {
    open spec fn spec_opacity(&self, dx: int, dy: int) -> u64 {
        let (x, y, level) = self.origin();
        map_opacity(self.spec_map(), x, y, level, dx, dy)
    }

    fn opacity_at(&self, dx: i32, dy: i32) -> (r: u64) {
        proof {
            use_type_invariant(self);
        }
        let (w, h, _) = self.map.size();
        let mx = self.x as i64 + dx as i64;
        let my = self.y as i64 + dy as i64;
        if mx < 0 || mx >= w as i64 || my < 0 || my >= h as i64 {
            return OPAQUE;
        }
        if *self.map.get_at(mx as u32, my as u32, self.level) == 1 {
            OPAQUE
        } else {
            0
        }
    }
}

/// The opacity of a `width` by `height` grid of cells, stored row by row,
/// around an origin in it; whatever lies off the grid is a wall.
pub struct GridOpacity {
    width: u32,
    height: u32,
    cells: Vec<u64>,
    origin_x: u32,
    origin_y: u32,
}

/// The opacity of cell `(ox + dx, oy + dy)` of a `w` by `h` grid.
pub open spec fn grid_opacity(cells: Seq<u64>, w: int, h: int, ox: int, oy: int, dx: int, dy: int) -> u64 {
    let (x, y) = (ox + dx, oy + dy);
    if 0 <= x < w && 0 <= y < h {
        cells[x + y * w]
    } else {
        OPAQUE
    }
}

impl GridOpacity {
    #[verifier::type_invariant]
    closed spec fn inv(self) -> bool {
        self.cells@.len() == self.width * self.height
    }

    pub closed spec fn spec_cells(self) -> Seq<u64> {
        self.cells@
    }

    /// `(width, height, origin_x, origin_y)`.
    pub closed spec fn frame(self) -> (int, int, int, int) {
        (self.width as int, self.height as int, self.origin_x as int, self.origin_y as int)
    }

    /// `None` when `cells` does not hold exactly `width * height` values.
    pub fn new(width: u32, height: u32, cells: Vec<u64>, origin_x: u32, origin_y: u32) -> (r: Option<Self>)
        ensures
            r.is_some() == (cells@.len() == width * height),
            r matches Some(g) ==> g.spec_cells() == cells@ && g.frame() == (
                width as int,
                height as int,
                origin_x as int,
                origin_y as int,
            ),
    {
        proof {
            assert(width * height <= u32::MAX * u32::MAX) by (nonlinear_arith)
                requires width <= u32::MAX, height <= u32::MAX;
        }
        if (cells.len() as u64) != (width as u64) * (height as u64) {
            return None;
        }
        Some(GridOpacity { width, height, cells, origin_x, origin_y })
    }
}

impl OpacityOracle for GridOpacity {
    open spec fn spec_opacity(&self, dx: int, dy: int) -> u64 {
        let (w, h, ox, oy) = self.frame();
        grid_opacity(self.spec_cells(), w, h, ox, oy, dx, dy)
    }

    fn opacity_at(&self, dx: i32, dy: i32) -> (r: u64) {
        proof {
            use_type_invariant(self);
        }
        let x = self.origin_x as i64 + dx as i64;
        let y = self.origin_y as i64 + dy as i64;
        if x < 0 || x >= self.width as i64 || y < 0 || y >= self.height as i64 {
            return OPAQUE;
        }
        let len = self.cells.len();
        proof {
            let (w, h) = (self.width as int, self.height as int);
            assert(0 <= y * w <= x + y * w < w * h) by (nonlinear_arith)
                requires 0 <= x < w, 0 <= y < h;
        }
        self.cells[(x as usize) + (y as usize) * (self.width as usize)]
    }
}

/// Writes each cast triple `(dx, dy, o)` whose cell `(sx + dx, sy + dy)` lies in
/// a `w` by `h` grid into that cell, in order, so that a later triple wins.
pub open spec fn paint(grid: Seq<u64>, outs: Seq<(i32, i32, u64)>, w: int, h: int, sx: int, sy: int) -> Seq<u64>
    decreases outs.len(),
{
    if outs.len() == 0 {
        grid
    } else {
        let (dx, dy, o) = outs[0];
        let (ax, ay) = (sx + dx, sy + dy);
        let g = if 0 <= ax < w && 0 <= ay < h {
            grid.update(ax + ay * w, o)
        } else {
            grid
        };
        paint(g, outs.drop_first(), w, h, sx, sy)
    }
}

/// The opacity field of a cast from `(sx, sy)` on a `w` by `h` grid: cells that
/// the cast does not reach stay fully opaque.
pub open spec fn opacity_field(outs: Seq<(i32, i32, u64)>, w: int, h: int, sx: int, sy: int) -> Seq<u64> {
    paint(Seq::new((w * h) as nat, |i: int| OPAQUE), outs, w, h, sx, sy)
}

/// The opacity field that the cast triples `outs` paint from `(sx, sy)` on a
/// `w` by `h` grid.
pub fn paint_field(outs: &Vec<(i32, i32, u64)>, w: u32, h: u32, sx: u32, sy: u32) -> (res: Vec<u64>)
    requires
        w * h <= u32::MAX,
    ensures
        res@ == opacity_field(outs@, w as int, h as int, sx as int, sy as int),
        res@.len() == w * h,
{
    let (map_w, map_h, start_x, start_y) = (w, h, sx, sy);
    let max_n = (map_w * map_h) as usize;
    let mut result: Vec<u64> = Vec::new();
    let mut i: usize = 0;
    while i < max_n
        invariant
            i <= max_n,
            result@ =~= Seq::new(i as nat, |j: int| OPAQUE),
        decreases max_n - i,
    {
        result.push(OPAQUE);
        i = i + 1;
    }
    let ghost w = map_w as int;
    let ghost h = map_h as int;
    let ghost target = paint(result@, outs@, w, h, start_x as int, start_y as int);
    assert(result@ =~= Seq::new((w * h) as nat, |j: int| OPAQUE));
    assert(outs@.subrange(0, outs@.len() as int) =~= outs@);
    let n = outs.len();
    let mut k: usize = 0;
    while k < n
        invariant
            n == outs@.len(),
            k <= n,
            result@.len() == w * h,
            w == map_w && h == map_h,
            map_w * map_h <= u32::MAX,
            paint(result@, outs@.subrange(k as int, n as int), w, h, start_x as int, start_y as int) == target,
        decreases n - k,
    {
        let (dx, dy, o) = outs[k];
        let ax = start_x as i64 + dx as i64;
        let ay = start_y as i64 + dy as i64;
        proof {
            assert(outs@.subrange(k as int, n as int).drop_first() =~= outs@.subrange(k + 1, n as int));
        }
        if ax >= 0 && ax < map_w as i64 && ay >= 0 && ay < map_h as i64 {
            proof {
                assert(0 <= ax + ay * w < w * h) by (nonlinear_arith)
                    requires 0 <= ax < w, 0 <= ay < h;
            }
            let idx = (ax as u64 + (ay as u64) * (map_w as u64)) as usize;
            result.set(idx, o);
        }
        k = k + 1;
    }
    proof {
        assert(outs@.subrange(n as int, n as int) =~= Seq::empty());
    }
    result
}

/// The opacity of every cell of one level of a map, seen from one cell of it.
pub struct FOV {
    data: Vec<u64>,
    map_size: (u32, u32, u32),
}

impl FOV {
    #[verifier::type_invariant]
    closed spec fn inv(self) -> bool {
        self.data@.len() == self.map_size.0 * self.map_size.1
    }

    pub closed spec fn spec_data(&self) -> Seq<u64> {
        self.data@
    }

    pub closed spec fn spec_map_size(&self) -> (u32, u32, u32) {
        self.map_size
    }

    /// Casts from `(start_x, start_y)` on level `start_level` of `map` with radius `r`.
    pub fn new(map: &LevelMap<u8>, start_x: u32, start_y: u32, start_level: u32, r: u32) -> (f: Self)
        requires
            map.wf(),
            start_level < map.spec_size().2,
            r <= i32::MAX,
        ensures
            f.spec_map_size() == map.spec_size(),
            f.spec_data().len() == map.spec_size().0 * map.spec_size().1,
            f.spec_data() == opacity_field(
                field_of_view(
                    map_opacity_fn(*map, start_x as int, start_y as int, start_level as int),
                    r as int,
                ),
                map.spec_size().0 as int,
                map.spec_size().1 as int,
                start_x as int,
                start_y as int,
            ),
    {
        FOV {
            data: FOV::calculate(map, start_x, start_y, start_level, r),
            map_size: map.size(),
        }
    }

    fn calculate(map: &LevelMap<u8>, start_x: u32, start_y: u32, start_level: u32, r: u32) -> (res: Vec<u64>)
        requires
            map.wf(),
            start_level < map.spec_size().2,
            r <= i32::MAX,
        ensures
            res@.len() == map.spec_size().0 * map.spec_size().1,
            res@ == opacity_field(
                field_of_view(
                    map_opacity_fn(*map, start_x as int, start_y as int, start_level as int),
                    r as int,
                ),
                map.spec_size().0 as int,
                map.spec_size().1 as int,
                start_x as int,
                start_y as int,
            ),
    {
        let (map_w, map_h, _) = map.size();
        let oracle = MapOpacity::new(map, start_x, start_y, start_level);
        let outs = cast(r as i32, oracle);
        proof {
            assert(opacity_fn(oracle) =~= map_opacity_fn(
                *map,
                start_x as int,
                start_y as int,
                start_level as int,
            ));
            let l = map.spec_size().2 as int;
            assert(map_w * map_h <= map_w * map_h * l) by (nonlinear_arith)
                requires l >= 1;
        }
        paint_field(&outs, map_w, map_h, start_x, start_y)
    }

    /// The opacity of cell `(x, y)`.
    pub fn get_at(&self, x: u32, y: u32) -> (r: u64)
        requires
            x < self.spec_map_size().0,
            y < self.spec_map_size().1,
        ensures
            r == self.spec_data()[x + y * self.spec_map_size().0],
    {
        proof {
            use_type_invariant(self);
        }
        let w = self.map_size.0 as usize;
        let len = self.data.len();
        proof {
            let h = self.map_size.1 as int;
            assert(0 <= y * w <= x + y * w < w * h) by (nonlinear_arith)
                requires 0 <= x < w, 0 <= y < h;
        }
        let n = x as usize + (y as usize) * w;
        self.data[n]
    }
}

} // verus!
