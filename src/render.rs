use vstd::prelude::*;
use vstd::view::View as _;
use crate::level_map::{cell_index, in_grid};
use crate::world_map::{Cell, WorldMap};
use crate::components::{Position, Visible};

verus! {

/// Something drawn over a tile's ground.
#[derive(Clone, Copy, Debug, PartialEq, Eq, Structural)]
pub enum Effect {
    /// Light reaching the tile, in millionths of full light.
    Lit(u64),
    /// A mark left by a visible entity standing on the tile.
    Marked(u8),
}

/// A rendered cell: its ground and the effects drawn over it, oldest first.
#[derive(Debug)]
pub struct Tile {
    pub ground: Cell,
    pub effects: Option<Vec<Effect>>,
}

/// The effects of a tile, none where it has no list.
pub open spec fn effects_of(t: &Tile) -> Seq<Effect> {
    match &t.effects {
        Some(v) => v@,
        None => Seq::empty(),
    }
}

impl Tile {
    pub fn new(ground: Cell) -> (t: Self)
        ensures
            t.ground == ground,
            t.effects.is_none(),
    {
        Tile { ground, effects: None }
    }

    /// Appends `e` to the tile's effects.
    pub fn add_effect(&mut self, e: Effect)
        ensures
            final(self).ground == old(self).ground,
            final(self).effects.is_some(),
            effects_of(final(self)) == effects_of(old(self)).push(e),
    {
        if self.effects.is_none() {
            self.effects = Some(Vec::new());
        }
        match &mut self.effects {
            Some(v) => v.push(e),
            None => {},
        }
    }
}

/// The position after `p` in a walk over a grid of the given size, row by
/// row, level by level.
pub open spec fn step_position(p: (u32, u32, u32), size: (u32, u32, u32)) -> (u32, u32, u32) {
    if p.0 + 1 < size.0 {
        ((p.0 + 1) as u32, p.1, p.2)
    } else if p.1 + 1 < size.1 {
        (0, (p.1 + 1) as u32, p.2)
    } else {
        (0, 0, (p.2 + 1) as u32)
    }
}

/// Walks tiles stored row by row, level by level, with their coordinates.
pub struct TilesIter<'a> {
    position: (u32, u32, u32),
    size: (u32, u32, u32),
    tiles: &'a Vec<Tile>,
    index: usize,
}

impl<'a> TilesIter<'a> {
    #[verifier::type_invariant]
    closed spec fn inv(self) -> bool {
        &&& self.index <= self.tiles@.len() <= u32::MAX
        &&& self.position.2 <= self.index
        &&& (self.position.0 < self.size.0 || self.position.0 == 0)
        &&& (self.position.1 < self.size.1 || self.position.1 == 0)
    }

    /// The coordinates of the next tile.
    pub closed spec fn spec_position(self) -> (u32, u32, u32) {
        self.position
    }

    pub closed spec fn spec_size(self) -> (u32, u32, u32) {
        self.size
    }

    pub closed spec fn spec_tiles(self) -> Seq<Tile> {
        self.tiles@
    }

    pub closed spec fn spec_index(self) -> int {
        self.index as int
    }

    pub fn new(size: (u32, u32, u32), tiles: &'a Vec<Tile>) -> (it: Self)
        requires
            tiles@.len() <= u32::MAX,
        ensures
            it.spec_position() == (0u32, 0u32, 0u32),
            it.spec_size() == size,
            it.spec_tiles() == tiles@,
            it.spec_index() == 0,
    {
        TilesIter { position: (0, 0, 0), size, tiles, index: 0 }
    }

    /// The next tile with its coordinates `(x, y, z)`.
    pub fn next(&mut self) -> (r: Option<(u32, u32, u32, &'a Tile)>)
        ensures
            final(self).spec_size() == old(self).spec_size(),
            final(self).spec_tiles() == old(self).spec_tiles(),
            old(self).spec_index() < old(self).spec_tiles().len() ==> {
                let p = old(self).spec_position();
                &&& r matches Some(t) && (t.0, t.1, t.2) == p && *t.3 == old(self).spec_tiles()[old(self).spec_index()]
                &&& final(self).spec_index() == old(self).spec_index() + 1
                &&& final(self).spec_position() == step_position(p, old(self).spec_size())
            },
            old(self).spec_index() >= old(self).spec_tiles().len() ==> r.is_none()
                && final(self).spec_index() == old(self).spec_index(),
    {
        proof {
            use_type_invariant(&*self);
        }
        if self.index >= self.tiles.len() {
            return None;
        }
        let t: &'a Tile = &self.tiles[self.index];
        let (x, y, z) = self.position;
        let (w, h, _) = self.size;
        let next = if x + 1 < w {
            (x + 1, y, z)
        } else if y + 1 < h {
            (0, y + 1, z)
        } else {
            (0, 0, z + 1)
        };
        *self = TilesIter { position: next, size: self.size, tiles: self.tiles, index: self.index + 1 };
        Some((x, y, z, t))
    }
}

/// The part of the world to render: a box at `position` of the given size.
#[derive(Clone, Copy, Debug)]
pub struct View {
    pub position: (u32, u32, u32),
    pub size: (u32, u32, u32),
}

impl Default for View {
    fn default() -> (v: Self)
        ensures
            v == (View { position: (0, 0, 0), size: (10, 10, 1) }),
    {
        View { position: (0, 0, 0), size: (10, 10, 1) }
    }
}

/// A rendered box of the world, row by row, level by level.
pub struct RenderedView {
    size: (u32, u32, u32),
    tiles: Vec<Tile>,
}

impl RenderedView {
    pub closed spec fn spec_size(&self) -> (u32, u32, u32) {
        self.size
    }

    pub closed spec fn spec_tiles(&self) -> Seq<Tile> {
        self.tiles@
    }

    /// Walks the tiles with their coordinates inside the view.
    pub fn iter(&self) -> (it: TilesIter<'_>)
        requires
            self.spec_tiles().len() <= u32::MAX,
        ensures
            it.spec_position() == (0u32, 0u32, 0u32),
            it.spec_size() == self.spec_size(),
            it.spec_tiles() == self.spec_tiles(),
            it.spec_index() == 0,
    {
        TilesIter::new(self.size, &self.tiles)
    }

    pub fn size(&self) -> (r: (u32, u32, u32))
        ensures
            r == self.spec_size(),
    {
        self.size
    }

    /// The tile at `(x, y, z)` inside the view.
    pub fn get(&self, x: u32, y: u32, z: u32) -> (t: &Tile)
        requires
            self.spec_tiles().len() == self.spec_size().0 * self.spec_size().1 * self.spec_size().2,
            in_grid(self.spec_size(), x as int, y as int, z as int),
        ensures
            *t == self.spec_tiles()[cell_index(self.spec_size(), x as int, y as int, z as int)],
    {
        let (w, h, d) = self.size;
        let len = self.tiles.len();
        proof {
            let (x, y, z, w, h, d) = (x as int, y as int, z as int, w as int, h as int, d as int);
            assert(0 <= y * w && 0 <= z * w <= z * w * h && x + y * w + z * w * h < w * h * d) by (nonlinear_arith)
                requires 0 <= x < w, 0 <= y < h, 0 <= z < d;
        }
        let n = x as usize + (y as usize) * (w as usize) + (z as usize) * (w as usize) * (h as usize);
        &self.tiles[n]
    }
}

/// The marks that the entities `marks` leave on map cell `(x, y, z)`, in order.
pub open spec fn marks_at(marks: Seq<(Position, Visible)>, x: int, y: int, z: int) -> Seq<Effect>
    decreases marks.len(),
{
    if marks.len() == 0 {
        Seq::empty()
    } else {
        let (p, v) = marks.last();
        let before = marks_at(marks.drop_last(), x, y, z);
        if p.x == x && p.y == y && p.z == z {
            before.push(Effect::Marked(v.mark))
        } else {
            before
        }
    }
}

/// One axis of a view clipped to a map: its start and its length.
pub open spec fn clip(start: u32, len: u32, limit: u32) -> u32 {
    let end = if start + len < limit { start + len } else { limit as int };
    if end > start {
        (end - start) as u32
    } else {
        0
    }
}

/// The size of `view` clipped to a map of size `map_size`.
pub open spec fn clipped_size(view: View, map_size: (u32, u32, u32)) -> (u32, u32, u32) {
    (
        clip(view.position.0, view.size.0, map_size.0),
        clip(view.position.1, view.size.1, map_size.1),
        clip(view.position.2, view.size.2, map_size.2),
    )
}

/// The tile for map cell `(x, y, z)`: its ground and the marks of the entities on it.
fn render_tile(map: &WorldMap, x: u32, y: u32, z: u32, marks: &Vec<(Position, Visible)>) -> (t: Tile)
    requires
        map.wf(),
        in_grid(map.spec_size(), x as int, y as int, z as int),
    ensures
        t.ground == map.spec_at(x as int, y as int, z as int),
        effects_of(&t) == marks_at(marks@, x as int, y as int, z as int),
{
    let mut t = Tile::new(map.get((x, y, z)));
    let mut q: usize = 0;
    while q < marks.len()
        invariant
            q <= marks@.len(),
            t.ground == map.spec_at(x as int, y as int, z as int),
            effects_of(&t) == marks_at(marks@.subrange(0, q as int), x as int, y as int, z as int),
        decreases marks@.len() - q,
    {
        let (p, v) = marks[q];
        proof {
            assert(marks@.subrange(0, q + 1).drop_last() =~= marks@.subrange(0, q as int));
        }
        if p.x == x && p.y == y && p.z == z {
            t.add_effect(Effect::Marked(v.mark));
        }
        q = q + 1;
    }
    proof {
        assert(marks@.subrange(0, marks@.len() as int) =~= marks@);
    }
    t
}

/// `(a, b, c)` comes before `(i, j, k)` in row-by-row, level-by-level order.
pub open spec fn earlier(a: int, b: int, c: int, i: int, j: int, k: int) -> bool {
    c < k || (c == k && (b < j || (b == j && a < i)))
}

/// Renders the part of `map` under `view`, clipped to the map, with the marks
/// of the visible entities `marks`.
pub fn render_view(map: &WorldMap, view: &View, marks: &Vec<(Position, Visible)>) -> (r: RenderedView)
    requires
        map.wf(),
    ensures
        r.spec_size() == clipped_size(*view, map.spec_size()),
        r.spec_tiles().len() == r.spec_size().0 * r.spec_size().1 * r.spec_size().2,
        forall|i: int, j: int, k: int|
            in_grid(r.spec_size(), i, j, k) ==> {
                let t = #[trigger] r.spec_tiles()[cell_index(r.spec_size(), i, j, k)];
                let (x, y, z) = (view.position.0 + i, view.position.1 + j, view.position.2 + k);
                &&& t.ground == map.spec_at(x, y, z)
                &&& effects_of(&t) == marks_at(marks@, x, y, z)
            },
{
    let (mx, my, mz) = map.size();
    let (sx, sy, sz) = view.position;
    let (vx, vy, vz) = view.size;
    let w: u32 = if (sx as u64) + (vx as u64) < mx as u64 { sx + vx } else { mx };
    let w: u32 = if w > sx { w - sx } else { 0 };
    let h: u32 = if (sy as u64) + (vy as u64) < my as u64 { sy + vy } else { my };
    let h: u32 = if h > sy { h - sy } else { 0 };
    let d: u32 = if (sz as u64) + (vz as u64) < mz as u64 { sz + vz } else { mz };
    let d: u32 = if d > sz { d - sz } else { 0 };
    let ghost size = (w, h, d);
    assert(size == clipped_size(*view, map.spec_size()));
    let mut tiles: Vec<Tile> = Vec::new();
    let mut k: u32 = 0;
    while k < d
        invariant
            map.wf(),
            size == (w, h, d),
            map.spec_size() == (mx, my, mz),
            view.position == (sx, sy, sz),
            (w == 0 || sx + w <= mx) && (h == 0 || sy + h <= my) && (d == 0 || sz + d <= mz),
            k <= d,
            tiles@.len() == k * (w * h),
            forall|a: int, b: int, c: int|
                in_grid(size, a, b, c) && earlier(a, b, c, 0, 0, k as int) ==> {
                    let t = #[trigger] tiles@[cell_index(size, a, b, c)];
                    &&& cell_index(size, a, b, c) < tiles@.len()
                    &&& t.ground == map.spec_at(sx + a, sy + b, sz + c)
                    &&& effects_of(&t) == marks_at(marks@, sx + a, sy + b, sz + c)
                },
        decreases d - k,
    {
        let mut j: u32 = 0;
        while j < h
            invariant
                map.wf(),
                size == (w, h, d),
                map.spec_size() == (mx, my, mz),
                view.position == (sx, sy, sz),
                (w == 0 || sx + w <= mx) && (h == 0 || sy + h <= my) && (d == 0 || sz + d <= mz),
                k < d,
                j <= h,
                tiles@.len() == k * (w * h) + j * w,
                forall|a: int, b: int, c: int|
                    in_grid(size, a, b, c) && earlier(a, b, c, 0, j as int, k as int) ==> {
                        let t = #[trigger] tiles@[cell_index(size, a, b, c)];
                        &&& cell_index(size, a, b, c) < tiles@.len()
                        &&& t.ground == map.spec_at(sx + a, sy + b, sz + c)
                        &&& effects_of(&t) == marks_at(marks@, sx + a, sy + b, sz + c)
                    },
            decreases h - j,
        {
            let mut i: u32 = 0;
            while i < w
                invariant
                    map.wf(),
                    size == (w, h, d),
                    map.spec_size() == (mx, my, mz),
                    view.position == (sx, sy, sz),
                    (w == 0 || sx + w <= mx) && (h == 0 || sy + h <= my) && (d == 0 || sz + d <= mz),
                    k < d,
                    j < h,
                    i <= w,
                    tiles@.len() == k * (w * h) + j * w + i,
                    forall|a: int, b: int, c: int|
                        in_grid(size, a, b, c) && earlier(a, b, c, i as int, j as int, k as int) ==> {
                            let t = #[trigger] tiles@[cell_index(size, a, b, c)];
                            &&& cell_index(size, a, b, c) < tiles@.len()
                            &&& t.ground == map.spec_at(sx + a, sy + b, sz + c)
                            &&& effects_of(&t) == marks_at(marks@, sx + a, sy + b, sz + c)
                        },
                decreases w - i,
            {
                let t = render_tile(map, sx + i, sy + j, sz + k, marks);
                proof {
                    assert(cell_index(size, i as int, j as int, k as int) == tiles@.len()) by (nonlinear_arith)
                        requires
                            tiles@.len() == k * (w * h) + j * w + i,
                            size == (w, h, d);
                }
                let ghost before = tiles@;
                tiles.push(t);
                proof {
                    assert forall|a: int, b: int, c: int|
                        in_grid(size, a, b, c) && earlier(a, b, c, i + 1, j as int, k as int) implies {
                            let t = #[trigger] tiles@[cell_index(size, a, b, c)];
                            &&& cell_index(size, a, b, c) < tiles@.len()
                            &&& t.ground == map.spec_at(sx + a, sy + b, sz + c)
                            &&& effects_of(&t) == marks_at(marks@, sx + a, sy + b, sz + c)
                        } by {
                        if earlier(a, b, c, i as int, j as int, k as int) {
                            assert(tiles@[cell_index(size, a, b, c)] == before[cell_index(size, a, b, c)]);
                        } else {
                            assert(a == i && b == j && c == k);
                        }
                    }
                }
                i = i + 1;
            }
            proof {
                assert(k * (w * h) + (j + 1) * w == k * (w * h) + j * w + w) by (nonlinear_arith);
            }
            j = j + 1;
        }
        proof {
            assert((k + 1) * (w * h) == k * (w * h) + h * w) by (nonlinear_arith);
        }
        k = k + 1;
    }
    proof {
        assert(d * (w * h) == w * h * d) by (nonlinear_arith);
    }
    RenderedView { size: (w, h, d), tiles }
}

/// Keeps the view to render and the last rendering of it.
pub struct RenderingSystem {
    view: View,
    render: Option<RenderedView>,
}

impl RenderingSystem {
    pub closed spec fn spec_view(&self) -> View {
        self.view
    }

    pub closed spec fn spec_render(&self) -> Option<RenderedView> {
        self.render
    }

    pub fn new(render: Option<RenderedView>, view: View) -> (s: Self)
        ensures
            s.spec_view() == view,
            s.spec_render() == render,
    {
        RenderingSystem { view, render }
    }

    pub fn last_rendered_view(&self) -> (r: &Option<RenderedView>)
        ensures
            *r == self.spec_render(),
    {
        &self.render
    }

    /// Renders the view anew from `map` and the visible entities `marks`.
    pub fn run(&mut self, map: &WorldMap, marks: &Vec<(Position, Visible)>)
        requires
            map.wf(),
        ensures
            final(self).spec_view() == old(self).spec_view(),
            final(self).spec_render() matches Some(r) && r.spec_size() == clipped_size(
                old(self).spec_view(),
                map.spec_size(),
            ) && r.spec_tiles().len() == r.spec_size().0 * r.spec_size().1 * r.spec_size().2
                && forall|i: int, j: int, k: int|
                in_grid(r.spec_size(), i, j, k) ==> {
                    let t = #[trigger] r.spec_tiles()[cell_index(r.spec_size(), i, j, k)];
                    let p = old(self).spec_view().position;
                    &&& t.ground == map.spec_at(p.0 + i, p.1 + j, p.2 + k)
                    &&& effects_of(&t) == marks_at(marks@, p.0 + i, p.1 + j, p.2 + k)
                },
    {
        let r = render_view(map, &self.view, marks);
        self.render = Some(r);
    }
}

} // verus!
