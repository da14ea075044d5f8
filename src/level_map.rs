use vstd::prelude::*;
use rand::Rng;

verus! {

/// Relies on rand::thread_rng and rand::Rng::gen_range: a value drawn from
/// `[low, high)`; gen_range panics when `low >= high`.
#[verifier::external_body]
fn random_below(low: u32, high: u32) -> (r: u32)
    requires
        low < high,
    ensures
        low <= r < high,
{
    rand::thread_rng().gen_range(low, high)
}

/// A grid of `width * height * levels` cells, stored level by level, row by row.
pub struct LevelMap<T: Copy> {
    size: (u32, u32, u32),
    data: Vec<T>,
}

/// The index of cell `(x, y, level)` in a grid of the given size.
pub open spec fn cell_index(size: (u32, u32, u32), x: int, y: int, level: int) -> int {
    x + y * size.0 + level * size.0 * size.1
}

/// `(x, y, level)` lies in a grid of the given size.
pub open spec fn in_grid(size: (u32, u32, u32), x: int, y: int, level: int) -> bool {
    0 <= x < size.0 && 0 <= y < size.1 && 0 <= level < size.2
}

proof fn lemma_index_bound(size: (u32, u32, u32), x: int, y: int, level: int)
    requires
        in_grid(size, x, y, level),
    ensures
        0 <= cell_index(size, x, y, level) < size.0 * size.1 * size.2,
{
    let (w, h, l) = (size.0 as int, size.1 as int, size.2 as int);
    assert(0 <= x + y * w + level * w * h < w * h * l) by (nonlinear_arith)
        requires
            0 <= x < w,
            0 <= y < h,
            0 <= level < l,
    ;
}

impl<T: Copy> LevelMap<T> {
    pub closed spec fn spec_size(&self) -> (u32, u32, u32) {
        self.size
    }

    /// The cells, indexed by [`cell_index`].
    pub closed spec fn cells(&self) -> Seq<T> {
        self.data@
    }

    pub open spec fn wf(&self) -> bool {
        self.cells().len() == self.spec_size().0 * self.spec_size().1 * self.spec_size().2
            && self.spec_size().0 * self.spec_size().1 * self.spec_size().2 <= u32::MAX
    }

    /// The cell at `(x, y, level)`.
    pub open spec fn spec_at(&self, x: int, y: int, level: int) -> T {
        self.cells()[cell_index(self.spec_size(), x, y, level)]
    }

    /// A single-level grid with every cell set to `v`.
    pub fn new(width: u32, height: u32, v: T) -> (m: Self)
        requires
            width * height <= u32::MAX,
        ensures
            m.wf(),
            m.spec_size() == (width, height, 1u32),
            forall|i: int| 0 <= i < m.cells().len() ==> m.cells()[i] == v,
    {
        let levels: u32 = 1;
        let n = width * height * levels;
        let mut data: Vec<T> = Vec::new();
        let mut i: u32 = 0;
        while i < n
            invariant
                i <= n,
                data@.len() == i,
                forall|j: int| 0 <= j < i ==> data@[j] == v,
            decreases n - i,
        {
            data.push(v);
            i = i + 1;
        }
        LevelMap { size: (width, height, levels), data }
    }

    fn idx(&self, x: u32, y: u32, level: u32) -> (r: usize)
        requires
            self.wf(),
            in_grid(self.spec_size(), x as int, y as int, level as int),
        ensures
            r as int == cell_index(self.spec_size(), x as int, y as int, level as int),
            r < self.cells().len(),
    {
        let (dx, dy, _) = self.size;
        proof {
            lemma_index_bound(self.size, x as int, y as int, level as int);
            let (w, h) = (dx as int, dy as int);
            assert(y * w <= x + y * w + level * w * h) by (nonlinear_arith)
                requires 0 <= x, 0 <= y, 0 <= level, 0 <= w, 0 <= h;
            assert(0 <= level * w * h <= x + y * w + level * w * h) by (nonlinear_arith)
                requires 0 <= x, 0 <= y, 0 <= level, 0 <= w, 0 <= h;
            assert(0 <= level * w <= level * w * h || w * h == 0) by (nonlinear_arith)
                requires 0 <= level, 0 <= w, 0 <= h;
        }
        (x + y * dx + level * dx * dy) as usize
    }

    pub fn get_at(&self, x: u32, y: u32, level: u32) -> (r: &T)
        requires
            self.wf(),
            in_grid(self.spec_size(), x as int, y as int, level as int),
        ensures
            *r == self.spec_at(x as int, y as int, level as int),
    {
        let i = self.idx(x, y, level);
        &self.data[i]
    }

    /// Sets the cell at `(x, y, level)` to `v`.
    pub fn set_at(&mut self, x: u32, y: u32, level: u32, v: T)
        requires
            old(self).wf(),
            in_grid(old(self).spec_size(), x as int, y as int, level as int),
        ensures
            final(self).wf(),
            final(self).spec_size() == old(self).spec_size(),
            final(self).cells() == old(self).cells().update(
                cell_index(old(self).spec_size(), x as int, y as int, level as int),
                v,
            ),
    {
        let i = self.idx(x, y, level);
        self.data.set(i, v);
    }

    /// Sets every cell to `v`.
    pub fn fill(&mut self, v: T)
        requires
            old(self).wf(),
        ensures
            final(self).wf(),
            final(self).spec_size() == old(self).spec_size(),
            forall|i: int| 0 <= i < final(self).cells().len() ==> final(self).cells()[i] == v,
    {
        let n = self.data.len();
        let mut i: usize = 0;
        while i < n
            invariant
                i <= n,
                self.data@.len() == n,
                self.size == old(self).size,
                n == old(self).data@.len(),
                forall|j: int| 0 <= j < i ==> self.data@[j] == v,
            decreases n - i,
        {
            self.data.set(i, v);
            i = i + 1;
        }
    }

    pub fn size(&self) -> (r: (u32, u32, u32))
        ensures
            r == self.spec_size(),
    {
        self.size
    }

    /// Whether the map holds exactly one value per cell.
    pub fn is_wf(&self) -> (r: bool)
        ensures
            r == self.wf(),
    {
        let (w, h, l) = self.size;
        proof {
            assert(w * h <= u32::MAX * u32::MAX) by (nonlinear_arith)
                requires w <= u32::MAX, h <= u32::MAX;
            assert(w * h * l <= u32::MAX * u32::MAX * u32::MAX) by (nonlinear_arith)
                requires w * h <= u32::MAX * u32::MAX, l <= u32::MAX, 0 <= w * h;
        }
        let n = (w as u128) * (h as u128) * (l as u128);
        n <= u32::MAX as u128 && self.data.len() as u128 == n
    }
}

/// Every cell is `wall` or `nothing`, and the levels above the first are all `nothing`.
pub open spec fn walls_only<T>(cells: Seq<T>, plane: int, wall: T, nothing: T) -> bool {
    &&& forall|i: int| 0 <= i < cells.len() ==> #[trigger] cells[i] == wall || cells[i] == nothing
    &&& forall|i: int| plane <= i < cells.len() ==> #[trigger] cells[i] == nothing
}

/// The first level is walled in along its four edges.
pub open spec fn walled_in<T: Copy>(m: LevelMap<T>, wall: T) -> bool {
    let (w, h, _) = m.spec_size();
    &&& forall|x: int| 0 <= x < w ==> #[trigger] m.spec_at(x, 0, 0) == wall
    &&& forall|x: int| 0 <= x < w ==> #[trigger] m.spec_at(x, h - 1, 0) == wall
    &&& forall|y: int| 0 <= y < h ==> #[trigger] m.spec_at(0, y, 0) == wall
    &&& forall|y: int| 0 <= y < h ==> #[trigger] m.spec_at(w - 1, y, 0) == wall
}

proof fn lemma_plane_index(size: (u32, u32, u32), x: int, y: int)
    requires
        0 <= x < size.0,
        0 <= y < size.1,
        size.2 >= 1,
    ensures
        0 <= cell_index(size, x, y, 0) < size.0 * size.1,
        size.0 * size.1 <= size.0 * size.1 * size.2,
{
    let (w, h, l) = (size.0 as int, size.1 as int, size.2 as int);
    assert(0 <= x + y * w + 0 * w * h < w * h) by (nonlinear_arith)
        requires
            0 <= x < w,
            0 <= y < h,
    ;
    assert(w * h <= w * h * l) by (nonlinear_arith)
        requires
            0 <= w,
            0 <= h,
            l >= 1,
    ;
}

impl<T: Copy> LevelMap<T> {
    /// Sets the first level's cell `(x, y)` to `wall`, keeping the shape of the map.
    fn put_wall(&mut self, x: u32, y: u32, wall: T, nothing: T)
        requires
            old(self).wf(),
            old(self).spec_size().2 >= 1,
            x < old(self).spec_size().0,
            y < old(self).spec_size().1,
            walls_only(
                old(self).cells(),
                old(self).spec_size().0 * old(self).spec_size().1,
                wall,
                nothing,
            ),
        ensures
            final(self).wf(),
            final(self).spec_size() == old(self).spec_size(),
            final(self).spec_at(x as int, y as int, 0) == wall,
            walls_only(
                final(self).cells(),
                final(self).spec_size().0 * final(self).spec_size().1,
                wall,
                nothing,
            ),
            forall|a: int, b: int|
                0 <= a < old(self).spec_size().0 && 0 <= b < old(self).spec_size().1 && old(
                    self,
                ).spec_at(a, b, 0) == wall ==> #[trigger] final(self).spec_at(a, b, 0) == wall,
    {
        proof {
            lemma_plane_index(self.size, x as int, y as int);
        }
        let ghost before = *self;
        self.set_at(x, y, 0, wall);
        proof {
            assert forall|a: int, b: int|
                0 <= a < before.size.0 && 0 <= b < before.size.1 && before.spec_at(a, b, 0)
                    == wall implies #[trigger] self.spec_at(a, b, 0) == wall by {
                lemma_plane_index(self.size, a, b);
            }
        }
    }

    /// Clears the map to `nothing`, walls in the first level's edges, and puts
    /// a hundred random blocks of wall, two to four cells on a side, inside it.
    pub fn randomize(&mut self, wall: T, nothing: T)
        requires
            old(self).wf(),
            old(self).spec_size().0 >= 3,
            old(self).spec_size().1 >= 3,
            old(self).spec_size().2 >= 1,
        ensures
            final(self).wf(),
            final(self).spec_size() == old(self).spec_size(),
            walls_only(
                final(self).cells(),
                final(self).spec_size().0 * final(self).spec_size().1,
                wall,
                nothing,
            ),
            walled_in(*final(self), wall),
    {
        let (mw, mh, _) = self.size();
        let ghost plane = mw * mh;
        proof {
            let l = self.size.2 as int;
            assert(mw * mh <= u32::MAX) by (nonlinear_arith)
                requires mw * mh * l <= u32::MAX, l >= 1, mw >= 0, mh >= 0;
            assert(mh <= u32::MAX / 3 && mw <= u32::MAX / 3) by (nonlinear_arith)
                requires mw * mh <= u32::MAX, mw >= 3, mh >= 3;
        }
        self.fill(nothing);
        let mut x: u32 = 0;
        while x < mw
            invariant
                self.wf(),
                self.spec_size() == old(self).spec_size(),
                self.spec_size().0 == mw && self.spec_size().1 == mh && self.spec_size().2 >= 1,
                mw >= 3 && mh >= 3,
                x <= mw,
                walls_only(self.cells(), plane, wall, nothing),
                plane == mw * mh,
                forall|i: int| 0 <= i < x ==> #[trigger] self.spec_at(i, 0, 0) == wall,
                forall|i: int| 0 <= i < x ==> #[trigger] self.spec_at(i, mh - 1, 0) == wall,
            decreases mw - x,
        {
            self.put_wall(x, 0, wall, nothing);
            self.put_wall(x, mh - 1, wall, nothing);
            x = x + 1;
        }
        let mut y: u32 = 0;
        while y < mh
            invariant
                self.wf(),
                self.spec_size() == old(self).spec_size(),
                self.spec_size().0 == mw && self.spec_size().1 == mh && self.spec_size().2 >= 1,
                mw >= 3 && mh >= 3,
                y <= mh,
                walls_only(self.cells(), plane, wall, nothing),
                plane == mw * mh,
                forall|i: int| 0 <= i < mw ==> #[trigger] self.spec_at(i, 0, 0) == wall,
                forall|i: int| 0 <= i < mw ==> #[trigger] self.spec_at(i, mh - 1, 0) == wall,
                forall|j: int| 0 <= j < y ==> #[trigger] self.spec_at(0, j, 0) == wall,
                forall|j: int| 0 <= j < y ==> #[trigger] self.spec_at(mw - 1, j, 0) == wall,
            decreases mh - y,
        {
            self.put_wall(0, y, wall, nothing);
            self.put_wall(mw - 1, y, wall, nothing);
            y = y + 1;
        }
        let count: u32 = 100;
        let mut n: u32 = 0;
        while n < count
            invariant
                self.wf(),
                self.spec_size() == old(self).spec_size(),
                self.spec_size().0 == mw && self.spec_size().1 == mh && self.spec_size().2 >= 1,
                mw >= 3 && mh >= 3,
                mw <= u32::MAX / 3 && mh <= u32::MAX / 3,
                walls_only(self.cells(), plane, wall, nothing),
                plane == mw * mh,
                walled_in(*self, wall),
            decreases count - n,
        {
            let bx = random_below(1, mw - 1);
            let by = random_below(1, mh - 1);
            let bw = random_below(2, 5);
            let bh = random_below(2, 5);
            let mut j = by;
            while j < by + bh
                invariant
                    self.wf(),
                    self.spec_size() == old(self).spec_size(),
                    self.spec_size().0 == mw && self.spec_size().1 == mh && self.spec_size().2 >= 1,
                    mw >= 3 && mh >= 3,
                    by < mh && bh < 5 && bx < mw && bw < 5,
                    mw <= u32::MAX / 3 && mh <= u32::MAX / 3,
                    walls_only(self.cells(), plane, wall, nothing),
                    plane == mw * mh,
                    walled_in(*self, wall),
                decreases by + bh - j,
            {
                let mut i = bx;
                while i < bx + bw
                    invariant
                        self.wf(),
                        self.spec_size() == old(self).spec_size(),
                        self.spec_size().0 == mw && self.spec_size().1 == mh && self.spec_size().2 >= 1,
                        mw >= 3 && mh >= 3,
                        by < mh && bh < 5 && bx < mw && bw < 5,
                        mw <= u32::MAX / 3 && mh <= u32::MAX / 3,
                        walls_only(self.cells(), plane, wall, nothing),
                        plane == mw * mh,
                        walled_in(*self, wall),
                    decreases bx + bw - i,
                {
                    if i < mw && j < mh {
                        self.put_wall(i, j, wall, nothing);
                    }
                    i = i + 1;
                }
                j = j + 1;
            }
            n = n + 1;
        }
    }
}

} // verus!
