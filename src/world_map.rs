use vstd::prelude::*;
use crate::level_map::{cell_index, in_grid};

verus! {

/// The content of one map cell.
pub type Cell = u8;

/// A box of cells placed at `position` in a larger map.
#[derive(Debug)]
pub struct MapChunk {
    position: (u32, u32, u32),
    size: (u32, u32, u32),
    data: Vec<Cell>,
}

proof fn lemma_index_in(size: (u32, u32, u32), x: int, y: int, z: int)
    requires
        in_grid(size, x, y, z),
    ensures
        0 <= cell_index(size, x, y, z) < size.0 * size.1 * size.2,
{
    let (w, h, d) = (size.0 as int, size.1 as int, size.2 as int);
    assert(0 <= x + y * w + z * w * h < w * h * d) by (nonlinear_arith)
        requires
            0 <= x < w,
            0 <= y < h,
            0 <= z < d,
    ;
}

proof fn lemma_index_unique(size: (u32, u32, u32), x: int, y: int, z: int, a: int, b: int, c: int)
    requires
        in_grid(size, x, y, z),
        in_grid(size, a, b, c),
        cell_index(size, x, y, z) == cell_index(size, a, b, c),
    ensures
        x == a && y == b && z == c,
{
    let (w, h) = (size.0 as int, size.1 as int);
    assert(x == a && y == b && z == c) by (nonlinear_arith)
        requires
            0 <= x < w,
            0 <= y < h,
            0 <= a < w,
            0 <= b < h,
            0 <= z,
            0 <= c,
            x + y * w + z * w * h == a + b * w + c * w * h,
    ;
}

impl MapChunk {
    pub closed spec fn spec_position(&self) -> (u32, u32, u32) {
        self.position
    }

    pub closed spec fn spec_size(&self) -> (u32, u32, u32) {
        self.size
    }

    pub closed spec fn cells(&self) -> Seq<Cell> {
        self.data@
    }

    pub open spec fn wf(&self) -> bool {
        &&& self.cells().len() == self.spec_size().0 * self.spec_size().1 * self.spec_size().2
        &&& self.spec_size().0 * self.spec_size().1 * self.spec_size().2 <= u32::MAX
    }

    /// The cell at chunk coordinates `(x, y, z)`.
    pub open spec fn spec_at(&self, x: int, y: int, z: int) -> Cell {
        self.cells()[cell_index(self.spec_size(), x, y, z)]
    }

    /// A chunk of the given size at the given position, every cell set to `v`.
    pub fn new(position: (u32, u32, u32), size: (u32, u32, u32), v: Cell) -> (c: Self)
        requires
            size.0 * size.1 <= u32::MAX,
            size.0 * size.1 * size.2 <= u32::MAX,
        ensures
            c.wf(),
            c.spec_position() == position,
            c.spec_size() == size,
            forall|i: int| 0 <= i < c.cells().len() ==> c.cells()[i] == v,
    {
        let n = size.0 * size.1 * size.2;
        let mut data: Vec<Cell> = Vec::new();
        let mut i: u32 = 0;
        while i < n
            invariant
                i <= n,
                data@.len() == i,
                forall|j: int| 0 <= j < i ==> data@[j] == v,
            decreases n - i,
        {
            data.push(v);
            i = i + 1;
        }
        MapChunk { position, size, data }
    }

    pub fn position(&self) -> (r: (u32, u32, u32))
        ensures
            r == self.spec_position(),
    {
        self.position
    }

    pub fn size(&self) -> (r: (u32, u32, u32))
        ensures
            r == self.spec_size(),
    {
        self.size
    }

    fn is_inside(&self, coords: (u32, u32, u32)) -> (r: bool)
        ensures
            r == in_grid(self.spec_size(), coords.0 as int, coords.1 as int, coords.2 as int),
    {
        let (sx, sy, sz) = self.size;
        coords.0 < sx && coords.1 < sy && coords.2 < sz
    }

    fn idx(&self, coords: (u32, u32, u32)) -> (r: usize)
        requires
            self.wf(),
            in_grid(self.spec_size(), coords.0 as int, coords.1 as int, coords.2 as int),
        ensures
            r as int == cell_index(self.spec_size(), coords.0 as int, coords.1 as int, coords.2 as int),
            r < self.cells().len(),
    {
        let (sx, sy, _) = self.size;
        proof {
            let (x, y, z) = (coords.0 as int, coords.1 as int, coords.2 as int);
            lemma_index_in(self.size, x, y, z);
            let (w, h) = (sx as int, sy as int);
            assert(0 <= y * w <= x + y * w + z * w * h) by (nonlinear_arith)
                requires 0 <= x, 0 <= y, 0 <= z, 0 <= w, 0 <= h;
            assert(0 <= z * w * h <= x + y * w + z * w * h) by (nonlinear_arith)
                requires 0 <= x, 0 <= y, 0 <= z, 0 <= w, 0 <= h;
            assert(0 <= z * w <= z * w * h || w * h == 0) by (nonlinear_arith)
                requires 0 <= z, 0 <= w, 0 <= h;
            assert(w * h == 0 ==> z * w * h == 0) by (nonlinear_arith);
        }
        (coords.0 + coords.1 * sx + coords.2 * sx * sy) as usize
    }

    /// The cell at chunk coordinates `coords`.
    pub fn get(&self, coords: (u32, u32, u32)) -> (r: Cell)
        requires
            self.wf(),
            in_grid(self.spec_size(), coords.0 as int, coords.1 as int, coords.2 as int),
        ensures
            r == self.spec_at(coords.0 as int, coords.1 as int, coords.2 as int),
    {
        let i = self.idx(coords);
        self.data[i]
    }

    /// Sets the cell at chunk coordinates `coords` to `v`.
    pub fn set(&mut self, coords: (u32, u32, u32), v: Cell)
        requires
            old(self).wf(),
            in_grid(old(self).spec_size(), coords.0 as int, coords.1 as int, coords.2 as int),
        ensures
            final(self).wf(),
            final(self).spec_size() == old(self).spec_size(),
            final(self).spec_position() == old(self).spec_position(),
            forall|x: int, y: int, z: int|
                in_grid(old(self).spec_size(), x, y, z) ==> #[trigger] final(self).spec_at(x, y, z)
                    == (if x == coords.0 && y == coords.1 && z == coords.2 {
                    v
                } else {
                    old(self).spec_at(x, y, z)
                }),
    {
        let i = self.idx(coords);
        let ghost before = *self;
        self.data.set(i, v);
        proof {
            assert forall|x: int, y: int, z: int| in_grid(before.size, x, y, z) implies #[trigger] self.spec_at(x, y, z) == (if x == coords.0 && y == coords.1 && z == coords.2 {
                v
            } else {
                before.spec_at(x, y, z)
            }) by {
                lemma_index_in(self.size, x, y, z);
                if cell_index(self.size, x, y, z) == i as int {
                    lemma_index_unique(
                        self.size,
                        x,
                        y,
                        z,
                        coords.0 as int,
                        coords.1 as int,
                        coords.2 as int,
                    );
                }
            }
        }
    }

    /// Sets every cell to `v`.
    pub fn fill(&mut self, v: Cell)
        requires
            old(self).wf(),
        ensures
            final(self).wf(),
            final(self).spec_size() == old(self).spec_size(),
            final(self).spec_position() == old(self).spec_position(),
            forall|i: int| 0 <= i < final(self).cells().len() ==> final(self).cells()[i] == v,
    {
        let n = self.data.len();
        let mut i: usize = 0;
        while i < n
            invariant
                i <= n,
                self.data@.len() == n,
                self.size == old(self).size,
                self.position == old(self).position,
                n == old(self).data@.len(),
                forall|j: int| 0 <= j < i ==> self.data@[j] == v,
            decreases n - i,
        {
            self.data.set(i, v);
            i = i + 1;
        }
    }
}

impl Clone for MapChunk {
    fn clone(&self) -> (r: Self)
        ensures
            r.spec_position() == self.spec_position(),
            r.spec_size() == self.spec_size(),
            r.cells() == self.cells(),
    {
        MapChunk { position: self.position, size: self.size, data: self.data.clone() }
    }
}

/// Map cell `(x, y, z)` lies inside chunk `c`.
pub open spec fn covers(c: MapChunk, x: int, y: int, z: int) -> bool {
    let (px, py, pz) = c.spec_position();
    in_grid(c.spec_size(), x - px, y - py, z - pz)
}

/// The value that chunk `c` holds for map cell `(x, y, z)`.
pub open spec fn chunk_value(c: MapChunk, x: int, y: int, z: int) -> Cell {
    let (px, py, pz) = c.spec_position();
    c.spec_at(x - px, y - py, z - pz)
}

/// Cell `(x, y, z)` of `base` once the chunks `pending` were laid over it in
/// order: the last chunk that covers the cell decides it.
pub open spec fn value_after(base: MapChunk, pending: Seq<MapChunk>, x: int, y: int, z: int) -> Cell
    decreases pending.len(),
{
    if pending.len() == 0 {
        base.spec_at(x, y, z)
    } else if covers(pending.last(), x, y, z) {
        chunk_value(pending.last(), x, y, z)
    } else {
        value_after(base, pending.drop_last(), x, y, z)
    }
}

/// `(x, y, z)` is covered by `c` and comes, in the order of `c`'s own cells,
/// before its cell `(i, j, k)`.
pub open spec fn copied_before(c: MapChunk, x: int, y: int, z: int, k: int, j: int, i: int) -> bool {
    let (px, py, pz) = c.spec_position();
    let (lx, ly, lz) = (x - px, y - py, z - pz);
    covers(c, x, y, z) && (lz < k || (lz == k && (ly < j || (ly == j && lx < i))))
}

/// Lays `src` over `dst`, clipped to `dst`.
fn copy_chunk(dst: &mut MapChunk, src: &MapChunk)
    requires
        old(dst).wf(),
        src.wf(),
    ensures
        final(dst).wf(),
        final(dst).spec_size() == old(dst).spec_size(),
        final(dst).spec_position() == old(dst).spec_position(),
        forall|x: int, y: int, z: int|
            in_grid(old(dst).spec_size(), x, y, z) ==> #[trigger] final(dst).spec_at(x, y, z) == (
            if covers(*src, x, y, z) {
                chunk_value(*src, x, y, z)
            } else {
                old(dst).spec_at(x, y, z)
            }),
{
    let ghost start = *dst;
    let (dw, dh, dd) = dst.size();
    let (px, py, pz) = src.position();
    let (sx, sy, sz) = src.size();
    let mut k: u32 = 0;
    while k < sz
        invariant
            dst.wf(),
            dst.spec_size() == start.spec_size(),
            dst.spec_position() == start.spec_position(),
            start.spec_size() == (dw, dh, dd),
            src.spec_size() == (sx, sy, sz),
            src.spec_position() == (px, py, pz),
            src.wf(),
            k <= sz,
            forall|x: int, y: int, z: int|
                in_grid(start.spec_size(), x, y, z) ==> #[trigger] dst.spec_at(x, y, z) == (
                if copied_before(*src, x, y, z, k as int, 0, 0) {
                    chunk_value(*src, x, y, z)
                } else {
                    start.spec_at(x, y, z)
                }),
        decreases sz - k,
    {
        let mut j: u32 = 0;
        while j < sy
            invariant
                dst.wf(),
                dst.spec_size() == start.spec_size(),
                dst.spec_position() == start.spec_position(),
                start.spec_size() == (dw, dh, dd),
                src.spec_size() == (sx, sy, sz),
                src.spec_position() == (px, py, pz),
                src.wf(),
                k < sz,
                j <= sy,
                forall|x: int, y: int, z: int|
                    in_grid(start.spec_size(), x, y, z) ==> #[trigger] dst.spec_at(x, y, z) == (
                    if copied_before(*src, x, y, z, k as int, j as int, 0) {
                        chunk_value(*src, x, y, z)
                    } else {
                        start.spec_at(x, y, z)
                    }),
            decreases sy - j,
        {
            let mut i: u32 = 0;
            while i < sx
                invariant
                    dst.wf(),
                    dst.spec_size() == start.spec_size(),
                    dst.spec_position() == start.spec_position(),
                    start.spec_size() == (dw, dh, dd),
                    src.spec_size() == (sx, sy, sz),
                    src.spec_position() == (px, py, pz),
                    src.wf(),
                    k < sz,
                    j < sy,
                    i <= sx,
                    forall|x: int, y: int, z: int|
                        in_grid(start.spec_size(), x, y, z) ==> #[trigger] dst.spec_at(x, y, z)
                            == (if copied_before(*src, x, y, z, k as int, j as int, i as int) {
                            chunk_value(*src, x, y, z)
                        } else {
                            start.spec_at(x, y, z)
                        }),
                decreases sx - i,
            {
                let ax = px as u64 + i as u64;
                let ay = py as u64 + j as u64;
                let az = pz as u64 + k as u64;
                if ax < dw as u64 && ay < dh as u64 && az < dd as u64 {
                    let v = src.get((i, j, k));
                    dst.set((ax as u32, ay as u32, az as u32), v);
                }
                i = i + 1;
            }
            j = j + 1;
        }
        k = k + 1;
    }
}

/// A map whose changes arrive as chunks: [`WorldMap::update`] queues a chunk
/// and [`WorldMap::apply_updates`] lays every queued chunk over the map.
pub struct WorldMap {
    chunk: MapChunk,
    pending: Vec<MapChunk>,
}

impl WorldMap {
    pub closed spec fn base(&self) -> MapChunk {
        self.chunk
    }

    /// The chunks queued and not yet applied, oldest first.
    pub closed spec fn pending(&self) -> Seq<MapChunk> {
        self.pending@
    }

    pub open spec fn wf(&self) -> bool {
        &&& self.base().wf()
        &&& forall|i: int| 0 <= i < self.pending().len() ==> (#[trigger] self.pending()[i]).wf()
    }

    pub open spec fn spec_size(&self) -> (u32, u32, u32) {
        self.base().spec_size()
    }

    /// The cell at `(x, y, z)`.
    pub open spec fn spec_at(&self, x: int, y: int, z: int) -> Cell {
        self.base().spec_at(x, y, z)
    }

    /// A map of the given size with every cell set to `v`.
    pub fn new(size: (u32, u32, u32), v: Cell) -> (m: Self)
        requires
            size.0 * size.1 <= u32::MAX,
            size.0 * size.1 * size.2 <= u32::MAX,
        ensures
            m.wf(),
            m.spec_size() == size,
            m.pending().len() == 0,
            forall|x: int, y: int, z: int| in_grid(size, x, y, z) ==> #[trigger] m.spec_at(x, y, z) == v,
    {
        let chunk = MapChunk::new((0, 0, 0), size, v);
        proof {
            assert forall|x: int, y: int, z: int| in_grid(size, x, y, z) implies #[trigger] chunk.spec_at(x, y, z) == v by {
                lemma_index_in(size, x, y, z);
            }
        }
        WorldMap { chunk, pending: Vec::new() }
    }

    /// Queues `chunk`; the map itself changes at the next [`WorldMap::apply_updates`].
    pub fn update(&mut self, chunk: MapChunk)
        requires
            old(self).wf(),
            chunk.wf(),
        ensures
            final(self).wf(),
            final(self).base() == old(self).base(),
            final(self).pending() == old(self).pending().push(chunk),
    {
        let ghost before = self.pending@;
        self.pending.push(chunk);
        proof {
            assert forall|i: int| 0 <= i < self.pending@.len() implies (#[trigger] self.pending@[i]).wf() by {
                if i < before.len() {
                    assert(self.pending@[i] == before[i]);
                    assert(old(self).pending()[i].wf());
                }
            }
        }
    }

    /// Lays every queued chunk over the map, oldest first, and empties the queue.
    /// Parts of a chunk that fall outside the map are left out.
    pub fn apply_updates(&mut self)
        requires
            old(self).wf(),
        ensures
            final(self).wf(),
            final(self).spec_size() == old(self).spec_size(),
            final(self).pending().len() == 0,
            forall|x: int, y: int, z: int|
                in_grid(old(self).spec_size(), x, y, z) ==> #[trigger] final(self).spec_at(x, y, z)
                    == value_after(old(self).base(), old(self).pending(), x, y, z),
    {
        let ghost base = self.chunk;
        let ghost queue = self.pending@;
        let n = self.pending.len();
        proof {
            assert forall|i: int| 0 <= i < queue.len() implies (#[trigger] queue[i]).wf() by {
                assert(old(self).pending()[i].wf());
            }
        }
        let mut q: usize = 0;
        while q < n
            invariant
                n == self.pending@.len(),
                self.pending@ == queue,
                q <= n,
                self.chunk.wf(),
                self.chunk.spec_size() == base.spec_size(),
                forall|i: int| 0 <= i < queue.len() ==> (#[trigger] queue[i]).wf(),
                forall|x: int, y: int, z: int|
                    in_grid(base.spec_size(), x, y, z) ==> #[trigger] self.chunk.spec_at(x, y, z)
                        == value_after(base, queue.subrange(0, q as int), x, y, z),
            decreases n - q,
        {
            copy_chunk(&mut self.chunk, &self.pending[q]);
            proof {
                let done = queue.subrange(0, q + 1);
                assert(done.drop_last() =~= queue.subrange(0, q as int));
                assert(done.last() == queue[q as int]);
            }
            q = q + 1;
        }
        proof {
            assert(queue.subrange(0, n as int) =~= queue);
        }
        self.pending = Vec::new();
    }

    /// The cell at `coords`.
    pub fn get(&self, coords: (u32, u32, u32)) -> (r: Cell)
        requires
            self.wf(),
            in_grid(self.spec_size(), coords.0 as int, coords.1 as int, coords.2 as int),
        ensures
            r == self.spec_at(coords.0 as int, coords.1 as int, coords.2 as int),
    {
        self.chunk.get(coords)
    }

    /// Sets the cell at `coords` to `v`.
    pub fn set(&mut self, coords: (u32, u32, u32), v: Cell)
        requires
            old(self).wf(),
            in_grid(old(self).spec_size(), coords.0 as int, coords.1 as int, coords.2 as int),
        ensures
            final(self).wf(),
            final(self).spec_size() == old(self).spec_size(),
            final(self).pending() == old(self).pending(),
            forall|x: int, y: int, z: int|
                in_grid(old(self).spec_size(), x, y, z) ==> #[trigger] final(self).spec_at(x, y, z)
                    == (if x == coords.0 && y == coords.1 && z == coords.2 {
                    v
                } else {
                    old(self).spec_at(x, y, z)
                }),
    {
        self.chunk.set(coords, v);
        proof {
            assert forall|i: int| 0 <= i < self.pending().len() implies (#[trigger] self.pending()[i]).wf() by {
                assert(old(self).pending()[i].wf());
            }
        }
    }

    pub fn size(&self) -> (r: (u32, u32, u32))
        ensures
            r == self.spec_size(),
    {
        self.chunk.size()
    }
}

} // verus!
