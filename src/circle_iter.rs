use vstd::prelude::*;

verus! {

/// The slack, in hundredths of a cell, that lets cells slightly outside the
/// disc of the walk's radius take part, which rounds the visible area.
pub const PERMISSIVE_HUNDREDTHS: u64 = 33;

/// A non-negative fraction `num / den` with `den > 0`, used for the angular
/// position of a cell inside its ring.
#[derive(Clone, Copy, Debug, PartialEq, Eq, Structural)]
pub struct Angle {
    pub num: u64,
    pub den: u64,
}

impl Angle {
    /// `self <= other` as fractions.
    pub open spec fn le(self, other: Angle) -> bool {
        (self.num as int) * (other.den as int) <= (other.num as int) * (self.den as int)
    }

    pub fn le_exec(&self, other: &Angle) -> (r: bool)
        ensures
            r == self.le(*other),
    {
        proof {
            let (a, b, c, d) = (self.num as int, other.den as int, other.num as int, self.den as int);
            assert(a * b <= u64::MAX * u64::MAX) by (nonlinear_arith)
                requires 0 <= a <= u64::MAX, 0 <= b <= u64::MAX;
            assert(c * d <= u64::MAX * u64::MAX) by (nonlinear_arith)
                requires 0 <= c <= u64::MAX, 0 <= d <= u64::MAX;
        }
        (self.num as u128) * (other.den as u128) <= (other.num as u128) * (self.den as u128)
    }
}

/// One cell of the walk: its offset `(a, b)` from the origin, the octant that
/// produced it, and the near, center and far angles of the cell inside its ring.
#[derive(Clone, Copy, Debug, PartialEq, Eq, Structural)]
pub struct CircleItem {
    pub a: i32,
    pub b: i32,
    pub octant: usize,
    pub near: Angle,
    pub center: Angle,
    pub far: Angle,
}

/// The octant descriptors `(sign_a, sign_b, vertical)`, in walk order.
pub open spec fn octant_desc(k: int) -> (int, int, bool) {
    if k == 0 {
        (1, 1, true)
    } else if k == 1 {
        (1, 1, false)
    } else if k == 2 {
        (1, -1, true)
    } else if k == 3 {
        (1, -1, false)
    } else if k == 4 {
        (-1, -1, true)
    } else if k == 5 {
        (-1, -1, false)
    } else if k == 6 {
        (-1, 1, true)
    } else {
        (-1, 1, false)
    }
}

/// The offset of sweep position `x` of ring `r` in octant `k`.
pub open spec fn offset_of(k: int, r: int, x: int) -> (int, int) {
    let (qa, qb, vert) = octant_desc(k);
    if vert {
        (x * qa, r * qb)
    } else {
        (r * qa, x * qb)
    }
}

/// A cell at sweep position `x` of ring `r` lies within the radius plus the slack.
pub open spec fn within(radius: int, r: int, x: int) -> bool {
    10000 * (r * r + x * x) < (100 * radius + PERMISSIVE_HUNDREDTHS) * (100 * radius
        + PERMISSIVE_HUNDREDTHS)
}

/// The item for sweep position `x` of ring `r` in octant `k`: the ring's span
/// is split evenly over its `r + 1` positions.
pub open spec fn cell_of(k: int, r: int, x: int) -> CircleItem {
    let (a, b) = offset_of(k, r, x);
    CircleItem {
        a: a as i32,
        b: b as i32,
        octant: k as usize,
        near: Angle { num: (2 * x) as u64, den: (2 * (r + 1)) as u64 },
        center: Angle { num: (2 * x + 1) as u64, den: (2 * (r + 1)) as u64 },
        far: Angle { num: (2 * x + 2) as u64, den: (2 * (r + 1)) as u64 },
    }
}

/// The origin cell, reported with an empty span.
pub open spec fn origin_item() -> CircleItem {
    CircleItem {
        a: 0,
        b: 0,
        octant: 0,
        near: Angle { num: 0, den: 1 },
        center: Angle { num: 0, den: 1 },
        far: Angle { num: 0, den: 1 },
    }
}

/// The cells of octant `k` from sweep position `x` of ring `r` on, ring by ring.
pub open spec fn sweep_cells(radius: int, k: int, r: int, x: int) -> Seq<CircleItem>
    decreases radius - r + 1, r - x + 1,
{
    if r > radius || r < 1 || x < 0 {
        Seq::empty()
    } else if x > r {
        sweep_cells(radius, k, r + 1, 0)
    } else if within(radius, r, x) {
        seq![cell_of(k, r, x)] + sweep_cells(radius, k, r, x + 1)
    } else {
        sweep_cells(radius, k, r, x + 1)
    }
}

/// The cells of octant `k` from ring `r`, position `x` on, then those of every
/// later octant.
pub open spec fn octants_from(radius: int, k: int, r: int, x: int) -> Seq<CircleItem>
    decreases 8 - k,
{
    if k < 0 || k >= 8 {
        Seq::empty()
    } else {
        sweep_cells(radius, k, r, x) + octants_from(radius, k + 1, 1, 0)
    }
}

/// Every cell of a walk of the given radius, in order: the origin, then each
/// octant in turn, ring by ring outwards.
pub open spec fn circle_cells(radius: int) -> Seq<CircleItem> {
    seq![origin_item()] + octants_from(radius, 0, 1, 0)
}

/// Walks every cell within a radius of the origin (plus a fixed slack), ring by
/// ring, octant by octant.
#[derive(Debug)]
pub struct CircleIter {
    octant: usize,
    radius: i32,
    r: u32,
    x: u32,
    done: bool,
}

impl CircleIter {
    pub closed spec fn spec_radius(&self) -> int {
        self.radius as int
    }

    pub closed spec fn spec_octant(&self) -> int {
        self.octant as int
    }

    pub closed spec fn wf(&self) -> bool {
        &&& self.octant < 8
        &&& (self.r as int) <= (if self.radius < 0 { 0 } else { self.radius as int }) + 1
        &&& (self.x as int) <= (self.r as int) + 1
        &&& self.r == 0 ==> self.octant == 0 && self.x == 0
    }

    /// The cells that the walk has yet to produce.
    pub closed spec fn remaining(&self) -> Seq<CircleItem> {
        if self.done {
            Seq::empty()
        } else if self.r == 0 {
            circle_cells(self.radius as int)
        } else {
            octants_from(self.radius as int, self.octant as int, self.r as int, self.x as int)
        }
    }

    pub fn new(radius: i32) -> (s: Self)
        ensures
            s.wf(),
            s.spec_radius() == radius,
            s.spec_octant() == 0,
            s.remaining() == circle_cells(radius as int),
    {
        CircleIter { octant: 0, radius, r: 0, x: 0, done: false }
    }

    fn next_octant(&mut self)
        requires
            old(self).octant < 8,
        ensures
            final(self).octant == (if old(self).octant == 7 { 0 } else { old(self).octant + 1 }),
            final(self).radius == old(self).radius,
            final(self).r == old(self).r,
            final(self).x == old(self).x,
            final(self).done == old(self).done,
    {
        self.octant = self.octant + 1;
        if self.octant >= 8 {
            self.octant = 0;
        }
    }

    /// The octant of the cell produced last.
    pub fn octant(&self) -> (r: usize)
        ensures
            r as int == self.spec_octant(),
    {
        self.octant
    }
}

impl CircleIter {
    /// Produces the next cell of the walk, or `None` once every cell was produced.
    pub fn next(&mut self) -> (item: Option<CircleItem>)
        requires
            old(self).wf(),
        ensures
            final(self).wf(),
            final(self).spec_radius() == old(self).spec_radius(),
            match item {
                Some(c) => {
                    &&& old(self).remaining() == seq![c] + final(self).remaining()
                    &&& final(self).spec_octant() == c.octant as int
                },
                None => old(self).remaining().len() == 0 && final(self).remaining().len() == 0,
            },
    {
        if self.done {
            return None;
        }
        if self.r == 0 {
            self.r = 1;
            return Some(
                CircleItem {
                    a: 0,
                    b: 0,
                    octant: 0,
                    near: Angle { num: 0, den: 1 },
                    center: Angle { num: 0, den: 1 },
                    far: Angle { num: 0, den: 1 },
                },
            );
        }
        let ghost orig = self.remaining();
        let ghost radius = self.radius as int;
        loop
            invariant
                self.wf(),
                !self.done,
                self.r >= 1,
                self.radius as int == radius,
                self.radius == old(self).radius,
                orig == old(self).remaining(),
                self.remaining() == orig,
            decreases 8 - self.octant, radius + 2 - self.r, self.r + 2 - self.x,
        {
            if self.x > self.r {
                proof {
                    let (k, r, x) = (self.octant as int, self.r as int, self.x as int);
                    assert(sweep_cells(radius, k, r, x) == sweep_cells(radius, k, r + 1, 0));
                    assert(octants_from(radius, k, r, x) =~= octants_from(radius, k, r + 1, 0));
                }
                self.x = 0;
                self.r = self.r + 1;
            }
            if (self.r as i64) > (self.radius as i64) {
                proof {
                    let (k, r, x) = (self.octant as int, self.r as int, self.x as int);
                    assert(sweep_cells(radius, k, r, x) =~= Seq::empty());
                    assert(octants_from(radius, k, r, x) =~= octants_from(radius, k + 1, 1, 0));
                }
                self.next_octant();
                self.x = 0;
                self.r = 1;
                if self.octant == 0 {
                    self.done = true;
                    proof {
                        assert(octants_from(radius, 8, 1, 0) =~= Seq::empty());
                    }
                    return None;
                }
                continue;
            }
            let r = self.r;
            let x = self.x;
            let k = self.octant;
            let rr = r as u128;
            let xx = x as u128;
            let lim = 100 * (self.radius as u128) + (PERMISSIVE_HUNDREDTHS as u128);
            proof {
                assert(rr * rr <= 0x8000_0000 * 0x8000_0000) by (nonlinear_arith)
                    requires rr <= 0x8000_0000;
                assert(xx * xx <= 0x8000_0000 * 0x8000_0000) by (nonlinear_arith)
                    requires xx <= 0x8000_0000;
                assert(lim * lim <= 0x40_0000_0000 * 0x40_0000_0000) by (nonlinear_arith)
                    requires lim <= 0x40_0000_0000;
            }
            let inside = 10000 * (rr * rr + xx * xx) < lim * lim;
            proof {
                let (k, r, x) = (k as int, r as int, x as int);
                assert(inside == within(radius, r, x));
                if inside {
                    assert(sweep_cells(radius, k, r, x) == seq![cell_of(k, r, x)] + sweep_cells(
                        radius,
                        k,
                        r,
                        x + 1,
                    ));
                    assert(octants_from(radius, k, r, x) =~= seq![cell_of(k, r, x)]
                        + octants_from(radius, k, r, x + 1));
                } else {
                    assert(sweep_cells(radius, k, r, x) == sweep_cells(radius, k, r, x + 1));
                    assert(octants_from(radius, k, r, x) =~= octants_from(radius, k, r, x + 1));
                }
            }
            self.x = self.x + 1;
            if inside {
                assert(x <= r && r as int <= self.radius as int);
                let (qa, qb, vert): (i32, i32, bool) = if k == 0 {
                    (1, 1, true)
                } else if k == 1 {
                    (1, 1, false)
                } else if k == 2 {
                    (1, -1, true)
                } else if k == 3 {
                    (1, -1, false)
                } else if k == 4 {
                    (-1, -1, true)
                } else if k == 5 {
                    (-1, -1, false)
                } else if k == 6 {
                    (-1, 1, true)
                } else {
                    (-1, 1, false)
                };
                let (xs, rs) = (x as i32, r as i32);
                let (a, b): (i32, i32) = if vert {
                    (if qa > 0 { xs } else { -xs }, if qb > 0 { rs } else { -rs })
                } else {
                    (if qa > 0 { rs } else { -rs }, if qb > 0 { xs } else { -xs })
                };
                let den: u64 = 2 * (r as u64 + 1);
                let item = CircleItem {
                    a,
                    b,
                    octant: k,
                    near: Angle { num: 2 * (x as u64), den },
                    center: Angle { num: 2 * (x as u64) + 1, den },
                    far: Angle { num: 2 * (x as u64) + 2, den },
                };
                proof {
                    assert(item == cell_of(k as int, r as int, x as int));
                }
                return Some(item);
            }
        }
    }
}

} // verus!

verus! {

/// The number of sweep positions of rings `1..=radius`: `sum of (r + 1)`.
pub open spec fn ring_positions(radius: int) -> int
    decreases radius,
{
    if radius < 1 {
        0
    } else {
        ring_positions(radius - 1) + radius + 1
    }
}

proof fn lemma_octants_empty(radius: int, k: int)
    requires
        radius < 1,
    ensures
        octants_from(radius, k, 1, 0) =~= Seq::<CircleItem>::empty(),
    decreases 8 - k,
{
    if 0 <= k < 8 {
        lemma_octants_empty(radius, k + 1);
        assert(sweep_cells(radius, k, 1, 0) =~= Seq::<CircleItem>::empty());
    }
}

/// A walk of radius zero or less produces the origin alone.
pub proof fn lemma_radius_zero(radius: int)
    requires
        radius <= 0,
    ensures
        circle_cells(radius) =~= seq![origin_item()],
{
    lemma_octants_empty(radius, 0);
}

proof fn lemma_sweep_same_len(radius: int, k: int, r: int, x: int)
    ensures
        sweep_cells(radius, k, r, x).len() == sweep_cells(radius, 0, r, x).len(),
    decreases radius - r + 1, r - x + 1,
{
    if r > radius || r < 1 || x < 0 {
    } else if x > r {
        lemma_sweep_same_len(radius, k, r + 1, 0);
    } else {
        lemma_sweep_same_len(radius, k, r, x + 1);
    }
}

proof fn lemma_sweep_bound(radius: int, k: int, r: int, x: int)
    requires
        1 <= r <= radius,
        0 <= x <= r + 1,
    ensures
        sweep_cells(radius, k, r, x).len() <= ring_positions(radius) - ring_positions(r - 1) - x,
    decreases radius - r + 1, r - x + 1,
{
    assert(ring_positions(r) == ring_positions(r - 1) + r + 1);
    if x > r {
        assert(sweep_cells(radius, k, r, x) == sweep_cells(radius, k, r + 1, 0));
        if r + 1 <= radius {
            lemma_sweep_bound(radius, k, r + 1, 0);
        } else {
            assert(sweep_cells(radius, k, r + 1, 0).len() == 0);
        }
    } else {
        lemma_sweep_bound(radius, k, r, x + 1);
        if within(radius, r, x) {
            assert(sweep_cells(radius, k, r, x) == seq![cell_of(k, r, x)] + sweep_cells(
                radius,
                k,
                r,
                x + 1,
            ));
        } else {
            assert(sweep_cells(radius, k, r, x) == sweep_cells(radius, k, r, x + 1));
        }
    }
}

pub proof fn lemma_octants_len(radius: int, k: int)
    requires
        0 <= k <= 8,
    ensures
        octants_from(radius, k, 1, 0).len() == (8 - k) * sweep_cells(radius, 0, 1, 0).len(),
    decreases 8 - k,
{
    let n = sweep_cells(radius, 0, 1, 0).len() as int;
    if k < 8 {
        lemma_octants_len(radius, k + 1);
        lemma_sweep_same_len(radius, k, 1, 0);
        assert(octants_from(radius, k, 1, 0) == sweep_cells(radius, k, 1, 0) + octants_from(
            radius,
            k + 1,
            1,
            0,
        ));
        assert((8 - k) * n == (8 - (k + 1)) * n + n) by (nonlinear_arith);
    } else {
        assert(octants_from(radius, k, 1, 0).len() == 0);
        assert((8 - k) * n == 0) by (nonlinear_arith)
            requires
                k == 8,
        ;
    }
}

/// A walk produces the origin and the same number of cells in each of the
/// eight octants: one per sweep position `0..=r` of each ring `r` in
/// `1..=radius`, less those that fall outside the radius plus its slack.
pub proof fn lemma_cell_count(radius: int)
    ensures
        circle_cells(radius).len() == 1 + 8 * sweep_cells(radius, 0, 1, 0).len(),
        sweep_cells(radius, 0, 1, 0).len() <= ring_positions(radius),
        forall|k: int| 0 <= k < 8 ==> #[trigger] sweep_cells(radius, k, 1, 0).len() == sweep_cells(radius, 0, 1, 0).len(),
{
    lemma_octants_len(radius, 0);
    if radius >= 1 {
        lemma_sweep_bound(radius, 0, 1, 0);
    }
    assert forall|k: int| 0 <= k < 8 implies #[trigger] sweep_cells(radius, k, 1, 0).len() == sweep_cells(radius, 0, 1, 0).len() by {
        lemma_sweep_same_len(radius, k, 1, 0);
    }
}

} // verus!

verus! {

/// The sweep positions `(r, x)` that [`sweep_cells`] keeps, from position `x`
/// of ring `r` on; they are the same in every octant.
pub open spec fn sweep_positions(radius: int, r: int, x: int) -> Seq<(int, int)>
    decreases radius - r + 1, r - x + 1,
{
    if r > radius || r < 1 || x < 0 {
        Seq::empty()
    } else if x > r {
        sweep_positions(radius, r + 1, 0)
    } else if within(radius, r, x) {
        seq![(r, x)] + sweep_positions(radius, r, x + 1)
    } else {
        sweep_positions(radius, r, x + 1)
    }
}

pub proof fn lemma_sweep_positions(radius: int, k: int, r: int, x: int)
    ensures
        sweep_cells(radius, k, r, x).len() == sweep_positions(radius, r, x).len(),
        forall|m: int|
            0 <= m < sweep_positions(radius, r, x).len() ==> {
                let p = #[trigger] sweep_positions(radius, r, x)[m];
                &&& sweep_cells(radius, k, r, x)[m] == cell_of(k, p.0, p.1)
                &&& 1 <= p.0 <= radius
                &&& 0 <= p.1 <= p.0
            },
    decreases radius - r + 1, r - x + 1,
{
    if r > radius || r < 1 || x < 0 {
    } else if x > r {
        lemma_sweep_positions(radius, k, r + 1, 0);
    } else {
        lemma_sweep_positions(radius, k, r, x + 1);
        if within(radius, r, x) {
            let ps = sweep_positions(radius, r, x + 1);
            assert forall|m: int| 0 <= m < sweep_positions(radius, r, x).len() implies {
                let p = #[trigger] sweep_positions(radius, r, x)[m];
                &&& sweep_cells(radius, k, r, x)[m] == cell_of(k, p.0, p.1)
                &&& 1 <= p.0 <= radius
                &&& 0 <= p.1 <= p.0
            } by {
                if m > 0 {
                    assert(sweep_positions(radius, r, x)[m] == ps[m - 1]);
                    assert(sweep_cells(radius, k, r, x)[m] == sweep_cells(radius, k, r, x + 1)[m - 1]);
                }
            }
        }
    }
}

/// The cells of octant `k`.
pub open spec fn octant_cells(radius: int, k: int) -> Seq<CircleItem> {
    sweep_cells(radius, k, 1, 0)
}

/// Cell `1 + k * n + m` of the walk, with `n` cells per octant, is cell `m` of octant `k`.
pub proof fn lemma_walk_blocks(radius: int, k: int, m: int)
    requires
        0 <= k < 8,
        0 <= m < octant_cells(radius, 0).len(),
    ensures
        circle_cells(radius).len() == 1 + 8 * octant_cells(radius, 0).len(),
        circle_cells(radius)[1 + k * octant_cells(radius, 0).len() + m] == octant_cells(radius, k)[m],
{
    lemma_cell_count(radius);
    lemma_octants_index(radius, 0, k, m);
    let n = octant_cells(radius, 0).len() as int;
    assert(k * n + m < 8 * n) by (nonlinear_arith)
        requires 0 <= k < 8, 0 <= m < n;
    assert(0 <= k * n) by (nonlinear_arith)
        requires 0 <= k, 0 <= n;
    assert(circle_cells(radius)[1 + k * octant_cells(radius, 0).len() + m] == octants_from(
        radius,
        0,
        1,
        0,
    )[k * octant_cells(radius, 0).len() + m]);
}

proof fn lemma_octants_index(radius: int, j: int, k: int, m: int)
    requires
        0 <= j <= k < 8,
        0 <= m < octant_cells(radius, 0).len(),
    ensures
        octants_from(radius, j, 1, 0).len() == (8 - j) * octant_cells(radius, 0).len(),
        octants_from(radius, j, 1, 0)[(k - j) * octant_cells(radius, 0).len() + m] == octant_cells(
            radius,
            k,
        )[m],
    decreases k - j,
{
    let n = octant_cells(radius, 0).len() as int;
    lemma_octants_len(radius, j);
    lemma_cell_count(radius);
    assert(octant_cells(radius, j).len() == n);
    assert(octants_from(radius, j, 1, 0) == octant_cells(radius, j) + octants_from(radius, j + 1, 1, 0));
    if j < k {
        lemma_octants_index(radius, j + 1, k, m);
        assert((k - j) * n + m == n + ((k - (j + 1)) * n + m)) by (nonlinear_arith);
        assert(0 <= (k - (j + 1)) * n) by (nonlinear_arith)
            requires k - (j + 1) >= 0, n >= 0;
        assert((k - (j + 1)) * n + m < (8 - (j + 1)) * n) by (nonlinear_arith)
            requires 0 <= m < n, k < 8;
        let rest = octants_from(radius, j + 1, 1, 0);
        assert((octant_cells(radius, j) + rest)[n + ((k - (j + 1)) * n + m)] == rest[(k - (j + 1))
            * n + m]);
    } else {
        assert((k - j) * n + m == m) by (nonlinear_arith)
            requires k == j;
    }
}

pub proof fn lemma_octant_count(radius: int, k: int)
    requires
        0 <= k < 8,
    ensures
        octant_cells(radius, k).len() == octant_cells(radius, 0).len(),
{
    lemma_cell_count(radius);
}

/// Sweep position `p` is kept by a walk of the given radius: `(r, s)` with
/// `1 <= r <= radius`, `0 <= s <= r` and `r^2 + s^2 < (radius + 0.33)^2`.
pub open spec fn kept(radius: int, p: (int, int)) -> bool {
    1 <= p.0 <= radius && 0 <= p.1 <= p.0 && within(radius, p.0, p.1)
}

/// The sweep positions that a walk keeps in each octant.
pub open spec fn kept_positions(radius: int) -> Set<(int, int)> {
    Set::new(|p: (int, int)| kept(radius, p))
}

pub proof fn lemma_positions_set(radius: int, r: int, x: int)
    requires
        1 <= r,
        0 <= x <= r + 1,
    ensures
        sweep_positions(radius, r, x).no_duplicates(),
        forall|p: (int, int)|
            #[trigger] sweep_positions(radius, r, x).contains(p) <==> (kept(radius, p) && (p.0 > r
                || (p.0 == r && p.1 >= x))),
    decreases radius - r + 1, r - x + 1,
{
    let s = sweep_positions(radius, r, x);
    if r > radius {
    } else if x > r {
        lemma_positions_set(radius, r + 1, 0);
    } else {
        lemma_positions_set(radius, r, x + 1);
        let t = sweep_positions(radius, r, x + 1);
        if within(radius, r, x) {
            assert(s == seq![(r, x)] + t);
            assert forall|p: (int, int)| #[trigger] s.contains(p) <==> (kept(radius, p) && (p.0 > r
                || (p.0 == r && p.1 >= x))) by {
                if s.contains(p) {
                    let i = choose|i: int| 0 <= i < s.len() && s[i] == p;
                    if i > 0 {
                        assert(t[i - 1] == p);
                        assert(t.contains(p));
                    }
                }
                if kept(radius, p) && (p.0 > r || (p.0 == r && p.1 >= x)) {
                    if p == (r, x) {
                        assert(s[0] == p);
                    } else {
                        assert(t.contains(p));
                        let i = choose|i: int| 0 <= i < t.len() && t[i] == p;
                        assert(s[i + 1] == p);
                    }
                }
            }
            assert forall|i: int, j: int| 0 <= i < s.len() && 0 <= j < s.len() && i != j implies s[i]
                != s[j] by {
                if i > 0 && j > 0 {
                    assert(s[i] == t[i - 1] && s[j] == t[j - 1]);
                } else if i == 0 {
                    assert(s[j] == t[j - 1]);
                    assert(t.contains(t[j - 1]));
                } else {
                    assert(s[i] == t[i - 1]);
                    assert(t.contains(t[i - 1]));
                }
            }
        } else {
            assert(s == t);
        }
    }
}

/// A walk produces the origin and, in each of the eight octants, one cell per
/// kept sweep position: `1 + 8 * |{(r, s) : 1 <= r <= radius, 0 <= s <= r,
/// r^2 + s^2 < (radius + 0.33)^2}|` cells, at most `1 + 8 * sum of (r + 1)`.
pub proof fn lemma_cell_count_by_positions(radius: int)
    ensures
        kept_positions(radius).finite(),
        circle_cells(radius).len() == 1 + 8 * kept_positions(radius).len(),
        kept_positions(radius).len() <= ring_positions(radius),
{
    lemma_cell_count(radius);
    lemma_sweep_positions(radius, 0, 1, 0);
    lemma_positions_set(radius, 1, 0);
    let ps = sweep_positions(radius, 1, 0);
    assert(ps.to_set() =~= kept_positions(radius)) by {
        assert forall|p: (int, int)| ps.to_set().contains(p) <==> kept_positions(radius).contains(p) by {
            assert(ps.contains(p) <==> kept(radius, p));
        }
    }
    ps.unique_seq_to_set();
}

} // verus!
