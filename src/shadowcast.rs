use vstd::prelude::*;
use crate::circle_iter::{
    Angle, CircleItem, CircleIter, cell_of, circle_cells, lemma_cell_count, lemma_radius_zero,
    lemma_sweep_positions, lemma_walk_blocks, octant_cells, octants_from, origin_item,
    ring_positions, sweep_cells, sweep_positions, lemma_positions_set,
};

verus! {

/// Full opacity. Opacities are counted in millionths of a fully opaque cell.
pub const OPAQUE: u64 = 1_000_000;

/// What the shadowcaster asks of the world: how opaque the cell at an offset
/// from the origin is (0 is open, `OPAQUE` a wall, more is allowed). Being
/// unsigned, an opacity is never negative.
pub trait OpacityOracle {
    spec fn spec_opacity(&self, dx: int, dy: int) -> u64;

    fn opacity_at(&self, dx: i32, dy: i32) -> (r: u64)
        ensures
            r == self.spec_opacity(dx as int, dy as int),
    ;
}

/// The oracle's opacities as a function of the offset.
pub open spec fn opacity_fn<O: OpacityOracle>(o: O) -> spec_fn(int, int) -> u64 {
    |dx: int, dy: int| o.spec_opacity(dx, dy)
}

/// An angular span `[near, far]` of the current octant and the opacity that a
/// cell seen through it receives.
#[derive(Clone, Copy, Debug, PartialEq, Eq, Structural)]
pub struct Obstruction {
    pub near: Angle,
    pub far: Angle,
    pub opacity: u64,
}

/// `t` lies in the closed span of `o`.
pub open spec fn angle_in(t: Angle, o: Obstruction) -> bool {
    o.near.le(t) && t.le(o.far)
}

/// The larger of `a` and `b`.
pub open spec fn max_int(a: int, b: int) -> int {
    if a >= b {
        a
    } else {
        b
    }
}

/// The occlusion that a cell with the given near, center and far angles
/// gathers from the obstructions `obs[i..]`, given which of those angles the
/// obstructions before `i` left clear and what it has gathered so far. An
/// obstruction met while the center is hidden costs half its opacity; one met
/// while the cell is not visible (center hidden, or both edges hidden) costs
/// its full opacity. The scan stops once the cell is fully opaque.
pub open spec fn scan(
    obs: Seq<Obstruction>,
    near: Angle,
    center: Angle,
    far: Angle,
    i: int,
    near_vis: bool,
    center_vis: bool,
    far_vis: bool,
    acc: int,
) -> int
    decreases obs.len() - i,
{
    if i < 0 || i >= obs.len() || acc >= OPAQUE {
        acc
    } else {
        let o = obs[i];
        let nv = near_vis && !angle_in(near, o);
        let cv = center_vis && !angle_in(center, o);
        let fv = far_vis && !angle_in(far, o);
        let acc1 = if !cv {
            max_int(acc, (o.opacity / 2) as int)
        } else {
            acc
        };
        let acc2 = if !(cv && (nv || fv)) {
            max_int(acc1, o.opacity as int)
        } else {
            acc1
        };
        scan(obs, near, center, far, i + 1, nv, cv, fv, acc2)
    }
}

/// The occlusion of cell `c` behind the obstructions `obs`.
pub open spec fn shade(obs: Seq<Obstruction>, c: CircleItem) -> int {
    scan(obs, c.near, c.center, c.far, 0, true, true, true, 0)
}

/// The obstructions in force when `c` is processed: none if `c` opens a new octant.
pub open spec fn obs_for(obs: Seq<Obstruction>, last: int, c: CircleItem) -> Seq<Obstruction> {
    if c.octant as int != last {
        Seq::empty()
    } else {
        obs
    }
}

/// The occlusion of `c` added to the cell's own opacity `here`, saturated at `u64::MAX`.
pub open spec fn combined(obs: Seq<Obstruction>, last: int, c: CircleItem, here: u64) -> int {
    let s = shade(obs_for(obs, last, c), c) + here;
    if s > u64::MAX {
        u64::MAX as int
    } else {
        s
    }
}

/// The obstructions after `c`: a cell that ends up with any opacity casts a
/// shadow over its own span.
pub open spec fn obs_after(obs: Seq<Obstruction>, last: int, c: CircleItem, here: u64) -> Seq<
    Obstruction,
> {
    let o = obs_for(obs, last, c);
    let t = combined(obs, last, c, here);
    if t > 0 {
        o.push(Obstruction { near: c.near, far: c.far, opacity: t as u64 })
    } else {
        o
    }
}

/// The reported opacity of `c`: the occlusion that the cells before it cast on
/// it, capped at `OPAQUE`. Its own opacity shadows only the cells behind it,
/// so a wall in plain sight is reported visible, and so is the origin.
pub open spec fn reported(obs: Seq<Obstruction>, last: int, c: CircleItem) -> u64 {
    let s = shade(obs_for(obs, last, c), c);
    if s >= OPAQUE {
        OPAQUE
    } else {
        s as u64
    }
}

/// The output for the cells `cells`, starting from the obstructions `obs` of octant `last`.
pub open spec fn cast_seq(
    oracle: spec_fn(int, int) -> u64,
    cells: Seq<CircleItem>,
    obs: Seq<Obstruction>,
    last: int,
) -> Seq<(i32, i32, u64)>
    decreases cells.len(),
{
    if cells.len() == 0 {
        Seq::empty()
    } else {
        let c = cells[0];
        let here = oracle(c.a as int, c.b as int);
        seq![(c.a, c.b, reported(obs, last, c))] + cast_seq(
            oracle,
            cells.drop_first(),
            obs_after(obs, last, c, here),
            c.octant as int,
        )
    }
}

/// The field of view of the given radius: each cell of the walk with its opacity.
pub open spec fn field_of_view(oracle: spec_fn(int, int) -> u64, radius: int) -> Seq<(i32, i32, u64)> {
    cast_seq(oracle, circle_cells(radius), Seq::empty(), 0)
}

pub proof fn lemma_cast_len(
    oracle: spec_fn(int, int) -> u64,
    cells: Seq<CircleItem>,
    obs: Seq<Obstruction>,
    last: int,
)
    ensures
        cast_seq(oracle, cells, obs, last).len() == cells.len(),
    decreases cells.len(),
{
    if cells.len() > 0 {
        let c = cells[0];
        let here = oracle(c.a as int, c.b as int);
        lemma_cast_len(oracle, cells.drop_first(), obs_after(obs, last, c, here), c.octant as int);
    }
}

/// Restrictive precise angle shadowcasting over a ring walk: yields each cell
/// of the walk with the opacity that the cells before it in its octant cast on it.
pub struct RPAPartialShadowcasting<O: OpacityOracle> {
    check: O,
    iter: CircleIter,
    last_octant: usize,
    obstructions: Vec<Obstruction>,
}

impl<O: OpacityOracle> RPAPartialShadowcasting<O> {
    pub closed spec fn wf(&self) -> bool {
        self.iter.wf()
    }

    pub closed spec fn oracle(&self) -> O {
        self.check
    }

    /// What the cast has yet to yield.
    pub closed spec fn remaining(&self) -> Seq<(i32, i32, u64)> {
        cast_seq(opacity_fn(self.check), self.iter.remaining(), self.obstructions@, self.last_octant as int)
    }

    pub fn new(radius: i32, check: O) -> (s: Self)
        ensures
            s.wf(),
            s.oracle() == check,
            s.remaining() == field_of_view(opacity_fn(check), radius as int),
    {
        RPAPartialShadowcasting {
            check,
            iter: CircleIter::new(radius),
            last_octant: 0,
            obstructions: Vec::new(),
        }
    }

    /// Yields the next cell `(dx, dy, opacity)`, or `None` once the walk is over.
    pub fn next(&mut self) -> (item: Option<(i32, i32, u64)>)
        requires
            old(self).wf(),
        ensures
            final(self).wf(),
            final(self).oracle() == old(self).oracle(),
            match item {
                Some(t) => old(self).remaining() == seq![t] + final(self).remaining(),
                None => old(self).remaining().len() == 0 && final(self).remaining().len() == 0,
            },
    {
        let ghost cells = self.iter.remaining();
        let ghost obs0 = self.obstructions@;
        let ghost last0 = self.last_octant as int;
        let c = match self.iter.next() {
            Some(c) => c,
            None => return None,
        };
        proof {
            assert(cells.drop_first() =~= self.iter.remaining());
        }
        if self.last_octant != c.octant {
            self.obstructions.clear();
            self.last_octant = c.octant;
        }
        let ghost obs = self.obstructions@;
        assert(obs == obs_for(obs0, last0, c));
        let mut acc: u64 = 0;
        let mut near_vis = true;
        let mut center_vis = true;
        let mut far_vis = true;
        let mut i: usize = 0;
        let n = self.obstructions.len();
        while i < n && acc < OPAQUE
            invariant
                n == obs.len(),
                self.obstructions@ == obs,
                i <= n,
                scan(obs, c.near, c.center, c.far, 0, true, true, true, 0) == scan(
                    obs,
                    c.near,
                    c.center,
                    c.far,
                    i as int,
                    near_vis,
                    center_vis,
                    far_vis,
                    acc as int,
                ),
            decreases n - i,
        {
            let o = self.obstructions[i];
            near_vis = near_vis && !(o.near.le_exec(&c.near) && c.near.le_exec(&o.far));
            center_vis = center_vis && !(o.near.le_exec(&c.center) && c.center.le_exec(&o.far));
            far_vis = far_vis && !(o.near.le_exec(&c.far) && c.far.le_exec(&o.far));
            if !center_vis && o.opacity / 2 > acc {
                acc = o.opacity / 2;
            }
            if !(center_vis && (near_vis || far_vis)) && o.opacity > acc {
                acc = o.opacity;
            }
            i = i + 1;
        }
        let here = self.check.opacity_at(c.a, c.b);
        let total = if here > u64::MAX - acc {
            u64::MAX
        } else {
            acc + here
        };
        if total > 0 {
            self.obstructions.push(Obstruction { near: c.near, far: c.far, opacity: total });
        }
        let shown = if acc >= OPAQUE {
            OPAQUE
        } else {
            acc
        };
        proof {
            assert(self.obstructions@ =~= obs_after(obs0, last0, c, here));
        }
        Some((c.a, c.b, shown))
    }
}

/// Runs a whole cast and collects what it yields.
pub fn cast<O: OpacityOracle>(radius: i32, check: O) -> (r: Vec<(i32, i32, u64)>)
    ensures
        r@ == field_of_view(opacity_fn(check), radius as int),
{
    let ghost target = field_of_view(opacity_fn(check), radius as int);
    let mut sc = RPAPartialShadowcasting::new(radius, check);
    let mut out: Vec<(i32, i32, u64)> = Vec::new();
    loop
        invariant
            sc.wf(),
            target == field_of_view(opacity_fn(check), radius as int),
            out@ + sc.remaining() == target,
        decreases sc.remaining().len(),
    {
        let ghost before = sc.remaining();
        match sc.next() {
            Some(t) => {
                proof {
                    assert(out@.push(t) + sc.remaining() =~= out@ + (seq![t] + sc.remaining()));
                }
                out.push(t);
            },
            None => {
                assert(before =~= Seq::empty());
                assert(out@ =~= target);
                return out;
            },
        }
    }
}

/// With radius zero or less the cast yields the origin alone, fully visible,
/// whatever the oracle says.
pub proof fn lemma_fov_radius_zero(oracle: spec_fn(int, int) -> u64, radius: int)
    requires
        radius <= 0,
    ensures
        field_of_view(oracle, radius) == seq![(0i32, 0i32, 0u64)],
{
    lemma_radius_zero(radius);
    let cells = circle_cells(radius);
    let c = origin_item();
    assert(shade(Seq::empty(), c) == 0);
    let e = Seq::<Obstruction>::empty();
    let here = oracle(0, 0);
    assert(cells[0] == c);
    assert(obs_for(e, 0, c) =~= e);
    assert(reported(e, 0, c) == 0);
    assert(cells.drop_first() =~= Seq::empty());
    let tail = cast_seq(oracle, cells.drop_first(), obs_after(e, 0, c, here), 0);
    assert(tail =~= Seq::empty());
    assert(field_of_view(oracle, radius) =~= seq![(0i32, 0i32, 0u64)]);
}

/// The cast yields one triple per cell of the walk, in the walk's order, and
/// so the same number for every oracle: the origin and, in each of the eight
/// octants, the same count of at most `sum of (r + 1)` cells over the rings.
pub proof fn lemma_fov_count(oracle: spec_fn(int, int) -> u64, radius: int)
    ensures
        field_of_view(oracle, radius).len() == circle_cells(radius).len(),
        circle_cells(radius).len() == 1 + 8 * sweep_cells(radius, 0, 1, 0).len(),
        sweep_cells(radius, 0, 1, 0).len() <= ring_positions(radius),
        forall|i: int|
            0 <= i < circle_cells(radius).len() ==> {
                &&& (#[trigger] field_of_view(oracle, radius)[i]).0 == circle_cells(radius)[i].a
                &&& field_of_view(oracle, radius)[i].1 == circle_cells(radius)[i].b
            },
{
    lemma_cast_len(oracle, circle_cells(radius), Seq::empty(), 0);
    lemma_cell_count(radius);
    assert forall|i: int| 0 <= i < circle_cells(radius).len() implies {
        &&& (#[trigger] field_of_view(oracle, radius)[i]).0 == circle_cells(radius)[i].a
        &&& field_of_view(oracle, radius)[i].1 == circle_cells(radius)[i].b
    } by {
        lemma_cast_positions(oracle, circle_cells(radius), Seq::empty(), 0, i);
    }
}

proof fn lemma_cast_positions(
    oracle: spec_fn(int, int) -> u64,
    cells: Seq<CircleItem>,
    obs: Seq<Obstruction>,
    last: int,
    i: int,
)
    requires
        0 <= i < cells.len(),
    ensures
        cast_seq(oracle, cells, obs, last).len() == cells.len(),
        cast_seq(oracle, cells, obs, last)[i].0 == cells[i].a,
        cast_seq(oracle, cells, obs, last)[i].1 == cells[i].b,
    decreases cells.len(),
{
    lemma_cast_len(oracle, cells, obs, last);
    let c = cells[0];
    let here = oracle(c.a as int, c.b as int);
    if i > 0 {
        lemma_cast_positions(
            oracle,
            cells.drop_first(),
            obs_after(obs, last, c, here),
            c.octant as int,
            i - 1,
        );
    }
}

proof fn lemma_clear_cast(oracle: spec_fn(int, int) -> u64, cells: Seq<CircleItem>, last: int, i: int)
    requires
        forall|dx: int, dy: int| #[trigger] oracle(dx, dy) == 0,
        0 <= i < cells.len(),
    ensures
        cast_seq(oracle, cells, Seq::empty(), last)[i].2 == 0,
    decreases cells.len(),
{
    let c = cells[0];
    let here = oracle(c.a as int, c.b as int);
    let e = Seq::<Obstruction>::empty();
    assert(obs_for(e, last, c) =~= e);
    assert(shade(e, c) == 0);
    assert(obs_after(e, last, c, here) =~= e);
    let tail = cast_seq(oracle, cells.drop_first(), e, c.octant as int);
    lemma_cast_len(oracle, cells.drop_first(), e, c.octant as int);
    assert(cast_seq(oracle, cells, e, last) == seq![(c.a, c.b, reported(e, last, c))] + tail);
    if i > 0 {
        lemma_clear_cast(oracle, cells.drop_first(), c.octant as int, i - 1);
        assert(cast_seq(oracle, cells, e, last)[i] == tail[i - 1]);
    }
}

/// Where every cell is open, every cell is reported fully visible.
pub proof fn lemma_fov_all_clear(oracle: spec_fn(int, int) -> u64, radius: int)
    requires
        forall|dx: int, dy: int| #[trigger] oracle(dx, dy) == 0,
    ensures
        forall|i: int|
            0 <= i < field_of_view(oracle, radius).len() ==> (#[trigger] field_of_view(
                oracle,
                radius,
            )[i]).2 == 0,
{
    lemma_cast_len(oracle, circle_cells(radius), Seq::empty(), 0);
    assert forall|i: int| 0 <= i < field_of_view(oracle, radius).len() implies (
    #[trigger] field_of_view(oracle, radius)[i]).2 == 0 by {
        lemma_clear_cast(oracle, circle_cells(radius), 0, i);
    }
}

proof fn lemma_isolated_cast(
    o1: spec_fn(int, int) -> u64,
    o2: spec_fn(int, int) -> u64,
    k: int,
    cells: Seq<CircleItem>,
    obs1: Seq<Obstruction>,
    obs2: Seq<Obstruction>,
    last1: int,
    last2: int,
    i: int,
)
    requires
        forall|j: int|
            0 <= j < cells.len() && (#[trigger] cells[j]).octant as int == k ==> o1(cells[j].a as int, cells[j].b as int,) == o2(cells[j].a as int, cells[j].b as int),
        (last1 == k) == (last2 == k),
        last1 == k ==> obs1 == obs2,
        0 <= i < cells.len(),
        cells[i].octant as int == k,
    ensures
        cast_seq(o1, cells, obs1, last1)[i] == cast_seq(o2, cells, obs2, last2)[i],
    decreases cells.len(),
{
    let c = cells[0];
    let h1 = o1(c.a as int, c.b as int);
    let h2 = o2(c.a as int, c.b as int);
    if c.octant as int == k {
        assert(obs_for(obs1, last1, c) == obs_for(obs2, last2, c));
    }
    let rest = cells.drop_first();
    let n1 = obs_after(obs1, last1, c, h1);
    let n2 = obs_after(obs2, last2, c, h2);
    let t1 = cast_seq(o1, rest, n1, c.octant as int);
    let t2 = cast_seq(o2, rest, n2, c.octant as int);
    lemma_cast_len(o1, rest, n1, c.octant as int);
    lemma_cast_len(o2, rest, n2, c.octant as int);
    assert(cast_seq(o1, cells, obs1, last1) == seq![(c.a, c.b, reported(obs1, last1, c))] + t1);
    assert(cast_seq(o2, cells, obs2, last2) == seq![(c.a, c.b, reported(obs2, last2, c))] + t2);
    if i > 0 {
        assert forall|j: int|
            0 <= j < rest.len() && (#[trigger] rest[j]).octant as int == k implies o1(rest[j].a as int, rest[j].b as int,) == o2(rest[j].a as int, rest[j].b as int) by {
            assert(rest[j] == cells[j + 1]);
        }
        lemma_isolated_cast(
            o1,
            o2,
            k,
            rest,
            obs_after(obs1, last1, c, h1),
            obs_after(obs2, last2, c, h2),
            c.octant as int,
            c.octant as int,
            i - 1,
        );
        assert(cast_seq(o1, cells, obs1, last1)[i] == t1[i - 1]);
        assert(cast_seq(o2, cells, obs2, last2)[i] == t2[i - 1]);
    }
}

/// A cell's reported opacity depends on the oracle only through the cells of
/// its own octant: what is recorded in one octant never reaches another.
pub proof fn lemma_fov_octant_isolation(
    o1: spec_fn(int, int) -> u64,
    o2: spec_fn(int, int) -> u64,
    radius: int,
    i: int,
)
    requires
        forall|j: int|
            0 <= j < circle_cells(radius).len() && (#[trigger] circle_cells(radius)[j]).octant
                == circle_cells(radius)[i].octant ==> o1(circle_cells(radius)[j].a as int, circle_cells(radius)[j].b as int,
            ) == o2(circle_cells(radius)[j].a as int, circle_cells(radius)[j].b as int,
            ),
        0 <= i < circle_cells(radius).len(),
    ensures
        field_of_view(o1, radius)[i] == field_of_view(o2, radius)[i],
{
    let cells = circle_cells(radius);
    lemma_isolated_cast(
        o1,
        o2,
        cells[i].octant as int,
        cells,
        Seq::empty(),
        Seq::empty(),
        0,
        0,
        i,
    );
}

/// The obstructions and the octant in force after the cells `cells`.
pub open spec fn state_after(
    oracle: spec_fn(int, int) -> u64,
    cells: Seq<CircleItem>,
    obs: Seq<Obstruction>,
    last: int,
) -> (Seq<Obstruction>, int)
    decreases cells.len(),
{
    if cells.len() == 0 {
        (obs, last)
    } else {
        let c = cells[0];
        let here = oracle(c.a as int, c.b as int);
        state_after(oracle, cells.drop_first(), obs_after(obs, last, c, here), c.octant as int)
    }
}

proof fn lemma_cast_concat(
    oracle: spec_fn(int, int) -> u64,
    a: Seq<CircleItem>,
    b: Seq<CircleItem>,
    obs: Seq<Obstruction>,
    last: int,
)
    ensures
        cast_seq(oracle, a + b, obs, last) == cast_seq(oracle, a, obs, last) + cast_seq(
            oracle,
            b,
            state_after(oracle, a, obs, last).0,
            state_after(oracle, a, obs, last).1,
        ),
    decreases a.len(),
{
    if a.len() == 0 {
        assert(a + b =~= b);
        assert(cast_seq(oracle, a, obs, last) =~= Seq::empty());
        assert(Seq::<(i32, i32, u64)>::empty() + cast_seq(oracle, b, obs, last) =~= cast_seq(
            oracle,
            b,
            obs,
            last,
        ));
    } else {
        let c = a[0];
        let here = oracle(c.a as int, c.b as int);
        let n = obs_after(obs, last, c, here);
        assert((a + b)[0] == c);
        assert((a + b).drop_first() =~= a.drop_first() + b);
        lemma_cast_concat(oracle, a.drop_first(), b, n, c.octant as int);
        let head = seq![(c.a, c.b, reported(obs, last, c))];
        assert(head + (cast_seq(oracle, a.drop_first(), n, c.octant as int) + cast_seq(
            oracle,
            b,
            state_after(oracle, a, obs, last).0,
            state_after(oracle, a, obs, last).1,
        )) =~= (head + cast_seq(oracle, a.drop_first(), n, c.octant as int)) + cast_seq(
            oracle,
            b,
            state_after(oracle, a, obs, last).0,
            state_after(oracle, a, obs, last).1,
        ));
    }
}

proof fn lemma_state_octant(
    oracle: spec_fn(int, int) -> u64,
    cells: Seq<CircleItem>,
    obs: Seq<Obstruction>,
    last: int,
    k: int,
)
    requires
        cells.len() > 0,
        forall|i: int| 0 <= i < cells.len() ==> (#[trigger] cells[i]).octant as int == k,
    ensures
        state_after(oracle, cells, obs, last).1 == k,
    decreases cells.len(),
{
    let c = cells[0];
    let here = oracle(c.a as int, c.b as int);
    let rest = cells.drop_first();
    if rest.len() > 0 {
        assert forall|i: int| 0 <= i < rest.len() implies (#[trigger] rest[i]).octant as int == k by {
            assert(rest[i] == cells[i + 1]);
        }
        lemma_state_octant(oracle, rest, obs_after(obs, last, c, here), c.octant as int, k);
    } else {
        assert(state_after(oracle, rest, obs_after(obs, last, c, here), c.octant as int).1
            == c.octant as int);
    }
}

/// A run of cells that opens on an octant starts with no obstructions.
proof fn lemma_cast_fresh(
    oracle: spec_fn(int, int) -> u64,
    cells: Seq<CircleItem>,
    obs: Seq<Obstruction>,
    last: int,
    k: int,
)
    requires
        cells.len() > 0,
        cells[0].octant as int == k,
        last != k || obs == Seq::<Obstruction>::empty(),
    ensures
        cast_seq(oracle, cells, obs, last) == cast_seq(oracle, cells, Seq::empty(), k),
{
    let c = cells[0];
    assert(obs_for(obs, last, c) =~= obs_for(Seq::empty(), k, c));
}

/// Two runs of cells with the same angles, each within one octant, whose cells
/// the oracle finds equally opaque, get the same opacities.
proof fn lemma_cast_relabel(
    oracle: spec_fn(int, int) -> u64,
    p: Seq<CircleItem>,
    q: Seq<CircleItem>,
    kp: int,
    kq: int,
    obs: Seq<Obstruction>,
    lp: int,
    lq: int,
    i: int,
)
    requires
        p.len() == q.len(),
        forall|j: int|
            0 <= j < p.len() ==> {
                &&& (#[trigger] p[j]).near == q[j].near
                &&& p[j].center == q[j].center
                &&& p[j].far == q[j].far
                &&& p[j].octant as int == kp
                &&& q[j].octant as int == kq
                &&& oracle(p[j].a as int, p[j].b as int) == oracle(q[j].a as int, q[j].b as int)
            },
        (lp == kp) == (lq == kq),
        0 <= i < p.len(),
    ensures
        cast_seq(oracle, p, obs, lp).len() == p.len(),
        cast_seq(oracle, q, obs, lq).len() == q.len(),
        cast_seq(oracle, p, obs, lp)[i].2 == cast_seq(oracle, q, obs, lq)[i].2,
    decreases p.len(),
{
    lemma_cast_len(oracle, p, obs, lp);
    lemma_cast_len(oracle, q, obs, lq);
    let (cp, cq) = (p[0], q[0]);
    let (hp, hq) = (oracle(cp.a as int, cp.b as int), oracle(cq.a as int, cq.b as int));
    assert(obs_for(obs, lp, cp) == obs_for(obs, lq, cq));
    assert(shade(obs_for(obs, lp, cp), cp) == shade(obs_for(obs, lq, cq), cq));
    assert(obs_after(obs, lp, cp, hp) == obs_after(obs, lq, cq, hq));
    if i > 0 {
        let (rp, rq) = (p.drop_first(), q.drop_first());
        assert forall|j: int| 0 <= j < rp.len() implies {
            &&& (#[trigger] rp[j]).near == rq[j].near
            &&& rp[j].center == rq[j].center
            &&& rp[j].far == rq[j].far
            &&& rp[j].octant as int == kp
            &&& rq[j].octant as int == kq
            &&& oracle(rp[j].a as int, rp[j].b as int) == oracle(rq[j].a as int, rq[j].b as int)
        } by {
            assert(rp[j] == p[j + 1] && rq[j] == q[j + 1]);
        }
        lemma_cast_relabel(
            oracle,
            rp,
            rq,
            kp,
            kq,
            obs_after(obs, lp, cp, hp),
            cp.octant as int,
            cq.octant as int,
            i - 1,
        );
        lemma_cast_len(oracle, rp, obs_after(obs, lp, cp, hp), cp.octant as int);
        lemma_cast_len(oracle, rq, obs_after(obs, lq, cq, hq), cq.octant as int);
        assert(cast_seq(oracle, p, obs, lp)[i] == cast_seq(
            oracle,
            rp,
            obs_after(obs, lp, cp, hp),
            cp.octant as int,
        )[i - 1]);
        assert(cast_seq(oracle, q, obs, lq)[i] == cast_seq(
            oracle,
            rq,
            obs_after(obs, lq, cq, hq),
            cq.octant as int,
        )[i - 1]);
    }
}

proof fn lemma_octant_cells_octant(radius: int, k: int)
    requires
        0 <= k < 8,
    ensures
        forall|i: int|
            0 <= i < octant_cells(radius, k).len() ==> (#[trigger] octant_cells(radius, k)[i]).octant
                as int == k,
{
    lemma_sweep_positions(radius, k, 1, 0);
    assert forall|i: int| 0 <= i < octant_cells(radius, k).len() implies (#[trigger] octant_cells(
        radius,
        k,
    )[i]).octant as int == k by {
        let p = sweep_positions(radius, 1, 0)[i];
        assert(octant_cells(radius, k)[i] == cell_of(k, p.0, p.1));
    }
}

/// Each octant of a walk is cast as if it were alone.
proof fn lemma_octants_cast(
    oracle: spec_fn(int, int) -> u64,
    radius: int,
    k: int,
    obs: Seq<Obstruction>,
    last: int,
    j: int,
    m: int,
)
    requires
        0 <= k <= j < 8,
        0 <= m < octant_cells(radius, 0).len(),
        last != k || obs == Seq::<Obstruction>::empty(),
    ensures
        cast_seq(oracle, octants_from(radius, k, 1, 0), obs, last).len() == (8 - k) * octant_cells(
            radius,
            0,
        ).len(),
        cast_seq(oracle, octants_from(radius, k, 1, 0), obs, last)[(j - k) * octant_cells(
            radius,
            0,
        ).len() + m] == cast_seq(oracle, octant_cells(radius, j), Seq::empty(), j)[m],
    decreases j - k,
{
    let n = octant_cells(radius, 0).len() as int;
    lemma_cell_count(radius);
    let bk = octant_cells(radius, k);
    let rest = octants_from(radius, k + 1, 1, 0);
    assert(octants_from(radius, k, 1, 0) == bk + rest);
    assert(bk.len() == n);
    lemma_cast_concat(oracle, bk, rest, obs, last);
    lemma_cast_len(oracle, bk, obs, last);
    lemma_cast_len(oracle, octants_from(radius, k, 1, 0), obs, last);
    lemma_octant_cells_octant(radius, k);
    crate::circle_iter::lemma_octant_count(radius, k);
    crate::circle_iter::lemma_octants_len(radius, k);
    lemma_cast_fresh(oracle, bk, obs, last, k);
    let st = state_after(oracle, bk, obs, last);
    lemma_state_octant(oracle, bk, obs, last, k);
    if j == k {
        assert((j - k) * n + m == m) by (nonlinear_arith)
            requires j == k;
    } else {
        lemma_octants_cast(oracle, radius, k + 1, st.0, st.1, j, m);
        assert((j - k) * n + m == n + ((j - (k + 1)) * n + m)) by (nonlinear_arith);
        assert(0 <= (j - (k + 1)) * n) by (nonlinear_arith)
            requires j - (k + 1) >= 0, n >= 0;
        assert((j - (k + 1)) * n + m < (8 - (k + 1)) * n) by (nonlinear_arith)
            requires 0 <= m < n, j < 8;
    }
}

/// Where the oracle gives the same opacity to the images of a sweep position
/// under all eight octant maps, and the origin is open, every octant of the
/// cast sees the same opacities, position by position: the field is symmetric
/// under the eight reflections and rotations that map the octants onto each other.
pub proof fn lemma_fov_symmetry(oracle: spec_fn(int, int) -> u64, radius: int, k: int, m: int)
    requires
        oracle(0, 0) == 0,
        forall|j: int, r: int, x: int|
            0 <= j < 8 && 1 <= r <= radius && 0 <= x <= r ==> oracle(
                #[trigger] cell_of(j, r, x).a as int,
                cell_of(j, r, x).b as int,
            ) == oracle(cell_of(0, r, x).a as int, cell_of(0, r, x).b as int),
        0 <= k < 8,
        0 <= m < octant_cells(radius, 0).len(),
    ensures
        ({
            let n = octant_cells(radius, 0).len() as int;
            let p = sweep_positions(radius, 1, 0)[m];
            &&& circle_cells(radius)[1 + m] == cell_of(0, p.0, p.1)
            &&& circle_cells(radius)[1 + k * n + m] == cell_of(k, p.0, p.1)
            &&& field_of_view(oracle, radius).len() == circle_cells(radius).len()
            &&& field_of_view(oracle, radius)[1 + k * n + m].2 == field_of_view(oracle, radius)[1
                + m].2
        }),
{
    let n = octant_cells(radius, 0).len() as int;
    let cells = circle_cells(radius);
    let e = Seq::<Obstruction>::empty();
    lemma_walk_blocks(radius, k, m);
    lemma_walk_blocks(radius, 0, m);
    lemma_sweep_positions(radius, k, 1, 0);
    lemma_sweep_positions(radius, 0, 1, 0);
    lemma_cast_len(oracle, cells, e, 0);
    // the origin leaves no obstruction behind
    let c = origin_item();
    assert(cells[0] == c);
    assert(obs_for(e, 0, c) =~= e);
    assert(shade(e, c) == 0);
    assert(obs_after(e, 0, c, oracle(0, 0)) =~= e);
    assert(cells.drop_first() =~= octants_from(radius, 0, 1, 0));
    let tail = cast_seq(oracle, octants_from(radius, 0, 1, 0), e, 0);
    assert(field_of_view(oracle, radius) == seq![(0i32, 0i32, reported(e, 0, c))] + tail);
    lemma_octants_cast(oracle, radius, 0, e, 0, k, m);
    lemma_octants_cast(oracle, radius, 0, e, 0, 0, m);
    assert(0 <= k * n) by (nonlinear_arith)
        requires 0 <= k, 0 <= n;
    assert(k * n + m < 8 * n) by (nonlinear_arith)
        requires 0 <= k < 8, 0 <= m < n;
    assert((k - 0) * n + m == k * n + m);
    assert((0 - 0) * n + m == m);
    assert(field_of_view(oracle, radius)[1 + k * n + m] == tail[k * n + m]);
    assert(field_of_view(oracle, radius)[1 + m] == tail[m]);
    // octant k and octant 0 see the same
    let bk = octant_cells(radius, k);
    let b0 = octant_cells(radius, 0);
    crate::circle_iter::lemma_octant_count(radius, k);
    assert forall|j: int| 0 <= j < bk.len() implies {
        &&& (#[trigger] bk[j]).near == b0[j].near
        &&& bk[j].center == b0[j].center
        &&& bk[j].far == b0[j].far
        &&& bk[j].octant as int == k
        &&& b0[j].octant as int == 0
        &&& oracle(bk[j].a as int, bk[j].b as int) == oracle(b0[j].a as int, b0[j].b as int)
    } by {
        let p = sweep_positions(radius, 1, 0)[j];
        assert(bk[j] == cell_of(k, p.0, p.1));
        assert(b0[j] == cell_of(0, p.0, p.1));
    }
    lemma_cast_relabel(oracle, bk, b0, k, 0, e, k, 0, m);
}

/// With octant 0 walled off (every cell with `0 <= a <= b` and `b >= 1` a
/// wall, every other cell open), every cell of the opposite octant, octant 4,
/// is fully visible: cells `1 + 4n .. 1 + 5n` of the walk, `n` per octant.
pub proof fn lemma_fov_opposite_octant_open(oracle: spec_fn(int, int) -> u64, radius: int, m: int)
    requires
        forall|a: int, b: int|
            #[trigger] oracle(a, b) == if 0 <= a <= b && b >= 1 {
                OPAQUE
            } else {
                0
            },
        radius <= i32::MAX,
        0 <= m < octant_cells(radius, 0).len(),
    ensures
        ({
            let i = 1 + 4 * octant_cells(radius, 0).len() + m;
            &&& circle_cells(radius)[i].octant == 4
            &&& field_of_view(oracle, radius)[i].2 == 0
        }),
{
    let n = octant_cells(radius, 0).len() as int;
    let cells = circle_cells(radius);
    let i = 1 + 4 * n + m;
    lemma_walk_blocks(radius, 4, m);
    lemma_octant_cells_octant(radius, 4);
    crate::circle_iter::lemma_octant_count(radius, 4);
    lemma_sweep_positions(radius, 4, 1, 0);
    let open = |a: int, b: int| 0u64;
    // every cell of octant 4 is open, for both oracles
    assert forall|j: int|
        0 <= j < cells.len() && (#[trigger] cells[j]).octant == cells[i].octant implies oracle(
        cells[j].a as int,
        cells[j].b as int,
    ) == open(cells[j].a as int, cells[j].b as int) by {
        lemma_cell_octant_shape(radius, j);
    }
    lemma_fov_octant_isolation(oracle, open, radius, i);
    lemma_fov_all_clear(open, radius);
    lemma_cast_len(open, cells, Seq::empty(), 0);
}

/// A cell of octant 4 lies at `(-x, -r)` with `r >= 1`.
proof fn lemma_cell_octant_shape(radius: int, j: int)
    requires
        radius <= i32::MAX,
        0 <= j < circle_cells(radius).len(),
        circle_cells(radius)[j].octant == 4,
    ensures
        circle_cells(radius)[j].b < 0,
{
    let n = octant_cells(radius, 0).len() as int;
    lemma_cell_count(radius);
    if j == 0 {
        assert(circle_cells(radius)[0] == origin_item());
    } else {
        let k = (j - 1) / n;
        let m = (j - 1) % n;
        assert(0 <= k < 8 && 0 <= m < n && j == 1 + k * n + m) by (nonlinear_arith)
            requires
                1 <= j < 1 + 8 * n,
                k == (j - 1) / n,
                m == (j - 1) % n,
                n > 0,
        ;
        lemma_walk_blocks(radius, k, m);
        lemma_sweep_positions(radius, k, 1, 0);
        crate::circle_iter::lemma_octant_count(radius, k);
        let p = sweep_positions(radius, 1, 0)[m];
        assert(octant_cells(radius, k)[m] == cell_of(k, p.0, p.1));
        assert(k == 4);
    }
}

/// The oracle is invariant under the reflections of the grid in its axes and
/// in its diagonal, and so under all eight octant maps.
pub open spec fn dihedral(oracle: spec_fn(int, int) -> u64) -> bool {
    forall|a: int, b: int|
        #[trigger] oracle(a, b) == oracle(-a, b) && oracle(a, b) == oracle(a, -b) && oracle(a, b)
            == oracle(b, a)
}

pub open spec fn abs(v: int) -> int {
    if v < 0 {
        -v
    } else {
        v
    }
}

proof fn lemma_cell_abs(k: int, r: int, x: int)
    requires
        0 <= k < 8,
        1 <= r <= i32::MAX,
        0 <= x <= r,
    ensures
        ({
            let c = cell_of(k, r, x);
            let (a, b) = (abs(c.a as int), abs(c.b as int));
            (a == x && b == r) || (a == r && b == x)
        }),
{
}

proof fn lemma_dihedral_cells(oracle: spec_fn(int, int) -> u64, k: int, r: int, x: int)
    requires
        dihedral(oracle),
        0 <= k < 8,
        1 <= r <= i32::MAX,
        0 <= x <= r,
    ensures
        oracle(cell_of(k, r, x).a as int, cell_of(k, r, x).b as int) == oracle(
            cell_of(0, r, x).a as int,
            cell_of(0, r, x).b as int,
        ),
{
    assert(oracle(x, r) == oracle(-x, r) && oracle(x, r) == oracle(x, -r));
    assert(oracle(-x, r) == oracle(-x, -r));
    assert(oracle(r, x) == oracle(x, r));
    assert(oracle(r, x) == oracle(-r, x) && oracle(r, x) == oracle(r, -x));
    assert(oracle(-r, x) == oracle(-r, -x));
}

/// Cell `i > 0` of the walk is sweep position `m` of octant `k`, with
/// `i == 1 + k * n + m` for `n` cells per octant.
proof fn lemma_cell_place(radius: int, i: int) -> (km: (int, int))
    requires
        1 <= i < circle_cells(radius).len(),
    ensures
        ({
            let n = octant_cells(radius, 0).len() as int;
            let (k, m) = km;
            let p = sweep_positions(radius, 1, 0)[m];
            &&& 0 <= k < 8 && 0 <= m < n && i == 1 + k * n + m
            &&& m < sweep_positions(radius, 1, 0).len()
            &&& circle_cells(radius)[i] == cell_of(k, p.0, p.1)
            &&& 1 <= p.0 <= radius && 0 <= p.1 <= p.0
        }),
{
    let n = octant_cells(radius, 0).len() as int;
    lemma_cell_count(radius);
    let k = (i - 1) / n;
    let m = (i - 1) % n;
    assert(0 <= k < 8 && 0 <= m < n && i == 1 + k * n + m) by (nonlinear_arith)
        requires
            1 <= i < 1 + 8 * n,
            k == (i - 1) / n,
            m == (i - 1) % n,
            n > 0,
    ;
    lemma_walk_blocks(radius, k, m);
    lemma_sweep_positions(radius, k, 1, 0);
    crate::circle_iter::lemma_octant_count(radius, k);
    (k, m)
}

/// For an oracle that is invariant under the eight octant maps and open at
/// the origin, a cell and each of its images under those maps (a sign change
/// of either coordinate, or their exchange) get the same opacity, whichever
/// octant yields them; so the two outputs of a cell that two octants share
/// agree, and the last output at each cell is symmetric.
pub proof fn lemma_fov_mirror(oracle: spec_fn(int, int) -> u64, radius: int, i: int, j: int)
    requires
        dihedral(oracle),
        oracle(0, 0) == 0,
        radius <= i32::MAX,
        1 <= i < circle_cells(radius).len(),
        1 <= j < circle_cells(radius).len(),
        ({
            let (ci, cj) = (circle_cells(radius)[i], circle_cells(radius)[j]);
            let (ai, bi, aj, bj) = (abs(ci.a as int), abs(ci.b as int), abs(cj.a as int), abs(
                cj.b as int,
            ));
            (ai == aj && bi == bj) || (ai == bj && bi == aj)
        }),
    ensures
        field_of_view(oracle, radius).len() == circle_cells(radius).len(),
        field_of_view(oracle, radius)[i].2 == field_of_view(oracle, radius)[j].2,
{
    let n = octant_cells(radius, 0).len() as int;
    let ps = sweep_positions(radius, 1, 0);
    let (ki, mi) = lemma_cell_place(radius, i);
    let (kj, mj) = lemma_cell_place(radius, j);
    let (pi, pj) = (ps[mi], ps[mj]);
    lemma_cell_abs(ki, pi.0, pi.1);
    lemma_cell_abs(kj, pj.0, pj.1);
    assert(pi == pj);
    lemma_positions_set(radius, 1, 0);
    assert(mi == mj);
    assert forall|k: int, r: int, x: int|
        0 <= k < 8 && 1 <= r <= radius && 0 <= x <= r implies oracle(
        #[trigger] cell_of(k, r, x).a as int,
        cell_of(k, r, x).b as int,
    ) == oracle(cell_of(0, r, x).a as int, cell_of(0, r, x).b as int) by {
        lemma_dihedral_cells(oracle, k, r, x);
    }
    lemma_fov_symmetry(oracle, radius, ki, mi);
    lemma_fov_symmetry(oracle, radius, kj, mj);
}

} // verus!
