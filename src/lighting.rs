use vstd::prelude::*;
use crate::components::Position;
use crate::fov::{MapOpacity, map_opacity_fn, opacity_field, paint_field};
use crate::level_map::LevelMap;
use crate::shadowcast::{cast, field_of_view, opacity_fn};

verus! {

/// The largest radius of a light: its light map of `(2r + 1)^2` cells stays
/// well within `u32`.
pub const MAX_GLOW_RADIUS: u32 = 30000;

/// An omnidirectional light source and the opacity of the square around it,
/// `2 * radius + 1` cells on a side with the light at its center.
pub struct Glow {
    pub radius: u32,
    pub light_map_size: (u32, u32),
    pub light_map: Vec<u64>,
}

/// The light map of a light of radius `r` at `(x, y)` on level `z` of `map`.
pub open spec fn light_map_of(map: LevelMap<u8>, x: int, y: int, z: int, r: int) -> Seq<u64> {
    opacity_field(field_of_view(map_opacity_fn(map, x, y, z), r), 2 * r + 1, 2 * r + 1, r, r)
}

impl Glow {
    /// A light with an empty light map.
    pub fn new(radius: u32) -> (g: Self)
        ensures
            g.radius == radius,
            g.light_map_size == (0u32, 0u32),
            g.light_map@.len() == 0,
    {
        Glow { radius, light_map_size: (0, 0), light_map: Vec::new() }
    }

    pub open spec fn wf(&self) -> bool {
        self.light_map@.len() == self.light_map_size.0 * self.light_map_size.1
    }

    /// The opacity at `(x, y)` of the light map.
    pub fn get_at(&self, x: u32, y: u32) -> (r: u64)
        requires
            self.wf(),
            x < self.light_map_size.0,
            y < self.light_map_size.1,
        ensures
            r == self.light_map@[x + y * self.light_map_size.0],
    {
        let w = self.light_map_size.0 as usize;
        let len = self.light_map.len();
        proof {
            let h = self.light_map_size.1 as int;
            assert(0 <= y * w <= x + y * w < w * h) by (nonlinear_arith)
                requires 0 <= x < w, 0 <= y < h;
        }
        self.light_map[x as usize + (y as usize) * w]
    }

    /// A light of radius `radius` at `p`, with the light map it casts on `map`.
    pub fn lit(map: &LevelMap<u8>, p: Position, radius: u32) -> (g: Self)
        requires
            map.wf(),
            p.z < map.spec_size().2,
            radius <= MAX_GLOW_RADIUS,
        ensures
            g.wf(),
            g.radius == radius,
            g.light_map_size == ((2 * radius + 1) as u32, (2 * radius + 1) as u32),
            g.light_map@ == light_map_of(*map, p.x as int, p.y as int, p.z as int, radius as int),
    {
        let side = 2 * radius + 1;
        let oracle = MapOpacity::new(map, p.x, p.y, p.z);
        let outs = cast(radius as i32, oracle);
        proof {
            assert(opacity_fn(oracle) =~= map_opacity_fn(*map, p.x as int, p.y as int, p.z as int));
            assert(side * side <= 60001 * 60001) by (nonlinear_arith)
                requires side <= 60001;
        }
        let light_map = paint_field(&outs, side, side, radius, radius);
        Glow { radius, light_map_size: (side, side), light_map }
    }
}

/// A light source standing somewhere.
pub struct Light {
    pub position: Position,
    pub glow: Glow,
}

/// What the world's systems work on.
pub struct WorldData {
    pub map: LevelMap<u8>,
    pub lights: Vec<Light>,
}

/// A step of the world's simulation.
pub trait System {
    fn update(&mut self, data: &mut WorldData);
}

/// Light `l` can be lit on `map`: it stands on one of the map's levels and
/// its radius is at most [`MAX_GLOW_RADIUS`].
pub open spec fn can_light(map: LevelMap<u8>, l: Light) -> bool {
    l.position.z < map.spec_size().2 && l.glow.radius <= MAX_GLOW_RADIUS
}

/// `after` is `before` with the light map that it casts on `map`, a square of
/// `2r + 1` cells on a side; a light that cannot be lit is left as it was.
pub open spec fn relit(map: LevelMap<u8>, before: Light, after: Light) -> bool {
    let p = before.position;
    let r = before.glow.radius;
    &&& after.position == p
    &&& after.glow.radius == r
    &&& if can_light(map, before) {
        &&& after.glow.wf()
        &&& after.glow.light_map_size == ((2 * r + 1) as u32, (2 * r + 1) as u32)
        &&& after.glow.light_map@ == light_map_of(map, p.x as int, p.y as int, p.z as int, r as int)
    } else {
        &&& after.glow.light_map_size == before.glow.light_map_size
        &&& after.glow.light_map@ == before.glow.light_map@
    }
}

impl Glow {
    /// A copy of the light, light map included.
    pub fn copy(&self) -> (g: Self)
        ensures
            g.radius == self.radius,
            g.light_map_size == self.light_map_size,
            g.light_map@ == self.light_map@,
    {
        Glow { radius: self.radius, light_map_size: self.light_map_size, light_map: self.light_map.clone() }
    }
}

/// Recomputes the light map of every light.
pub struct LightingSystem;

impl LightingSystem {
    /// Gives every light that can be lit the light map that it casts from its
    /// position; the others keep theirs.
    pub fn light(&self, data: &mut WorldData)
        requires
            old(data).map.wf(),
        ensures
            final(data).map == old(data).map,
            final(data).lights@.len() == old(data).lights@.len(),
            forall|i: int|
                0 <= i < old(data).lights@.len() ==> relit(
                    old(data).map,
                    old(data).lights@[i],
                    #[trigger] final(data).lights@[i],
                ),
    {
        let n = data.lights.len();
        let (_, _, levels) = data.map.size();
        let mut lit: Vec<Light> = Vec::new();
        let mut i: usize = 0;
        while i < n
            invariant
                data.map == old(data).map,
                data.map.wf(),
                levels == data.map.spec_size().2,
                data.lights@ == old(data).lights@,
                n == data.lights@.len(),
                i <= n,
                lit@.len() == i,
                forall|k: int|
                    0 <= k < i ==> relit(old(data).map, old(data).lights@[k], #[trigger] lit@[k]),
            decreases n - i,
        {
            let p = data.lights[i].position;
            let r = data.lights[i].glow.radius;
            let glow = if p.z < levels && r <= MAX_GLOW_RADIUS {
                Glow::lit(&data.map, p, r)
            } else {
                data.lights[i].glow.copy()
            };
            lit.push(Light { position: p, glow });
            i = i + 1;
        }
        data.lights = lit;
    }
}

impl System for LightingSystem {
    /// Lights every light that can be lit, as [`LightingSystem::light`] does;
    /// on a map that does not hold one value per cell it changes nothing.
    fn update(&mut self, data: &mut WorldData)
        ensures
            final(data).map == old(data).map,
            final(data).lights@.len() == old(data).lights@.len(),
            old(data).map.wf() ==> forall|i: int|
                0 <= i < old(data).lights@.len() ==> relit(
                    old(data).map,
                    old(data).lights@[i],
                    #[trigger] final(data).lights@[i],
                ),
            !old(data).map.wf() ==> final(data).lights@ == old(data).lights@,
    {
        if !data.map.is_wf() {
            return;
        }
        self.light(data);
    }
}

} // verus!
