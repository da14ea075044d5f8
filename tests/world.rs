use rogue_fov::components::{Position, Visible, PlayerControlled, EntityId};
use rogue_fov::config::{MapEntityCfg, UiMapTileCfg};
use rogue_fov::level_map::LevelMap;
use rogue_fov::lighting::{Glow, Light, LightingSystem, System, WorldData};
use rogue_fov::player_control::{MapObstactChecker, PlayerCommand, PlayerControlSystem};
use rogue_fov::render::{render_view, Effect, RenderingSystem, Tile, TilesIter, View};
use rogue_fov::shadowcast::OPAQUE;
use rogue_fov::ui::{put_str, tile_for, TileMap, TileVariant};
use rogue_fov::world_map::WorldMap;
use rogue_fov::world_render::{self, render_map, NormalizedView, RenderedWorldView};

#[test]
fn tile_test_iter() {
    let mut tiles = Vec::new();
    tiles.push(Tile::new(0));
    tiles.push(Tile::new(1));
    tiles.push(Tile::new(2));
    tiles.push(Tile::new(3));

    let mut it = TilesIter::new((2, 2, 2), &tiles);

    fn check(t: Option<(u32, u32, u32, &Tile)>, x: u32, y: u32, z: u32, g: u8) -> bool {
        if let Some((tx, ty, tz, &Tile { ground: tg, .. })) = t {
            tx == x && ty == y && tz == z && tg == g
        } else {
            false
        }
    }

    assert_eq!(check(it.next(), 0, 0, 0, 0), true);
    assert_eq!(check(it.next(), 1, 0, 0, 1), true);
    assert_eq!(check(it.next(), 0, 1, 0, 2), true);
    assert_eq!(check(it.next(), 1, 1, 0, 3), true);
}

#[test]
fn tiles_iter_moves_to_the_next_level_and_ends() {
    let tiles: Vec<Tile> = (0..5).map(|g| Tile::new(g)).collect();
    let mut it = TilesIter::new((2, 2, 2), &tiles);
    for _ in 0..4 {
        it.next();
    }
    let t = it.next().unwrap();
    assert_eq!((t.0, t.1, t.2, t.3.ground), (0, 0, 1, 4));
    assert!(it.next().is_none());
}

#[test]
fn effects_accumulate() {
    let mut t = Tile::new(7);
    assert!(t.effects.is_none());
    t.add_effect(Effect::Marked(2));
    t.add_effect(Effect::Lit(5));
    assert_eq!(t.ground, 7);
    assert_eq!(t.effects, Some(vec![Effect::Marked(2), Effect::Lit(5)]));
}

#[test]
fn render_view_clips_and_marks() {
    let mut map = WorldMap::new((5, 4, 1), 0);
    map.set((3, 2, 0), 9);
    let view = View { position: (2, 1, 0), size: (10, 2, 1) };
    let marks = vec![
        (Position::new(3, 2, 0), Visible { mark: 4 }),
        (Position::new(0, 0, 0), Visible::default()),
        (Position::new(3, 2, 0), Visible::default()),
    ];
    let r = render_view(&map, &view, &marks);
    assert_eq!(r.size(), (3, 2, 1));
    let t = r.get(1, 1, 0);
    assert_eq!(t.ground, 9);
    assert_eq!(t.effects, Some(vec![Effect::Marked(4), Effect::Marked(1)]));
    assert_eq!(r.get(0, 0, 0).ground, 0);
    assert!(r.get(0, 0, 0).effects.is_none());
    let mut it = r.iter();
    let mut n = 0;
    while let Some((x, y, z, t)) = it.next() {
        assert_eq!(z, 0);
        assert_eq!(t.ground, if (x, y) == (1, 1) { 9 } else { 0 });
        n += 1;
    }
    assert_eq!(n, 6);
    // a view that starts past the map renders nothing
    let far = View { position: (9, 9, 0), size: (3, 3, 1) };
    assert_eq!(render_view(&map, &far, &marks).size(), (0, 0, 1));
}

#[test]
fn rendering_system_keeps_the_last_render() {
    let mut s = RenderingSystem::new(None, View::default());
    assert!(s.last_rendered_view().is_none());
    let map = WorldMap::new((20, 20, 1), 1);
    s.run(&map, &vec![]);
    let r = s.last_rendered_view().as_ref().unwrap();
    assert_eq!(r.size(), (10, 10, 1));
    assert_eq!(r.get(9, 9, 0).ground, 1);
}

#[test]
fn player_moves_unless_blocked() {
    let mut map = WorldMap::new((4, 4, 1), 0);
    map.set((2, 1, 0), 205);
    let sys = PlayerControlSystem::new(MapObstactChecker::new(map));
    let p = Position::new(1, 1, 0);
    assert_eq!(sys.step(p, PlayerCommand::MoveDown), Position::new(1, 2, 0));
    assert_eq!(sys.step(p, PlayerCommand::MoveUp), Position::new(1, 0, 0));
    assert_eq!(sys.step(p, PlayerCommand::MoveLeft), Position::new(0, 1, 0));
    // a wall tile
    assert_eq!(sys.step(p, PlayerCommand::MoveRight), p);
    // off the map
    let corner = Position::new(0, 0, 0);
    assert_eq!(sys.step(corner, PlayerCommand::MoveUp), corner);
    assert_eq!(sys.step(corner, PlayerCommand::MoveLeft), corner);
    let mut ps = vec![p, corner, Position::new(3, 3, 0)];
    sys.run(&mut ps, PlayerCommand::MoveDown);
    assert_eq!(ps, vec![Position::new(1, 2, 0), Position::new(0, 1, 0), Position::new(3, 3, 0)]);
}

#[test]
fn components_defaults() {
    assert_eq!(Visible::default().mark, 1);
    assert_eq!(PlayerControlled::default(), PlayerControlled);
    assert_eq!(EntityId(3), EntityId(3));
    let p = Position::new(1, 2, 3);
    assert_eq!((p.x, p.y, p.z), (1, 2, 3));
}

#[test]
fn world_view_normalizes_and_renders() {
    let v = world_render::View::new(-3, 2, 0, 4, 3);
    let n = v.normalize();
    let mut map: LevelMap<u8> = LevelMap::new(3, 6, 0);
    map.randomize(1, 0);
    let r = render_map(&map, &v);
    assert_eq!(r.tiles_count(), 3 * 3);
    let mut it = r.iter();
    while let Some((x, y, _, t)) = it.next() {
        assert_eq!(t.ground, *map.get_at(x, y + 2, 0));
    }
    let tiles: Vec<Tile> = (0..6).map(|g| Tile::new(g)).collect();
    assert_eq!(RenderedWorldView::get_abs_mut(&tiles, (3, 2), &n, 2, 3, 0), Some(5));
    assert_eq!(RenderedWorldView::get_abs_mut(&tiles, (3, 2), &n, 3, 3, 0), None);
    assert_eq!(RenderedWorldView::get_abs_mut(&tiles, (3, 2), &n, 0, 1, 0), None);
    assert_eq!(RenderedWorldView::get_abs_mut(&tiles, (3, 2), &n, 0, 2, 1), None);
    let nv = NormalizedView::new(1, 1, 0, 2, 2);
    assert_eq!(RenderedWorldView::get_abs_mut(&tiles, (2, 2), &nv, 2, 2, 0), Some(3));
}

#[test]
fn put_str_stops_at_the_edge() {
    let mut m = TileMap::new((5, 2));
    put_str(&mut m, 2, 1, b"abcdef");
    assert_eq!(m.size(), (5, 2));
    let mut m2 = TileMap::new((5, 2));
    m2.set_tile(2, 1, tile_for(TileVariant::Simple(b'a')));
    m2.set_tile(3, 1, tile_for(TileVariant::Simple(b'b')));
    m2.set_tile(4, 1, tile_for(TileVariant::Simple(b'c')));
    for y in 0..2 {
        for x in 0..5 {
            assert_eq!(m.get_tile(x, y), m2.get_tile(x, y));
        }
    }
    assert_eq!(m.get_tile(2, 1).n, b'a');
    assert_eq!(m.get_tile(1, 1), TileMap::new((1, 1)).get_tile(0, 0));
    let cfg = UiMapTileCfg::default();
    assert_eq!(cfg.tile_n, 0);
    let t = tile_for(TileVariant::Entity(UiMapTileCfg { tile_n: 7, fg: [1, 2, 3, 4], bg: [0; 4] }));
    assert_eq!((t.n, t.fg_color), (7, [1, 2, 3, 4]));
    let e = MapEntityCfg::new(5, [9, 9, 9, 9]);
    assert_eq!((e.tile(), e.fg_color()), (5, [9, 9, 9, 9]));
}

#[test]
fn lights_get_their_light_maps() {
    let mut map: LevelMap<u8> = LevelMap::new(7, 7, 0);
    map.randomize(1, 0);
    let mut data = WorldData {
        map,
        lights: vec![Light { position: Position::new(3, 3, 0), glow: Glow::new(2) }],
    };
    let mut sys = LightingSystem;
    sys.update(&mut data);
    let g = &data.lights[0].glow;
    assert_eq!(g.light_map_size, (5, 5));
    assert_eq!(g.light_map.len(), 25);
    // the light's own cell is lit
    assert_eq!(g.get_at(2, 2), 0);
    // corners of the square lie beyond the radius
    assert_eq!(g.get_at(0, 0), OPAQUE);
}

#[test]
fn randomize_scatters_blocks() {
    let mut map: LevelMap<u8> = LevelMap::new(40, 40, 0);
    map.randomize(1, 0);
    let mut inner = 0;
    for y in 1..39 {
        for x in 1..39 {
            if *map.get_at(x, y, 0) == 1 {
                inner += 1;
            }
        }
    }
    assert!(inner > 16);
}

#[test]
fn lights_that_cannot_be_lit_keep_their_maps() {
    let map: LevelMap<u8> = LevelMap::new(7, 7, 0);
    let mut data = WorldData {
        map,
        lights: vec![
            Light { position: Position::new(3, 3, 5), glow: Glow::new(2) },
            Light { position: Position::new(3, 3, 0), glow: Glow::new(1) },
        ],
    };
    LightingSystem.update(&mut data);
    assert_eq!(data.lights[0].glow.light_map_size, (0, 0));
    assert!(data.lights[0].glow.light_map.is_empty());
    assert_eq!(data.lights[1].glow.light_map_size, (3, 3));
    // the corners lie beyond the radius plus its slack
    let o = OPAQUE;
    assert_eq!(data.lights[1].glow.light_map, vec![o, 0, o, 0, 0, 0, o, 0, o]);
}

#[test]
fn level_map_set_and_fill() {
    let mut map: LevelMap<u8> = LevelMap::new(3, 2, 0);
    map.set_at(2, 1, 0, 4);
    assert_eq!(*map.get_at(2, 1, 0), 4);
    assert_eq!(*map.get_at(1, 1, 0), 0);
    map.fill(6);
    assert_eq!(*map.get_at(2, 1, 0), 6);
    assert_eq!(*map.get_at(0, 0, 0), 6);
}
