use rogue_fov::circle_iter::CircleIter;
use rogue_fov::fov::{GridOpacity, FOV};
use rogue_fov::level_map::LevelMap;
use rogue_fov::shadowcast::{cast, RPAPartialShadowcasting, OPAQUE};

fn grid_with(w: u32, h: u32, walls: &[(u32, u32, u64)], ox: u32, oy: u32) -> GridOpacity {
    let mut cells = vec![0u64; (w * h) as usize];
    for &(x, y, o) in walls {
        cells[(x + y * w) as usize] = o;
    }
    GridOpacity::new(w, h, cells, ox, oy).unwrap()
}

fn opacity_of(out: &[(i32, i32, u64)], a: i32, b: i32) -> Vec<u64> {
    out.iter().filter(|t| t.0 == a && t.1 == b).map(|t| t.2).collect()
}

#[test]
fn circle_iter_test_iter() {
    let w = 16;
    let h = 16;

    let idx = |x: i32, y: i32| (x + y * 16) as usize;

    let base_x = w / 2;
    let base_y = h / 2;

    let mut data = (0..w * h).map(|_| '.').collect::<Vec<_>>();

    let mut ci = CircleIter::new(5);
    while let Some(item) = ci.next() {
        let n = idx(base_x + item.a, base_y + item.b);
        if data[n] == '*' {
            data[n] = '0';
        } else {
            data[n] = '*';
        }
    }

    for y in 0..h {
        let mut line = String::new();
        for x in 0..w {
            let n = idx(x, y);
            line.push(data[n]);
        }
        println!("{}", line);
    }
}

#[test]
fn fov_test_iter() {
    let w = 16i32;
    let h = 16i32;

    let idx = |x: i32, y: i32| (x + y * 16) as usize;

    let base_x = w / 2 - 1;
    let base_y = h / 2 - 1;

    let mut data: Vec<u8> = vec![0; 256];
    data[7 + 5 * 16] = 1;
    data[8 + 5 * 16] = 10;
    assert_eq!(data.len(), (w * h) as usize);
    let mut result = Vec::with_capacity((w * h) as usize);
    result.resize((w * h) as usize, OPAQUE);

    let cells: Vec<u64> = data.iter().map(|&t| t as u64 * (OPAQUE / 10)).collect();
    let oracle = GridOpacity::new(16, 16, cells, base_x as u32, base_y as u32).unwrap();
    let mut it = RPAPartialShadowcasting::new(5, oracle);
    while let Some((x, y, o)) = it.next() {
        let n = idx(base_x + x, base_y + y);
        result[n] = o;
    }

    for y in 0..h {
        let mut line = String::new();
        for x in 0..w {
            let v = result[idx(x, y)];
            let c = if v == 0 {
                ' '
            } else if v <= OPAQUE / 10 {
                '.'
            } else if v <= OPAQUE / 2 {
                '*'
            } else if v <= OPAQUE * 3 / 4 {
                '%'
            } else if v <= OPAQUE {
                '#'
            } else {
                '0'
            };
            line.push(c);
        }
        println!("{}", line);
    }
}

#[test]
fn fixture_shadows_behind_the_two_walls() {
    let mut data = vec![0u64; 256];
    data[7 + 5 * 16] = OPAQUE / 10;
    data[8 + 5 * 16] = OPAQUE;
    let oracle = GridOpacity::new(16, 16, data, 7, 7).unwrap();
    let out = cast(5, oracle);
    // directly behind the light wall (0, -2): a tenth of full opacity
    assert_eq!(opacity_of(&out, 0, -3), vec![OPAQUE, OPAQUE / 10]);
    // behind the full wall (1, -2)
    assert_eq!(opacity_of(&out, 1, -3), vec![OPAQUE]);
    assert_eq!(opacity_of(&out, 3, -3), vec![0, 0]);
    // beside the walls
    assert_eq!(opacity_of(&out, -2, -3), vec![0]);
}

#[test]
fn radius_zero_gives_the_origin_alone() {
    let out = cast(0, grid_with(3, 3, &[(1, 1, OPAQUE)], 1, 1));
    assert_eq!(out, vec![(0, 0, 0)]);
    let out = cast(-4, grid_with(3, 3, &[], 1, 1));
    assert_eq!(out, vec![(0, 0, 0)]);
}

#[test]
fn cell_count_per_radius() {
    let count = |r: i32| {
        let mut it = CircleIter::new(r);
        let mut n = 0;
        while it.next().is_some() {
            n += 1;
        }
        n
    };
    assert_eq!(count(0), 1);
    // ring 1 keeps one position per octant: (1, 1) lies beyond 1.33
    assert_eq!(count(1), 9);
    assert_eq!(count(5), 121);
    assert_eq!(count(10), 409);
    for r in 0..12 {
        assert!(count(r) <= 1 + 8 * (r * (r + 3) / 2));
        assert_eq!(count(r), count(r));
    }
    let a = cast(6, grid_with(20, 20, &[(12, 10, OPAQUE)], 10, 10));
    let b = cast(6, grid_with(20, 20, &[(12, 10, OPAQUE)], 10, 10));
    assert_eq!(a, b);
    assert_eq!(a.len() as i32, count(6));
}

#[test]
fn walk_order_and_spans() {
    let mut it = CircleIter::new(2);
    let o = it.next().unwrap();
    assert_eq!((o.a, o.b, o.octant), (0, 0, 0));
    let c = it.next().unwrap();
    assert_eq!((c.a, c.b, c.octant), (0, 1, 0));
    assert_eq!((c.near.num, c.near.den, c.center.num, c.far.num), (0, 4, 1, 2));
    let c = it.next().unwrap();
    assert_eq!((c.a, c.b), (1, 1));
    assert_eq!(it.octant(), 0);
    let c = it.next().unwrap();
    assert_eq!((c.a, c.b), (0, 2));
    assert_eq!((c.near.num, c.near.den, c.far.num), (0, 6, 2));
    let mut last = c;
    while let Some(x) = it.next() {
        last = x;
    }
    assert_eq!(last.octant, 7);
    assert_eq!(it.next(), None);
}

#[test]
fn all_open_cells_are_visible() {
    let out = cast(7, grid_with(32, 32, &[], 16, 16));
    assert!(out.iter().all(|t| t.2 == 0));
}

#[test]
fn orthogonal_walls_shadow_what_is_behind() {
    let walls = [(4, 3, OPAQUE), (2, 3, OPAQUE), (3, 4, OPAQUE), (3, 2, OPAQUE)];
    let out = cast(3, grid_with(7, 7, &walls, 3, 3));
    for &(a, b) in &[(0, 2), (0, 3), (2, 0), (3, 0), (0, -2), (-3, 0)] {
        assert!(opacity_of(&out, a, b).iter().all(|&o| o > 0), "{} {}", a, b);
    }
    for &(a, b) in &[(1, 1), (2, 2), (-1, -1), (-2, 2), (0, 0)] {
        assert!(opacity_of(&out, a, b).iter().all(|&o| o == 0), "{} {}", a, b);
    }
    // the walls themselves are seen
    assert_eq!(opacity_of(&out, 1, 0), vec![0, 0]);
}

#[test]
fn a_walled_octant_leaves_the_opposite_one_visible() {
    // octant 0 covers a = 0..=r, b = r > 0; wall all of it off at ring 1
    let walls = [(10, 11, OPAQUE), (11, 11, OPAQUE)];
    let out = cast(6, grid_with(21, 21, &walls, 10, 10));
    let mut it = CircleIter::new(6);
    let mut k = 0;
    while let Some(c) = it.next() {
        if c.octant == 4 {
            assert_eq!(out[k].2, 0);
        }
        if c.octant == 0 && c.b >= 2 {
            assert!(out[k].2 > 0);
        }
        k += 1;
    }
}

#[test]
fn symmetric_walls_give_a_symmetric_field() {
    let mut walls = Vec::new();
    for &(a, b) in &[(3, 1), (1, 3), (-3, 1), (1, -3), (3, -1), (-1, 3), (-3, -1), (-1, -3)] {
        walls.push(((10 + a) as u32, (10 + b) as u32, OPAQUE));
    }
    let out = cast(7, grid_with(21, 21, &walls, 10, 10));
    for &(a, b, o) in &out {
        for &(sa, sb) in &[(1, 1), (1, -1), (-1, 1), (-1, -1)] {
            for &(x, y) in &[(a * sa, b * sb), (b * sa, a * sb)] {
                for v in opacity_of(&out, x, y) {
                    if (x, y) != (0, 0) && x != 0 && y != 0 && x.abs() != y.abs() {
                        assert_eq!(v, o, "{} {} vs {} {}", a, b, x, y);
                    }
                }
            }
        }
    }
}

#[test]
fn wall_segment_three_cells_away() {
    let oracle = grid_with(16, 16, &[(8, 11, OPAQUE)], 8, 8);
    let out = cast(6, oracle);
    for &(a, b) in &[(0, 4), (0, 5)] {
        let os = opacity_of(&out, a, b);
        assert!(!os.is_empty());
        assert!(os.iter().all(|&o| o >= OPAQUE / 2));
    }
    assert_eq!(opacity_of(&out, -1, 4), vec![0]);
    assert_eq!(opacity_of(&out, 1, 4), vec![0]);
    assert_eq!(opacity_of(&out, 0, 3), vec![0, 0]);
}

#[test]
fn grid_opacity_needs_every_cell() {
    assert!(GridOpacity::new(4, 4, vec![0; 15], 0, 0).is_none());
    assert!(GridOpacity::new(4, 4, vec![0; 16], 0, 0).is_some());
}

#[test]
fn off_grid_cells_are_walls() {
    // the cell just off the grid is seen, and it shadows what lies beyond it
    let out = cast(3, grid_with(2, 1, &[], 0, 0));
    assert_eq!(opacity_of(&out, 1, 0), vec![0, 0]);
    assert_eq!(opacity_of(&out, 2, 0), vec![0, 0]);
    assert_eq!(opacity_of(&out, 3, 0), vec![OPAQUE, OPAQUE]);
}

#[test]
fn fov_on_an_open_map() {
    let map: LevelMap<u8> = LevelMap::new(9, 9, 0);
    let fov = FOV::new(&map, 4, 4, 0, 2);
    assert_eq!(fov.get_at(4, 4), 0);
    assert_eq!(fov.get_at(5, 5), 0);
    assert_eq!(fov.get_at(4, 6), 0);
    // out of the radius: not reached
    assert_eq!(fov.get_at(0, 0), OPAQUE);
    assert_eq!(fov.get_at(8, 8), OPAQUE);
}

#[test]
fn fov_on_a_walled_map() {
    let mut map: LevelMap<u8> = LevelMap::new(12, 12, 0);
    map.randomize(1, 0);
    let (w, h, l) = map.size();
    assert_eq!((w, h, l), (12, 12, 1));
    for x in 0..w {
        assert_eq!(*map.get_at(x, 0, 0), 1);
        assert_eq!(*map.get_at(x, h - 1, 0), 1);
    }
    for y in 0..h {
        assert_eq!(*map.get_at(0, y, 0), 1);
        assert_eq!(*map.get_at(w - 1, y, 0), 1);
        for x in 0..w {
            assert!(*map.get_at(x, y, 0) <= 1);
        }
    }
    let fov = FOV::new(&map, 0, 0, 0, 3);
    assert_eq!(fov.get_at(0, 0), 0);
    // the corner's two neighbours are walls, and they are seen
    assert_eq!(fov.get_at(1, 0), 0);
    assert_eq!(fov.get_at(0, 1), 0);
    // behind the wall along the top edge
    assert_eq!(fov.get_at(2, 0), OPAQUE);
}

#[test]
fn a_fully_walled_octant_leaves_the_opposite_one_visible() {
    let mut walls = Vec::new();
    for b in 1..=10i32 {
        for a in 0..=b {
            walls.push(((10 + a) as u32, (10 + b) as u32, OPAQUE));
        }
    }
    let out = cast(8, grid_with(21, 21, &walls, 10, 10));
    let mut it = CircleIter::new(8);
    let mut k = 0;
    let mut seen = 0;
    while let Some(c) = it.next() {
        if c.octant == 4 {
            assert!(c.a <= 0 && c.b <= -1);
            assert_eq!(out[k].2, 0);
            seen += 1;
        }
        k += 1;
    }
    assert!(seen > 0);
}
