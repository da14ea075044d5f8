use rogue_fov::world_map::{MapChunk, WorldMap};

#[test]
fn test_map_update() {
    let mut m = WorldMap::new((10, 10, 10), 0);
    assert_eq!(m.get((0, 0, 0)), 0);

    let c = MapChunk::new((1, 1, 1), (5, 5, 5), 1);
    m.update(c);
    assert_eq!(m.get((0, 0, 0)), 0);
    assert_eq!(m.get((1, 1, 1)), 0);

    m.apply_updates();
    assert_eq!(m.get((1, 1, 1)), 1);
    assert_eq!(m.get((5, 5, 5)), 1);
    assert_eq!(m.get((6, 6, 0)), 0);
}

#[test]
fn later_chunks_win_and_are_clipped() {
    let mut m = WorldMap::new((4, 4, 1), 7);
    m.update(MapChunk::new((0, 0, 0), (2, 2, 1), 1));
    m.update(MapChunk::new((1, 1, 0), (5, 5, 1), 2));
    m.apply_updates();
    assert_eq!(m.get((0, 0, 0)), 1);
    assert_eq!(m.get((1, 0, 0)), 1);
    assert_eq!(m.get((1, 1, 0)), 2);
    assert_eq!(m.get((3, 3, 0)), 2);
    assert_eq!(m.get((3, 0, 0)), 7);
    assert_eq!(m.size(), (4, 4, 1));
    // the queue is empty now
    m.set((3, 3, 0), 9);
    m.apply_updates();
    assert_eq!(m.get((3, 3, 0)), 9);
}

#[test]
fn chunk_cells() {
    let mut c = MapChunk::new((2, 3, 4), (3, 2, 2), 5);
    assert_eq!(c.position(), (2, 3, 4));
    assert_eq!(c.size(), (3, 2, 2));
    assert_eq!(c.get((2, 1, 1)), 5);
    c.set((2, 1, 1), 8);
    assert_eq!(c.get((2, 1, 1)), 8);
    assert_eq!(c.get((1, 1, 1)), 5);
    c.fill(3);
    assert_eq!(c.get((2, 1, 1)), 3);
    assert_eq!(c.get((0, 0, 0)), 3);
    let d = c.clone();
    assert_eq!(d.get((0, 1, 1)), 3);
}
