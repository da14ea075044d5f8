use vstd::prelude::*;
use crate::components::Position;
use crate::level_map::in_grid;
use crate::world_map::WorldMap;

verus! {

/// A step that the player asks for.
#[derive(Clone, Copy, Debug, PartialEq, Eq, Structural)]
pub enum PlayerCommand {
    MoveUp,
    MoveDown,
    MoveLeft,
    MoveRight,
}

/// The offset that a command moves by; up is towards smaller `y`.
pub open spec fn command_offset(cmd: PlayerCommand) -> (int, int) {
    match cmd {
        PlayerCommand::MoveUp => (0, -1),
        PlayerCommand::MoveDown => (0, 1),
        PlayerCommand::MoveLeft => (-1, 0),
        PlayerCommand::MoveRight => (1, 0),
    }
}

/// Says whether an entity may stand on a cell.
pub trait ObstacleChecker {
    spec fn spec_check(&self, x: int, y: int, z: int) -> bool;

    fn check(&self, x: i32, y: i32, z: i32) -> (r: bool)
        ensures
            r == self.spec_check(x as int, y as int, z as int),
    ;
}

/// The wall tiles of the map's character set.
pub open spec fn is_wall_tile(t: u8) -> bool {
    t == 201 || t == 205 || t == 187 || t == 186 || t == 199 || t == 217 || t == 179
}

/// Lets an entity stand on any cell of the map that is not a wall tile.
pub struct MapObstactChecker {
    map: WorldMap,
}

impl MapObstactChecker {
    #[verifier::type_invariant]
    closed spec fn inv(self) -> bool {
        self.map.wf()
    }

    pub closed spec fn spec_map(self) -> WorldMap {
        self.map
    }

    pub fn new(map: WorldMap) -> (c: Self)
        requires
            map.wf(),
        ensures
            c.spec_map() == map,
    {
        MapObstactChecker { map }
    }
}

impl ObstacleChecker for MapObstactChecker {
    open spec fn spec_check(&self, x: int, y: int, z: int) -> bool {
        in_grid(self.spec_map().spec_size(), x, y, z) && !is_wall_tile(self.spec_map().spec_at(x, y, z))
    }

    fn check(&self, x: i32, y: i32, z: i32) -> (r: bool) {
        proof {
            use_type_invariant(self);
        }
        let (msx, msy, msz) = self.map.size();
        if x < 0 || x as i64 >= msx as i64 {
            return false;
        }
        if y < 0 || y as i64 >= msy as i64 {
            return false;
        }
        if z < 0 || z as i64 >= msz as i64 {
            return false;
        }
        let t = self.map.get((x as u32, y as u32, z as u32));
        !(t == 201 || t == 205 || t == 187 || t == 186 || t == 199 || t == 217 || t == 179)
    }
}

/// Where `p` ends up after `cmd`: on the neighbouring cell if the checker lets
/// it stand there, else where it was. Positions and targets outside
/// `0..=i32::MAX` do not move.
pub open spec fn moved<C: ObstacleChecker>(checker: C, p: Position, cmd: PlayerCommand) -> Position {
    let (dx, dy) = command_offset(cmd);
    let (x, y) = (p.x + dx, p.y + dy);
    if p.x <= i32::MAX && p.y <= i32::MAX && p.z <= i32::MAX && 0 <= x <= i32::MAX && 0 <= y
        <= i32::MAX && checker.spec_check(x, y, p.z as int) {
        Position { x: x as u32, y: y as u32, z: p.z }
    } else {
        p
    }
}

/// Moves the entities that the player controls.
pub struct PlayerControlSystem<C: ObstacleChecker> {
    checker: C,
}

impl<C: ObstacleChecker> PlayerControlSystem<C> {
    pub closed spec fn spec_checker(&self) -> C {
        self.checker
    }

    pub fn new(checker: C) -> (s: Self)
        ensures
            s.spec_checker() == checker,
    {
        PlayerControlSystem { checker }
    }

    /// Where `p` ends up after `cmd`.
    pub fn step(&self, p: Position, cmd: PlayerCommand) -> (r: Position)
        ensures
            r == moved(self.spec_checker(), p, cmd),
    {
        if p.x > i32::MAX as u32 || p.y > i32::MAX as u32 || p.z > i32::MAX as u32 {
            return p;
        }
        let mut x = p.x as i32;
        let mut y = p.y as i32;
        let z = p.z as i32;
        match cmd {
            PlayerCommand::MoveUp => y = y - 1,
            PlayerCommand::MoveDown => {
                if y == i32::MAX {
                    return p;
                }
                y = y + 1;
            },
            PlayerCommand::MoveLeft => x = x - 1,
            PlayerCommand::MoveRight => {
                if x == i32::MAX {
                    return p;
                }
                x = x + 1;
            },
        }
        if x < 0 || y < 0 {
            return p;
        }
        if !self.checker.check(x, y, z) {
            return p;
        }
        Position { x: x as u32, y: y as u32, z: p.z }
    }

    /// Applies `cmd` to every position in `positions`.
    pub fn run(&self, positions: &mut Vec<Position>, cmd: PlayerCommand)
        ensures
            final(positions)@.len() == old(positions)@.len(),
            forall|i: int|
                0 <= i < old(positions)@.len() ==> #[trigger] final(positions)@[i] == moved(
                    self.spec_checker(),
                    old(positions)@[i],
                    cmd,
                ),
    {
        let n = positions.len();
        let mut i: usize = 0;
        while i < n
            invariant
                i <= n,
                n == old(positions)@.len(),
                positions@.len() == n,
                forall|j: int| 0 <= j < i ==> #[trigger] positions@[j] == moved(self.spec_checker(), old(positions)@[j], cmd),
                forall|j: int| i <= j < n ==> #[trigger] positions@[j] == old(positions)@[j],
            decreases n - i,
        {
            let p = self.step(positions[i], cmd);
            positions.set(i, p);
            i = i + 1;
        }
    }
}

} // verus!
