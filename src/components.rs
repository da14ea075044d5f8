use vstd::prelude::*;

verus! {

/// The identity of an entity.
#[derive(Clone, Copy, Debug, PartialEq, Eq, Hash, Structural)]
pub struct EntityId(pub u64);

/// Where an entity stands.
#[derive(Clone, Copy, Debug, PartialEq, Eq, Structural)]
pub struct Position {
    pub x: u32,
    pub y: u32,
    pub z: u32,
}

impl Position {
    pub fn new(x: u32, y: u32, z: u32) -> (p: Self)
        ensures
            p == (Position { x, y, z }),
    {
        Position { x, y, z }
    }
}

/// Marks the entity that the player's commands move.
#[derive(Clone, Copy, Debug, PartialEq, Eq, Structural)]
pub struct PlayerControlled;

impl Default for PlayerControlled {
    fn default() -> (r: Self)
        ensures
            r == PlayerControlled,
    {
        PlayerControlled
    }
}

/// Marks an entity that is drawn, and with which mark.
#[derive(Clone, Copy, Debug, PartialEq, Eq, Structural)]
pub struct Visible {
    pub mark: u8,
}

impl Default for Visible {
    fn default() -> (r: Self)
        ensures
            r.mark == 1,
    {
        Visible { mark: 1 }
    }
}

} // verus!
