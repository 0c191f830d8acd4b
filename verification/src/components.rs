//! The kinematic state of a room: a rectangle with a center position,
//! a velocity, an accumulated acceleration, and an immutable size.

use vstd::prelude::*;
use crate::fixed::LIM;

verus! {

/// A two-component vector of fixed-point scalars.
#[derive(Clone, Copy, PartialEq, Eq, Structural, Debug)]
pub struct Vec2 {
    pub x: i64,
    pub y: i64,
}

impl Vec2 {
    pub open spec fn is_zero(self) -> bool {
        self.x == 0 && self.y == 0
    }

    /// Components within the coordinate magnitude bound.
    pub open spec fn bounded(self) -> bool {
        -LIM <= self.x <= LIM && -LIM <= self.y <= LIM
    }

    pub fn zero() -> (v: Vec2)
        ensures
            v.is_zero(),
    {
        Vec2 { x: 0, y: 0 }
    }

    pub fn new(x: i64, y: i64) -> (v: Vec2)
        ensures
            v.x == x,
            v.y == y,
    {
        Vec2 { x, y }
    }
}

/// Center of a room's bounding rectangle.
#[derive(Clone, Copy, PartialEq, Eq, Structural, Debug)]
pub struct Position(pub Vec2);

/// Rate of change of a room's position.
#[derive(Clone, Copy, PartialEq, Eq, Structural, Debug)]
pub struct Velocity(pub Vec2);

/// Repulsion accumulated for a room within the current tick.
#[derive(Clone, Copy, PartialEq, Eq, Structural, Debug)]
pub struct Acceleration(pub Vec2);

/// Width and height of a room's bounding rectangle; immutable after spawn.
#[derive(Clone, Copy, PartialEq, Eq, Structural, Debug)]
pub struct Size(pub Vec2);

/// One room record: the whole kinematic state of one spawned room.
#[derive(Clone, Copy, PartialEq, Eq, Structural, Debug)]
pub struct Room {
    pub position: Position,
    pub velocity: Velocity,
    pub acceleration: Acceleration,
    pub size: Size,
}

impl Room {
    /// Size components non-negative and bounded. A zero size is allowed:
    /// such a room never overlaps anything.
    pub open spec fn size_ok(self) -> bool {
        &&& 0 <= self.size.0.x <= LIM
        &&& 0 <= self.size.0.y <= LIM
    }

    /// Position within bounds, and a well-formed size.
    pub open spec fn wf(self) -> bool {
        &&& self.position.0.bounded()
        &&& self.size_ok()
    }

    /// A freshly spawned room: at rest at its spawn position.
    pub fn new(position: Position, size: Size) -> (r: Room)
        ensures
            r.position == position,
            r.size == size,
            r.velocity.0.is_zero(),
            r.acceleration.0.is_zero(),
    {
        Room {
            position,
            velocity: Velocity(Vec2 { x: 0, y: 0 }),
            acceleration: Acceleration(Vec2 { x: 0, y: 0 }),
            size,
        }
    }

    /// Runtime check of `wf`, for callers outside verified code.
    pub fn is_wf(&self) -> (r: bool)
        ensures
            r == self.wf(),
    {
        -LIM <= self.position.0.x && self.position.0.x <= LIM
            && -LIM <= self.position.0.y && self.position.0.y <= LIM
            && 0 <= self.size.0.x && self.size.0.x <= LIM
            && 0 <= self.size.0.y && self.size.0.y <= LIM
    }
}

/// Every room in the store is well formed.
pub open spec fn rooms_wf(s: Seq<Room>) -> bool {
    forall|i: int| 0 <= i < s.len() ==> #[trigger] s[i].wf()
}

/// Every room in the store has a well-formed size. Sizes are immutable
/// after spawn, so this holds across every phase of a tick.
pub open spec fn sizes_ok(s: Seq<Room>) -> bool {
    forall|i: int| 0 <= i < s.len() ==> #[trigger] s[i].size_ok()
}

/// Runtime check of `rooms_wf`.
pub fn rooms_are_wf(rooms: &Vec<Room>) -> (r: bool)
    ensures
        r == rooms_wf(rooms@),
{
    let mut k: usize = 0;
    while k < rooms.len()
        invariant
            0 <= k <= rooms@.len(),
            forall|i: int| 0 <= i < k ==> #[trigger] rooms@[i].wf(),
        decreases rooms@.len() - k,
    {
        if !rooms[k].is_wf() {
            return false;
        }
        k = k + 1;
    }
    true
}

} // verus!
