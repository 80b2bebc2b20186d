use vstd::prelude::*;
use crate::consts::CHUNK_LENGTH;

verus! {

/// A 2-D integer vector, used both for cell positions and for velocities.
#[derive(Clone, Copy, PartialEq, Eq, Structural, Debug)]
pub struct Vec2i {
    pub x: i32,
    pub y: i32,
}

impl Vec2i {
    pub fn new(x: i32, y: i32) -> (r: Vec2i)
        ensures
            r.x == x,
            r.y == y,
    {
        Vec2i { x, y }
    }
}

/// Material kind of a cell.
#[derive(Clone, Copy, PartialEq, Eq, Structural, Debug)]
pub enum State {
    Void,
    Powder,
    Liquid,
    Solid,
}

/// One simulated grid cell: material state plus minimal physical attributes.
///
/// A `Void` atom's `fall_velocity` and `velocity` carry no meaning; the
/// update rules never read them as obstacles.
#[derive(Clone, Copy, Debug)]
pub struct Atom {
    pub state: State,
    /// Downward speed in cells per tick; 0 when at rest.
    pub fall_velocity: u8,
    /// Lateral motion; `None` is the canonical "no lateral motion".
    pub velocity: Option<Vec2i>,
    /// Stamp of the tick in which this cell last moved.
    pub updated_at: u64,
}

impl Atom {
    /// The empty cell.
    pub open spec fn void_spec() -> Atom {
        Atom { state: State::Void, fall_velocity: 0, velocity: None, updated_at: 0 }
    }

    pub fn void() -> (r: Atom)
        ensures
            r == Atom::void_spec(),
    {
        Atom { state: State::Void, fall_velocity: 0, velocity: None, updated_at: 0 }
    }

    /// This atom with its move stamp set to `tick`.
    pub open spec fn stamped(self, tick: u64) -> Atom {
        Atom { state: self.state, fall_velocity: self.fall_velocity, velocity: self.velocity, updated_at: tick }
    }

    /// This atom with its fall velocity replaced.
    pub open spec fn with_fall_velocity(self, v: u8) -> Atom {
        Atom { state: self.state, fall_velocity: v, velocity: self.velocity, updated_at: self.updated_at }
    }

    /// This atom with its lateral velocity replaced.
    pub open spec fn with_velocity(self, v: Option<Vec2i>) -> Atom {
        Atom { state: self.state, fall_velocity: self.fall_velocity, velocity: v, updated_at: self.updated_at }
    }

    /// A fresh, resting atom of the given material.
    pub fn of_state(state: State) -> (r: Atom)
        ensures
            r == (Atom { state, fall_velocity: 0, velocity: None, updated_at: 0 }),
    {
        Atom { state, fall_velocity: 0, velocity: None, updated_at: 0 }
    }
}

/// Flattening of a 2-D position into an index of a chunk's row-major cell array.
pub trait D1 {
    spec fn d1_in_bounds(&self) -> bool;

    spec fn d1_spec(&self) -> int;

    fn d1(&self) -> (r: usize)
        requires
            self.d1_in_bounds(),
        ensures
            r == self.d1_spec(),
    ;
}

impl D1 for Vec2i {
    open spec fn d1_in_bounds(&self) -> bool {
        &&& 0 <= self.x < CHUNK_LENGTH as int
        &&& 0 <= self.y < CHUNK_LENGTH as int
    }

    open spec fn d1_spec(&self) -> int {
        self.y as int * CHUNK_LENGTH as int + self.x as int
    }

    /// Index of this local position in a chunk's atom array.
    fn d1(&self) -> (r: usize) {
        (self.y * (CHUNK_LENGTH as i32) + self.x) as usize
    }
}

} // verus!
