//! The player and the ways it moves.

use vstd::prelude::*;
use crate::config::HEIGHT;

verus! {

#[derive(Clone, Copy, Debug, PartialEq, Eq, Structural)]
pub enum HDirection {
    Left,
    Right,
}

#[derive(Clone, Copy, Debug, PartialEq, Eq, Structural)]
pub enum VDirection {
    Up,
    Down,
}

impl HDirection {
    pub open spec fn opposite_spec(self) -> HDirection {
        match self {
            HDirection::Left => HDirection::Right,
            HDirection::Right => HDirection::Left,
        }
    }

    pub fn opposite(&self) -> (r: Self)
        ensures
            r == self.opposite_spec(),
            r != *self,
    {
        match self {
            HDirection::Left => HDirection::Right,
            HDirection::Right => HDirection::Left,
        }
    }
}

/// What the player was asked to do during the current tick.
#[derive(Clone, Copy, Debug, PartialEq, Eq, Structural)]
pub enum PlayerState {
    Idle,
    Moving(HDirection),
    Dashing(HDirection),
    Flying(VDirection),
}

impl Default for PlayerState {
    fn default() -> (s: Self)
        ensures
            s == PlayerState::Idle,
    {
        PlayerState::Idle
    }
}

#[derive(Clone, Copy, Debug, PartialEq, Eq, Structural)]
pub struct Player {
    pub x: usize,
    pub y: usize,
    pub move_state: PlayerState,
}

impl Default for Player {
    fn default() -> (p: Self)
        ensures
            p.x == 0,
            p.y == 0,
            p.move_state == PlayerState::Idle,
    {
        Player { x: 0, y: 0, move_state: PlayerState::Idle }
    }
}

impl Player {
    pub fn position(&self) -> (p: (usize, usize))
        ensures
            p == (self.x, self.y),
    {
        (self.x, self.y)
    }

    /// Height above the bottom row, the ground.
    pub open spec fn altitude_spec(&self) -> int {
        HEIGHT - 1 - self.y
    }

    pub fn altitude(&self) -> (a: usize)
        requires
            self.y < HEIGHT,
        ensures
            a == self.altitude_spec(),
    {
        HEIGHT - 1 - self.y
    }
}

} // verus!
