//! The player: a cell of the grid and the direction faced.

use vstd::prelude::*;

verus! {

/// The last column and the last row of the grid.
pub const LAST_CELL: u8 = 31;

/// One of the four directions of the grid. Rows grow downwards.
#[derive(Debug, Clone, Copy, PartialEq, Eq, Structural)]
pub enum Direction {
    UP,
    DOWN,
    LEFT,
    RIGHT,
}

/// What a player is: the direction faced and the cell stood on.
pub struct PlayerView {
    pub direction: Direction,
    pub position: (u8, u8),
}

/// A coordinate held inside the grid.
pub open spec fn clamped(v: u8) -> u8 {
    if v > LAST_CELL {
        LAST_CELL
    } else {
        v
    }
}

/// The cell one step from `position` in `direction`. At an edge of the grid
/// the step stops: it neither leaves the grid nor wraps round.
pub open spec fn step_from(position: (u8, u8), direction: Direction) -> (u8, u8) {
    let (x, y) = position;
    match direction {
        Direction::UP => (x, if y == 0 { 0u8 } else { (y - 1) as u8 }),
        Direction::DOWN => (x, if y >= LAST_CELL { LAST_CELL } else { (y + 1) as u8 }),
        Direction::LEFT => (if x == 0 { 0u8 } else { (x - 1) as u8 }, y),
        Direction::RIGHT => (if x >= LAST_CELL { LAST_CELL } else { (x + 1) as u8 }, y),
    }
}

#[derive(Debug, Clone, Copy)]
pub struct PlayerObj {
    direction: Direction,
    position: (u8, u8),
}

impl View for PlayerObj {
    type V = PlayerView;

    closed spec fn view(&self) -> PlayerView {
        PlayerView { direction: self.direction, position: self.position }
    }
}

impl PlayerObj {
    /// The player never stands outside the grid.
    #[verifier::type_invariant]
    spec fn in_the_grid(self) -> bool {
        self.position.0 <= LAST_CELL && self.position.1 <= LAST_CELL
    }

    pub fn get_direction(&self) -> (r: Direction)
        ensures
            r == self@.direction,
    {
        self.direction
    }

    pub fn get_position(&self) -> (r: (u8, u8))
        ensures
            r == self@.position,
            r.0 <= LAST_CELL,
            r.1 <= LAST_CELL,
    {
        proof {
            use_type_invariant(self);
        }
        self.position
    }

    pub fn set_direction(&mut self, new_direction: Direction)
        ensures
            final(self)@.direction == new_direction,
            final(self)@.position == old(self)@.position,
    {
        proof {
            use_type_invariant(&*self);
        }
        self.direction = new_direction;
    }

    /// The cell one step from the player in `direction`; the player stays.
    pub fn move_direction(&self, direction: Direction) -> (r: (u8, u8))
        ensures
            r == step_from(self@.position, direction),
            r.0 <= LAST_CELL,
            r.1 <= LAST_CELL,
    {
        proof {
            use_type_invariant(self);
        }
        let (x, y) = self.position;
        match direction {
            Direction::UP => (x, if y == 0 { 0 } else { y - 1 }),
            Direction::DOWN => (x, if y >= LAST_CELL { LAST_CELL } else { y + 1 }),
            Direction::LEFT => (if x == 0 { 0 } else { x - 1 }, y),
            Direction::RIGHT => (if x >= LAST_CELL { LAST_CELL } else { x + 1 }, y),
        }
    }

    /// Puts the player on a cell. A coordinate past the last column or row
    /// is held at it.
    pub fn set_position(&mut self, newpos: (u8, u8))
        ensures
            final(self)@.position == (clamped(newpos.0), clamped(newpos.1)),
            final(self)@.direction == old(self)@.direction,
    {
        let x: u8 = if newpos.0 > LAST_CELL { LAST_CELL } else { newpos.0 };
        let y: u8 = if newpos.1 > LAST_CELL { LAST_CELL } else { newpos.1 };
        self.position = (x, y);
    }

    /// A player in the top left corner, facing up.
    pub fn new() -> (r: Self)
        ensures
            r@.direction == Direction::UP,
            r@.position == (0u8, 0u8),
    {
        Self { direction: Direction::UP, position: (0, 0) }
    }
}

/// A step never leaves the grid, and a step against an edge of the grid
/// goes nowhere: up from the top row, left from the first column, down from
/// the last row and right from the last column, the cell stays the same.
pub proof fn lemma_steps_stop_at_edges(position: (u8, u8), direction: Direction)
    requires
        position.0 <= LAST_CELL,
        position.1 <= LAST_CELL,
    ensures
        step_from(position, direction).0 <= LAST_CELL,
        step_from(position, direction).1 <= LAST_CELL,
        position.1 == 0 ==> step_from(position, Direction::UP) == position,
        position.0 == 0 ==> step_from(position, Direction::LEFT) == position,
        position.1 == LAST_CELL ==> step_from(position, Direction::DOWN) == position,
        position.0 == LAST_CELL ==> step_from(position, Direction::RIGHT) == position,
{
}

} // verus!
