use vstd::prelude::*;

verus! {

/// One of the four headings the snake can take.
#[derive(Copy, Clone, Debug, PartialEq, Eq, Structural)]
pub enum Direction {
    Up,
    Down,
    Right,
    Left,
}

/// Whether a snake cell is the leading head or a trailing body segment.
#[derive(Copy, Clone, Debug, PartialEq, Eq, Structural)]
pub enum SnakeRole {
    Body,
    Head,
}

/// The state of one grid coordinate. Every coordinate always holds exactly
/// one of these; emptiness is explicit.
#[derive(Copy, Clone, Debug, PartialEq, Eq, Structural)]
pub enum Cell {
    Empty,
    Food(u16),
    Snake(Direction, SnakeRole),
}

/// A coordinate on the board, with `x` in `[1, width]` and `y` in `[1, height]`.
#[derive(Copy, Clone, Debug, PartialEq, Eq, Structural)]
pub struct Position {
    pub x: u16,
    pub y: u16,
}

/// The coordinate one step from `p` in direction `d` (mathematical form).
pub open spec fn step_spec(p: Position, d: Direction) -> Position {
    match d {
        Direction::Up => Position { x: p.x, y: (p.y - 1) as u16 },
        Direction::Down => Position { x: p.x, y: (p.y + 1) as u16 },
        Direction::Right => Position { x: (p.x + 1) as u16, y: p.y },
        Direction::Left => Position { x: (p.x - 1) as u16, y: p.y },
    }
}

impl Position {
    /// Move this position one step in direction `d`.
    pub fn inc(&mut self, d: Direction)
        requires
            2 <= old(self).x < u16::MAX,
            2 <= old(self).y < u16::MAX,
        ensures
            *final(self) == step_spec(*old(self), d),
    {
        match d {
            Direction::Up => self.y = self.y - 1,
            Direction::Down => self.y = self.y + 1,
            Direction::Right => self.x = self.x + 1,
            Direction::Left => self.x = self.x - 1,
        }
    }
}

} // verus!
