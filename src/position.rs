use vstd::prelude::*;

verus! {

/// One of the four directions of travel on the grid.
#[derive(Clone, Copy, Debug, PartialEq, Eq, Hash, Structural)]
pub enum Direction {
    North,
    South,
    East,
    West,
}

/// A cell of the grid as (column, row).
///
/// Stepping below zero wraps to `usize::MAX`, which lies outside every grid:
/// the lexer then reads no glyph and the walk halts there.
#[derive(Clone, Copy, Debug, PartialEq, Eq, Hash, Structural)]
pub struct Position(pub usize, pub usize);

/// The column after one step of `delta` (-1, 0 or 1), wrapping at the ends
/// of `usize`.
pub open spec fn shift(v: usize, delta: int) -> usize {
    if delta < 0 {
        if v == 0 { usize::MAX } else { (v - 1) as usize }
    } else if delta > 0 {
        if v == usize::MAX { 0 } else { (v + 1) as usize }
    } else {
        v
    }
}

/// Column offset of one step in `d`.
pub open spec fn delta_x(d: Direction) -> int {
    match d {
        Direction::East => 1,
        Direction::West => -1,
        _ => 0,
    }
}

/// Row offset of one step in `d`; rows grow southwards.
pub open spec fn delta_y(d: Direction) -> int {
    match d {
        Direction::South => 1,
        Direction::North => -1,
        _ => 0,
    }
}

impl Position {
    pub open spec fn spec_step(self, dir: Direction) -> Position {
        Position(shift(self.0, delta_x(dir)), shift(self.1, delta_y(dir)))
    }

    /// The adjacent position in `dir`.
    pub fn step(&self, dir: Direction) -> (r: Self)
        ensures
            r == self.spec_step(dir),
    {
        match dir {
            Direction::North => Position(self.0, self.1.wrapping_sub(1)),
            Direction::South => Position(self.0, self.1.wrapping_add(1)),
            Direction::East => Position(self.0.wrapping_add(1), self.1),
            Direction::West => Position(self.0.wrapping_sub(1), self.1),
        }
    }
}

/// Identity of a basic block: the cell it starts on, the direction in which
/// that cell is entered, and whether the walk is in inverse mode.
#[derive(Clone, Copy, Debug, PartialEq, Eq, Hash, Structural)]
pub struct ExpressionIdentifier {
    pub position: Position,
    pub direction: Direction,
    pub inverse_mode: bool,
}

impl ExpressionIdentifier {
    pub fn new(inverse_mode: bool, position: Position, direction: Direction) -> (r: Self)
        ensures
            r.inverse_mode == inverse_mode,
            r.position == position,
            r.direction == direction,
    {
        ExpressionIdentifier { position, direction, inverse_mode }
    }
}

} // verus!
