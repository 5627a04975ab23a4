use vstd::prelude::*;

verus! {

/// One of the 8 ray directions on the board (4 orthogonal, 4 diagonal).
/// The same 8 names also index the fixed knight-offset table
/// (`Square::next_sq_knight`), where they are not rays.
#[derive(Debug, Clone, Copy, PartialEq, Eq, Structural)]
pub enum Direction {
    Up,
    UpRight,
    Right,
    DownRight,
    Down,
    DownLeft,
    Left,
    UpLeft,
}

impl Direction {
    /// True for the four diagonal ray directions.
    pub fn is_diag(&self) -> (r: bool)
        ensures
            r == self.spec_is_diag(),
    {
        match self {
            Direction::Up => false,
            Direction::Right => false,
            Direction::Down => false,
            Direction::Left => false,
            _ => true,
        }
    }

    pub open spec fn spec_is_diag(self) -> bool {
        match self {
            Direction::Up => false,
            Direction::Right => false,
            Direction::Down => false,
            Direction::Left => false,
            _ => true,
        }
    }

    /// Index of this direction in the canonical enumeration order.
    pub open spec fn spec_index(self) -> int {
        match self {
            Direction::Up => 0,
            Direction::UpRight => 1,
            Direction::Right => 2,
            Direction::DownRight => 3,
            Direction::Down => 4,
            Direction::DownLeft => 5,
            Direction::Left => 6,
            Direction::UpLeft => 7,
        }
    }

    /// The direction with index `value` in the canonical enumeration order.
    pub fn from_usize(value: usize) -> (r: Direction)
        requires
            value < 8,
        ensures
            r.spec_index() == value,
    {
        match value {
            0 => Direction::Up,
            1 => Direction::UpRight,
            2 => Direction::Right,
            3 => Direction::DownRight,
            4 => Direction::Down,
            5 => Direction::DownLeft,
            6 => Direction::Left,
            _ => Direction::UpLeft,
        }
    }
}

} // verus!
