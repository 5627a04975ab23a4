use vstd::prelude::*;

verus! {

/// The two players. `White` is the default starting side to move.
#[derive(Debug, Clone, Copy, PartialEq, Eq, Structural)]
pub enum Side {
    White,
    Black,
}

impl Side {
    /// The opponent of `self`; an involution.
    #[inline]
    pub fn other(self) -> (r: Side)
        ensures
            r == self.spec_other(),
    {
        match self {
            Side::White => Side::Black,
            Side::Black => Side::White,
        }
    }

    pub open spec fn spec_other(self) -> Side {
        match self {
            Side::White => Side::Black,
            Side::Black => Side::White,
        }
    }
}

impl Side {
    /// The FEN letter of this side: `w` or `b`.
    pub fn to_char(self) -> (r: char)
        ensures
            r == (match self {
                Side::White => 'w',
                Side::Black => 'b',
            }),
    {
        match self {
            Side::White => 'w',
            Side::Black => 'b',
        }
    }
}

impl Default for Side {
    fn default() -> (r: Side)
        ensures
            r == Side::White,
    {
        Side::White
    }
}

} // verus!
