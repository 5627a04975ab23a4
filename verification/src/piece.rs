use vstd::prelude::*;
use crate::side::Side;

verus! {

/// A piece kind, without its color.
#[derive(Debug, Clone, Copy, PartialEq, Eq, Structural)]
pub enum Piece {
    Pawn,
    Bishop,
    Knight,
    Rook,
    Queen,
    King,
}

/// The number of piece kinds.
pub const NR_PIECE_TYPES: usize = 6;

impl Piece {
    /// Position of this piece kind in the canonical search order used when
    /// identifying the piece standing on a square: pawns first, king last.
    pub open spec fn spec_order(self) -> int {
        match self {
            Piece::Pawn => 0,
            Piece::Knight => 1,
            Piece::Bishop => 2,
            Piece::Rook => 3,
            Piece::Queen => 4,
            Piece::King => 5,
        }
    }

    /// The piece kind at position `i` of the canonical search order.
    pub open spec fn spec_from_order(i: int) -> Piece {
        if i == 0 {
            Piece::Pawn
        } else if i == 1 {
            Piece::Knight
        } else if i == 2 {
            Piece::Bishop
        } else if i == 3 {
            Piece::Rook
        } else if i == 4 {
            Piece::Queen
        } else {
            Piece::King
        }
    }

    /// The piece kind at position `i` of the canonical search order.
    pub fn from_order(i: usize) -> (r: Piece)
        requires
            i < 6,
        ensures
            r == Piece::spec_from_order(i as int),
            r.spec_order() == i,
    {
        match i {
            0 => Piece::Pawn,
            1 => Piece::Knight,
            2 => Piece::Bishop,
            3 => Piece::Rook,
            4 => Piece::Queen,
            _ => Piece::King,
        }
    }

    /// The FEN letter for this piece: upper case for White, lower for Black.
    pub fn to_char(&self, side: Side) -> (r: char)
        ensures
            r == self.spec_to_char(side),
    {
        match side {
            Side::White => match self {
                Piece::Pawn => 'P',
                Piece::Knight => 'N',
                Piece::Bishop => 'B',
                Piece::Rook => 'R',
                Piece::Queen => 'Q',
                Piece::King => 'K',
            },
            Side::Black => match self {
                Piece::Pawn => 'p',
                Piece::Knight => 'n',
                Piece::Bishop => 'b',
                Piece::Rook => 'r',
                Piece::Queen => 'q',
                Piece::King => 'k',
            },
        }
    }

    pub open spec fn spec_to_char(self, side: Side) -> char {
        match side {
            Side::White => match self {
                Piece::Pawn => 'P',
                Piece::Knight => 'N',
                Piece::Bishop => 'B',
                Piece::Rook => 'R',
                Piece::Queen => 'Q',
                Piece::King => 'K',
            },
            Side::Black => match self {
                Piece::Pawn => 'p',
                Piece::Knight => 'n',
                Piece::Bishop => 'b',
                Piece::Rook => 'r',
                Piece::Queen => 'q',
                Piece::King => 'k',
            },
        }
    }
}

} // verus!
