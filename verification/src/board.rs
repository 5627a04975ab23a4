use vstd::prelude::*;
use crate::bitboard::{bb_has, clear_bit, lemma_bb_ext, lemma_bb_set_clear, set_bit, BitBoard};
use crate::piece::Piece;
use crate::side::Side;
use crate::square::Square;

verus! {

/// The two castling flags of one side. A right is only ever removed,
/// never re-granted.
#[derive(Debug, Clone, Copy, PartialEq, Eq, Structural)]
pub struct CastleRights {
    val: u8,
}

impl View for CastleRights {
    type V = u8;

    closed spec fn view(&self) -> u8 {
        self.val
    }
}

impl CastleRights {
    pub open spec fn spec_kingside(self) -> bool {
        self@ & 1u8 == 0
    }

    pub open spec fn spec_queenside(self) -> bool {
        self@ & 2u8 == 0
    }

    pub open spec fn spec_is_empty(self) -> bool {
        self@ == 3
    }

    /// The value holding both rights.
    pub closed spec fn spec_full() -> CastleRights {
        CastleRights { val: 0 }
    }

    /// This value with the kingside right removed.
    pub closed spec fn spec_remove_kingside(self) -> CastleRights {
        CastleRights { val: self.val | 1u8 }
    }

    /// This value with the queenside right removed.
    pub closed spec fn spec_remove_queenside(self) -> CastleRights {
        CastleRights { val: self.val | 2u8 }
    }

    /// True while the queenside right is held.
    pub fn queenside(&self) -> (r: bool)
        ensures
            r == self.spec_queenside(),
    {
        proof {
            assert(1u8 << 1 == 2u8) by (bit_vector);
        }
        self.val & (1u8 << 1) == 0
    }

    /// True while the kingside right is held.
    pub fn kingside(&self) -> (r: bool)
        ensures
            r == self.spec_kingside(),
    {
        proof {
            assert(1u8 << 0 == 1u8) by (bit_vector);
        }
        self.val & (1u8 << 0) == 0
    }

    /// Gives up the kingside right; the queenside flag is kept.
    pub fn remove_kingside(&mut self)
        ensures
            *final(self) == old(self).spec_remove_kingside(),
            !final(self).spec_kingside(),
            final(self).spec_queenside() == old(self).spec_queenside(),
            old(self)@ < 4 ==> final(self)@ < 4,
    {
        let v = self.val;
        proof {
            assert(1u8 << 0 == 1u8) by (bit_vector);
            assert((v | 1u8) & 1u8 == 1u8 && (v | 1u8) & 2u8 == v & 2u8 && (v < 4 ==> (v | 1u8)
                < 4)) by (bit_vector);
        }
        self.val = self.val | (1u8 << 0);
    }

    /// Gives up the queenside right; the kingside flag is kept.
    pub fn remove_queenside(&mut self)
        ensures
            *final(self) == old(self).spec_remove_queenside(),
            !final(self).spec_queenside(),
            final(self).spec_kingside() == old(self).spec_kingside(),
            old(self)@ < 4 ==> final(self)@ < 4,
    {
        let v = self.val;
        proof {
            assert(1u8 << 1 == 2u8) by (bit_vector);
            assert((v | 2u8) & 2u8 == 2u8 && (v | 2u8) & 1u8 == v & 1u8 && (v < 4 ==> (v | 2u8)
                < 4)) by (bit_vector);
        }
        self.val = self.val | (1u8 << 1);
    }

    /// True when neither right is held any more.
    pub fn is_empty(&self) -> (r: bool)
        ensures
            r == self.spec_is_empty(),
            self@ < 4 ==> r == (!self.spec_kingside() && !self.spec_queenside()),
    {
        let v = self.val;
        proof {
            assert(v < 4 ==> ((v == 3) == (v & 1u8 != 0 && v & 2u8 != 0))) by (bit_vector);
        }
        self.val == 3
    }
}

impl Default for CastleRights {
    /// Both rights held.
    fn default() -> (r: CastleRights)
        ensures
            r == CastleRights::spec_full(),
            r@ == 0,
            r.spec_kingside(),
            r.spec_queenside(),
    {
        proof {
            assert(0u8 & 1u8 == 0 && 0u8 & 2u8 == 0) by (bit_vector);
        }
        CastleRights { val: 0 }
    }
}

/// The mathematical model of a `Board`: one 64-bit occupancy mask per
/// piece kind and per side, the castling flags, the side to move, the
/// en-passant target mask and the two move counters.
#[verifier::ext_equal]
pub struct BoardV {
    pub pawns: u64,
    pub bishops: u64,
    pub knights: u64,
    pub rooks: u64,
    pub queens: u64,
    pub kings: u64,
    pub white: u64,
    pub black: u64,
    pub castle_white: CastleRights,
    pub castle_black: CastleRights,
    pub to_move: Side,
    pub enpassant: u64,
    pub halfmove_clock: u64,
    pub fullmoves: u64,
}

/// The occupancy mask of piece kind `p`.
pub open spec fn piece_bb(v: BoardV, p: Piece) -> u64 {
    match p {
        Piece::Pawn => v.pawns,
        Piece::Bishop => v.bishops,
        Piece::Knight => v.knights,
        Piece::Rook => v.rooks,
        Piece::Queen => v.queens,
        Piece::King => v.kings,
    }
}

/// The occupancy mask of side `s`.
pub open spec fn side_bb(v: BoardV, s: Side) -> u64 {
    match s {
        Side::White => v.white,
        Side::Black => v.black,
    }
}

/// The castling flags of side `s`.
pub open spec fn castle_of(v: BoardV, s: Side) -> CastleRights {
    match s {
        Side::White => v.castle_white,
        Side::Black => v.castle_black,
    }
}

/// The piece kind standing on square `i`, identified by searching the
/// piece masks in canonical order, pawns first.
pub open spec fn at_piece(v: BoardV, i: int) -> Option<Piece> {
    if bb_has(v.pawns, i) {
        Some(Piece::Pawn)
    } else if bb_has(v.knights, i) {
        Some(Piece::Knight)
    } else if bb_has(v.bishops, i) {
        Some(Piece::Bishop)
    } else if bb_has(v.rooks, i) {
        Some(Piece::Rook)
    } else if bb_has(v.queens, i) {
        Some(Piece::Queen)
    } else if bb_has(v.kings, i) {
        Some(Piece::King)
    } else {
        None
    }
}

/// What stands on square `i`: a piece and its side, or nothing.
pub open spec fn at(v: BoardV, i: int) -> Option<(Piece, Side)> {
    if bb_has(v.white, i) {
        match at_piece(v, i) {
            Some(p) => Some((p, Side::White)),
            None => None,
        }
    } else if bb_has(v.black, i) {
        match at_piece(v, i) {
            Some(p) => Some((p, Side::Black)),
            None => None,
        }
    } else {
        None
    }
}

/// True when some side occupies square `i`.
pub open spec fn occupied(v: BoardV, i: int) -> bool {
    bb_has(v.white, i) || bb_has(v.black, i)
}

/// The structural sanity of a board: a square is a member of at most one
/// piece mask and at most one side mask, and every occupied square
/// belongs to exactly one piece mask and exactly one side mask.
pub open spec fn wf_board(v: BoardV) -> bool {
    &&& (forall|i: int| #[trigger] bb_has(v.white, i) ==> !bb_has(v.black, i))
    &&& (forall|i: int| #[trigger] bb_has(v.black, i) ==> !bb_has(v.white, i))
    &&& (forall|i: int, p: Piece, q: Piece|
        #![trigger bb_has(piece_bb(v, p), i), bb_has(piece_bb(v, q), i)]
        bb_has(piece_bb(v, p), i) && bb_has(piece_bb(v, q), i) ==> p == q)
    &&& (forall|i: int| #[trigger] occupied(v, i) ==> at_piece(v, i) is Some)
    &&& (forall|i: int, p: Piece| #[trigger] bb_has(piece_bb(v, p), i) ==> occupied(v, i))
    &&& castle_rights_small(v)
}

/// The castling flag bytes never hold stray bits.
pub open spec fn castle_rights_small(v: BoardV) -> bool {
    v.castle_white@ < 4 && v.castle_black@ < 4
}

/// The model after clearing square `i` from every mask.
pub open spec fn spec_clear_square(v: BoardV, i: int) -> BoardV {
    BoardV {
        pawns: clear_bit(v.pawns, i),
        bishops: clear_bit(v.bishops, i),
        knights: clear_bit(v.knights, i),
        rooks: clear_bit(v.rooks, i),
        queens: clear_bit(v.queens, i),
        kings: clear_bit(v.kings, i),
        white: clear_bit(v.white, i),
        black: clear_bit(v.black, i),
        ..v
    }
}

/// The model after placing `p` of side `s` on square `i`, displacing
/// whatever stood there.
pub open spec fn spec_set_square(v: BoardV, i: int, p: Piece, s: Side) -> BoardV {
    let c = spec_clear_square(v, i);
    let c2 = match p {
        Piece::Pawn => BoardV { pawns: set_bit(c.pawns, i), ..c },
        Piece::Bishop => BoardV { bishops: set_bit(c.bishops, i), ..c },
        Piece::Knight => BoardV { knights: set_bit(c.knights, i), ..c },
        Piece::Rook => BoardV { rooks: set_bit(c.rooks, i), ..c },
        Piece::Queen => BoardV { queens: set_bit(c.queens, i), ..c },
        Piece::King => BoardV { kings: set_bit(c.kings, i), ..c },
    };
    match s {
        Side::White => BoardV { white: set_bit(c2.white, i), ..c2 },
        Side::Black => BoardV { black: set_bit(c2.black, i), ..c2 },
    }
}

/// What `spec_clear_square` and `spec_set_square` leave on each square.
pub proof fn lemma_at_clear_set(v: BoardV, i: int, p: Piece, s: Side)
    requires
        0 <= i < 64,
    ensures
        forall|j: int| #[trigger] at(spec_clear_square(v, i), j) == (if j == i {
            None
        } else {
            at(v, j)
        }),
        forall|j: int| #[trigger] at(spec_set_square(v, i, p, s), j) == (if j == i {
            Some((p, s))
        } else {
            at(v, j)
        }),
        forall|j: int, q: Piece| #[trigger] bb_has(piece_bb(spec_clear_square(v, i), q), j) == (j
            != i && bb_has(piece_bb(v, q), j)),
        forall|j: int, q: Piece| #[trigger] bb_has(piece_bb(spec_set_square(v, i, p, s), q), j)
            == (if j == i {
            q == p
        } else {
            bb_has(piece_bb(v, q), j)
        }),
        forall|j: int, t: Side| #[trigger] bb_has(side_bb(spec_clear_square(v, i), t), j) == (j != i
            && bb_has(side_bb(v, t), j)),
        forall|j: int, t: Side| #[trigger] bb_has(side_bb(spec_set_square(v, i, p, s), t), j) == (if
            j == i {
            t == s
        } else {
            bb_has(side_bb(v, t), j)
        }),
{
    lemma_bb_set_clear(v.pawns, i);
    lemma_bb_set_clear(v.bishops, i);
    lemma_bb_set_clear(v.knights, i);
    lemma_bb_set_clear(v.rooks, i);
    lemma_bb_set_clear(v.queens, i);
    lemma_bb_set_clear(v.kings, i);
    lemma_bb_set_clear(v.white, i);
    lemma_bb_set_clear(v.black, i);
    let c = spec_clear_square(v, i);
    lemma_bb_set_clear(c.pawns, i);
    lemma_bb_set_clear(c.bishops, i);
    lemma_bb_set_clear(c.knights, i);
    lemma_bb_set_clear(c.rooks, i);
    lemma_bb_set_clear(c.queens, i);
    lemma_bb_set_clear(c.kings, i);
    lemma_bb_set_clear(c.white, i);
    lemma_bb_set_clear(c.black, i);
}

/// Clearing and setting squares keeps the board sane.
pub proof fn lemma_wf_clear_set(v: BoardV, i: int, p: Piece, s: Side)
    requires
        0 <= i < 64,
        wf_board(v),
    ensures
        wf_board(spec_clear_square(v, i)),
        wf_board(spec_set_square(v, i, p, s)),
{
    lemma_at_clear_set(v, i, p, s);
    let c = spec_clear_square(v, i);
    let w = spec_set_square(v, i, p, s);
    assert forall|j: int| #[trigger] occupied(c, j) implies at_piece(c, j) is Some by {
        assert(bb_has(side_bb(c, Side::White), j) == (j != i && bb_has(side_bb(v, Side::White), j)));
        assert(bb_has(side_bb(c, Side::Black), j) == (j != i && bb_has(side_bb(v, Side::Black), j)));
        assert(j != i && occupied(v, j));
        assert(at(c, j) == at(v, j));
        assert(at(v, j) is Some);
    }
    assert forall|j: int| #[trigger] occupied(w, j) implies at_piece(w, j) is Some by {
        if j != i {
            assert(bb_has(side_bb(w, Side::White), j) == (j != i && bb_has(side_bb(v, Side::White), j)));
            assert(bb_has(side_bb(w, Side::Black), j) == (j != i && bb_has(side_bb(v, Side::Black), j)));
            assert(occupied(v, j));
            assert(at(w, j) == at(v, j));
            assert(at(v, j) is Some);
        } else {
            assert(at(w, j) == Some((p, s)));
        }
    }
    assert forall|j: int| #[trigger] bb_has(c.white, j) implies !bb_has(c.black, j) by {
        side_insts(v, c, j);
    }
    assert forall|j: int| #[trigger] bb_has(c.black, j) implies !bb_has(c.white, j) by {
        side_insts(v, c, j);
    }
    assert forall|j: int| #[trigger] bb_has(w.white, j) implies !bb_has(w.black, j) by {
        side_insts(v, w, j);
        if j == i {
            assert(bb_has(side_bb(w, s.spec_other()), j) == (s.spec_other() == s));
        }
    }
    assert forall|j: int| #[trigger] bb_has(w.black, j) implies !bb_has(w.white, j) by {
        side_insts(v, w, j);
        if j == i {
            assert(bb_has(side_bb(w, s.spec_other()), j) == (s.spec_other() == s));
        }
    }
    assert forall|j: int, p1: Piece, q1: Piece|
        #![trigger bb_has(piece_bb(c, p1), j), bb_has(piece_bb(c, q1), j)]
        bb_has(piece_bb(c, p1), j) && bb_has(piece_bb(c, q1), j) implies p1 == q1 by {
        assert(bb_has(piece_bb(c, p1), j) == (j != i && bb_has(piece_bb(v, p1), j)));
        assert(bb_has(piece_bb(c, q1), j) == (j != i && bb_has(piece_bb(v, q1), j)));
    }
    assert forall|j: int, p1: Piece, q1: Piece|
        #![trigger bb_has(piece_bb(w, p1), j), bb_has(piece_bb(w, q1), j)]
        bb_has(piece_bb(w, p1), j) && bb_has(piece_bb(w, q1), j) implies p1 == q1 by {
        if j != i {
            assert(bb_has(piece_bb(w, p1), j) == bb_has(piece_bb(v, p1), j));
            assert(bb_has(piece_bb(w, q1), j) == bb_has(piece_bb(v, q1), j));
        } else {
            assert(bb_has(piece_bb(w, p1), j) == (p1 == p));
            assert(bb_has(piece_bb(w, q1), j) == (q1 == p));
        }
    }
    assert forall|j: int, p1: Piece| #[trigger] bb_has(piece_bb(c, p1), j) implies occupied(
        c,
        j,
    ) by {
        assert(bb_has(piece_bb(c, p1), j) == (j != i && bb_has(piece_bb(v, p1), j)));
        side_insts(v, c, j);
    }
    assert forall|j: int, p1: Piece| #[trigger] bb_has(piece_bb(w, p1), j) implies occupied(
        w,
        j,
    ) by {
        if j != i {
            assert(bb_has(piece_bb(w, p1), j) == bb_has(piece_bb(v, p1), j));
            side_insts(v, w, j);
        } else {
            assert(bb_has(side_bb(w, s), j));
        }
    }
}

/// Brings the per-side membership facts for squares other than the
/// transformed one into scope.
proof fn side_insts(v: BoardV, x: BoardV, j: int)
    ensures
        side_bb(x, Side::White) == x.white,
        side_bb(x, Side::Black) == x.black,
        side_bb(v, Side::White) == v.white,
        side_bb(v, Side::Black) == v.black,
{
}

/// The board: piece and side occupancy masks, castling rights, side to
/// move, en-passant target and the move counters. A value type that is
/// cheap to clone; move application transforms an owned copy.
#[derive(Debug, Clone, Copy, PartialEq, Eq, Structural)]
pub struct Board {
    pieces_pawns: BitBoard,
    pieces_bishops: BitBoard,
    pieces_knights: BitBoard,
    pieces_rooks: BitBoard,
    pieces_queens: BitBoard,
    pieces_kings: BitBoard,
    side_white: BitBoard,
    side_black: BitBoard,
    castle_white: CastleRights,
    castle_black: CastleRights,
    to_move: Side,
    enpassant: BitBoard,
    halfmove_clock: u64,
    fullmoves: u64,
}

impl View for Board {
    type V = BoardV;

    closed spec fn view(&self) -> BoardV {
        BoardV {
            pawns: self.pieces_pawns@,
            bishops: self.pieces_bishops@,
            knights: self.pieces_knights@,
            rooks: self.pieces_rooks@,
            queens: self.pieces_queens@,
            kings: self.pieces_kings@,
            white: self.side_white@,
            black: self.side_black@,
            castle_white: self.castle_white,
            castle_black: self.castle_black,
            to_move: self.to_move,
            enpassant: self.enpassant@,
            halfmove_clock: self.halfmove_clock,
            fullmoves: self.fullmoves,
        }
    }
}

impl Default for Board {
    /// The empty board: no pieces, both sides with full castling rights,
    /// White to move, no en-passant target, counters at zero.
    fn default() -> (r: Board)
        ensures
            r@.pawns == 0 && r@.bishops == 0 && r@.knights == 0 && r@.rooks == 0 && r@.queens == 0
                && r@.kings == 0,
            r@.white == 0 && r@.black == 0,
            r@.castle_white@ == 0 && r@.castle_black@ == 0,
            r@.to_move == Side::White,
            r@.enpassant == 0,
            r@.halfmove_clock == 0 && r@.fullmoves == 0,
            r@ == default_board_v(),
            wf_board(r@),
    {
        let b = Board {
            pieces_pawns: BitBoard::empty(),
            pieces_bishops: BitBoard::empty(),
            pieces_knights: BitBoard::empty(),
            pieces_rooks: BitBoard::empty(),
            pieces_queens: BitBoard::empty(),
            pieces_kings: BitBoard::empty(),
            side_white: BitBoard::empty(),
            side_black: BitBoard::empty(),
            castle_white: CastleRights::default(),
            castle_black: CastleRights::default(),
            to_move: Side::White,
            enpassant: BitBoard::empty(),
            halfmove_clock: 0,
            fullmoves: 0,
        };
        proof {
            crate::bitboard::lemma_bb_empty(0u64);
            assert(b@ =~= default_board_v());
        }
        b
    }
}

impl Board {
    /// The mask of squares occupied by `side`.
    pub fn color_pieces(&self, side: Side) -> (r: BitBoard)
        ensures
            r@ == side_bb(self@, side),
    {
        match side {
            Side::White => self.side_white,
            Side::Black => self.side_black,
        }
    }

    /// The mask of squares occupied by piece kind `piece`, either side.
    pub fn pieces(&self, piece: Piece) -> (r: BitBoard)
        ensures
            r@ == piece_bb(self@, piece),
    {
        match piece {
            Piece::Pawn => self.pieces_pawns,
            Piece::Bishop => self.pieces_bishops,
            Piece::Knight => self.pieces_knights,
            Piece::Rook => self.pieces_rooks,
            Piece::Queen => self.pieces_queens,
            Piece::King => self.pieces_kings,
        }
    }

    /// The piece kind standing on `sq`, of either side.
    pub fn check_piece(&self, sq: Square) -> (r: Option<Piece>)
        requires
            sq.valid(),
        ensures
            r == at_piece(self@, sq.0 as int),
    {
        if self.pieces_pawns.get(sq) {
            Some(Piece::Pawn)
        } else if self.pieces_knights.get(sq) {
            Some(Piece::Knight)
        } else if self.pieces_bishops.get(sq) {
            Some(Piece::Bishop)
        } else if self.pieces_rooks.get(sq) {
            Some(Piece::Rook)
        } else if self.pieces_queens.get(sq) {
            Some(Piece::Queen)
        } else if self.pieces_kings.get(sq) {
            Some(Piece::King)
        } else {
            None
        }
    }

    /// What stands on `sq`: the piece and its side, or nothing.
    pub fn piece(&self, sq: Square) -> (r: Option<(Piece, Side)>)
        requires
            sq.valid(),
        ensures
            r == at(self@, sq.0 as int),
    {
        if self.side_white.get(sq) {
            match self.check_piece(sq) {
                Some(p) => Some((p, Side::White)),
                None => None,
            }
        } else if self.side_black.get(sq) {
            match self.check_piece(sq) {
                Some(p) => Some((p, Side::Black)),
                None => None,
            }
        } else {
            None
        }
    }

    /// Empties `sq` in every piece and side mask; nothing else changes.
    pub fn clear_square(&mut self, sq: Square)
        requires
            sq.valid(),
        ensures
            final(self)@ == spec_clear_square(old(self)@, sq.0 as int),
    {
        let ghost v = self@;
        let ghost i = sq.0 as int;
        self.pieces_pawns.set(sq, false);
        self.pieces_bishops.set(sq, false);
        self.pieces_knights.set(sq, false);
        self.pieces_rooks.set(sq, false);
        self.pieces_queens.set(sq, false);
        self.pieces_kings.set(sq, false);
        self.side_white.set(sq, false);
        self.side_black.set(sq, false);
        proof {
            lemma_bb_set_clear(v.pawns, i);
            lemma_bb_set_clear(v.bishops, i);
            lemma_bb_set_clear(v.knights, i);
            lemma_bb_set_clear(v.rooks, i);
            lemma_bb_set_clear(v.queens, i);
            lemma_bb_set_clear(v.kings, i);
            lemma_bb_set_clear(v.white, i);
            lemma_bb_set_clear(v.black, i);
            lemma_bb_ext(self@.pawns, clear_bit(v.pawns, i));
            lemma_bb_ext(self@.bishops, clear_bit(v.bishops, i));
            lemma_bb_ext(self@.knights, clear_bit(v.knights, i));
            lemma_bb_ext(self@.rooks, clear_bit(v.rooks, i));
            lemma_bb_ext(self@.queens, clear_bit(v.queens, i));
            lemma_bb_ext(self@.kings, clear_bit(v.kings, i));
            lemma_bb_ext(self@.white, clear_bit(v.white, i));
            lemma_bb_ext(self@.black, clear_bit(v.black, i));
            assert(self@ =~= spec_clear_square(v, i));
        }
    }

    /// Places `piece` of `side` on `sq`, displacing whatever stood there;
    /// nothing else changes.
    pub fn set_square(&mut self, sq: Square, piece: Piece, side: Side)
        requires
            sq.valid(),
        ensures
            final(self)@ == spec_set_square(old(self)@, sq.0 as int, piece, side),
    {
        let ghost v = self@;
        let ghost i = sq.0 as int;
        self.clear_square(sq);
        let ghost c = self@;
        match piece {
            Piece::Pawn => self.pieces_pawns.set(sq, true),
            Piece::Bishop => self.pieces_bishops.set(sq, true),
            Piece::Knight => self.pieces_knights.set(sq, true),
            Piece::Rook => self.pieces_rooks.set(sq, true),
            Piece::Queen => self.pieces_queens.set(sq, true),
            Piece::King => self.pieces_kings.set(sq, true),
        }
        let ghost c2 = self@;
        match side {
            Side::White => self.side_white.set(sq, true),
            Side::Black => self.side_black.set(sq, true),
        }
        proof {
            lemma_bb_set_clear(c.pawns, i);
            lemma_bb_set_clear(c.bishops, i);
            lemma_bb_set_clear(c.knights, i);
            lemma_bb_set_clear(c.rooks, i);
            lemma_bb_set_clear(c.queens, i);
            lemma_bb_set_clear(c.kings, i);
            lemma_bb_set_clear(c2.white, i);
            lemma_bb_set_clear(c2.black, i);
            match piece {
                Piece::Pawn => lemma_bb_ext(c2.pawns, set_bit(c.pawns, i)),
                Piece::Bishop => lemma_bb_ext(c2.bishops, set_bit(c.bishops, i)),
                Piece::Knight => lemma_bb_ext(c2.knights, set_bit(c.knights, i)),
                Piece::Rook => lemma_bb_ext(c2.rooks, set_bit(c.rooks, i)),
                Piece::Queen => lemma_bb_ext(c2.queens, set_bit(c.queens, i)),
                Piece::King => lemma_bb_ext(c2.kings, set_bit(c.kings, i)),
            }
            match side {
                Side::White => lemma_bb_ext(self@.white, set_bit(c2.white, i)),
                Side::Black => lemma_bb_ext(self@.black, set_bit(c2.black, i)),
            }
            assert(self@ =~= spec_set_square(v, i, piece, side));
        }
    }

    /// Advances the ply: flips the side to move, counts a full move after
    /// Black's, and resets the halfmove clock when `reset_halfmove` holds
    /// (a pawn move or a capture), else increments it.
    pub fn adv_ply(&mut self, reset_halfmove: bool)
        requires
            !reset_halfmove ==> old(self)@.halfmove_clock < u64::MAX,
            old(self)@.to_move == Side::Black ==> old(self)@.fullmoves < u64::MAX,
        ensures
            final(self)@ == (BoardV {
                to_move: old(self)@.to_move.spec_other(),
                halfmove_clock: if reset_halfmove {
                    0
                } else {
                    (old(self)@.halfmove_clock + 1) as u64
                },
                fullmoves: if old(self)@.to_move == Side::Black {
                    (old(self)@.fullmoves + 1) as u64
                } else {
                    old(self)@.fullmoves
                },
                ..old(self)@
            }),
    {
        if self.to_move == Side::Black {
            self.fullmoves = self.fullmoves + 1;
        }
        if reset_halfmove {
            self.halfmove_clock = 0;
        } else {
            self.halfmove_clock = self.halfmove_clock + 1;
        }
        self.to_move = self.to_move.other();
        proof {
            assert(self@ =~= BoardV {
                to_move: old(self)@.to_move.spec_other(),
                halfmove_clock: if reset_halfmove {
                    0u64
                } else {
                    (old(self)@.halfmove_clock + 1) as u64
                },
                fullmoves: if old(self)@.to_move == Side::Black {
                    (old(self)@.fullmoves + 1) as u64
                } else {
                    old(self)@.fullmoves
                },
                ..old(self)@
            });
        }
    }

    /// The castling rights of `side`.
    pub fn castle_rights(&self, side: Side) -> (r: &CastleRights)
        ensures
            *r == castle_of(self@, side),
    {
        match side {
            Side::White => &self.castle_white,
            Side::Black => &self.castle_black,
        }
    }

    /// A mutable borrow of the castling rights of `side`; the rest of the
    /// board is untouched.
    pub fn castle_rights_mut(&mut self, side: Side) -> (r: &mut CastleRights)
        ensures
            *r == castle_of(old(self)@, side),
            final(self)@ == (match side {
                Side::White => BoardV { castle_white: *final(r), ..old(self)@ },
                Side::Black => BoardV { castle_black: *final(r), ..old(self)@ },
            }),
    {
        match side {
            Side::White => &mut self.castle_white,
            Side::Black => &mut self.castle_black,
        }
    }

    /// The en-passant target: the empty set, or the single skipped square
    /// of the immediately preceding pawn double push.
    pub fn enpassant(&self) -> (r: &BitBoard)
        ensures
            r@ == self@.enpassant,
    {
        &self.enpassant
    }

    /// Checks the structural sanity of the board: every square a side
    /// mask holds carries a piece, and every square a piece mask holds
    /// belongs to a side.
    pub fn assert_is_sane(&self) -> (r: bool)
        ensures
            r == spec_is_sane(self@),
    {
        let mut i: usize = 0;
        let mut ok = true;
        while i < 64
            invariant
                i <= 64,
                ok == (forall|j: int| 0 <= j < i ==> #[trigger] sane_at(self@, j)),
            decreases 64 - i,
        {
            let sq = Square(i as u8);
            let occ = self.side_white.get(sq) || self.side_black.get(sq);
            let has_piece = self.check_piece(sq).is_some();
            let mut piece_side_ok = true;
            let mut k: usize = 0;
            while k < 6
                invariant
                    k <= 6,
                    i < 64,
                    sq.0 == i,
                    occ == occupied(self@, i as int),
                    piece_side_ok == (forall|p: Piece|
                        p.spec_order() < k ==> (#[trigger] bb_has(piece_bb(self@, p), i as int)
                            ==> occupied(self@, i as int))),
                decreases 6 - k,
            {
                let p = Piece::from_order(k);
                if self.pieces(p).get(sq) && !occ {
                    piece_side_ok = false;
                }
                k = k + 1;
            }
            let sane_here = (!occ || has_piece) && piece_side_ok;
            proof {
                assert forall|p: Piece| p.spec_order() < 6 by {}
                assert(sane_here == sane_at(self@, i as int));
            }
            ok = ok && sane_here;
            i = i + 1;
        }
        proof {
            if ok {
                assert forall|j: int, p: Piece|
                    #[trigger] bb_has(piece_bb(self@, p), j) implies occupied(self@, j) by {
                    assert(0 <= j < 64);
                    assert(sane_at(self@, j));
                }
                assert forall|j: int| #[trigger] occupied(self@, j) implies at_piece(
                    self@,
                    j,
                ) is Some by {
                    assert(0 <= j < 64);
                    assert(sane_at(self@, j));
                }
            } else {
                let j = choose|j: int| 0 <= j < 64 && !sane_at(self@, j);
                assert(!spec_is_sane(self@));
            }
        }
        ok
    }

    /// The halfmove clock: plies since the last pawn move or capture.
    pub fn halfmove_clock(&self) -> (r: u64)
        ensures
            r == self@.halfmove_clock,
    {
        self.halfmove_clock
    }

    /// The fullmove counter, incremented after Black's move.
    pub fn fullmoves(&self) -> (r: u64)
        ensures
            r == self@.fullmoves,
    {
        self.fullmoves
    }

    /// Replaces the side to move.
    pub(crate) fn set_to_move(&mut self, s: Side)
        ensures
            final(self)@ == (BoardV { to_move: s, ..old(self)@ }),
    {
        self.to_move = s;
        proof {
            assert(self@ =~= (BoardV { to_move: s, ..old(self)@ }));
        }
    }

    /// Replaces the halfmove clock.
    pub(crate) fn set_halfmove_clock(&mut self, n: u64)
        ensures
            final(self)@ == (BoardV { halfmove_clock: n, ..old(self)@ }),
    {
        self.halfmove_clock = n;
        proof {
            assert(self@ =~= (BoardV { halfmove_clock: n, ..old(self)@ }));
        }
    }

    /// Replaces the fullmove counter.
    pub(crate) fn set_fullmoves(&mut self, n: u64)
        ensures
            final(self)@ == (BoardV { fullmoves: n, ..old(self)@ }),
    {
        self.fullmoves = n;
        proof {
            assert(self@ =~= (BoardV { fullmoves: n, ..old(self)@ }));
        }
    }

    /// The side to move.
    pub fn to_move(&self) -> (r: Side)
        ensures
            r == self@.to_move,
    {
        self.to_move
    }

    /// Replaces the en-passant target set.
    pub fn set_enpassant(&mut self, enpassant: BitBoard)
        ensures
            final(self)@ == (BoardV { enpassant: enpassant@, ..old(self)@ }),
    {
        self.enpassant = enpassant;
        proof {
            assert(self@ =~= BoardV { enpassant: enpassant@, ..old(self)@ });
        }
    }
}

/// The property `assert_is_sane` checks: side-occupancy implies a piece,
/// and piece-occupancy implies a side.
pub open spec fn spec_is_sane(v: BoardV) -> bool {
    &&& (forall|j: int, p: Piece| #[trigger] bb_has(piece_bb(v, p), j) ==> occupied(v, j))
    &&& (forall|j: int| #[trigger] occupied(v, j) ==> at_piece(v, j) is Some)
}

/// The model of the empty board: no pieces, full castling rights,
/// White to move, no en-passant target, counters at zero.
pub open spec fn default_board_v() -> BoardV {
    BoardV {
        pawns: 0,
        bishops: 0,
        knights: 0,
        rooks: 0,
        queens: 0,
        kings: 0,
        white: 0,
        black: 0,
        castle_white: CastleRights::spec_full(),
        castle_black: CastleRights::spec_full(),
        to_move: Side::White,
        enpassant: 0,
        halfmove_clock: 0,
        fullmoves: 0,
    }
}

/// What removing a castling right means for the two flags.
pub proof fn lemma_castle_remove(c: CastleRights)
    ensures
        !c.spec_remove_kingside().spec_kingside(),
        c.spec_remove_kingside().spec_queenside() == c.spec_queenside(),
        !c.spec_remove_queenside().spec_queenside(),
        c.spec_remove_queenside().spec_kingside() == c.spec_kingside(),
        c@ < 4 ==> c.spec_remove_kingside()@ < 4,
        c@ < 4 ==> c.spec_remove_queenside()@ < 4,
{
    let v = c@;
    assert((v | 1u8) & 1u8 == 1u8 && (v | 1u8) & 2u8 == v & 2u8 && (v < 4 ==> (v | 1u8) < 4))
        by (bit_vector);
    assert((v | 2u8) & 2u8 == 2u8 && (v | 2u8) & 1u8 == v & 1u8 && (v < 4 ==> (v | 2u8) < 4))
        by (bit_vector);
}

/// The model with the castling flags of `s` replaced by `c`.
pub open spec fn with_castle(v: BoardV, s: Side, c: CastleRights) -> BoardV {
    match s {
        Side::White => BoardV { castle_white: c, ..v },
        Side::Black => BoardV { castle_black: c, ..v },
    }
}

/// A board with the same occupancy masks as a sane board, and small
/// castling flags, is itself sane.
pub proof fn lemma_wf_same_occupancy(v: BoardV, w: BoardV)
    requires
        wf_board(v),
        w.pawns == v.pawns,
        w.bishops == v.bishops,
        w.knights == v.knights,
        w.rooks == v.rooks,
        w.queens == v.queens,
        w.kings == v.kings,
        w.white == v.white,
        w.black == v.black,
        castle_rights_small(w),
    ensures
        wf_board(w),
{
    assert forall|i: int| #[trigger] bb_has(w.white, i) implies !bb_has(w.black, i) by {}
    assert forall|i: int| #[trigger] bb_has(w.black, i) implies !bb_has(w.white, i) by {}
    assert forall|i: int, p: Piece, q: Piece|
        #![trigger bb_has(piece_bb(w, p), i), bb_has(piece_bb(w, q), i)]
        bb_has(piece_bb(w, p), i) && bb_has(piece_bb(w, q), i) implies p == q by {
        assert(piece_bb(w, p) == piece_bb(v, p));
        assert(piece_bb(w, q) == piece_bb(v, q));
    }
    assert forall|i: int| #[trigger] occupied(w, i) implies at_piece(w, i) is Some by {
        assert(occupied(v, i));
    }
    assert forall|i: int, p: Piece| #[trigger] bb_has(piece_bb(w, p), i) implies occupied(w, i) by {
        assert(piece_bb(w, p) == piece_bb(v, p));
        assert(occupied(v, i) == occupied(w, i));
    }
}

/// Sanity of one square `j`: if a side holds it, a piece stands on it,
/// and if a piece mask holds it, a side does.
pub open spec fn sane_at(v: BoardV, j: int) -> bool {
    &&& (occupied(v, j) ==> at_piece(v, j) is Some)
    &&& (forall|p: Piece| #[trigger] bb_has(piece_bb(v, p), j) ==> occupied(v, j))
}

/// A structurally sane board passes the sanity check.
pub proof fn lemma_wf_is_sane(v: BoardV)
    requires
        wf_board(v),
    ensures
        spec_is_sane(v),
{
}

} // verus!
