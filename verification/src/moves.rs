use vstd::prelude::*;
use crate::bitboard::{bb_has, lowest_sq, BitBoard};
use crate::board::{
    at, at_piece, castle_of, occupied, piece_bb, side_bb, spec_clear_square, spec_set_square,
    wf_board, with_castle, Board, BoardV,
};
use crate::piece::Piece;
use crate::piecemoves;
use crate::piecemoves::spec_piece_move_dest;
use crate::side::Side;
use crate::square::{File, Rank, Square};

verus! {

/// A move: start square, destination square, optional promotion piece.
/// It carries no legality information; legality is a property of a
/// (move, position) pair.
#[derive(Debug, Clone, Copy, PartialEq, Eq, Structural)]
pub struct Move {
    pub start: Square,
    pub dest: Square,
    pub promo: Option<Piece>,
}

/// The error of applying a move whose start square is empty. It marks a
/// caller bug: a move must come from `legal_moves` of the same position.
#[derive(Debug, Clone, Copy, PartialEq, Eq, Structural)]
pub struct StructuralError;

impl Move {
    pub open spec fn valid(self) -> bool {
        self.start.valid() && self.dest.valid()
    }

    pub fn new(start: Square, dest: Square, promo: Option<Piece>) -> (r: Move)
        ensures
            r == (Move { start, dest, promo }),
    {
        Move { start, dest, promo }
    }

    pub fn start(&self) -> (r: Square)
        ensures
            r == self.start,
    {
        self.start
    }

    pub fn dest(&self) -> (r: Square)
        ensures
            r == self.dest,
    {
        self.dest
    }

    pub fn promo(&self) -> (r: Option<Piece>)
        ensures
            r == self.promo,
    {
        self.promo
    }

    /// True when this move, on `board`, is a castling move: a king
    /// stepping on its home rank from the `e`-file onto the `g` or `c`
    /// file.
    pub open spec fn spec_is_castling(self, v: BoardV) -> bool {
        match at(v, self.start.0 as int) {
            Some((p, s)) => p == Piece::King && self.start.spec_rank() == home_rank(s)
                && self.dest.spec_rank() == self.start.spec_rank()
                && self.start.spec_file_index() == 4 && (self.dest.spec_file_index() == 6
                || self.dest.spec_file_index() == 2),
            None => false,
        }
    }

    pub open spec fn spec_is_kingside_castle(self, v: BoardV) -> bool {
        self.spec_is_castling(v) && self.dest.spec_file_index() == 6
    }

    /// True when this move, on `board`, is a castling move.
    pub fn is_castling(&self, board: &Board) -> (r: bool)
        requires
            self.valid(),
        ensures
            r == self.spec_is_castling(board@),
    {
        match board.piece(self.start) {
            Some((piece, side)) => {
                proof {
                    lemma_file_index_inversion(self.start);
                    lemma_file_index_inversion(self.dest);
                }
                let home = match side {
                    Side::White => Rank::new(1),
                    Side::Black => Rank::new(8),
                };
                piece == Piece::King && self.start().rank() == home && self.dest().rank()
                    == self.start().rank() && self.start().file() == File::E && (self.dest().file()
                    == File::G || self.dest().file() == File::C)
            },
            None => false,
        }
    }

    /// True when this move, on `board`, castles kingside.
    pub fn is_kingside_castle(&self, board: &Board) -> (r: bool)
        requires
            self.valid(),
        ensures
            r == self.spec_is_kingside_castle(board@),
    {
        proof {
            lemma_file_index_inversion(self.dest);
        }
        self.is_castling(board) && self.dest().file() == File::G
    }
}

/// A square's file value is determined by its file index.
proof fn lemma_file_index_inversion(sq: Square)
    ensures
        forall|f: File| f.spec_index() == sq.spec_file_index() ==> f == File::spec_from_index(
            sq.spec_file_index(),
        ),
{
}

/// The home rank of `side`'s king and rooks.
pub open spec fn home_rank(side: Side) -> Rank {
    match side {
        Side::White => Rank(1),
        Side::Black => Rank(8),
    }
}

/// The first square (file `a`) of the home rank of `side`.
pub open spec fn castle_home_base(side: Side) -> int {
    match side {
        Side::White => 0,
        Side::Black => 56,
    }
}

/// The squares between king and rook on the home rank of `side` are
/// empty, on the wing picked by `kingside`.
pub open spec fn spec_castle_has_room(v: BoardV, side: Side, kingside: bool) -> bool {
    let base = castle_home_base(side);
    if kingside {
        at(v, base + 5) is None && at(v, base + 6) is None
    } else {
        at(v, base + 1) is None && at(v, base + 2) is None && at(v, base + 3) is None
    }
}

/// The castling moves offered for `side` before the legality filter:
/// with the king standing on the `e`-file of its home rank, one move
/// per wing whose right is held and whose path squares are empty.
pub open spec fn spec_castle_moves(v: BoardV, side: Side) -> Seq<Move> {
    match lowest_sq(piece_bb(v, Piece::King) & side_bb(v, side)) {
        None => Seq::empty(),
        Some(ks) => {
            let base = castle_home_base(side);
            if ks.0 as int != base + 4 {
                Seq::empty()
            } else {
                let ksm: Seq<Move> = if castle_of(v, side).spec_kingside() && spec_castle_has_room(
                    v,
                    side,
                    true,
                ) {
                    seq![Move { start: ks, dest: Square((base + 6) as u8), promo: None }]
                } else {
                    Seq::empty()
                };
                let qsm: Seq<Move> = if castle_of(v, side).spec_queenside()
                    && spec_castle_has_room(v, side, false) {
                    seq![Move { start: ks, dest: Square((base + 2) as u8), promo: None }]
                } else {
                    Seq::empty()
                };
                ksm + qsm
            }
        },
    }
}

/// The moves offered for a piece `p` of `s` standing on `sq` toward
/// `dest`: four promotion moves for a pawn reaching its last rank, else
/// the single plain move.
pub open spec fn promo_expand(sq: Square, dest: Square, p: Piece, s: Side) -> Seq<Move> {
    if p == Piece::Pawn && dest.spec_rank().spec_is_promo_rank(s) {
        seq![
            Move { start: sq, dest, promo: Some(Piece::Queen) },
            Move { start: sq, dest, promo: Some(Piece::Knight) },
            Move { start: sq, dest, promo: Some(Piece::Bishop) },
            Move { start: sq, dest, promo: Some(Piece::Rook) },
        ]
    } else {
        seq![Move { start: sq, dest, promo: None }]
    }
}

/// The moves of the piece on `sq` toward the destinations below `n`,
/// in increasing destination order.
pub open spec fn sq_dest_upto(v: BoardV, sq: Square, p: Piece, s: Side, n: int) -> Seq<Move>
    decreases n,
{
    if n <= 0 {
        Seq::empty()
    } else {
        sq_dest_upto(v, sq, p, s, n - 1) + (if spec_piece_move_dest(
            p,
            s,
            sq,
            v.enpassant,
            side_bb(v, s.spec_other()),
            side_bb(v, s),
            n - 1,
        ) {
            promo_expand(sq, Square((n - 1) as u8), p, s)
        } else {
            Seq::empty()
        })
    }
}

/// The pseudo-legal moves from square `i` when `side` occupies it.
pub open spec fn square_moves(v: BoardV, side: Side, i: int) -> Seq<Move> {
    if bb_has(side_bb(v, side), i) {
        match at(v, i) {
            Some((p, s)) => sq_dest_upto(v, Square(i as u8), p, s, 64),
            None => Seq::empty(),
        }
    } else {
        Seq::empty()
    }
}

/// The pseudo-legal non-castling moves of `side` from the squares
/// below `n`, in increasing start-square order.
pub open spec fn moves_upto(v: BoardV, side: Side, n: int) -> Seq<Move>
    decreases n,
{
    if n <= 0 {
        Seq::empty()
    } else {
        moves_upto(v, side, n - 1) + square_moves(v, side, n - 1)
    }
}

/// The full pseudo-legal move stream of `side`: per-square piece moves
/// in increasing square order, then the synthesized castling moves.
pub open spec fn spec_moves(v: BoardV, side: Side) -> Seq<Move> {
    moves_upto(v, side, 64) + spec_castle_moves(v, side)
}

/// The position after applying `m`, provided its start square is
/// occupied. In order: castling rights are cleared when the king, or a
/// rook standing on its home corner, moves; a castling king also
/// relocates its rook; a pawn arriving on the en-passant target removes
/// the passed pawn; the mover (or its promotion piece) is transferred;
/// the ply advances (side to move, halfmove clock, fullmove counter);
/// and the en-passant target is cleared, then set to the skipped square
/// after a double push.
pub open spec fn spec_apply(v: BoardV, m: Move) -> BoardV {
    match at(v, m.start.0 as int) {
        None => v,
        Some((piece, side)) => {
            let start = m.start.0 as int;
            let dest = m.dest.0 as int;
            let is_capture = at(v, dest) is Some;
            let base = castle_home_base(side);
            let v1 = if piece == Piece::Rook && start == base {
                with_castle(v, side, castle_of(v, side).spec_remove_queenside())
            } else {
                v
            };
            let v2 = if piece == Piece::Rook && start == base + 7 {
                with_castle(v1, side, castle_of(v1, side).spec_remove_kingside())
            } else {
                v1
            };
            let v3 = if piece == Piece::King {
                let a = with_castle(v2, side, castle_of(v2, side).spec_remove_kingside());
                with_castle(a, side, castle_of(a, side).spec_remove_queenside())
            } else {
                v2
            };
            let rank_base = (start / 8) * 8;
            let v4 = if m.spec_is_castling(v, ) {
                if m.dest.spec_file_index() == 6 {
                    spec_clear_square(
                        spec_set_square(v3, rank_base + 5, Piece::Rook, side),
                        rank_base + 7,
                    )
                } else {
                    spec_clear_square(
                        spec_set_square(v3, rank_base + 3, Piece::Rook, side),
                        rank_base,
                    )
                }
            } else {
                v3
            };
            let v5 = if lowest_sq(v.enpassant) == Some(m.dest) && piece == Piece::Pawn {
                let kill_rank: int = match side {
                    Side::White => 5,
                    Side::Black => 4,
                };
                spec_clear_square(v4, (kill_rank - 1) * 8 + (dest % 8))
            } else {
                v4
            };
            let v6 = spec_clear_square(v5, start);
            let put = match m.promo {
                Some(pp) => pp,
                None => piece,
            };
            let v7 = spec_set_square(v6, dest, put, side);
            let reset = piece == Piece::Pawn || is_capture;
            let v8 = BoardV {
                to_move: v7.to_move.spec_other(),
                halfmove_clock: if reset {
                    0u64
                } else {
                    (v7.halfmove_clock + 1) as u64
                },
                fullmoves: if v7.to_move == Side::Black {
                    (v7.fullmoves + 1) as u64
                } else {
                    v7.fullmoves
                },
                ..v7
            };
            let v9 = BoardV { enpassant: 0u64, ..v8 };
            if piece == Piece::Pawn && m.start.spec_rank().spec_allow_double_move(side) && dest
                == start + (match side {
                Side::White => 16int,
                Side::Black => -16int,
            }) {
                let ep_rank: int = match side {
                    Side::White => 3,
                    Side::Black => 6,
                };
                BoardV {
                    enpassant: 1u64 << ((((ep_rank - 1) * 8) + (start % 8)) as u64),
                    ..v9
                }
            } else {
                v9
            }
        },
    }
}

impl Board {
    /// True when the move can be applied at all: its start square is
    /// occupied.
    pub fn move_structural(&self, mv: &Move) -> (r: bool)
        requires
            mv.start.valid(),
        ensures
            r == (at(self@, mv.start.0 as int) is Some),
    {
        self.piece(mv.start()).is_some()
    }

    /// True when the squares between king and rook on the home rank of
    /// `side` are empty, on the wing picked by `kingside`.
    pub fn check_castle_has_room(&self, side: Side, kingside: bool) -> (r: bool)
        ensures
            r == spec_castle_has_room(self@, side, kingside),
    {
        let rank = match side {
            Side::White => Rank::new(1),
            Side::Black => Rank::new(8),
        };
        if kingside {
            !(self.piece(Square::from_rank_and_file(rank, File::F)).is_some() || self.piece(
                Square::from_rank_and_file(rank, File::G),
            ).is_some())
        } else {
            !(self.piece(Square::from_rank_and_file(rank, File::B)).is_some() || self.piece(
                Square::from_rank_and_file(rank, File::C),
            ).is_some() || self.piece(Square::from_rank_and_file(rank, File::D)).is_some())
        }
    }

    /// The castling moves offered for `side`: one per wing whose right
    /// is held and whose path squares are empty. Castling safety is
    /// deferred to the legality filter.
    pub fn castle_moves(&self, side: Side) -> (r: Vec<Move>)
        ensures
            r@ == spec_castle_moves(self@, side),
    {
        let king_bb = self.pieces(Piece::King).bitand(self.color_pieces(side));
        let king_sq = match king_bb.to_square() {
            Some(k) => k,
            None => {
                let empty: Vec<Move> = Vec::new();
                proof {
                    assert(empty@ =~= spec_castle_moves(self@, side));
                }
                return empty;
            },
        };
        let home_e = match side {
            Side::White => Square::from_rank_and_file(Rank::new(1), File::E),
            Side::Black => Square::from_rank_and_file(Rank::new(8), File::E),
        };
        if king_sq != home_e {
            let empty: Vec<Move> = Vec::new();
            proof {
                assert(empty@ =~= spec_castle_moves(self@, side));
            }
            return empty;
        }
        let mut v: Vec<Move> = Vec::new();
        let rank = king_sq.rank();
        if self.castle_rights(side).kingside() && self.check_castle_has_room(side, true) {
            v.push(Move::new(king_sq, Square::from_rank_and_file(rank, File::G), None));
        }
        if self.castle_rights(side).queenside() && self.check_castle_has_room(side, false) {
            v.push(Move::new(king_sq, Square::from_rank_and_file(rank, File::C), None));
        }
        proof {
            assert(v@ =~= spec_castle_moves(self@, side));
        }
        v
    }

    /// The pseudo-legal move stream of `side`: per-square piece moves in
    /// increasing square and destination order, pawn moves onto the last
    /// rank expanded into the four promotions, then the castling moves.
    pub fn moves(&self, side: Side) -> (r: Vec<Move>)
        requires
            wf_board(self@),
        ensures
            r@ == spec_moves(self@, side),
    {
        let mut out: Vec<Move> = Vec::new();
        let mut i: usize = 0;
        while i < 64
            invariant
                i <= 64,
                wf_board(self@),
                out@ == moves_upto(self@, side, i as int),
            decreases 64 - i,
        {
            let sq = Square(i as u8);
            let ghost before = out@;
            if self.color_pieces(side).get(sq) {
                match self.piece(sq) {
                    Some((piece, pside)) => {
                        let moves_bb = piecemoves::get_piece_moves(
                            piece,
                            pside,
                            sq,
                            *self.enpassant(),
                            self.color_pieces(pside.other()),
                            self.color_pieces(pside),
                        );
                        let mut d: usize = 0;
                        while d < 64
                            invariant
                                d <= 64,
                                i < 64,
                                sq.0 == i,
                                sq.valid(),
                                wf_board(self@),
                                at(self@, i as int) == Some::<(Piece, Side)>((piece, pside)),
                                forall|j: int| #[trigger] bb_has(moves_bb@, j)
                                    == spec_piece_move_dest(
                                    piece,
                                    pside,
                                    sq,
                                    self@.enpassant,
                                    side_bb(self@, pside.spec_other()),
                                    side_bb(self@, pside),
                                    j,
                                ),
                                out@ == before + sq_dest_upto(self@, sq, piece, pside, d as int),
                            decreases 64 - d,
                        {
                            let dsq = Square(d as u8);
                            if moves_bb.get(dsq) {
                                if piece == Piece::Pawn && dsq.rank().is_promo_rank(pside) {
                                    out.push(Move::new(sq, dsq, Some(Piece::Queen)));
                                    out.push(Move::new(sq, dsq, Some(Piece::Knight)));
                                    out.push(Move::new(sq, dsq, Some(Piece::Bishop)));
                                    out.push(Move::new(sq, dsq, Some(Piece::Rook)));
                                } else {
                                    out.push(Move::new(sq, dsq, None));
                                }
                            }
                            proof {
                                assert(out@ =~= before + sq_dest_upto(
                                    self@,
                                    sq,
                                    piece,
                                    pside,
                                    d + 1,
                                ));
                            }
                            d = d + 1;
                        }
                    },
                    None => {
                        proof {
                            assert(occupied(self@, i as int));
                            assert(at_piece(self@, i as int) is Some);
                            assert(false);
                        }
                    },
                }
            }
            proof {
                assert(out@ =~= moves_upto(self@, side, i + 1));
            }
            i = i + 1;
        }
        let mut cm = self.castle_moves(side);
        out.append(&mut cm);
        proof {
            assert(out@ =~= spec_moves(self@, side));
        }
        out
    }

    /// Applies `m` without the structural check; the caller has made
    /// sure the start square is occupied.
    #[verifier::rlimit(100)]
    fn apply_move_unchecked(self, mv: &Move) -> (r: Board)
        requires
            mv.valid(),
            at(self@, mv.start.0 as int) is Some,
            self@.halfmove_clock < u64::MAX,
            self@.fullmoves < u64::MAX,
        ensures
            r@ == spec_apply(self@, *mv),
    {
        let mut b = self;
        let ghost v0 = b@;
        let (piece, side) = match b.piece(mv.start()) {
            Some(x) => x,
            None => {
                proof {
                    assert(false);
                }
                (Piece::Pawn, Side::White)
            },
        };
        let is_capture = b.piece(mv.dest()).is_some();

        let qr = match side {
            Side::White => Square::from_rank_and_file(Rank::new(1), File::A),
            Side::Black => Square::from_rank_and_file(Rank::new(8), File::A),
        };
        let kr = match side {
            Side::White => Square::from_rank_and_file(Rank::new(1), File::H),
            Side::Black => Square::from_rank_and_file(Rank::new(8), File::H),
        };
        if piece == Piece::Rook && mv.start() == qr {
            b.castle_rights_mut(side).remove_queenside();
        }
        if piece == Piece::Rook && mv.start() == kr {
            b.castle_rights_mut(side).remove_kingside();
        }
        if piece == Piece::King {
            b.castle_rights_mut(side).remove_kingside();
            b.castle_rights_mut(side).remove_queenside();
        }
        let ghost v3 = b@;

        if mv.is_castling(&b) {
            let rank = mv.start().rank();
            if mv.is_kingside_castle(&b) {
                b.set_square(Square::from_rank_and_file(rank, File::F), Piece::Rook, side);
                b.clear_square(Square::from_rank_and_file(rank, File::H));
            } else {
                b.set_square(Square::from_rank_and_file(rank, File::D), Piece::Rook, side);
                b.clear_square(Square::from_rank_and_file(rank, File::A));
            }
        }
        let ghost v4 = b@;

        if let Some(enpassant_sq) = b.enpassant().to_square() {
            if enpassant_sq == mv.dest() && piece == Piece::Pawn {
                let kill_rank = match side {
                    Side::White => Rank::new(5),
                    Side::Black => Rank::new(4),
                };
                let enpassant_target_sq = Square::from_rank_and_file(kill_rank, mv.dest().file());
                b.clear_square(enpassant_target_sq);
            }
        }
        let ghost v5 = b@;

        b.clear_square(mv.start());
        match mv.promo() {
            Some(promo) => b.set_square(mv.dest(), promo, side),
            None => b.set_square(mv.dest(), piece, side),
        }
        let half = piece == Piece::Pawn || is_capture;
        b.adv_ply(half);
        b.set_enpassant(BitBoard::default());
        let ghost v9 = b@;

        if piece == Piece::Pawn && mv.start().rank().allow_double_move(side) {
            let two_forward = match side {
                Side::White => mv.start().0 + 16,
                Side::Black => mv.start().0 - 16,
            };
            if mv.dest().0 == two_forward {
                let enpassant_rank = match side {
                    Side::White => Rank::new(3),
                    Side::Black => Rank::new(6),
                };
                let enpassant_sq = Square::from_rank_and_file(enpassant_rank, mv.start().file());
                b.set_enpassant(BitBoard::from_square(enpassant_sq));
            }
        }
        proof {
            assert(b@ =~= spec_apply(v0, *mv));
        }
        b
    }

    /// Applies `m`, yielding the successor position, or fails when the
    /// start square is empty. This is the only failure: legality is the
    /// business of `move_legal`.
    pub fn apply_move(self, mv: &Move) -> (r: Result<Board, StructuralError>)
        requires
            mv.valid(),
            self@.halfmove_clock < u64::MAX,
            self@.fullmoves < u64::MAX,
        ensures
            (r is Ok) == (at(self@, mv.start.0 as int) is Some),
            r matches Ok(b) ==> b@ == spec_apply(self@, *mv),
    {
        if self.move_structural(mv) {
            Ok(self.apply_move_unchecked(mv))
        } else {
            Err(StructuralError)
        }
    }
}


/// Applying a move keeps the board structurally sane.
pub proof fn lemma_apply_wf(v: BoardV, m: Move)
    requires
        wf_board(v),
        m.valid(),
    ensures
        wf_board(spec_apply(v, m)),
{
    match at(v, m.start.0 as int) {
        None => {},
        Some((piece, side)) => {
            let start = m.start.0 as int;
            let dest = m.dest.0 as int;
            let base = castle_home_base(side);
            let v1 = if piece == Piece::Rook && start == base {
                with_castle(v, side, castle_of(v, side).spec_remove_queenside())
            } else {
                v
            };
            let v2 = if piece == Piece::Rook && start == base + 7 {
                with_castle(v1, side, castle_of(v1, side).spec_remove_kingside())
            } else {
                v1
            };
            let v3 = if piece == Piece::King {
                let a = with_castle(v2, side, castle_of(v2, side).spec_remove_kingside());
                with_castle(a, side, castle_of(a, side).spec_remove_queenside())
            } else {
                v2
            };
            crate::board::lemma_castle_remove(castle_of(v, side));
            crate::board::lemma_castle_remove(castle_of(v1, side));
            crate::board::lemma_castle_remove(castle_of(v2, side));
            if piece == Piece::King {
                let a = with_castle(v2, side, castle_of(v2, side).spec_remove_kingside());
                crate::board::lemma_castle_remove(castle_of(a, side));
            }
            crate::board::lemma_wf_same_occupancy(v, v1);
            crate::board::lemma_wf_same_occupancy(v1, v2);
            crate::board::lemma_wf_same_occupancy(v2, v3);
            assert(wf_board(v3));
            let rank_base = (start / 8) * 8;
            let v4 = if m.spec_is_castling(v, ) {
                if m.dest.spec_file_index() == 6 {
                    spec_clear_square(
                        spec_set_square(v3, rank_base + 5, Piece::Rook, side),
                        rank_base + 7,
                    )
                } else {
                    spec_clear_square(
                        spec_set_square(v3, rank_base + 3, Piece::Rook, side),
                        rank_base,
                    )
                }
            } else {
                v3
            };
            if m.spec_is_castling(v, ) {
                if m.dest.spec_file_index() == 6 {
                    crate::board::lemma_wf_clear_set(v3, rank_base + 5, Piece::Rook, side);
                    crate::board::lemma_wf_clear_set(
                        spec_set_square(v3, rank_base + 5, Piece::Rook, side),
                        rank_base + 7,
                        Piece::Rook,
                        side,
                    );
                } else {
                    crate::board::lemma_wf_clear_set(v3, rank_base + 3, Piece::Rook, side);
                    crate::board::lemma_wf_clear_set(
                        spec_set_square(v3, rank_base + 3, Piece::Rook, side),
                        rank_base,
                        Piece::Rook,
                        side,
                    );
                }
            }
            assert(wf_board(v4));
            let v5 = if lowest_sq(v.enpassant) == Some(m.dest) && piece == Piece::Pawn {
                let kill_rank: int = match side {
                    Side::White => 5,
                    Side::Black => 4,
                };
                spec_clear_square(v4, (kill_rank - 1) * 8 + (dest % 8))
            } else {
                v4
            };
            if lowest_sq(v.enpassant) == Some(m.dest) && piece == Piece::Pawn {
                let kill_rank: int = match side {
                    Side::White => 5,
                    Side::Black => 4,
                };
                crate::board::lemma_wf_clear_set(
                    v4,
                    (kill_rank - 1) * 8 + (dest % 8),
                    Piece::Pawn,
                    side,
                );
            }
            assert(wf_board(v5));
            let v6 = spec_clear_square(v5, start);
            crate::board::lemma_wf_clear_set(v5, start, piece, side);
            let put = match m.promo {
                Some(pp) => pp,
                None => piece,
            };
            let v7 = spec_set_square(v6, dest, put, side);
            crate::board::lemma_wf_clear_set(v6, dest, put, side);
            assert(wf_board(v7));
            let reset = piece == Piece::Pawn || is_capture_of(v, m);
            let v8 = BoardV {
                to_move: v7.to_move.spec_other(),
                halfmove_clock: if reset {
                    0u64
                } else {
                    (v7.halfmove_clock + 1) as u64
                },
                fullmoves: if v7.to_move == Side::Black {
                    (v7.fullmoves + 1) as u64
                } else {
                    v7.fullmoves
                },
                ..v7
            };
            crate::board::lemma_wf_same_occupancy(v7, v8);
            let v9 = BoardV { enpassant: 0u64, ..v8 };
            crate::board::lemma_wf_same_occupancy(v8, v9);
            if piece == Piece::Pawn && m.start.spec_rank().spec_allow_double_move(side) && dest
                == start + (match side {
                Side::White => 16int,
                Side::Black => -16int,
            }) {
                let ep_rank: int = match side {
                    Side::White => 3,
                    Side::Black => 6,
                };
                let v10 = BoardV {
                    enpassant: 1u64 << ((((ep_rank - 1) * 8) + (start % 8)) as u64),
                    ..v9
                };
                crate::board::lemma_wf_same_occupancy(v9, v10);
                assert(spec_apply(v, m) == v10);
            } else {
                assert(spec_apply(v, m) == v9);
            }
            assert(wf_board(spec_apply(v, m)));
        },
    }
}

/// Whether `m` captures something on `v`: its destination is occupied.
pub open spec fn is_capture_of(v: BoardV, m: Move) -> bool {
    at(v, m.dest.0 as int) is Some
}

} // verus!
