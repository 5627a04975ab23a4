use vstd::prelude::*;
use crate::bitboard::lowest_sq;
use crate::board::{at, castle_of, piece_bb, side_bb, spec_clear_square, wf_board, Board, BoardV};
use crate::direction::Direction;
use crate::moves::{
    castle_home_base, spec_apply, spec_castle_has_room, spec_castle_moves, spec_moves, Move,
};
use crate::piece::Piece;
use crate::side::Side;
use crate::square::{File, Rank, Square};

verus! {

/// Rank of a query in the attack/pin recursion: pin queries ask attack
/// queries that themselves ignore pins, never the other way.
pub open spec fn pin_rank(ignore_pins: bool) -> int {
    if ignore_pins {
        0
    } else {
        1
    }
}

/// True when walking from `cur` along `dir` meets, as the first piece,
/// an enemy of `us` that attacks the ray's origin `start`: a slider
/// matching the ray's orientation, or a king at distance one. Pins are
/// ignored.
pub open spec fn spec_check_ray_plain(
    v: BoardV,
    start: Square,
    cur: Square,
    us: Side,
    dir: Direction,
    fuel: nat,
) -> bool
    decreases fuel,
{
    if fuel == 0 {
        false
    } else {
        match cur.spec_next(dir) {
            None => false,
            Some(next) => match at(v, next.0 as int) {
                Some((piece, side)) => side != us && ray_piece_attacks(start, next, piece, dir),
                None => spec_check_ray_plain(v, start, next, us, dir, (fuel - 1) as nat),
            },
        }
    }
}

/// Whether the first piece met on a ray attacks the ray's origin: a
/// slider matching the ray's orientation, or a king at distance one.
pub open spec fn ray_piece_attacks(start: Square, next: Square, piece: Piece, dir: Direction) -> bool {
    if dir.spec_is_diag() {
        piece == Piece::Bishop || piece == Piece::Queen || (next.spec_is_kingmove_away(start)
            && piece == Piece::King)
    } else {
        piece == Piece::Rook || piece == Piece::Queen || (next.spec_is_kingmove_away(start)
            && piece == Piece::King)
    }
}

/// True when the square `o`, if any, holds an enemy knight of `us`,
/// pins ignored.
pub open spec fn spec_knight_attacker_plain(v: BoardV, o: Option<Square>, us: Side) -> bool {
    match o {
        Some(s) => match at(v, s.0 as int) {
            Some((piece, side)) => piece == Piece::Knight && side != us,
            None => false,
        },
        None => false,
    }
}

/// True when the square `o`, if any, holds an enemy pawn of `us`, pins
/// ignored.
pub open spec fn spec_pawn_attacker_plain(v: BoardV, o: Option<Square>, us: Side) -> bool {
    match o {
        Some(s) => match at(v, s.0 as int) {
            Some((piece, side)) => piece == Piece::Pawn && side != us,
            None => false,
        },
        None => false,
    }
}

/// The square one step beyond `sq`, on the left diagonal from which an
/// enemy pawn would attack `sq`.
pub open spec fn pawn_source_left(sq: Square, us: Side) -> Option<Square> {
    sq.spec_next(
        match us {
            Side::White => Direction::UpLeft,
            Side::Black => Direction::DownLeft,
        },
    )
}

/// The square one step beyond `sq`, on the right diagonal from which an
/// enemy pawn would attack `sq`.
pub open spec fn pawn_source_right(sq: Square, us: Side) -> Option<Square> {
    sq.spec_next(
        match us {
            Side::White => Direction::UpRight,
            Side::Black => Direction::DownRight,
        },
    )
}

/// True when `sq` is attacked by some piece of the opponent of `us`,
/// every attacker counting whether pinned or not.
pub open spec fn spec_attacked_ignoring_pins(v: BoardV, sq: Square, us: Side) -> bool {
    ||| (exists|d: Direction| spec_check_ray_plain(v, sq, sq, us, d, 64))
    ||| (exists|d: Direction| spec_knight_attacker_plain(v, sq.spec_next_knight(d), us))
    ||| spec_pawn_attacker_plain(v, pawn_source_left(sq, us), us)
    ||| spec_pawn_attacker_plain(v, pawn_source_right(sq, us), us)
}

/// True when `side`'s king stands on an attacked square. A piece's own
/// pin status never stops it from giving check, so pins are ignored.
/// A board without that king is not in check.
pub open spec fn spec_is_in_check(v: BoardV, side: Side) -> bool {
    match lowest_sq(piece_bb(v, Piece::King) & side_bb(v, side)) {
        None => false,
        Some(k) => spec_attacked_ignoring_pins(v, k, side),
    }
}

/// True when the piece on `sq` is the sole shield of the enemy king of
/// `us`: removing it would put the opponent of `us` in check while the
/// opponent is not in check now. A king square is never pinned.
pub open spec fn spec_is_pinned_by_us(v: BoardV, sq: Square, us: Side) -> bool {
    match lowest_sq(piece_bb(v, Piece::King) & side_bb(v, us.spec_other())) {
        None => false,
        Some(tk) => if tk == sq {
            false
        } else {
            spec_is_in_check(spec_clear_square(v, sq.0 as int), us.spec_other())
                && !spec_is_in_check(v, us.spec_other())
        },
    }
}

/// Like `spec_check_ray_plain`, but when `ignore_pins` is false an
/// attacker pinned against its own king is disregarded.
pub open spec fn spec_check_ray(
    v: BoardV,
    start: Square,
    cur: Square,
    us: Side,
    dir: Direction,
    ignore_pins: bool,
    fuel: nat,
) -> bool
    decreases fuel,
{
    if fuel == 0 {
        false
    } else {
        match cur.spec_next(dir) {
            None => false,
            Some(next) => match at(v, next.0 as int) {
                Some((piece, side)) => side != us && (ignore_pins || !spec_is_pinned_by_us(
                    v,
                    next,
                    us,
                )) && ray_piece_attacks(start, next, piece, dir),
                None => spec_check_ray(v, start, next, us, dir, ignore_pins, (fuel - 1) as nat),
            },
        }
    }
}

/// True when the square `o`, if any, holds an enemy knight of `us` that
/// counts as an attacker under the pin rule.
pub open spec fn spec_knight_attacker(v: BoardV, o: Option<Square>, us: Side, ignore_pins: bool) -> bool {
    match o {
        Some(s) => spec_knight_attacker_plain(v, o, us) && (ignore_pins || !spec_is_pinned_by_us(
            v,
            s,
            us,
        )),
        None => false,
    }
}

/// True when the square `o`, if any, holds an enemy pawn of `us` that
/// counts as an attacker under the pin rule.
pub open spec fn spec_pawn_attacker(v: BoardV, o: Option<Square>, us: Side, ignore_pins: bool) -> bool {
    match o {
        Some(s) => spec_pawn_attacker_plain(v, o, us) && (ignore_pins || !spec_is_pinned_by_us(
            v,
            s,
            us,
        )),
        None => false,
    }
}

/// True when `sq` is attacked by some piece of the opponent of `us`:
/// by a slider or adjacent king along one of the eight rays, by a
/// knight, or by a pawn one diagonal step beyond `sq` from `us`'s point
/// of view. With `ignore_pins` false, attackers pinned against their
/// own king are disregarded.
pub open spec fn spec_is_attacked(v: BoardV, sq: Square, us: Side, ignore_pins: bool) -> bool {
    ||| (exists|d: Direction| spec_check_ray(v, sq, sq, us, d, ignore_pins, 64))
    ||| (exists|d: Direction| spec_knight_attacker(v, sq.spec_next_knight(d), us, ignore_pins))
    ||| spec_pawn_attacker(v, pawn_source_left(sq, us), us, ignore_pins)
    ||| spec_pawn_attacker(v, pawn_source_right(sq, us), us, ignore_pins)
}

/// With pins ignored, the pin-aware ray walk agrees with the plain one.
pub proof fn lemma_check_ray_ignoring_pins(
    v: BoardV,
    start: Square,
    cur: Square,
    us: Side,
    dir: Direction,
    fuel: nat,
)
    ensures
        spec_check_ray(v, start, cur, us, dir, true, fuel) == spec_check_ray_plain(
            v,
            start,
            cur,
            us,
            dir,
            fuel,
        ),
    decreases fuel,
{
    if fuel > 0 {
        match cur.spec_next(dir) {
            None => {},
            Some(next) => {
                if at(v, next.0 as int) is None {
                    lemma_check_ray_ignoring_pins(v, start, next, us, dir, (fuel - 1) as nat);
                }
            },
        }
    }
}

/// With pins ignored, `spec_is_attacked` agrees with
/// `spec_attacked_ignoring_pins`.
pub proof fn lemma_attacked_ignoring_pins(v: BoardV, sq: Square, us: Side)
    ensures
        spec_is_attacked(v, sq, us, true) == spec_attacked_ignoring_pins(v, sq, us),
{
    assert forall|d: Direction|
        spec_check_ray(v, sq, sq, us, d, true, 64) == spec_check_ray_plain(
            v,
            sq,
            sq,
            us,
            d,
            64,
        ) by {
        lemma_check_ray_ignoring_pins(v, sq, sq, us, d, 64);
    }
    if spec_is_attacked(v, sq, us, true) {
        if exists|d: Direction| spec_check_ray(v, sq, sq, us, d, true, 64) {
            let d = choose|d: Direction| spec_check_ray(v, sq, sq, us, d, true, 64);
            assert(spec_check_ray_plain(v, sq, sq, us, d, 64));
            assert(spec_attacked_ignoring_pins(v, sq, us));
        } else if exists|d: Direction| spec_knight_attacker(v, sq.spec_next_knight(d), us, true) {
            let d = choose|d: Direction| spec_knight_attacker(v, sq.spec_next_knight(d), us, true);
            assert(spec_knight_attacker_plain(v, sq.spec_next_knight(d), us));
            assert(spec_attacked_ignoring_pins(v, sq, us));
        } else {
            assert(spec_attacked_ignoring_pins(v, sq, us));
        }
    }
    if spec_attacked_ignoring_pins(v, sq, us) {
        if exists|d: Direction| spec_check_ray_plain(v, sq, sq, us, d, 64) {
            let d = choose|d: Direction| spec_check_ray_plain(v, sq, sq, us, d, 64);
            assert(spec_check_ray(v, sq, sq, us, d, true, 64));
            assert(spec_is_attacked(v, sq, us, true));
        } else if exists|d: Direction| spec_knight_attacker_plain(v, sq.spec_next_knight(d), us) {
            let d = choose|d: Direction| spec_knight_attacker_plain(v, sq.spec_next_knight(d), us);
            assert(spec_knight_attacker(v, sq.spec_next_knight(d), us, true));
            assert(spec_is_attacked(v, sq, us, true));
        } else {
            assert(spec_is_attacked(v, sq, us, true));
        }
    }
}

/// Legality of `m` for `side` on `v`: the start square holds a piece of
/// `side`; the position after applying the move does not leave `side`
/// in check; and a castling move additionally needs the right still
/// held, the rook of `side` on its home corner, and the king's start,
/// transit and destination squares free of attack (pins ignored).
pub open spec fn spec_move_legal(v: BoardV, m: Move, side: Side) -> bool {
    match at(v, m.start.0 as int) {
        None => false,
        Some((_, s)) => {
            &&& s == side
            &&& !spec_is_in_check(spec_apply(v, m), side)
            &&& (m.spec_is_castling(v) ==> spec_castle_safe(v, m, side))
        },
    }
}

/// The castling-safety conditions of `spec_move_legal`.
pub open spec fn spec_castle_safe(v: BoardV, m: Move, side: Side) -> bool {
    let base = castle_home_base(side);
    if m.spec_is_kingside_castle(v) {
        &&& castle_of(v, side).spec_kingside()
        &&& at(v, base + 7) == Some((Piece::Rook, side))
        &&& !spec_attacked_ignoring_pins(v, Square((base + 4) as u8), side)
        &&& !spec_attacked_ignoring_pins(v, Square((base + 5) as u8), side)
        &&& !spec_attacked_ignoring_pins(v, Square((base + 6) as u8), side)
    } else {
        &&& castle_of(v, side).spec_queenside()
        &&& at(v, base) == Some((Piece::Rook, side))
        &&& !spec_attacked_ignoring_pins(v, Square((base + 4) as u8), side)
        &&& !spec_attacked_ignoring_pins(v, Square((base + 3) as u8), side)
        &&& !spec_attacked_ignoring_pins(v, Square((base + 2) as u8), side)
    }
}

/// The legal subset of `ms`, keeping order.
pub open spec fn filter_legal(v: BoardV, ms: Seq<Move>) -> Seq<Move>
    decreases ms.len(),
{
    if ms.len() == 0 {
        Seq::empty()
    } else {
        filter_legal(v, ms.drop_last()) + (if spec_move_legal(v, ms.last(), v.to_move) {
            seq![ms.last()]
        } else {
            Seq::empty()
        })
    }
}

/// The legal moves of the side to move.
pub open spec fn spec_legal_moves(v: BoardV) -> Seq<Move> {
    filter_legal(v, spec_moves(v, v.to_move))
}

impl Board {
    /// The legal moves of the side to move: the pseudo-legal stream
    /// filtered by `move_legal`, order kept.
    #[verifier::rlimit(60)]
    pub fn legal_moves(&self) -> (r: Vec<Move>)
        requires
            wf_board(self@),
            self@.halfmove_clock < u64::MAX,
            self@.fullmoves < u64::MAX,
        ensures
            r@ == spec_legal_moves(self@),
    {
        let side = self.to_move();
        let ms = self.moves(side);
        proof {
            lemma_moves_valid(self@, side);
        }
        let mut out: Vec<Move> = Vec::new();
        let mut i: usize = 0;
        while i < ms.len()
            invariant
                i <= ms.len(),
                wf_board(self@),
                self@.halfmove_clock < u64::MAX,
                self@.fullmoves < u64::MAX,
                side == self@.to_move,
                ms@ == spec_moves(self@, side),
                forall|k: int| 0 <= k < ms@.len() ==> (#[trigger] ms@[k]).valid(),
                out@ == filter_legal(self@, ms@.take(i as int)),
            decreases ms.len() - i,
        {
            let m = ms[i];
            if self.move_legal(&m, side) {
                out.push(m);
            }
            proof {
                assert(ms@.take(i + 1).drop_last() =~= ms@.take(i as int));
                assert(ms@.take(i + 1).last() == ms@[i as int]);
                assert(out@ =~= filter_legal(self@, ms@.take(i + 1)));
            }
            i = i + 1;
        }
        proof {
            assert(ms@.take(ms@.len() as int) =~= ms@);
        }
        out
    }

    /// True when the piece on `sq` is the sole shield of the enemy king
    /// of `us`: removing it would put the opponent of `us` in check
    /// while the opponent is not in check now.
    pub fn is_pinned_by_us(&self, sq: Square, us: Side) -> (r: bool)
        requires
            sq.valid(),
        ensures
            r == spec_is_pinned_by_us(self@, sq, us),
        decreases 0int, 6int, 0nat,
    {
        let their_king_sq = match self.pieces(Piece::King).bitand(
            self.color_pieces(us.other()),
        ).to_square() {
            Some(k) => k,
            None => {
                return false;
            },
        };
        if their_king_sq == sq {
            return false;
        }
        let mut without = self.clone();
        without.clear_square(sq);
        without.is_in_check(us.other()) && !self.is_in_check(us.other())
    }

    /// True when `side`'s king stands on an attacked square, its own
    /// pieces' pin status being irrelevant to giving check.
    pub fn is_in_check(&self, side: Side) -> (r: bool)
        ensures
            r == spec_is_in_check(self@, side),
        decreases 0int, 5int, 0nat,
    {
        let king_sq = match self.pieces(Piece::King).bitand(self.color_pieces(side)).to_square() {
            Some(k) => k,
            None => {
                return false;
            },
        };
        proof {
            lemma_attacked_ignoring_pins(self@, king_sq, side);
        }
        self.is_attacked(king_sq, side, true)
    }

    /// Walks outward from `cur` along `dir` and reports whether the
    /// first piece met attacks `start` for the opponent of `us`.
    fn check_attacking_ray(
        &self,
        start: Square,
        cur: Square,
        us: Side,
        dir: Direction,
        ignore_pins: bool,
        fuel: u8,
    ) -> (r: bool)
        requires
            start.valid(),
            cur.valid(),
        ensures
            r == spec_check_ray(self@, start, cur, us, dir, ignore_pins, fuel as nat),
        decreases pin_rank(ignore_pins), 2int, fuel as nat,
    {
        if fuel == 0 {
            return false;
        }
        match cur.next_sq(dir) {
            None => false,
            Some(next) => match self.piece(next) {
                Some((piece, side)) => {
                    if side != us && (ignore_pins || !self.is_pinned_by_us(next, us)) {
                        if dir.is_diag() {
                            piece == Piece::Bishop || piece == Piece::Queen || (
                            next.is_kingmove_away(start) && piece == Piece::King)
                        } else {
                            piece == Piece::Rook || piece == Piece::Queen || (
                            next.is_kingmove_away(start) && piece == Piece::King)
                        }
                    } else {
                        false
                    }
                },
                None => self.check_attacking_ray(start, next, us, dir, ignore_pins, fuel - 1),
            },
        }
    }

    /// True when `sq` is attacked by any piece of the opponent of `us`:
    /// sliders and adjacent kings along the eight rays, knights on the
    /// jump squares, and pawns one diagonal step beyond `sq`. With
    /// `ignore_pins` false, attackers pinned against their own king are
    /// disregarded.
    pub fn is_attacked(&self, sq: Square, us: Side, ignore_pins: bool) -> (r: bool)
        requires
            sq.valid(),
        ensures
            r == spec_is_attacked(self@, sq, us, ignore_pins),
        decreases pin_rank(ignore_pins), 3int, 0nat,
    {
        let mut i: usize = 0;
        while i < 8
            invariant
                i <= 8,
                sq.valid(),
                forall|d: Direction| d.spec_index() < i ==> !spec_check_ray(
                    self@,
                    sq,
                    sq,
                    us,
                    d,
                    ignore_pins,
                    64,
                ),
            decreases 8 - i,
        {
            let dir = Direction::from_usize(i);
            if self.check_attacking_ray(sq, sq, us, dir, ignore_pins, 64) {
                proof {
                    assert(spec_check_ray(self@, sq, sq, us, dir, ignore_pins, 64));
                    assert(exists|d: Direction|
                        spec_check_ray(self@, sq, sq, us, d, ignore_pins, 64));
                    assert(spec_is_attacked(self@, sq, us, ignore_pins));
                }
                return true;
            }
            i = i + 1;
        }

        let mut k: usize = 0;
        while k < 8
            invariant
                k <= 8,
                sq.valid(),
                forall|d: Direction| !spec_check_ray(self@, sq, sq, us, d, ignore_pins, 64),
                forall|d: Direction| d.spec_index() < k ==> !spec_knight_attacker(
                    self@,
                    sq.spec_next_knight(d),
                    us,
                    ignore_pins,
                ),
            decreases 8 - k,
        {
            let dir = Direction::from_usize(k);
            if let Some(next) = sq.next_sq_knight(dir) {
                if let Some((piece, side)) = self.piece(next) {
                    if piece == Piece::Knight && side != us && (ignore_pins || !self.is_pinned_by_us(
                        next,
                        us,
                    )) {
                        proof {
                            assert(spec_knight_attacker(
                                self@,
                                sq.spec_next_knight(dir),
                                us,
                                ignore_pins,
                            ));
                            assert(exists|d: Direction|
                                spec_knight_attacker(
                                    self@,
                                    sq.spec_next_knight(d),
                                    us,
                                    ignore_pins,
                                ));
                            assert(spec_is_attacked(self@, sq, us, ignore_pins));
                        }
                        return true;
                    }
                }
            }
            k = k + 1;
        }

        let s1 = sq.next_sq(
            match us {
                Side::White => Direction::UpLeft,
                Side::Black => Direction::DownLeft,
            },
        );
        if let Some(source) = s1 {
            if let Some((piece, side)) = self.piece(source) {
                if piece == Piece::Pawn && side != us && (ignore_pins || !self.is_pinned_by_us(
                    source,
                    us,
                )) {
                    proof {
                        assert(spec_pawn_attacker(self@, Some(source), us, ignore_pins));
                        assert(spec_is_attacked(self@, sq, us, ignore_pins));
                    }
                    return true;
                }
            }
        }
        let s2 = sq.next_sq(
            match us {
                Side::White => Direction::UpRight,
                Side::Black => Direction::DownRight,
            },
        );
        if let Some(source) = s2 {
            if let Some((piece, side)) = self.piece(source) {
                if piece == Piece::Pawn && side != us && (ignore_pins || !self.is_pinned_by_us(
                    source,
                    us,
                )) {
                    proof {
                        assert(spec_pawn_attacker(self@, Some(source), us, ignore_pins));
                        assert(spec_is_attacked(self@, sq, us, ignore_pins));
                    }
                    return true;
                }
            }
        }
        proof {
            assert forall|d: Direction|
                !spec_knight_attacker(self@, sq.spec_next_knight(d), us, ignore_pins) by {
                assert(d.spec_index() < 8);
            }
            assert(!spec_pawn_attacker(self@, pawn_source_left(sq, us), us, ignore_pins));
            assert(!spec_pawn_attacker(self@, pawn_source_right(sq, us), us, ignore_pins));
        }
        false
    }

    /// Whether `m` is legal for `side`: the start square holds a piece
    /// of `side`, the applied move does not leave `side` in check, and
    /// a castling move passes the castling-safety checks.
    pub fn move_legal(&self, mv: &Move, side: Side) -> (r: bool)
        requires
            mv.valid(),
            self@.halfmove_clock < u64::MAX,
            self@.fullmoves < u64::MAX,
        ensures
            r == spec_move_legal(self@, *mv, side),
    {
        match self.piece(mv.start()) {
            Some((_, s)) => {
                if s != side {
                    return false;
                }
            },
            None => {
                return false;
            },
        }
        let applied = match self.clone().apply_move(mv) {
            Ok(x) => x,
            _ => {
                return false;
            },
        };

        if applied.is_in_check(side) {
            return false;
        }

        if mv.is_castling(self) {
            let rank = match side {
                Side::White => Rank::new(1),
                Side::Black => Rank::new(8),
            };
            if mv.is_kingside_castle(self) {
                if !self.castle_rights(side).kingside() {
                    return false;
                }
                match self.piece(Square::from_rank_and_file(rank, File::H)) {
                    Some((r, s)) => {
                        if r != Piece::Rook || s != side {
                            return false;
                        }
                    },
                    None => {
                        return false;
                    },
                }
                let e_sq = Square::from_rank_and_file(rank, File::E);
                let f_sq = Square::from_rank_and_file(rank, File::F);
                let g_sq = Square::from_rank_and_file(rank, File::G);
                proof {
                    lemma_attacked_ignoring_pins(self@, e_sq, side);
                    lemma_attacked_ignoring_pins(self@, f_sq, side);
                    lemma_attacked_ignoring_pins(self@, g_sq, side);
                }
                if self.is_attacked(e_sq, side, true) {
                    return false;
                }
                if self.is_attacked(f_sq, side, true) {
                    return false;
                }
                if self.is_attacked(g_sq, side, true) {
                    return false;
                }
            } else {
                if !self.castle_rights(side).queenside() {
                    return false;
                }
                match self.piece(Square::from_rank_and_file(rank, File::A)) {
                    Some((r, s)) => {
                        if r != Piece::Rook || s != side {
                            return false;
                        }
                    },
                    None => {
                        return false;
                    },
                }
                let e_sq = Square::from_rank_and_file(rank, File::E);
                let d_sq = Square::from_rank_and_file(rank, File::D);
                let c_sq = Square::from_rank_and_file(rank, File::C);
                proof {
                    lemma_attacked_ignoring_pins(self@, e_sq, side);
                    lemma_attacked_ignoring_pins(self@, d_sq, side);
                    lemma_attacked_ignoring_pins(self@, c_sq, side);
                }
                if self.is_attacked(e_sq, side, true) {
                    return false;
                }
                if self.is_attacked(d_sq, side, true) {
                    return false;
                }
                if self.is_attacked(c_sq, side, true) {
                    return false;
                }
            }
        }
        true
    }
}

/// Every move the generator emits has its squares on the board.
pub proof fn lemma_moves_valid(v: BoardV, side: Side)
    ensures
        forall|k: int| 0 <= k < spec_moves(v, side).len() ==> (#[trigger] spec_moves(v, side)[k]).valid(),
{
    lemma_moves_upto_valid(v, side, 64);
    let cm = spec_castle_moves(v, side);
    assert forall|k: int| 0 <= k < cm.len() implies (#[trigger] cm[k]).valid() by {
        crate::bitboard::lemma_lowest_sq_valid(piece_bb(v, Piece::King) & side_bb(v, side));
    }
    let base = crate::moves::moves_upto(v, side, 64);
    let all = spec_moves(v, side);
    assert forall|k: int| 0 <= k < all.len() implies (#[trigger] all[k]).valid() by {
        if k < base.len() {
            assert(all[k] == base[k]);
        } else {
            assert(all[k] == cm[k - base.len()]);
        }
    }
}

proof fn lemma_moves_upto_valid(v: BoardV, side: Side, n: int)
    requires
        n <= 64,
    ensures
        forall|k: int| 0 <= k < crate::moves::moves_upto(v, side, n).len() ==> (
        #[trigger] crate::moves::moves_upto(v, side, n)[k]).valid(),
    decreases n,
{
    if n > 0 {
        lemma_moves_upto_valid(v, side, n - 1);
        lemma_sq_moves_valid(v, side, n - 1);
        let prior = crate::moves::moves_upto(v, side, n - 1);
        let sqm = crate::moves::square_moves(v, side, n - 1);
        let cur = crate::moves::moves_upto(v, side, n);
        assert forall|k: int| 0 <= k < cur.len() implies (#[trigger] cur[k]).valid() by {
            if k < prior.len() {
                assert(cur[k] == prior[k]);
            } else {
                assert(cur[k] == sqm[k - prior.len()]);
            }
        }
    }
}

proof fn lemma_sq_moves_valid(v: BoardV, side: Side, i: int)
    requires
        0 <= i < 64,
    ensures
        forall|k: int| 0 <= k < crate::moves::square_moves(v, side, i).len() ==> (
        #[trigger] crate::moves::square_moves(v, side, i)[k]).valid(),
{
    if crate::bitboard::bb_has(side_bb(v, side), i) {
        match at(v, i) {
            Some((p, s)) => {
                lemma_sq_dest_valid(v, Square(i as u8), p, s, 64);
            },
            None => {},
        }
    }
}

proof fn lemma_sq_dest_valid(v: BoardV, sq: Square, p: Piece, s: Side, n: int)
    requires
        sq.valid(),
        n <= 64,
    ensures
        forall|k: int| 0 <= k < crate::moves::sq_dest_upto(v, sq, p, s, n).len() ==> (
        #[trigger] crate::moves::sq_dest_upto(v, sq, p, s, n)[k]).valid(),
    decreases n,
{
    if n > 0 {
        lemma_sq_dest_valid(v, sq, p, s, n - 1);
        let prior = crate::moves::sq_dest_upto(v, sq, p, s, n - 1);
        let cur = crate::moves::sq_dest_upto(v, sq, p, s, n);
        let d = Square((n - 1) as u8);
        let pe = crate::moves::promo_expand(sq, d, p, s);
        assert forall|k: int| 0 <= k < cur.len() implies (#[trigger] cur[k]).valid() by {
            if k < prior.len() {
                assert(cur[k] == prior[k]);
            } else {
                assert(d.valid());
                assert(cur[k] == pe[k - prior.len()]);
            }
        }
    }
}

} // verus!
