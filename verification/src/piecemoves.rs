use vstd::prelude::*;
use crate::bitboard::{bb_has, BitBoard};
use crate::direction::Direction;
use crate::piece::Piece;
use crate::side::Side;
use crate::square::Square;

verus! {

/// True when `o` holds the square with index `j`.
pub open spec fn opt_sq_is(o: Option<Square>, j: int) -> bool {
    match o {
        Some(s) => s.0 == j,
        None => false,
    }
}

/// True when a slider standing on `cur` reaches square `dest` along
/// `dir`: the walk stops before a friendly piece (a member of `ourside`)
/// and on the first enemy piece (a member of `attackable`), which is
/// itself reachable.
pub open spec fn ray_reach(
    cur: Square,
    dir: Direction,
    attackable: u64,
    ourside: u64,
    dest: int,
    fuel: nat,
) -> bool
    decreases fuel,
{
    if fuel == 0 {
        false
    } else {
        match cur.spec_next(dir) {
            None => false,
            Some(nx) => if bb_has(ourside, nx.0 as int) {
                false
            } else if nx.0 as int == dest {
                true
            } else if bb_has(attackable, nx.0 as int) {
                false
            } else {
                ray_reach(nx, dir, attackable, ourside, dest, (fuel - 1) as nat)
            },
        }
    }
}

/// A bishop ray reaches `dest` from `sq` along one of the four diagonals.
pub open spec fn diag_reach(sq: Square, attackable: u64, ourside: u64, dest: int) -> bool {
    ||| ray_reach(sq, Direction::UpRight, attackable, ourside, dest, 64)
    ||| ray_reach(sq, Direction::DownRight, attackable, ourside, dest, 64)
    ||| ray_reach(sq, Direction::DownLeft, attackable, ourside, dest, 64)
    ||| ray_reach(sq, Direction::UpLeft, attackable, ourside, dest, 64)
}

/// A rook ray reaches `dest` from `sq` along one of the four lines.
pub open spec fn lateral_reach(sq: Square, attackable: u64, ourside: u64, dest: int) -> bool {
    ||| ray_reach(sq, Direction::Up, attackable, ourside, dest, 64)
    ||| ray_reach(sq, Direction::Down, attackable, ourside, dest, 64)
    ||| ray_reach(sq, Direction::Left, attackable, ourside, dest, 64)
    ||| ray_reach(sq, Direction::Right, attackable, ourside, dest, 64)
}

/// `dest` is one king step away from `sq`.
pub open spec fn king_reach(sq: Square, dest: int) -> bool {
    exists|d: Direction| opt_sq_is(sq.spec_next(d), dest)
}

/// `dest` is one knight jump away from `sq`.
pub open spec fn knight_reach(sq: Square, dest: int) -> bool {
    exists|d: Direction| opt_sq_is(sq.spec_next_knight(d), dest)
}

/// The pawn push and double-push destinations from `sq` for `side`,
/// before removing occupied targets. A double push also needs the
/// jumped-over square free of either side.
pub open spec fn pawn_push_dest(
    sq: Square,
    side: Side,
    attackable: u64,
    ourside: u64,
    dest: int,
) -> bool {
    let dir = pawn_dir(side);
    ||| (sq.spec_rank().spec_allow_double_move(side) && (match sq.spec_next(dir) {
        Some(n1) => !bb_has(attackable, n1.0 as int) && !bb_has(ourside, n1.0 as int)
            && opt_sq_is(n1.spec_next(dir), dest),
        None => false,
    }))
    ||| opt_sq_is(sq.spec_next(dir), dest)
}

/// The pawn capture destinations from `sq` for `side`: a diagonally
/// forward square holding an enemy piece or the en-passant target.
pub open spec fn pawn_capture_dest(
    sq: Square,
    side: Side,
    attackable: u64,
    enpassant: u64,
    dest: int,
) -> bool {
    (bb_has(attackable, dest) || bb_has(enpassant, dest)) && (opt_sq_is(
        sq.spec_next(pawn_capture_dir_right(side)),
        dest,
    ) || opt_sq_is(sq.spec_next(pawn_capture_dir_left(side)), dest))
}

/// The forward direction of `side`'s pawns.
pub open spec fn pawn_dir(side: Side) -> Direction {
    match side {
        Side::White => Direction::Up,
        Side::Black => Direction::Down,
    }
}

pub open spec fn pawn_capture_dir_right(side: Side) -> Direction {
    match side {
        Side::White => Direction::UpRight,
        Side::Black => Direction::DownRight,
    }
}

pub open spec fn pawn_capture_dir_left(side: Side) -> Direction {
    match side {
        Side::White => Direction::UpLeft,
        Side::Black => Direction::DownLeft,
    }
}

/// Every destination of a pawn standing on `sq`: pushes onto free
/// squares and diagonal captures.
pub open spec fn pawn_dest(
    sq: Square,
    side: Side,
    attackable: u64,
    enpassant: u64,
    ourside: u64,
    dest: int,
) -> bool {
    ||| (pawn_push_dest(sq, side, attackable, ourside, dest) && !bb_has(attackable, dest))
    ||| pawn_capture_dest(sq, side, attackable, enpassant, dest)
}

/// Every pseudo-legal destination of `piece` of `side` standing on `sq`,
/// before the legality filter: the piece's movement pattern, minus the
/// squares its own side occupies.
pub open spec fn spec_piece_move_dest(
    piece: Piece,
    side: Side,
    sq: Square,
    enpassant: u64,
    attackable: u64,
    ourside: u64,
    dest: int,
) -> bool {
    &&& !bb_has(ourside, dest)
    &&& match piece {
        Piece::Pawn => pawn_dest(sq, side, attackable, enpassant, ourside, dest),
        Piece::Bishop => diag_reach(sq, attackable, ourside, dest),
        Piece::Knight => knight_reach(sq, dest),
        Piece::Rook => lateral_reach(sq, attackable, ourside, dest),
        Piece::Queen => diag_reach(sq, attackable, ourside, dest) || lateral_reach(
            sq,
            attackable,
            ourside,
            dest,
        ),
        Piece::King => king_reach(sq, dest),
    }
}

/// Walks outward from `cur` along `dir`, adding every reachable square
/// to `bb`: it stops before a friendly piece and on the first enemy
/// piece, which is added.
fn ray_step(
    bb: &mut BitBoard,
    cur: Square,
    dir: Direction,
    attackable: BitBoard,
    ourside: BitBoard,
    fuel: u8,
)
    requires
        cur.valid(),
    ensures
        forall|j: int| #[trigger] bb_has(final(bb)@, j) == (bb_has(old(bb)@, j) || ray_reach(
            cur,
            dir,
            attackable@,
            ourside@,
            j,
            fuel as nat,
        )),
    decreases fuel,
{
    if fuel == 0 {
        return ;
    }
    match cur.next_sq(dir) {
        None => {},
        Some(next) => {
            if ourside.get(next) {
                return ;
            }
            bb.set(next, true);
            if attackable.get(next) {
                return ;
            }
            ray_step(bb, next, dir, attackable, ourside, fuel - 1);
        },
    }
}

/// Adds to `bb` every diagonal slider destination from `sq`.
pub fn build_diagonal_moves(sq: Square, attackable: BitBoard, ourside: BitBoard, bb: &mut BitBoard)
    requires
        sq.valid(),
    ensures
        forall|j: int| #[trigger] bb_has(final(bb)@, j) == (bb_has(old(bb)@, j) || diag_reach(
            sq,
            attackable@,
            ourside@,
            j,
        )),
{
    ray_step(bb, sq, Direction::UpRight, attackable, ourside, 64);
    ray_step(bb, sq, Direction::DownRight, attackable, ourside, 64);
    ray_step(bb, sq, Direction::DownLeft, attackable, ourside, 64);
    ray_step(bb, sq, Direction::UpLeft, attackable, ourside, 64);
}

/// Adds to `bb` every lateral slider destination from `sq`.
pub fn build_lateral_moves(sq: Square, attackable: BitBoard, ourside: BitBoard, bb: &mut BitBoard)
    requires
        sq.valid(),
    ensures
        forall|j: int| #[trigger] bb_has(final(bb)@, j) == (bb_has(old(bb)@, j) || lateral_reach(
            sq,
            attackable@,
            ourside@,
            j,
        )),
{
    ray_step(bb, sq, Direction::Up, attackable, ourside, 64);
    ray_step(bb, sq, Direction::Down, attackable, ourside, 64);
    ray_step(bb, sq, Direction::Left, attackable, ourside, 64);
    ray_step(bb, sq, Direction::Right, attackable, ourside, 64);
}

/// Adds to `bb` the up-to-eight king steps from `sq`.
pub fn build_king_moves(sq: Square, bb: &mut BitBoard)
    requires
        sq.valid(),
    ensures
        forall|j: int| #[trigger] bb_has(final(bb)@, j) == (bb_has(old(bb)@, j) || king_reach(
            sq,
            j,
        )),
{
    let mut i: usize = 0;
    while i < 8
        invariant
            i <= 8,
            sq.valid(),
            forall|j: int| #[trigger] bb_has(bb@, j) == (bb_has(old(bb)@, j) || (exists|
                d: Direction,
            |
                d.spec_index() < i && opt_sq_is(sq.spec_next(d), j))),
        decreases 8 - i,
    {
        let dir = Direction::from_usize(i);
        if let Some(next) = sq.next_sq(dir) {
            bb.set(next, true);
        }
        proof {
            assert forall|j: int| #[trigger] bb_has(bb@, j) == (bb_has(old(bb)@, j) || (exists|
                d: Direction,
            |
                d.spec_index() < i + 1 && opt_sq_is(sq.spec_next(d), j))) by {
                if bb_has(bb@, j) && !bb_has(old(bb)@, j) {
                    if opt_sq_is(sq.spec_next(dir), j) {
                        assert(dir.spec_index() < i + 1 && opt_sq_is(sq.spec_next(dir), j));
                    }
                }
            }
        }
        i = i + 1;
    }
    proof {
        assert forall|j: int| #[trigger] bb_has(bb@, j) == (bb_has(old(bb)@, j) || king_reach(
            sq,
            j,
        )) by {
            if king_reach(sq, j) {
                let d = choose|d: Direction| opt_sq_is(sq.spec_next(d), j);
                assert(d.spec_index() < 8 && opt_sq_is(sq.spec_next(d), j));
            }
        }
    }
}

/// Adds to `bb` the up-to-eight knight jumps from `sq`.
pub fn build_knight_moves(sq: Square, bb: &mut BitBoard)
    requires
        sq.valid(),
    ensures
        forall|j: int| #[trigger] bb_has(final(bb)@, j) == (bb_has(old(bb)@, j) || knight_reach(
            sq,
            j,
        )),
{
    let mut i: usize = 0;
    while i < 8
        invariant
            i <= 8,
            sq.valid(),
            forall|j: int| #[trigger] bb_has(bb@, j) == (bb_has(old(bb)@, j) || (exists|
                d: Direction,
            |
                d.spec_index() < i && opt_sq_is(sq.spec_next_knight(d), j))),
        decreases 8 - i,
    {
        let dir = Direction::from_usize(i);
        if let Some(next) = sq.next_sq_knight(dir) {
            bb.set(next, true);
        }
        proof {
            assert forall|j: int| #[trigger] bb_has(bb@, j) == (bb_has(old(bb)@, j) || (exists|
                d: Direction,
            |
                d.spec_index() < i + 1 && opt_sq_is(sq.spec_next_knight(d), j))) by {
                if bb_has(bb@, j) && !bb_has(old(bb)@, j) {
                    if opt_sq_is(sq.spec_next_knight(dir), j) {
                        assert(dir.spec_index() < i + 1 && opt_sq_is(sq.spec_next_knight(dir), j));
                    }
                }
            }
        }
        i = i + 1;
    }
    proof {
        assert forall|j: int| #[trigger] bb_has(bb@, j) == (bb_has(old(bb)@, j) || knight_reach(
            sq,
            j,
        )) by {
            if knight_reach(sq, j) {
                let d = choose|d: Direction| opt_sq_is(sq.spec_next_knight(d), j);
                assert(d.spec_index() < 8 && opt_sq_is(sq.spec_next_knight(d), j));
            }
        }
    }
}

/// Adds to `bb` every pawn destination from `sq` for `side`: the single
/// and double pushes onto free squares, and the two diagonal captures,
/// ordinary or en passant. The pushes are filtered against `attackable`
/// together with whatever `bb` already held.
pub fn build_pawn_moves(
    sq: Square,
    side: Side,
    attackable: BitBoard,
    enpassant: BitBoard,
    ourside: BitBoard,
    bb: &mut BitBoard,
)
    requires
        sq.valid(),
    ensures
        forall|j: int| #[trigger] bb_has(final(bb)@, j) == (((bb_has(old(bb)@, j) || pawn_push_dest(
            sq,
            side,
            attackable@,
            ourside@,
            j,
        )) && !bb_has(attackable@, j)) || pawn_capture_dest(sq, side, attackable@, enpassant@, j)),
{
    let rank = sq.rank();
    let dir = match side {
        Side::White => Direction::Up,
        Side::Black => Direction::Down,
    };
    if rank.allow_double_move(side) {
        if let Some(n1) = sq.next_sq(dir) {
            if !attackable.get(n1) && !ourside.get(n1) {
                if let Some(n2) = n1.next_sq(dir) {
                    bb.set(n2, true);
                }
            }
        }
    }
    if let Some(next) = sq.next_sq(dir) {
        bb.set(next, true);
    }
    bb.bitand_assign(attackable.bitnot());

    let ad1 = match side {
        Side::White => Direction::UpRight,
        Side::Black => Direction::DownRight,
    };
    let ad2 = match side {
        Side::White => Direction::UpLeft,
        Side::Black => Direction::DownLeft,
    };
    let as1 = sq.next_sq(ad1);
    let as2 = sq.next_sq(ad2);

    if let Some(as1) = as1 {
        if attackable.get(as1) || enpassant.get(as1) {
            bb.set(as1, true);
        }
    }
    if let Some(as2) = as2 {
        if attackable.get(as2) || enpassant.get(as2) {
            bb.set(as2, true);
        }
    }
}

/// The pseudo-legal destination set of `piece` of `side` standing on
/// `sq`: its movement pattern minus the squares `ourside` occupies.
/// Castling is synthesized separately.
pub fn get_piece_moves(
    piece: Piece,
    side: Side,
    sq: Square,
    enpassant: BitBoard,
    attackable: BitBoard,
    ourside: BitBoard,
) -> (r: BitBoard)
    requires
        sq.valid(),
    ensures
        forall|j: int| #[trigger] bb_has(r@, j) == spec_piece_move_dest(
            piece,
            side,
            sq,
            enpassant@,
            attackable@,
            ourside@,
            j,
        ),
{
    let mut bb = BitBoard::empty();
    proof {
        crate::bitboard::lemma_bb_empty(0u64);
    }
    match piece {
        Piece::Pawn => build_pawn_moves(sq, side, attackable, enpassant, ourside, &mut bb),
        Piece::Bishop => build_diagonal_moves(sq, attackable, ourside, &mut bb),
        Piece::Knight => build_knight_moves(sq, &mut bb),
        Piece::Rook => build_lateral_moves(sq, attackable, ourside, &mut bb),
        Piece::Queen => {
            build_diagonal_moves(sq, attackable, ourside, &mut bb);
            build_lateral_moves(sq, attackable, ourside, &mut bb);
        },
        Piece::King => build_king_moves(sq, &mut bb),
    }
    bb.bitand(ourside.bitnot())
}

} // verus!
