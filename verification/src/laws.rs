use vstd::prelude::*;
use crate::bitboard::{bb_has, lemma_bb_ops, lemma_lowest_sq_valid, lowest_sq};
use crate::board::{at, at_piece, castle_of, piece_bb, side_bb, wf_board, with_castle, BoardV};
use crate::direction::Direction;
use crate::legal::{
    filter_legal, spec_attacked_ignoring_pins, spec_castle_safe, spec_check_ray_plain,
    spec_is_in_check, spec_knight_attacker_plain, spec_legal_moves, spec_move_legal,
    spec_pawn_attacker_plain,
};
use crate::moves::{
    castle_home_base, moves_upto, promo_expand, spec_apply, spec_castle_has_room,
    spec_castle_moves, spec_moves, square_moves, sq_dest_upto, Move,
};
use crate::piece::Piece;
use crate::piecemoves::{king_reach, opt_sq_is, spec_piece_move_dest};
use crate::side::Side;
use crate::square::{Rank, Square};

verus! {

/// A move belongs to the legal stream exactly when the generator
/// offers it and the legality filter accepts it.
pub proof fn lemma_legal_moves_contains(v: BoardV, ms: Seq<Move>, m: Move)
    ensures
        filter_legal(v, ms).contains(m) == (ms.contains(m) && spec_move_legal(v, m, v.to_move)),
    decreases ms.len(),
{
    if ms.len() == 0 {
        assert(!filter_legal(v, ms).contains(m));
        assert(!ms.contains(m));
    } else {
        lemma_legal_moves_contains(v, ms.drop_last(), m);
        let prior = filter_legal(v, ms.drop_last());
        let cur = filter_legal(v, ms);
        if cur.contains(m) {
            let k = choose|k: int| 0 <= k < cur.len() && cur[k] == m;
            if k < prior.len() {
                assert(prior.contains(m));
                let j = choose|j: int| 0 <= j < ms.drop_last().len() && ms.drop_last()[j] == m;
                assert(ms[j] == m);
            } else {
                assert(m == ms.last());
                assert(ms[ms.len() - 1] == m);
            }
        }
        if ms.contains(m) && spec_move_legal(v, m, v.to_move) {
            let j = choose|j: int| 0 <= j < ms.len() && ms[j] == m;
            if j < ms.len() - 1 {
                assert(ms.drop_last()[j] == m);
                assert(prior.contains(m));
                let k = choose|k: int| 0 <= k < prior.len() && prior[k] == m;
                assert(cur[k] == m);
            } else {
                assert(m == ms.last());
                assert(cur[cur.len() - 1] == m);
            }
        }
    }
}

/// LEGALITY. For every position and every move of its legal stream,
/// applying the move never leaves the mover's own king in check.
pub proof fn lemma_legal_move_keeps_king_safe(v: BoardV, m: Move)
    requires
        spec_legal_moves(v).contains(m),
    ensures
        !spec_is_in_check(spec_apply(v, m), v.to_move),
{
    lemma_legal_moves_contains(v, spec_moves(v, v.to_move), m);
}

/// The moves offered for one square all start there, land on a
/// destination below `n` that the piece's movement pattern reaches,
/// and carry a promotion piece exactly as the expansion rule says.
pub proof fn lemma_sq_dest_membership(v: BoardV, sq: Square, p: Piece, s: Side, n: int, m: Move)
    requires
        0 <= n <= 64,
    ensures
        sq_dest_upto(v, sq, p, s, n).contains(m) == (m.start == sq && 0 <= (m.dest.0 as int) < n
            && spec_piece_move_dest(
            p,
            s,
            sq,
            v.enpassant,
            side_bb(v, s.spec_other()),
            side_bb(v, s),
            m.dest.0 as int,
        ) && promo_expand(sq, m.dest, p, s).contains(m)),
    decreases n,
{
    if n > 0 {
        lemma_sq_dest_membership(v, sq, p, s, n - 1, m);
        let prior = sq_dest_upto(v, sq, p, s, n - 1);
        let cur = sq_dest_upto(v, sq, p, s, n);
        let d = Square((n - 1) as u8);
        let hit = spec_piece_move_dest(
            p,
            s,
            sq,
            v.enpassant,
            side_bb(v, s.spec_other()),
            side_bb(v, s),
            n - 1,
        );
        let pe = promo_expand(sq, d, p, s);
        if cur.contains(m) {
            let k = choose|k: int| 0 <= k < cur.len() && cur[k] == m;
            if k < prior.len() {
                assert(prior.contains(m));
            } else {
                assert(hit);
                assert(pe[k - prior.len()] == m);
                assert(pe.contains(m));
                assert(m.dest == d);
            }
        }
        if m.start == sq && 0 <= (m.dest.0 as int) < n && spec_piece_move_dest(
            p,
            s,
            sq,
            v.enpassant,
            side_bb(v, s.spec_other()),
            side_bb(v, s),
            m.dest.0 as int,
        ) && promo_expand(sq, m.dest, p, s).contains(m) {
            if m.dest.0 as int == n - 1 {
                assert(m.dest == d);
                let k = choose|k: int| 0 <= k < pe.len() && pe[k] == m;
                assert(cur[prior.len() + k] == m);
            } else {
                assert(prior.contains(m));
                let k = choose|k: int| 0 <= k < prior.len() && prior[k] == m;
                assert(cur[k] == m);
            }
        }
    }
}

/// The generator's per-square streams up to square `n` hold exactly
/// the moves whose start square lies below `n` and which that square
/// offers.
pub proof fn lemma_moves_upto_membership(v: BoardV, side: Side, n: int, m: Move)
    requires
        0 <= n <= 64,
    ensures
        moves_upto(v, side, n).contains(m) == (0 <= (m.start.0 as int) < n && square_moves(
            v,
            side,
            m.start.0 as int,
        ).contains(m)),
    decreases n,
{
    if n > 0 {
        lemma_moves_upto_membership(v, side, n - 1, m);
        let prior = moves_upto(v, side, n - 1);
        let sqm = square_moves(v, side, n - 1);
        let cur = moves_upto(v, side, n);
        if cur.contains(m) {
            let k = choose|k: int| 0 <= k < cur.len() && cur[k] == m;
            if k < prior.len() {
                assert(prior.contains(m));
            } else {
                assert(sqm[k - prior.len()] == m);
                assert(sqm.contains(m));
                if bb_has(side_bb(v, side), n - 1) {
                    match at(v, n - 1) {
                        Some((p, s)) => {
                            lemma_sq_dest_membership(v, Square((n - 1) as u8), p, s, 64, m);
                            assert(m.start == Square((n - 1) as u8));
                            assert(m.start.0 as int == n - 1);
                        },
                        None => {
                            assert(false);
                        },
                    }
                } else {
                    assert(false);
                }
            }
        }
        if 0 <= (m.start.0 as int) < n && square_moves(v, side, m.start.0 as int).contains(m) {
            if m.start.0 as int == n - 1 {
                let k = choose|k: int| 0 <= k < sqm.len() && sqm[k] == m;
                assert(cur[prior.len() + k] == m);
            } else {
                assert(prior.contains(m));
                let k = choose|k: int| 0 <= k < prior.len() && prior[k] == m;
                assert(cur[k] == m);
            }
        }
    }
}

/// The full pseudo-legal stream holds a move exactly when its start
/// square offers it or the castling synthesis does.
pub proof fn lemma_spec_moves_membership(v: BoardV, side: Side, m: Move)
    ensures
        spec_moves(v, side).contains(m) == ((m.start.0 < 64 && square_moves(
            v,
            side,
            m.start.0 as int,
        ).contains(m)) || spec_castle_moves(v, side).contains(m)),
{
    lemma_moves_upto_membership(v, side, 64, m);
    let base = moves_upto(v, side, 64);
    let cm = spec_castle_moves(v, side);
    let all = spec_moves(v, side);
    if all.contains(m) {
        let k = choose|k: int| 0 <= k < all.len() && all[k] == m;
        if k < base.len() {
            assert(base.contains(m));
        } else {
            assert(cm[k - base.len()] == m);
            assert(cm.contains(m));
        }
    }
    if m.start.0 < 64 && square_moves(v, side, m.start.0 as int).contains(m) {
        let k = choose|k: int| 0 <= k < base.len() && base[k] == m;
        assert(all[k] == m);
    }
    if cm.contains(m) {
        let k = choose|k: int| 0 <= k < cm.len() && cm[k] == m;
        assert(all[base.len() + k] == m);
    }
}

/// A king step changes the file by at most one.
proof fn lemma_king_reach_file(sq: Square, j: int)
    requires
        sq.valid(),
        king_reach(sq, j),
    ensures
        -1 <= j % 8 - sq.0 as int % 8 <= 1,
        0 <= j < 64,
{
    let d = choose|d: Direction| opt_sq_is(sq.spec_next(d), j);
    let s = sq.0 as int;
    assert(s == 8 * (s / 8) + s % 8) by (nonlinear_arith);
    match d {
        Direction::Up => {
            assert(j == s + 8);
        },
        Direction::UpRight => {
            assert(j == s + 9);
        },
        Direction::Right => {
            assert(j == s + 1);
        },
        Direction::DownRight => {
            assert(j == s - 7);
        },
        Direction::Down => {
            assert(j == s - 8);
        },
        Direction::DownLeft => {
            assert(j == s - 9);
        },
        Direction::Left => {
            assert(j == s - 1);
        },
        Direction::UpLeft => {
            assert(j == s + 7);
        },
    }
}

/// CASTLING, the offered direction: a castling move in the legal
/// stream has its right still held, the rook of the mover on its home
/// corner, the path between king and rook empty, and the king's start,
/// transit and destination squares unattacked.
pub proof fn lemma_castling_move_requirements(v: BoardV, m: Move)
    requires
        wf_board(v),
        spec_legal_moves(v).contains(m),
        m.spec_is_castling(v),
    ensures
        spec_castle_safe(v, m, v.to_move),
        m.spec_is_kingside_castle(v) ==> spec_castle_has_room(v, v.to_move, true),
        !m.spec_is_kingside_castle(v) ==> spec_castle_has_room(v, v.to_move, false),
{
    let side = v.to_move;
    lemma_legal_moves_contains(v, spec_moves(v, side), m);
    assert(spec_move_legal(v, m, side));
    assert(spec_castle_safe(v, m, side));
    lemma_spec_moves_membership(v, side, m);
    let i = m.start.0 as int;
    if m.start.0 < 64 && square_moves(v, side, i).contains(m) {
        // a castling-shaped move cannot come from the per-square king
        // pattern: a king step never crosses two files
        match at(v, i) {
            Some((p, s)) => {
                assert(p == Piece::King);
                lemma_sq_dest_membership(v, Square(i as u8), p, s, 64, m);
                assert(king_reach(Square(i as u8), m.dest.0 as int));
                lemma_king_reach_file(Square(i as u8), m.dest.0 as int);
                assert(m.start.spec_file_index() == 4);
                assert(m.dest.spec_file_index() == 6 || m.dest.spec_file_index() == 2);
                assert(false);
            },
            None => {
                assert(false);
            },
        }
    }
    assert(spec_castle_moves(v, side).contains(m));
    let cm = spec_castle_moves(v, side);
    let k = choose|k: int| 0 <= k < cm.len() && cm[k] == m;
    let kbb = piece_bb(v, Piece::King) & side_bb(v, side);
    lemma_lowest_sq_valid(kbb);
    match lowest_sq(kbb) {
        None => {
            assert(false);
        },
        Some(ks) => {
            let base = (ks.0 as int / 8) * 8;
            assert(base % 8 == 0) by (nonlinear_arith)
                requires
                    base == (ks.0 as int / 8) * 8,
            ;
            assert((base + 6) % 8 == 6 && (base + 2) % 8 == 2) by (nonlinear_arith)
                requires
                    base % 8 == 0,
                    0 <= base <= 56,
            ;
            if m.spec_is_kingside_castle(v) {
                assert(m.dest.0 as int == base + 6);
                assert(spec_castle_has_room(v, side, true));
            } else {
                assert(m.dest.spec_file_index() == 2);
                assert(m.dest.0 as int == base + 2);
                assert(spec_castle_has_room(v, side, false));
            }
        },
    }
}

/// EN PASSANT, first half: a pawn double push leaves the skipped
/// square as the one and only en-passant target.
pub proof fn lemma_double_push_sets_enpassant(v: BoardV, m: Move)
    requires
        at(v, m.start.0 as int) matches Some((p, s)) && p == Piece::Pawn
            && m.start.spec_rank().spec_allow_double_move(s) && m.dest.0 as int == m.start.0 as int
            + (match s {
            Side::White => 16int,
            Side::Black => -16int,
        }),
    ensures
        spec_apply(v, m).enpassant == (1u64 << ((skipped_square(v, m)) as u64)),
{
}

/// The square a double push skips: on the rank behind the moved pawn.
pub open spec fn skipped_square(v: BoardV, m: Move) -> int {
    match at(v, m.start.0 as int) {
        Some((_, s)) => {
            let ep_rank: int = match s {
                Side::White => 3,
                Side::Black => 6,
            };
            (ep_rank - 1) * 8 + (m.start.0 as int % 8)
        },
        None => 0,
    }
}

/// EN PASSANT, second half: one ply later the target is gone — after
/// the next applied move the en-passant set is empty again, unless
/// that move is itself a double push, which installs its own skipped
/// square.
pub proof fn lemma_enpassant_clears_next_ply(v: BoardV, m: Move)
    requires
        at(v, m.start.0 as int) is Some,
    ensures
        spec_apply(v, m).enpassant == 0 || (at(v, m.start.0 as int) matches Some((p, s)) && p
            == Piece::Pawn && m.start.spec_rank().spec_allow_double_move(s) && m.dest.0 as int
            == m.start.0 as int + (match s {
            Side::White => 16int,
            Side::Black => -16int,
        }) && spec_apply(v, m).enpassant == (1u64 << ((skipped_square(v, m)) as u64))),
{
}


/// Two boards that agree on occupancy, on both side masks, on the king
/// mask, and on every enemy piece of `us`, look alike to the attack
/// scan for `us`.
pub open spec fn attack_agree(w1: BoardV, w2: BoardV, us: Side) -> bool {
    &&& w1.white == w2.white
    &&& w1.black == w2.black
    &&& w1.kings == w2.kings
    &&& (forall|i: int| (#[trigger] at(w1, i) is Some) == (at(w2, i) is Some))
    &&& (forall|i: int| (#[trigger] at(w1, i)) matches Some((p, s)) && s != us ==> at(w2, i) == at(
        w1,
        i,
    ))
}

/// Ray scanning cannot tell two agreeing boards apart.
proof fn lemma_ray_congruence(
    w1: BoardV,
    w2: BoardV,
    start: Square,
    cur: Square,
    us: Side,
    dir: Direction,
    fuel: nat,
)
    requires
        attack_agree(w1, w2, us),
    ensures
        spec_check_ray_plain(w1, start, cur, us, dir, fuel) == spec_check_ray_plain(
            w2,
            start,
            cur,
            us,
            dir,
            fuel,
        ),
    decreases fuel,
{
    if fuel > 0 {
        match cur.spec_next(dir) {
            None => {},
            Some(next) => {
                let j = next.0 as int;
                assert((at(w1, j) is Some) == (at(w2, j) is Some));
                match at(w1, j) {
                    Some((p, s)) => {
                        if s != us {
                            assert(at(w2, j) == at(w1, j));
                        }
                    },
                    None => {
                        lemma_ray_congruence(w1, w2, start, next, us, dir, (fuel - 1) as nat);
                    },
                }
            },
        }
    }
}

/// The whole ignore-pins attack scan cannot tell two agreeing boards
/// apart.
proof fn lemma_attack_congruence(w1: BoardV, w2: BoardV, sq: Square, us: Side)
    requires
        attack_agree(w1, w2, us),
    ensures
        spec_attacked_ignoring_pins(w1, sq, us) == spec_attacked_ignoring_pins(w2, sq, us),
{
    assert forall|d: Direction|
        spec_check_ray_plain(w1, sq, sq, us, d, 64) == spec_check_ray_plain(
            w2,
            sq,
            sq,
            us,
            d,
            64,
        ) by {
        lemma_ray_congruence(w1, w2, sq, sq, us, d, 64);
    }
    assert forall|d: Direction|
        spec_knight_attacker_plain(w1, sq.spec_next_knight(d), us) == spec_knight_attacker_plain(
            w2,
            sq.spec_next_knight(d),
            us,
        ) by {
        lemma_one_square_congruence(w1, w2, sq.spec_next_knight(d), us);
    }
    lemma_one_square_congruence(w1, w2, crate::legal::pawn_source_left(sq, us), us);
    lemma_one_square_congruence(w1, w2, crate::legal::pawn_source_right(sq, us), us);
    if spec_attacked_ignoring_pins(w1, sq, us) {
        if exists|d: Direction| spec_check_ray_plain(w1, sq, sq, us, d, 64) {
            let d = choose|d: Direction| spec_check_ray_plain(w1, sq, sq, us, d, 64);
            assert(spec_check_ray_plain(w2, sq, sq, us, d, 64));
        } else if exists|d: Direction| spec_knight_attacker_plain(w1, sq.spec_next_knight(d), us) {
            let d = choose|d: Direction|
                spec_knight_attacker_plain(w1, sq.spec_next_knight(d), us);
            assert(spec_knight_attacker_plain(w2, sq.spec_next_knight(d), us));
        }
        assert(spec_attacked_ignoring_pins(w2, sq, us));
    }
    if spec_attacked_ignoring_pins(w2, sq, us) {
        if exists|d: Direction| spec_check_ray_plain(w2, sq, sq, us, d, 64) {
            let d = choose|d: Direction| spec_check_ray_plain(w2, sq, sq, us, d, 64);
            assert(spec_check_ray_plain(w1, sq, sq, us, d, 64));
        } else if exists|d: Direction| spec_knight_attacker_plain(w2, sq.spec_next_knight(d), us) {
            let d = choose|d: Direction|
                spec_knight_attacker_plain(w2, sq.spec_next_knight(d), us);
            assert(spec_knight_attacker_plain(w1, sq.spec_next_knight(d), us));
        }
        assert(spec_attacked_ignoring_pins(w1, sq, us));
    }
}

/// A single attacker lookup cannot tell two agreeing boards apart.
proof fn lemma_one_square_congruence(w1: BoardV, w2: BoardV, o: Option<Square>, us: Side)
    requires
        attack_agree(w1, w2, us),
    ensures
        spec_knight_attacker_plain(w1, o, us) == spec_knight_attacker_plain(w2, o, us),
        spec_pawn_attacker_plain(w1, o, us) == spec_pawn_attacker_plain(w2, o, us),
{
    match o {
        Some(sp) => {
            let j = sp.0 as int;
            assert((at(w1, j) is Some) == (at(w2, j) is Some));
            match at(w1, j) {
                Some((p, s)) => {
                    if s != us {
                        assert(at(w2, j) == at(w1, j));
                    }
                },
                None => {},
            }
        },
        None => {},
    }
}

/// Being in check cannot tell two agreeing boards apart.
proof fn lemma_in_check_congruence(w1: BoardV, w2: BoardV, us: Side)
    requires
        attack_agree(w1, w2, us),
    ensures
        spec_is_in_check(w1, us) == spec_is_in_check(w2, us),
{
    assert(piece_bb(w1, Piece::King) == piece_bb(w2, Piece::King));
    assert(side_bb(w1, us) == side_bb(w2, us));
    match lowest_sq(piece_bb(w1, Piece::King) & side_bb(w1, us)) {
        None => {},
        Some(k) => {
            lemma_attack_congruence(w1, w2, k, us);
        },
    }
}

/// PROMOTION, legality half: which piece a pawn promotes to has no
/// bearing on whether the move is legal, as long as it does not
/// promote to a king.
#[verifier::rlimit(100)]
pub proof fn lemma_promotion_legality_independent(
    v: BoardV,
    sq: Square,
    dest: Square,
    p1: Piece,
    p2: Piece,
)
    requires
        sq.valid(),
        dest.valid(),
        at(v, sq.0 as int) == Some((Piece::Pawn, v.to_move)),
        p1 != Piece::King,
        p2 != Piece::King,
    ensures
        spec_move_legal(v, Move { start: sq, dest, promo: Some(p1) }, v.to_move)
            == spec_move_legal(v, Move { start: sq, dest, promo: Some(p2) }, v.to_move),
{
    let side = v.to_move;
    let m1 = Move { start: sq, dest, promo: Some(p1) };
    let m2 = Move { start: sq, dest, promo: Some(p2) };
    assert(!m1.spec_is_castling(v));
    assert(!m2.spec_is_castling(v));
    let w1 = spec_apply(v, m1);
    let w2 = spec_apply(v, m2);
    let i = dest.0 as int;
    // the two successors differ only in the piece written onto `dest`
    let v5 = common_prefix(v, m1);
    assert(common_prefix(v, m2) == v5);
    let v6 = crate::board::spec_clear_square(v5, sq.0 as int);
    crate::board::lemma_at_clear_set(v6, i, p1, side);
    crate::board::lemma_at_clear_set(v6, i, p2, side);
    let u1 = crate::board::spec_set_square(v6, i, p1, side);
    let u2 = crate::board::spec_set_square(v6, i, p2, side);
    assert(w1.white == u1.white && w1.black == u1.black && w1.kings == u1.kings);
    assert(w2.white == u2.white && w2.black == u2.black && w2.kings == u2.kings);
    assert(u1.white == u2.white && u1.black == u2.black);
    assert(u1.kings == u2.kings);
    assert forall|j: int| (#[trigger] at(w1, j) is Some) == (at(w2, j) is Some) by {
        assert(at(w1, j) == at(u1, j));
        assert(at(w2, j) == at(u2, j));
        assert(at(u1, j) == (if j == i {
            Some((p1, side))
        } else {
            at(v6, j)
        }));
        assert(at(u2, j) == (if j == i {
            Some((p2, side))
        } else {
            at(v6, j)
        }));
    }
    assert forall|j: int|
        (#[trigger] at(w1, j)) matches Some((p, s)) && s != side implies at(w2, j) == at(
        w1,
        j,
    ) by {
        assert(at(w1, j) == at(u1, j));
        assert(at(w2, j) == at(u2, j));
        assert(at(u1, j) == (if j == i {
            Some((p1, side))
        } else {
            at(v6, j)
        }));
        assert(at(u2, j) == (if j == i {
            Some((p2, side))
        } else {
            at(v6, j)
        }));
    }
    assert(attack_agree(w1, w2, side));
    lemma_in_check_congruence(w1, w2, side);
}

/// The part of move application shared by all promotions of one pawn
/// move: everything before the start square is vacated.
pub open spec fn common_prefix(v: BoardV, m: Move) -> BoardV {
    if lowest_sq(v.enpassant) == Some(m.dest) {
        let kill_rank: int = match at(v, m.start.0 as int) {
            Some((_, s)) => match s {
                Side::White => 5,
                Side::Black => 4,
            },
            None => 5,
        };
        crate::board::spec_clear_square(v, (kill_rank - 1) * 8 + (m.dest.0 as int % 8))
    } else {
        v
    }
}

/// PROMOTION, generation half: from a pawn standing on `sq` toward a
/// last-rank square `dest`, the legal stream never offers a
/// non-promoting move, and the four promotion moves stand or fall
/// together.
pub proof fn lemma_promotion_moves(v: BoardV, sq: Square, dest: Square)
    requires
        wf_board(v),
        sq.valid(),
        dest.valid(),
        at(v, sq.0 as int) == Some((Piece::Pawn, v.to_move)),
        dest.spec_rank().spec_is_promo_rank(v.to_move),
    ensures
        !spec_legal_moves(v).contains(Move { start: sq, dest, promo: None }),
        forall|p1: Piece, p2: Piece|
            p1 != Piece::King && p1 != Piece::Pawn && p2 != Piece::King && p2 != Piece::Pawn
                ==> spec_legal_moves(v).contains(Move { start: sq, dest, promo: Some(p1) })
                == spec_legal_moves(v).contains(Move { start: sq, dest, promo: Some(p2) }),
{
    let side = v.to_move;
    let m0 = Move { start: sq, dest, promo: None };
    lemma_legal_moves_contains(v, spec_moves(v, side), m0);
    lemma_not_castle_start(v, side, sq);
    lemma_spec_moves_membership(v, side, m0);
    if square_moves(v, side, sq.0 as int).contains(m0) {
        lemma_sq_dest_membership(v, sq, Piece::Pawn, side, 64, m0);
        let pe = promo_expand(sq, dest, Piece::Pawn, side);
        assert(pe.contains(m0));
        let k = choose|k: int| 0 <= k < pe.len() && pe[k] == m0;
        assert(false);
    }
    assert(!spec_moves(v, side).contains(m0));

    assert forall|p1: Piece, p2: Piece|
        p1 != Piece::King && p1 != Piece::Pawn && p2 != Piece::King && p2 != Piece::Pawn implies
        spec_legal_moves(v).contains(Move { start: sq, dest, promo: Some(p1) })
        == spec_legal_moves(v).contains(Move { start: sq, dest, promo: Some(p2) }) by {
        let ma = Move { start: sq, dest, promo: Some(p1) };
        let mb = Move { start: sq, dest, promo: Some(p2) };
        lemma_legal_moves_contains(v, spec_moves(v, side), ma);
        lemma_legal_moves_contains(v, spec_moves(v, side), mb);
        lemma_spec_moves_membership(v, side, ma);
        lemma_spec_moves_membership(v, side, mb);
        lemma_sq_dest_membership(v, sq, Piece::Pawn, side, 64, ma);
        lemma_sq_dest_membership(v, sq, Piece::Pawn, side, 64, mb);
        lemma_promo_in_expand(sq, dest, side, p1);
        lemma_promo_in_expand(sq, dest, side, p2);
        lemma_promotion_legality_independent(v, sq, dest, p1, p2);
        assert(spec_moves(v, side).contains(ma) == spec_moves(v, side).contains(mb));
    }
}

/// A promotable piece appears in the expansion of a last-rank pawn
/// move.
proof fn lemma_promo_in_expand(sq: Square, dest: Square, side: Side, p: Piece)
    requires
        dest.spec_rank().spec_is_promo_rank(side),
        p != Piece::King,
        p != Piece::Pawn,
    ensures
        promo_expand(sq, dest, Piece::Pawn, side).contains(
            Move { start: sq, dest, promo: Some(p) },
        ),
{
    let pe = promo_expand(sq, dest, Piece::Pawn, side);
    let m = Move { start: sq, dest, promo: Some(p) };
    match p {
        Piece::Queen => {
            assert(pe[0] == m);
        },
        Piece::Knight => {
            assert(pe[1] == m);
        },
        Piece::Bishop => {
            assert(pe[2] == m);
        },
        Piece::Rook => {
            assert(pe[3] == m);
        },
        _ => {
            assert(false);
        },
    }
}

/// A square holding a pawn is not the king square the castling
/// synthesis starts from, so no castling move starts there.
proof fn lemma_not_castle_start(v: BoardV, side: Side, sq: Square)
    requires
        wf_board(v),
        sq.valid(),
        at(v, sq.0 as int) matches Some((p, _)) && p != Piece::King,
    ensures
        forall|m: Move| spec_castle_moves(v, side).contains(m) ==> (#[trigger] m.start) != sq,
{
    let kbb = piece_bb(v, Piece::King) & side_bb(v, side);
    lemma_lowest_sq_valid(kbb);
    lemma_bb_ops(piece_bb(v, Piece::King), side_bb(v, side));
    assert forall|m: Move| spec_castle_moves(v, side).contains(m) implies (#[trigger] m.start)
        != sq by {
        match lowest_sq(kbb) {
            None => {
                assert(!spec_castle_moves(v, side).contains(m));
            },
            Some(ks) => {
                let cm = spec_castle_moves(v, side);
                let k = choose|k: int| 0 <= k < cm.len() && cm[k] == m;
                assert(m.start == ks);
                assert(bb_has(kbb, ks.0 as int));
                assert(bb_has(piece_bb(v, Piece::King), ks.0 as int));
                assert(!bb_has(piece_bb(v, Piece::Pawn), ks.0 as int));
                assert(!bb_has(piece_bb(v, Piece::Knight), ks.0 as int));
                assert(!bb_has(piece_bb(v, Piece::Bishop), ks.0 as int));
                assert(!bb_has(piece_bb(v, Piece::Rook), ks.0 as int));
                assert(!bb_has(piece_bb(v, Piece::Queen), ks.0 as int));
                assert(at_piece(v, ks.0 as int) == Some(Piece::King));
                if ks == sq {
                    assert(false);
                }
            },
        }
    }
}


/// CASTLING, an intermediate equivalence: when the mover's lowest king
/// stands on the `e`-file of its home rank, the castling move toward
/// `kingside` is in the legal stream exactly when the right is held,
/// the path between king and rook is empty, the rook stands on its
/// home corner, the king's start, transit and destination squares are
/// unattacked, and the applied move leaves the mover out of check.
/// The last conjunct is discharged by `lemma_castle_transit_safety`,
/// giving `lemma_castling_move_present`.
pub proof fn lemma_castling_move_offered(v: BoardV, kingside: bool)
    requires
        wf_board(v),
        lowest_sq(piece_bb(v, Piece::King) & side_bb(v, v.to_move)) == Some(
            Square((castle_home_base(v.to_move) + 4) as u8),
        ),
    ensures
        ({
            let side = v.to_move;
            let base = castle_home_base(side);
            let m = Move {
                start: Square((base + 4) as u8),
                dest: Square((base + (if kingside { 6int } else { 2int })) as u8),
                promo: None,
            };
            spec_legal_moves(v).contains(m) <==> ({
                &&& (if kingside {
                    castle_of(v, side).spec_kingside()
                } else {
                    castle_of(v, side).spec_queenside()
                })
                &&& spec_castle_has_room(v, side, kingside)
                &&& at(v, base + (if kingside { 7int } else { 0int })) == Some((Piece::Rook, side))
                &&& !spec_attacked_ignoring_pins(v, Square((base + 4) as u8), side)
                &&& !spec_attacked_ignoring_pins(
                    v,
                    Square((base + (if kingside { 5int } else { 3int })) as u8),
                    side,
                )
                &&& !spec_attacked_ignoring_pins(
                    v,
                    Square((base + (if kingside { 6int } else { 2int })) as u8),
                    side,
                )
                &&& !spec_is_in_check(spec_apply(v, m), side)
            })
        }),
{
    let side = v.to_move;
    let base = castle_home_base(side);
    let ks = Square((base + 4) as u8);
    let dest = Square((base + (if kingside { 6int } else { 2int })) as u8);
    let m = Move { start: ks, dest, promo: None };
    let kbb = piece_bb(v, Piece::King) & side_bb(v, side);
    lemma_lowest_sq_valid(kbb);
    lemma_bb_ops(piece_bb(v, Piece::King), side_bb(v, side));
    assert(bb_has(piece_bb(v, Piece::King), base + 4));
    assert(bb_has(side_bb(v, side), base + 4));
    assert(!bb_has(piece_bb(v, Piece::Pawn), base + 4));
    assert(!bb_has(piece_bb(v, Piece::Knight), base + 4));
    assert(!bb_has(piece_bb(v, Piece::Bishop), base + 4));
    assert(!bb_has(piece_bb(v, Piece::Rook), base + 4));
    assert(!bb_has(piece_bb(v, Piece::Queen), base + 4));
    assert(at_piece(v, base + 4) == Some(Piece::King));
    assert(at(v, base + 4) == Some((Piece::King, side)));
    assert(ks.spec_file_index() == 4 && dest.spec_file_index() == (if kingside {
        6int
    } else {
        2int
    })) by (nonlinear_arith)
        requires
            base == 0 || base == 56,
            ks.0 == base + 4,
            dest.0 == base + (if kingside { 6int } else { 2int }),
    ;
    assert(m.spec_is_castling(v));
    assert(m.spec_is_kingside_castle(v) == kingside);
    assert((ks.0 as int / 8) * 8 == base) by (nonlinear_arith)
        requires
            base == 0 || base == 56,
            ks.0 == base + 4,
    ;
    lemma_legal_moves_contains(v, spec_moves(v, side), m);
    lemma_spec_moves_membership(v, side, m);
    let cm = spec_castle_moves(v, side);

    if spec_legal_moves(v).contains(m) {
        lemma_castling_move_requirements(v, m);
    }

    let right = if kingside {
        castle_of(v, side).spec_kingside()
    } else {
        castle_of(v, side).spec_queenside()
    };
    if right && spec_castle_has_room(v, side, kingside) && at(
        v,
        base + (if kingside { 7int } else { 0int }),
    ) == Some((Piece::Rook, side)) && !spec_attacked_ignoring_pins(v, ks, side)
        && !spec_attacked_ignoring_pins(
        v,
        Square((base + (if kingside { 5int } else { 3int })) as u8),
        side,
    ) && !spec_attacked_ignoring_pins(
        v,
        Square((base + (if kingside { 6int } else { 2int })) as u8),
        side,
    ) && !spec_is_in_check(spec_apply(v, m), side) {
        // the synthesis offers the move
        if kingside {
            assert(cm[0] == m);
        } else {
            if castle_of(v, side).spec_kingside() && spec_castle_has_room(v, side, true) {
                assert(cm[1] == m);
            } else {
                assert(cm[0] == m);
            }
        }
        assert(cm.contains(m));
        assert(spec_moves(v, side).contains(m));
        // and the filter accepts it
        assert(spec_castle_safe(v, m, side));
        assert(spec_move_legal(v, m, side));
    }
}


/// Two boards that differ only on rank `r` look alike to a ray that
/// leads away from rank `r`.
proof fn lemma_ray_congruence_off_rank(
    w1: BoardV,
    w2: BoardV,
    start: Square,
    cur: Square,
    us: Side,
    dir: Direction,
    fuel: nat,
    r: int,
)
    requires
        cur.valid(),
        r == 0 || r == 7,
        forall|j: int| j / 8 != r ==> at(w1, j) == at(w2, j),
        r == 0 ==> (dir == Direction::Up || dir == Direction::UpLeft || dir
            == Direction::UpRight),
        r == 7 ==> (dir == Direction::Down || dir == Direction::DownLeft || dir
            == Direction::DownRight),
    ensures
        spec_check_ray_plain(w1, start, cur, us, dir, fuel) == spec_check_ray_plain(
            w2,
            start,
            cur,
            us,
            dir,
            fuel,
        ),
    decreases fuel,
{
    if fuel > 0 {
        match cur.spec_next(dir) {
            None => {},
            Some(next) => {
                let sc = cur.0 as int;
                let sn = next.0 as int;
                if dir == Direction::Up {
                    assert(sn / 8 == sc / 8 + 1) by (nonlinear_arith)
                        requires
                            0 <= sc < 64,
                            sn == sc + 8,
                    ;
                } else if dir == Direction::UpRight {
                    assert(sn / 8 == sc / 8 + 1) by (nonlinear_arith)
                        requires
                            0 <= sc < 64,
                            sc % 8 < 7,
                            sn == sc + 9,
                    ;
                } else if dir == Direction::UpLeft {
                    assert(sn / 8 == sc / 8 + 1) by (nonlinear_arith)
                        requires
                            0 <= sc < 64,
                            sc % 8 >= 1,
                            sn == sc + 7,
                    ;
                } else if dir == Direction::Down {
                    assert(sn / 8 == sc / 8 - 1) by (nonlinear_arith)
                        requires
                            0 <= sc < 64,
                            sn == sc - 8,
                    ;
                } else if dir == Direction::DownRight {
                    assert(sn / 8 == sc / 8 - 1) by (nonlinear_arith)
                        requires
                            0 <= sc < 64,
                            sc % 8 < 7,
                            sn == sc - 7,
                    ;
                } else {
                    assert(dir == Direction::DownLeft);
                    assert(sn / 8 == sc / 8 - 1) by (nonlinear_arith)
                        requires
                            0 <= sc < 64,
                            sc % 8 >= 1,
                            sn == sc - 9,
                    ;
                }
                assert(sn / 8 != r);
                assert(at(w1, sn) == at(w2, sn));
                match at(w1, sn) {
                    Some((p, sd)) => {},
                    None => {
                        lemma_ray_congruence_off_rank(
                            w1,
                            w2,
                            start,
                            next,
                            us,
                            dir,
                            (fuel - 1) as nat,
                            r,
                        );
                    },
                }
            },
        }
    }
}

/// CASTLING, safety of the landing: when the mover's only king stands
/// on its home `e`-square, the rook on the castling corner, the path
/// between them empty, and the king's start, transit and destination
/// squares unattacked, the applied castling move does not leave the
/// mover in check.
#[verifier::rlimit(100)]
pub proof fn lemma_castle_transit_safety(v: BoardV, kingside: bool)
    requires
        wf_board(v),
        forall|j: int|
            #![trigger bb_has(piece_bb(v, Piece::King), j)]
            (bb_has(piece_bb(v, Piece::King), j) && bb_has(side_bb(v, v.to_move), j)) <==> j
                == castle_home_base(v.to_move) + 4,
        at(
            v,
            castle_home_base(v.to_move) + (if kingside {
                7int
            } else {
                0int
            }),
        ) == Some((Piece::Rook, v.to_move)),
        spec_castle_has_room(v, v.to_move, kingside),
        !spec_attacked_ignoring_pins(
            v,
            Square((castle_home_base(v.to_move) + 4) as u8),
            v.to_move,
        ),
        !spec_attacked_ignoring_pins(
            v,
            Square(
                (castle_home_base(v.to_move) + (if kingside {
                    5int
                } else {
                    3int
                })) as u8,
            ),
            v.to_move,
        ),
        !spec_attacked_ignoring_pins(
            v,
            Square(
                (castle_home_base(v.to_move) + (if kingside {
                    6int
                } else {
                    2int
                })) as u8,
            ),
            v.to_move,
        ),
    ensures
        ({
            let base = castle_home_base(v.to_move);
            let m = Move {
                start: Square((base + 4) as u8),
                dest: Square((base + (if kingside { 6int } else { 2int })) as u8),
                promo: None,
            };
            !spec_is_in_check(spec_apply(v, m), v.to_move)
        }),
{
    let side = v.to_move;
    let base = castle_home_base(side);
    let r: int = if side == Side::White {
        0
    } else {
        7
    };
    let e: int = base + 4;
    let gd: int = base + (if kingside {
        6int
    } else {
        2int
    });
    let rt: int = base + (if kingside {
        5int
    } else {
        3int
    });
    let rf: int = base + (if kingside {
        7int
    } else {
        0int
    });
    let esq = Square(e as u8);
    let gsq = Square(gd as u8);
    let m = Move { start: esq, dest: gsq, promo: None };
    assert(bb_has(piece_bb(v, Piece::King), e));
    assert(bb_has(side_bb(v, side), e));
    assert(!bb_has(piece_bb(v, Piece::Pawn), e));
    assert(!bb_has(piece_bb(v, Piece::Knight), e));
    assert(!bb_has(piece_bb(v, Piece::Bishop), e));
    assert(!bb_has(piece_bb(v, Piece::Rook), e));
    assert(!bb_has(piece_bb(v, Piece::Queen), e));
    assert(at_piece(v, e) == Some(Piece::King));
    assert(at(v, e) == Some((Piece::King, side)));
    assert(esq.spec_file_index() == 4 && gsq.spec_file_index() == (if kingside {
        6int
    } else {
        2int
    }) && esq.spec_rank() == gsq.spec_rank() && esq.spec_rank() == crate::moves::home_rank(side)
        && e / 8 == r && gd / 8 == r && rt / 8 == r && rf / 8 == r) by (nonlinear_arith)
        requires
            base == 0 || base == 56,
            r == base / 8,
            base == castle_home_base(side),
            e == base + 4,
            gd == base + (if kingside { 6int } else { 2int }),
            rt == base + (if kingside { 5int } else { 3int }),
            rf == base + (if kingside { 7int } else { 0int }),
            esq.0 == e,
            gsq.0 == gd,
            esq.spec_rank() == Rank((e / 8 + 1) as u8),
            gsq.spec_rank() == Rank((gd / 8 + 1) as u8),
            crate::moves::home_rank(side) == (if side == Side::White {
                Rank(1)
            } else {
                Rank(8)
            }),
            r == (if side == Side::White { 0int } else { 7int }),
    ;
    assert(m.spec_is_castling(v));
    assert(m.spec_is_kingside_castle(v) == kingside);

    // mirror the application chain
    let a1 = with_castle(v, side, castle_of(v, side).spec_remove_kingside());
    let v3 = with_castle(a1, side, castle_of(a1, side).spec_remove_queenside());
    let v4a = crate::board::spec_set_square(v3, rt, Piece::Rook, side);
    let v4 = crate::board::spec_clear_square(v4a, rf);
    let v6 = crate::board::spec_clear_square(v4, e);
    let v7 = crate::board::spec_set_square(v6, gd, Piece::King, side);
    let w = spec_apply(v, m);
    crate::board::lemma_at_clear_set(v3, rt, Piece::Rook, side);
    crate::board::lemma_at_clear_set(v4a, rf, Piece::Rook, side);
    crate::board::lemma_at_clear_set(v4, e, Piece::King, side);
    crate::board::lemma_at_clear_set(v6, gd, Piece::King, side);
    assert(lowest_sq(v.enpassant) == Some(m.dest) && Piece::King == Piece::Pawn || !(lowest_sq(
        v.enpassant,
    ) == Some(m.dest) && Piece::King == Piece::Pawn));
    assert(w.pawns == v7.pawns && w.bishops == v7.bishops && w.knights == v7.knights && w.rooks
        == v7.rooks && w.queens == v7.queens && w.kings == v7.kings && w.white == v7.white
        && w.black == v7.black);
    assert forall|j: int| at(w, j) == at(v7, j) by {}

    // what stands where after the move
    assert forall|j: int| #[trigger] at(w, j) == (if j == gd {
        Some((Piece::King, side))
    } else if j == rt {
        Some((Piece::Rook, side))
    } else if j == e || j == rf {
        None::<(Piece, Side)>
    } else {
        at(v, j)
    }) by {
        assert(at(v3, j) == at(v, j));
    }

    // the mover's one king now stands on the destination square
    let kbb7 = piece_bb(v7, Piece::King) & side_bb(v7, side);
    lemma_bb_ops(piece_bb(v7, Piece::King), side_bb(v7, side));
    assert forall|j: int| #[trigger] bb_has(kbb7, j) <==> j == gd by {
        assert(bb_has(piece_bb(v7, Piece::King), j) == (if j == gd {
            true
        } else {
            bb_has(piece_bb(v6, Piece::King), j)
        }));
        assert(bb_has(piece_bb(v6, Piece::King), j) == (j != e && bb_has(
            piece_bb(v4, Piece::King),
            j,
        )));
        assert(bb_has(piece_bb(v4, Piece::King), j) == (j != rf && bb_has(
            piece_bb(v4a, Piece::King),
            j,
        )));
        assert(bb_has(piece_bb(v4a, Piece::King), j) == (if j == rt {
            false
        } else {
            bb_has(piece_bb(v3, Piece::King), j)
        }));
        assert(piece_bb(v3, Piece::King) == piece_bb(v, Piece::King));
        assert(bb_has(side_bb(v7, side), j) == (if j == gd {
            true
        } else {
            bb_has(side_bb(v6, side), j)
        }));
        assert(bb_has(side_bb(v6, side), j) == (j != e && bb_has(side_bb(v4, side), j)));
        assert(bb_has(side_bb(v4, side), j) == (j != rf && bb_has(side_bb(v4a, side), j)));
        assert(bb_has(side_bb(v4a, side), j) == (if j == rt {
            true
        } else {
            bb_has(side_bb(v3, side), j)
        }));
        assert(side_bb(v3, side) == side_bb(v, side));
        if j == rt {
            assert(!bb_has(piece_bb(v7, Piece::King), j));
        }
    }
    crate::bitboard::lemma_lowest_sq_is(kbb7, gd);
    assert(piece_bb(w, Piece::King) & side_bb(w, side) == kbb7);

    // the destination square is not attacked on the new board
    assert forall|j: int| j / 8 != r implies at(w, j) == at(v, j) by {}
    assert forall|d: Direction| !spec_check_ray_plain(v, gsq, gsq, side, d, 64) by {}
    assert forall|d: Direction|
        !spec_knight_attacker_plain(v, gsq.spec_next_knight(d), side) by {}
    assert forall|d: Direction| !spec_check_ray_plain(w, gsq, gsq, side, d, 64) by {
        reveal_with_fuel(spec_check_ray_plain, 5);
        let away_up = d == Direction::Up || d == Direction::UpLeft || d == Direction::UpRight;
        let away_down = d == Direction::Down || d == Direction::DownLeft || d
            == Direction::DownRight;
        if (r == 0 && away_up) || (r == 7 && away_down) {
            lemma_ray_congruence_off_rank(w, v, gsq, gsq, side, d, 64, r);
        } else if (r == 0 && away_down) || (r == 7 && away_up) {
            assert(gsq.spec_next(d) is None);
        } else if kingside {
            // file g: the own rook on f blocks leftward; rightward runs
            // past the vacated corner off the board
            if d == Direction::Left {
                assert(gsq.spec_next(d) == Some(Square(rt as u8)));
                assert(at(w, rt) == Some((Piece::Rook, side)));
            } else {
                assert(d == Direction::Right);
                assert(gsq.spec_next(d) == Some(Square(rf as u8)));
                assert(at(w, rf) is None);
                assert(Square(rf as u8).spec_next(d) is None);
            }
        } else {
            // file c: the own rook on d blocks rightward; leftward runs
            // over the empty b-file and the vacated corner off the board
            if d == Direction::Right {
                assert(gsq.spec_next(d) == Some(Square(rt as u8)));
                assert(at(w, rt) == Some((Piece::Rook, side)));
            } else {
                assert(d == Direction::Left);
                assert(gsq.spec_next(d) == Some(Square((base + 1) as u8)));
                assert(at(w, base + 1) == at(v, base + 1));
                assert(at(v, base + 1) is None);
                assert(Square((base + 1) as u8).spec_next(d) == Some(Square(base as u8)));
                assert(at(w, base) is None);
                assert(Square(base as u8).spec_next(d) is None);
            }
        }
    }
    assert forall|d: Direction|
        !spec_knight_attacker_plain(w, gsq.spec_next_knight(d), side) by {
        match gsq.spec_next_knight(d) {
            None => {},
            Some(sp) => {
                let sj = sp.0 as int;
                match d {
                    Direction::Up => {
                        assert(sj / 8 == gd / 8 + 2) by (nonlinear_arith)
                            requires
                                0 <= gd < 64,
                                gd % 8 < 7,
                                sj == gd + 17,
                        ;
                    },
                    Direction::UpRight => {
                        assert(sj / 8 == gd / 8 + 1) by (nonlinear_arith)
                            requires
                                0 <= gd < 64,
                                gd % 8 < 6,
                                sj == gd + 10,
                        ;
                    },
                    Direction::Right => {
                        assert(sj / 8 == gd / 8 - 1) by (nonlinear_arith)
                            requires
                                0 <= gd < 64,
                                gd % 8 < 6,
                                sj == gd - 6,
                        ;
                    },
                    Direction::DownRight => {
                        assert(sj / 8 == gd / 8 - 2) by (nonlinear_arith)
                            requires
                                0 <= gd < 64,
                                gd % 8 < 7,
                                sj == gd - 15,
                        ;
                    },
                    Direction::Down => {
                        assert(sj / 8 == gd / 8 - 2) by (nonlinear_arith)
                            requires
                                0 <= gd < 64,
                                gd % 8 >= 1,
                                sj == gd - 17,
                        ;
                    },
                    Direction::DownLeft => {
                        assert(sj / 8 == gd / 8 - 1) by (nonlinear_arith)
                            requires
                                0 <= gd < 64,
                                gd % 8 >= 2,
                                sj == gd - 10,
                        ;
                    },
                    Direction::Left => {
                        assert(sj / 8 == gd / 8 + 1) by (nonlinear_arith)
                            requires
                                0 <= gd < 64,
                                gd % 8 >= 2,
                                sj == gd + 6,
                        ;
                    },
                    Direction::UpLeft => {
                        assert(sj / 8 == gd / 8 + 2) by (nonlinear_arith)
                            requires
                                0 <= gd < 64,
                                gd % 8 >= 1,
                                sj == gd + 15,
                        ;
                    },
                }
                assert(sj / 8 != r);
                assert(at(w, sj) == at(v, sj));
            },
        }
    }
    let pl = crate::legal::pawn_source_left(gsq, side);
    let pr = crate::legal::pawn_source_right(gsq, side);
    assert(!spec_pawn_attacker_plain(w, pl, side)) by {
        match pl {
            None => {},
            Some(sp) => {
                let sj = sp.0 as int;
                match side {
                    Side::White => {
                        assert(sj / 8 == gd / 8 + 1) by (nonlinear_arith)
                            requires
                                0 <= gd < 64,
                                gd % 8 >= 1,
                                sj == gd + 7,
                        ;
                    },
                    Side::Black => {
                        assert(sj / 8 == gd / 8 - 1) by (nonlinear_arith)
                            requires
                                0 <= gd < 64,
                                gd % 8 >= 1,
                                sj == gd - 9,
                        ;
                    },
                }
                assert(sj / 8 != r);
                assert(at(w, sj) == at(v, sj));
            },
        }
    }
    assert(!spec_pawn_attacker_plain(w, pr, side)) by {
        match pr {
            None => {},
            Some(sp) => {
                let sj = sp.0 as int;
                match side {
                    Side::White => {
                        assert(sj / 8 == gd / 8 + 1) by (nonlinear_arith)
                            requires
                                0 <= gd < 64,
                                gd % 8 < 7,
                                sj == gd + 9,
                        ;
                    },
                    Side::Black => {
                        assert(sj / 8 == gd / 8 - 1) by (nonlinear_arith)
                            requires
                                0 <= gd < 64,
                                gd % 8 < 7,
                                sj == gd - 7,
                        ;
                    },
                }
                assert(sj / 8 != r);
                assert(at(w, sj) == at(v, sj));
            },
        }
    }
    assert(!spec_attacked_ignoring_pins(w, gsq, side));
    assert(spec_is_in_check(w, side) == spec_attacked_ignoring_pins(w, gsq, side));
}

/// CASTLING, the full equivalence: when the mover's
/// only king stands on the `e`-file of its home rank, the castling
/// move toward `kingside` is in the legal stream exactly when the
/// right is held, the rook stands on its home corner, the path between
/// them is empty, and the king's start, transit and destination
/// squares are unattacked.
pub proof fn lemma_castling_move_present(v: BoardV, kingside: bool)
    requires
        wf_board(v),
        forall|j: int|
            #![trigger bb_has(piece_bb(v, Piece::King), j)]
            (bb_has(piece_bb(v, Piece::King), j) && bb_has(side_bb(v, v.to_move), j)) <==> j
                == castle_home_base(v.to_move) + 4,
    ensures
        ({
            let side = v.to_move;
            let base = castle_home_base(side);
            let m = Move {
                start: Square((base + 4) as u8),
                dest: Square((base + (if kingside { 6int } else { 2int })) as u8),
                promo: None,
            };
            spec_legal_moves(v).contains(m) <==> ({
                &&& (if kingside {
                    castle_of(v, side).spec_kingside()
                } else {
                    castle_of(v, side).spec_queenside()
                })
                &&& at(v, base + (if kingside { 7int } else { 0int })) == Some((Piece::Rook, side))
                &&& spec_castle_has_room(v, side, kingside)
                &&& !spec_attacked_ignoring_pins(v, Square((base + 4) as u8), side)
                &&& !spec_attacked_ignoring_pins(
                    v,
                    Square((base + (if kingside { 5int } else { 3int })) as u8),
                    side,
                )
                &&& !spec_attacked_ignoring_pins(
                    v,
                    Square((base + (if kingside { 6int } else { 2int })) as u8),
                    side,
                )
            })
        }),
{
    let side = v.to_move;
    let base = castle_home_base(side);
    let e: int = base + 4;
    let kbb = piece_bb(v, Piece::King) & side_bb(v, side);
    lemma_bb_ops(piece_bb(v, Piece::King), side_bb(v, side));
    assert forall|j: int| #[trigger] bb_has(kbb, j) <==> j == e by {}
    crate::bitboard::lemma_lowest_sq_is(kbb, e);
    lemma_castling_move_offered(v, kingside);
    let m = Move {
        start: Square(e as u8),
        dest: Square((base + (if kingside { 6int } else { 2int })) as u8),
        promo: None,
    };
    if spec_legal_moves(v).contains(m) {
        lemma_legal_moves_contains(v, spec_moves(v, side), m);
    }
    let cond = ({
        &&& (if kingside {
            castle_of(v, side).spec_kingside()
        } else {
            castle_of(v, side).spec_queenside()
        })
        &&& at(v, base + (if kingside { 7int } else { 0int })) == Some((Piece::Rook, side))
        &&& spec_castle_has_room(v, side, kingside)
        &&& !spec_attacked_ignoring_pins(v, Square(e as u8), side)
        &&& !spec_attacked_ignoring_pins(
            v,
            Square((base + (if kingside { 5int } else { 3int })) as u8),
            side,
        )
        &&& !spec_attacked_ignoring_pins(
            v,
            Square((base + (if kingside { 6int } else { 2int })) as u8),
            side,
        )
    });
    if cond {
        lemma_castle_transit_safety(v, kingside);
    }
}

} // verus!
