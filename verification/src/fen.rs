use vstd::prelude::*;
use vstd::string::StringSliceAdditionalSpecFns;
use crate::bitboard::{lowest_sq, BitBoard};
use crate::board::{
    at, castle_of, default_board_v, spec_set_square, wf_board, with_castle, Board, BoardV,
};
use crate::piece::Piece;
use crate::side::Side;
use crate::square::Square;

verus! {

/// The error of a FEN text that does not decode to a well-formed
/// record. It is surfaced to the caller, never retried.
#[derive(Debug, Clone, Copy, PartialEq, Eq, Structural)]
pub struct ParseError;

pub open spec fn is_digit(b: u8) -> bool {
    48 <= b <= 57
}

/// The piece and side a FEN placement letter stands for.
pub open spec fn spec_piece_of_byte(c: u8) -> Option<(Piece, Side)> {
    if c == 80 {
        Some((Piece::Pawn, Side::White))
    } else if c == 78 {
        Some((Piece::Knight, Side::White))
    } else if c == 66 {
        Some((Piece::Bishop, Side::White))
    } else if c == 82 {
        Some((Piece::Rook, Side::White))
    } else if c == 81 {
        Some((Piece::Queen, Side::White))
    } else if c == 75 {
        Some((Piece::King, Side::White))
    } else if c == 112 {
        Some((Piece::Pawn, Side::Black))
    } else if c == 110 {
        Some((Piece::Knight, Side::Black))
    } else if c == 98 {
        Some((Piece::Bishop, Side::Black))
    } else if c == 114 {
        Some((Piece::Rook, Side::Black))
    } else if c == 113 {
        Some((Piece::Queen, Side::Black))
    } else if c == 107 {
        Some((Piece::King, Side::Black))
    } else {
        None
    }
}

/// The FEN placement letter of a piece.
pub open spec fn spec_piece_byte(p: Piece, s: Side) -> u8 {
    match s {
        Side::White => match p {
            Piece::Pawn => 80,
            Piece::Knight => 78,
            Piece::Bishop => 66,
            Piece::Rook => 82,
            Piece::Queen => 81,
            Piece::King => 75,
        },
        Side::Black => match p {
            Piece::Pawn => 112,
            Piece::Knight => 110,
            Piece::Bishop => 98,
            Piece::Rook => 114,
            Piece::Queen => 113,
            Piece::King => 107,
        },
    }
}

/// Parses the piece-placement field from byte `i` on, with the cursor
/// at `rank` (8 down to 1) and `file` squares already filled on it,
/// placing pieces onto `v`. Yields the filled board and the position
/// after the terminating space.
pub open spec fn spec_parse_placement(
    bytes: Seq<u8>,
    i: int,
    rank: int,
    file: int,
    v: BoardV,
) -> Option<(BoardV, int)>
    decreases bytes.len() - i,
{
    if i < 0 || i >= bytes.len() {
        None
    } else {
        let c = bytes[i];
        if c == 32 {
            if rank == 1 && file == 8 {
                Some((v, i + 1))
            } else {
                None
            }
        } else if c == 47 {
            if file == 8 && rank > 1 {
                spec_parse_placement(bytes, i + 1, rank - 1, 0, v)
            } else {
                None
            }
        } else if 49 <= c <= 56 {
            if file + (c - 48) <= 8 {
                spec_parse_placement(bytes, i + 1, rank, file + (c - 48), v)
            } else {
                None
            }
        } else {
            match spec_piece_of_byte(c) {
                None => None,
                Some((p, s)) => if file < 8 {
                    spec_parse_placement(
                        bytes,
                        i + 1,
                        rank,
                        file + 1,
                        spec_set_square(v, (rank - 1) * 8 + file, p, s),
                    )
                } else {
                    None
                },
            }
        }
    }
}

/// Parses the side-to-move field: one letter, `w` or `b`.
pub open spec fn spec_parse_side(bytes: Seq<u8>, i: int) -> Option<(Side, int)> {
    if 0 <= i < bytes.len() {
        if bytes[i] == 119 {
            Some((Side::White, i + 1))
        } else if bytes[i] == 98 {
            Some((Side::Black, i + 1))
        } else {
            None
        }
    } else {
        None
    }
}

/// Demands a space at `i` and steps past it.
pub open spec fn spec_space(bytes: Seq<u8>, i: int) -> Option<int> {
    if 0 <= i < bytes.len() && bytes[i] == 32 {
        Some(i + 1)
    } else {
        None
    }
}

/// Parses the castling-availability letters from `i` on, accumulating
/// the four flags; ends before the following space.
pub open spec fn spec_parse_castle_flags(
    bytes: Seq<u8>,
    i: int,
    wk: bool,
    wq: bool,
    bk: bool,
    bq: bool,
    n: int,
) -> Option<((bool, bool, bool, bool), int)>
    decreases bytes.len() - i,
{
    if i < 0 || i >= bytes.len() {
        None
    } else if bytes[i] == 32 {
        if n > 0 {
            Some(((wk, wq, bk, bq), i))
        } else {
            None
        }
    } else if bytes[i] == 75 {
        spec_parse_castle_flags(bytes, i + 1, true, wq, bk, bq, n + 1)
    } else if bytes[i] == 81 {
        spec_parse_castle_flags(bytes, i + 1, wk, true, bk, bq, n + 1)
    } else if bytes[i] == 107 {
        spec_parse_castle_flags(bytes, i + 1, wk, wq, true, bq, n + 1)
    } else if bytes[i] == 113 {
        spec_parse_castle_flags(bytes, i + 1, wk, wq, bk, true, n + 1)
    } else {
        None
    }
}

/// Parses the castling-availability field: `-`, or letters of `KQkq`.
pub open spec fn spec_parse_castle(bytes: Seq<u8>, i: int) -> Option<(
    (bool, bool, bool, bool),
    int,
)> {
    if 0 <= i < bytes.len() && bytes[i] == 45 {
        Some(((false, false, false, false), i + 1))
    } else {
        spec_parse_castle_flags(bytes, i, false, false, false, false, 0)
    }
}

/// Parses the en-passant field: `-`, or a square name such as `e3`,
/// yielding the target as a one-square mask.
pub open spec fn spec_parse_ep(bytes: Seq<u8>, i: int) -> Option<(u64, int)> {
    if 0 <= i < bytes.len() && bytes[i] == 45 {
        Some((0, i + 1))
    } else if 0 <= i && i + 1 < bytes.len() && 97 <= bytes[i] <= 104 && 49 <= bytes[i + 1] <= 56 {
        Some((1u64 << (((bytes[i] - 97) + (bytes[i + 1] - 49) * 8) as u64), i + 2))
    } else {
        None
    }
}

/// Folds decimal digits from `i` on into `acc`, rejecting overflow;
/// ends at the first non-digit.
pub open spec fn spec_parse_u64_digits(bytes: Seq<u8>, i: int, acc: u64) -> Option<(u64, int)>
    decreases bytes.len() - i,
{
    if i < 0 || i >= bytes.len() || !is_digit(bytes[i]) {
        Some((acc, i))
    } else {
        let d = (bytes[i] - 48) as u64;
        if acc > (u64::MAX - d) / 10 {
            None
        } else {
            spec_parse_u64_digits(bytes, i + 1, (acc * 10 + d) as u64)
        }
    }
}

/// Parses a decimal number of at least one digit.
pub open spec fn spec_parse_u64(bytes: Seq<u8>, i: int) -> Option<(u64, int)> {
    if 0 <= i < bytes.len() && is_digit(bytes[i]) {
        spec_parse_u64_digits(bytes, i, 0)
    } else {
        None
    }
}

/// Removes from `v` the castling rights whose flags are not set.
pub open spec fn spec_apply_castle_flags(
    v: BoardV,
    wk: bool,
    wq: bool,
    bk: bool,
    bq: bool,
) -> BoardV {
    let v1 = if !wk {
        with_castle(v, Side::White, castle_of(v, Side::White).spec_remove_kingside())
    } else {
        v
    };
    let v2 = if !wq {
        with_castle(v1, Side::White, castle_of(v1, Side::White).spec_remove_queenside())
    } else {
        v1
    };
    let v3 = if !bk {
        with_castle(v2, Side::Black, castle_of(v2, Side::Black).spec_remove_kingside())
    } else {
        v2
    };
    if !bq {
        with_castle(v3, Side::Black, castle_of(v3, Side::Black).spec_remove_queenside())
    } else {
        v3
    }
}

/// Decodes a whole FEN record: placement, side to move, castling
/// availability, en-passant square, halfmove clock and fullmove number,
/// each separated by one space, with nothing after the last field.
pub open spec fn spec_parse_fen(bytes: Seq<u8>) -> Option<BoardV> {
    match spec_parse_placement(bytes, 0, 8, 0, default_board_v()) {
        None => None,
        Some((v1, i1)) => match spec_parse_side(bytes, i1) {
            None => None,
            Some((side, i2)) => match spec_space(bytes, i2) {
                None => None,
                Some(i3) => match spec_parse_castle(bytes, i3) {
                    None => None,
                    Some(((wk, wq, bk, bq), i4)) => match spec_space(bytes, i4) {
                        None => None,
                        Some(i5) => match spec_parse_ep(bytes, i5) {
                            None => None,
                            Some((ep, i6)) => match spec_space(bytes, i6) {
                                None => None,
                                Some(i7) => match spec_parse_u64(bytes, i7) {
                                    None => None,
                                    Some((half, i8)) => match spec_space(bytes, i8) {
                                        None => None,
                                        Some(i9) => match spec_parse_u64(bytes, i9) {
                                            None => None,
                                            Some((full, i10)) => if i10 == bytes.len() {
                                                Some(
                                                    BoardV {
                                                        to_move: side,
                                                        enpassant: ep,
                                                        halfmove_clock: half,
                                                        fullmoves: full,
                                                        ..spec_apply_castle_flags(
                                                            v1,
                                                            wk,
                                                            wq,
                                                            bk,
                                                            bq,
                                                        )
                                                    },
                                                )
                                            } else {
                                                None
                                            },
                                        },
                                    },
                                },
                            },
                        },
                    },
                },
            },
        },
    }
}

/// The run-length-encoded placement bytes of `rank`, from `file` on,
/// with `empty` free squares pending.
pub open spec fn spec_rank_bytes(v: BoardV, rank: int, file: int, empty: int) -> Seq<u8>
    decreases 8 - file,
{
    if file < 0 || file >= 8 {
        if empty > 0 {
            seq![(48 + empty) as u8]
        } else {
            Seq::empty()
        }
    } else {
        match at(v, (rank - 1) * 8 + file) {
            Some((p, s)) => (if empty > 0 {
                seq![(48 + empty) as u8]
            } else {
                Seq::empty()
            }) + seq![spec_piece_byte(p, s)] + spec_rank_bytes(v, rank, file + 1, 0),
            None => spec_rank_bytes(v, rank, file + 1, empty + 1),
        }
    }
}

/// The placement bytes of ranks `rank` down to 1, `/`-separated.
pub open spec fn spec_placement_bytes(v: BoardV, rank: int) -> Seq<u8>
    decreases rank,
{
    if rank <= 0 {
        Seq::empty()
    } else if rank == 1 {
        spec_rank_bytes(v, 1, 0, 0)
    } else {
        spec_rank_bytes(v, rank, 0, 0) + seq![47u8] + spec_placement_bytes(v, rank - 1)
    }
}

/// The castling-availability bytes: held rights in `KQkq` order, or `-`
/// when none remain.
pub open spec fn spec_castle_bytes(v: BoardV) -> Seq<u8> {
    let w = (if castle_of(v, Side::White).spec_kingside() {
        seq![75u8]
    } else {
        Seq::empty()
    }) + (if castle_of(v, Side::White).spec_queenside() {
        seq![81u8]
    } else {
        Seq::empty()
    });
    let b = (if castle_of(v, Side::Black).spec_kingside() {
        seq![107u8]
    } else {
        Seq::empty()
    }) + (if castle_of(v, Side::Black).spec_queenside() {
        seq![113u8]
    } else {
        Seq::empty()
    });
    w + b + (if castle_of(v, Side::White).spec_is_empty() && castle_of(
        v,
        Side::Black,
    ).spec_is_empty() {
        seq![45u8]
    } else {
        Seq::empty()
    })
}

/// The en-passant field bytes: the target square's name, or `-`.
pub open spec fn spec_ep_bytes(v: BoardV) -> Seq<u8> {
    match lowest_sq(v.enpassant) {
        None => seq![45u8],
        Some(s) => seq![(97 + s.0 as int % 8) as u8, (49 + s.0 as int / 8) as u8],
    }
}

/// The decimal bytes of `n`.
pub open spec fn spec_u64_bytes(n: u64) -> Seq<u8>
    decreases n,
{
    if n < 10 {
        seq![(48 + n) as u8]
    } else {
        spec_u64_bytes(n / 10) + seq![(48 + n % 10) as u8]
    }
}

/// The whole FEN record of a position.
pub open spec fn spec_fen_bytes(v: BoardV) -> Seq<u8> {
    spec_placement_bytes(v, 8) + seq![32u8] + seq![
        (match v.to_move {
            Side::White => 119u8,
            Side::Black => 98u8,
        }),
    ] + seq![32u8] + spec_castle_bytes(v) + seq![32u8] + spec_ep_bytes(v) + seq![32u8]
        + spec_u64_bytes(v.halfmove_clock) + seq![32u8] + spec_u64_bytes(v.fullmoves)
}

/// The FEN record of a position, as text.
pub open spec fn fen_chars(v: BoardV) -> Seq<char> {
    spec_fen_bytes(v).map_values(|b: u8| b as char)
}

/// Relies on String::from_utf8: bytes below 128 are valid UTF-8 and
/// decode to one character each.
#[verifier::external_body]
fn ascii_string(bytes: Vec<u8>) -> (r: String)
    requires
        forall|i: int| 0 <= i < bytes@.len() ==> bytes@[i] < 128,
    ensures
        r@ == bytes@.map_values(|b: u8| b as char),
{
    match String::from_utf8(bytes) {
        Ok(s) => s,
        Err(_) => String::new(),
    }
}

/// True when the two byte strings are equal.
fn bytes_eq(a: &[u8], b: &[u8]) -> (r: bool)
    ensures
        r == (a@ == b@),
{
    if a.len() != b.len() {
        proof {
            assert(a@ != b@);
        }
        return false;
    }
    let mut i: usize = 0;
    while i < a.len()
        invariant
            i <= a@.len(),
            a@.len() == b@.len(),
            forall|j: int| 0 <= j < i ==> a@[j] == b@[j],
        decreases a@.len() - i,
    {
        if a[i] != b[i] {
            proof {
                assert(a@ != b@);
            }
            return false;
        }
        i = i + 1;
    }
    proof {
        assert(a@ =~= b@);
    }
    true
}

/// The piece and side a FEN placement letter stands for.
fn piece_of_byte(c: u8) -> (r: Option<(Piece, Side)>)
    ensures
        r == spec_piece_of_byte(c),
{
    match c {
        80 => Some((Piece::Pawn, Side::White)),
        78 => Some((Piece::Knight, Side::White)),
        66 => Some((Piece::Bishop, Side::White)),
        82 => Some((Piece::Rook, Side::White)),
        81 => Some((Piece::Queen, Side::White)),
        75 => Some((Piece::King, Side::White)),
        112 => Some((Piece::Pawn, Side::Black)),
        110 => Some((Piece::Knight, Side::Black)),
        98 => Some((Piece::Bishop, Side::Black)),
        114 => Some((Piece::Rook, Side::Black)),
        113 => Some((Piece::Queen, Side::Black)),
        107 => Some((Piece::King, Side::Black)),
        _ => None,
    }
}

/// Parses the placement field, filling `b`; mirrors
/// `spec_parse_placement`.
fn parse_placement(bs: &[u8], i: usize, rank: u8, file: u8, b: Board) -> (r: Result<
    (Board, usize),
    ParseError,
>)
    requires
        1 <= rank <= 8,
        file <= 8,
        wf_board(b@),
    ensures
        (r is Ok) == (spec_parse_placement(bs@, i as int, rank as int, file as int, b@) is Some),
        r matches Ok((bb, j)) ==> Some((bb@, j as int)) == spec_parse_placement(
            bs@,
            i as int,
            rank as int,
            file as int,
            b@,
        ) && wf_board(bb@),
    decreases bs@.len() - i,
{
    if i >= bs.len() {
        return Err(ParseError);
    }
    let c = bs[i];
    if c == 32 {
        if rank == 1 && file == 8 {
            Ok((b, i + 1))
        } else {
            Err(ParseError)
        }
    } else if c == 47 {
        if file == 8 && rank > 1 {
            parse_placement(bs, i + 1, rank - 1, 0, b)
        } else {
            Err(ParseError)
        }
    } else if 49 <= c && c <= 56 {
        let nf = file + (c - 48);
        if nf <= 8 {
            parse_placement(bs, i + 1, rank, nf, b)
        } else {
            Err(ParseError)
        }
    } else {
        match piece_of_byte(c) {
            None => Err(ParseError),
            Some((p, s)) => {
                if file < 8 {
                    let mut b2 = b;
                    let sq = Square((rank - 1) * 8 + file);
                    b2.set_square(sq, p, s);
                    proof {
                        crate::board::lemma_wf_clear_set(b@, sq.0 as int, p, s);
                    }
                    parse_placement(bs, i + 1, rank, file + 1, b2)
                } else {
                    Err(ParseError)
                }
            },
        }
    }
}

/// Parses the castling letters; mirrors `spec_parse_castle_flags`.
fn parse_castle_flags(bs: &[u8], i: usize, wk: bool, wq: bool, bk: bool, bq: bool, n: usize) -> (r:
    Result<((bool, bool, bool, bool), usize), ParseError>)
    requires
        n <= i,
    ensures
        (r is Ok) == (spec_parse_castle_flags(
            bs@,
            i as int,
            wk,
            wq,
            bk,
            bq,
            n as int,
        ) is Some),
        r matches Ok((f, j)) ==> Some((f, j as int)) == spec_parse_castle_flags(
            bs@,
            i as int,
            wk,
            wq,
            bk,
            bq,
            n as int,
        ),
    decreases bs@.len() - i,
{
    if i >= bs.len() {
        return Err(ParseError);
    }
    let c = bs[i];
    if c == 32 {
        if n > 0 {
            Ok(((wk, wq, bk, bq), i))
        } else {
            Err(ParseError)
        }
    } else if c == 75 {
        parse_castle_flags(bs, i + 1, true, wq, bk, bq, n + 1)
    } else if c == 81 {
        parse_castle_flags(bs, i + 1, wk, true, bk, bq, n + 1)
    } else if c == 107 {
        parse_castle_flags(bs, i + 1, wk, wq, true, bq, n + 1)
    } else if c == 113 {
        parse_castle_flags(bs, i + 1, wk, wq, bk, true, n + 1)
    } else {
        Err(ParseError)
    }
}

/// Folds decimal digits; mirrors `spec_parse_u64_digits`.
fn parse_u64_digits(bs: &[u8], i: usize, acc: u64) -> (r: Result<(u64, usize), ParseError>)
    ensures
        (r is Ok) == (spec_parse_u64_digits(bs@, i as int, acc) is Some),
        r matches Ok((x, j)) ==> Some((x, j as int)) == spec_parse_u64_digits(
            bs@,
            i as int,
            acc,
        ),
    decreases bs@.len() - i,
{
    if i >= bs.len() || !(48 <= bs[i] && bs[i] <= 57) {
        return Ok((acc, i));
    }
    let d = (bs[i] - 48) as u64;
    if acc > (u64::MAX - d) / 10 {
        Err(ParseError)
    } else {
        parse_u64_digits(bs, i + 1, acc * 10 + d)
    }
}

/// Parses a whole FEN record from bytes; mirrors `spec_parse_fen`.
fn parse_fen_bytes(bs: &[u8]) -> (r: Result<Board, ParseError>)
    ensures
        (r is Ok) == (spec_parse_fen(bs@) is Some),
        r matches Ok(b) ==> Some(b@) == spec_parse_fen(bs@) && wf_board(b@),
{
    let start = Board::default();
    let (b1, i1) = match parse_placement(bs, 0, 8, 0, start) {
        Ok(x) => x,
        Err(e) => {
            return Err(e);
        },
    };
    // side to move
    if i1 >= bs.len() {
        return Err(ParseError);
    }
    let side = if bs[i1] == 119 {
        Side::White
    } else if bs[i1] == 98 {
        Side::Black
    } else {
        return Err(ParseError);
    };
    let i2 = i1 + 1;
    if i2 >= bs.len() || bs[i2] != 32 {
        return Err(ParseError);
    }
    let i3 = i2 + 1;
    // castling availability
    let (flags, i4) = if i3 < bs.len() && bs[i3] == 45 {
        ((false, false, false, false), i3 + 1)
    } else {
        match parse_castle_flags(bs, i3, false, false, false, false, 0) {
            Ok(x) => x,
            Err(e) => {
                return Err(e);
            },
        }
    };
    if i4 >= bs.len() || bs[i4] != 32 {
        return Err(ParseError);
    }
    let i5 = i4 + 1;
    // en passant target
    let (ep, i6) = if i5 < bs.len() && bs[i5] == 45 {
        (BitBoard::empty(), i5 + 1)
    } else if i5 < bs.len() && bs.len() - i5 >= 2 && 97 <= bs[i5] && bs[i5] <= 104 && 49 <= bs[i5
        + 1] && bs[i5 + 1] <= 56 {
        let sq = Square((bs[i5] - 97) + (bs[i5 + 1] - 49) * 8);
        (BitBoard::from_square(sq), i5 + 2)
    } else {
        return Err(ParseError);
    };
    if i6 >= bs.len() || bs[i6] != 32 {
        return Err(ParseError);
    }
    let i7 = i6 + 1;
    // halfmove clock
    if i7 >= bs.len() || !(48 <= bs[i7] && bs[i7] <= 57) {
        return Err(ParseError);
    }
    let (half, i8) = match parse_u64_digits(bs, i7, 0) {
        Ok(x) => x,
        Err(e) => {
            return Err(e);
        },
    };
    if i8 >= bs.len() || bs[i8] != 32 {
        return Err(ParseError);
    }
    let i9 = i8 + 1;
    // fullmove number
    if i9 >= bs.len() || !(48 <= bs[i9] && bs[i9] <= 57) {
        return Err(ParseError);
    }
    let (full, i10) = match parse_u64_digits(bs, i9, 0) {
        Ok(x) => x,
        Err(e) => {
            return Err(e);
        },
    };
    if i10 != bs.len() {
        return Err(ParseError);
    }
    let (wk, wq, bk, bq) = flags;
    let mut b = b1;
    let ghost vplaced = b@;
    if !wk {
        b.castle_rights_mut(Side::White).remove_kingside();
    }
    if !wq {
        b.castle_rights_mut(Side::White).remove_queenside();
    }
    if !bk {
        b.castle_rights_mut(Side::Black).remove_kingside();
    }
    if !bq {
        b.castle_rights_mut(Side::Black).remove_queenside();
    }
    proof {
        assert(b@ =~= spec_apply_castle_flags(vplaced, wk, wq, bk, bq));
        crate::board::lemma_castle_remove(castle_of(vplaced, Side::White));
        crate::board::lemma_castle_remove(
            castle_of(spec_apply_castle_flags(vplaced, wk, wq, bk, bq), Side::White),
        );
    }
    b.set_to_move(side);
    b.set_enpassant(ep);
    b.set_halfmove_clock(half);
    b.set_fullmoves(full);
    proof {
        let w = spec_parse_fen(bs@).unwrap();
        assert(b@ =~= w);
        lemma_castle_flags_wf(vplaced, wk, wq, bk, bq);
        crate::board::lemma_wf_same_occupancy(
            spec_apply_castle_flags(vplaced, wk, wq, bk, bq),
            b@,
        );
    }
    Ok(b)
}

/// Removing castling rights keeps the board sane.
proof fn lemma_castle_flags_wf(v: BoardV, wk: bool, wq: bool, bk: bool, bq: bool)
    requires
        wf_board(v),
    ensures
        wf_board(spec_apply_castle_flags(v, wk, wq, bk, bq)),
{
    let v1 = if !wk {
        with_castle(v, Side::White, castle_of(v, Side::White).spec_remove_kingside())
    } else {
        v
    };
    let v2 = if !wq {
        with_castle(v1, Side::White, castle_of(v1, Side::White).spec_remove_queenside())
    } else {
        v1
    };
    let v3 = if !bk {
        with_castle(v2, Side::Black, castle_of(v2, Side::Black).spec_remove_kingside())
    } else {
        v2
    };
    crate::board::lemma_castle_remove(castle_of(v, Side::White));
    crate::board::lemma_castle_remove(castle_of(v1, Side::White));
    crate::board::lemma_castle_remove(castle_of(v2, Side::Black));
    crate::board::lemma_castle_remove(castle_of(v3, Side::Black));
    crate::board::lemma_wf_same_occupancy(v, v1);
    crate::board::lemma_wf_same_occupancy(v1, v2);
    crate::board::lemma_wf_same_occupancy(v2, v3);
    crate::board::lemma_wf_same_occupancy(v3, spec_apply_castle_flags(v, wk, wq, bk, bq));
}

impl Board {
    /// Builds a position from FEN text, or from the name `startpos`,
    /// which stands for the standard starting position. Fails when the
    /// text does not decode to a well-formed record.
    pub fn from_fen(fen: &str) -> (r: Result<Board, ParseError>)
        ensures
            ({
                let bytes = if fen.spec_bytes() == ("startpos").spec_bytes() {
                    ("rnbqkbnr/pppppppp/8/8/8/8/PPPPPPPP/RNBQKBNR w KQkq - 0 1").spec_bytes()
                } else {
                    fen.spec_bytes()
                };
                &&& (r is Ok) == (spec_parse_fen(bytes) is Some)
                &&& (r matches Ok(b) ==> Some(b@) == spec_parse_fen(bytes) && wf_board(b@))
            }),
    {
        let bs = fen.as_bytes();
        if bytes_eq(bs, ("startpos").as_bytes()) {
            parse_fen_bytes(("rnbqkbnr/pppppppp/8/8/8/8/PPPPPPPP/RNBQKBNR w KQkq - 0 1").as_bytes())
        } else {
            parse_fen_bytes(bs)
        }
    }

    /// Renders this position as FEN text: an exact round trip partner
    /// of `from_fen` for any position reachable by legal play.
    pub fn to_fen(&self) -> (r: String)
        ensures
            r@ == fen_chars(self@),
    {
        let mut out: Vec<u8> = Vec::new();
        fen_push_placement(self, &mut out, 8);
        out.push(32);
        out.push(
            match self.to_move() {
                Side::White => 119,
                Side::Black => 98,
            },
        );
        out.push(32);
        fen_push_castle(self, &mut out);
        out.push(32);
        fen_push_ep(self, &mut out);
        out.push(32);
        fen_push_u64(&mut out, self.halfmove_clock());
        out.push(32);
        fen_push_u64(&mut out, self.fullmoves());
        proof {
            assert(out@ =~= spec_fen_bytes(self@));
        }
        let r = ascii_string(out);
        proof {
            assert(r@ =~= fen_chars(self@));
        }
        r
    }
}

/// The FEN placement letter of a piece.
fn piece_fen_byte(p: Piece, s: Side) -> (r: u8)
    ensures
        r == spec_piece_byte(p, s),
        r < 128,
{
    match s {
        Side::White => match p {
            Piece::Pawn => 80,
            Piece::Knight => 78,
            Piece::Bishop => 66,
            Piece::Rook => 82,
            Piece::Queen => 81,
            Piece::King => 75,
        },
        Side::Black => match p {
            Piece::Pawn => 112,
            Piece::Knight => 110,
            Piece::Bishop => 98,
            Piece::Rook => 114,
            Piece::Queen => 113,
            Piece::King => 107,
        },
    }
}

/// Appends the run-length-encoded bytes of one rank; mirrors
/// `spec_rank_bytes`.
fn fen_push_rank(b: &Board, out: &mut Vec<u8>, rank: u8, file: u8, empty: u8)
    requires
        1 <= rank <= 8,
        file <= 8,
        empty <= file,
    ensures
        final(out)@ == old(out)@ + spec_rank_bytes(b@, rank as int, file as int, empty as int),
        forall|j: int| old(out)@.len() <= j < final(out)@.len() ==> final(out)@[j] < 128,
    decreases 8 - file,
{
    if file >= 8 {
        if empty > 0 {
            out.push(48 + empty);
        }
        return ;
    }
    let sq = Square(file + (rank - 1) * 8);
    match b.piece(sq) {
        Some((p, s)) => {
            if empty > 0 {
                out.push(48 + empty);
            }
            out.push(piece_fen_byte(p, s));
            fen_push_rank(b, out, rank, file + 1, 0);
        },
        None => {
            fen_push_rank(b, out, rank, file + 1, empty + 1);
        },
    }
}

/// Appends the placement bytes of ranks `rank` down to 1; mirrors
/// `spec_placement_bytes`.
fn fen_push_placement(b: &Board, out: &mut Vec<u8>, rank: u8)
    requires
        1 <= rank <= 8,
    ensures
        final(out)@ == old(out)@ + spec_placement_bytes(b@, rank as int),
        forall|j: int| old(out)@.len() <= j < final(out)@.len() ==> final(out)@[j] < 128,
    decreases rank,
{
    fen_push_rank(b, out, rank, 0, 0);
    if rank > 1 {
        out.push(47);
        fen_push_placement(b, out, rank - 1);
    }
}

/// Appends the castling-availability bytes; mirrors
/// `spec_castle_bytes`.
fn fen_push_castle(b: &Board, out: &mut Vec<u8>)
    ensures
        final(out)@ == old(out)@ + spec_castle_bytes(b@),
        forall|j: int| old(out)@.len() <= j < final(out)@.len() ==> final(out)@[j] < 128,
{
    if b.castle_rights(Side::White).kingside() {
        out.push(75);
    }
    if b.castle_rights(Side::White).queenside() {
        out.push(81);
    }
    if b.castle_rights(Side::Black).kingside() {
        out.push(107);
    }
    if b.castle_rights(Side::Black).queenside() {
        out.push(113);
    }
    if b.castle_rights(Side::White).is_empty() && b.castle_rights(Side::Black).is_empty() {
        out.push(45);
    }
    proof {
        assert(final(out)@ =~= old(out)@ + spec_castle_bytes(b@));
    }
}

/// Appends the en-passant field bytes; mirrors `spec_ep_bytes`.
fn fen_push_ep(b: &Board, out: &mut Vec<u8>)
    ensures
        final(out)@ == old(out)@ + spec_ep_bytes(b@),
        forall|j: int| old(out)@.len() <= j < final(out)@.len() ==> final(out)@[j] < 128,
{
    match b.enpassant().to_square() {
        None => {
            out.push(45);
        },
        Some(s) => {
            out.push(97 + s.0 % 8);
            out.push(49 + s.0 / 8);
        },
    }
    proof {
        assert(final(out)@ =~= old(out)@ + spec_ep_bytes(b@));
    }
}

/// Appends the decimal bytes of `n`; mirrors `spec_u64_bytes`.
fn fen_push_u64(out: &mut Vec<u8>, n: u64)
    ensures
        final(out)@ == old(out)@ + spec_u64_bytes(n),
        forall|j: int| old(out)@.len() <= j < final(out)@.len() ==> final(out)@[j] < 128,
    decreases n,
{
    if n < 10 {
        out.push(48 + (n as u8));
    } else {
        fen_push_u64(out, n / 10);
        out.push(48 + ((n % 10) as u8));
    }
}

} // verus!
