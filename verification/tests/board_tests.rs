use chess_engine::{BitBoard, Board, Direction, File, Move, Piece, Rank, Side, Square};

#[test]
fn test_bitboard_set_get_and_order() {
    let mut bb = BitBoard::default();
    assert!(bb.is_empty());
    bb.set(Square(10), true);
    bb.set(Square(3), true);
    bb.set(Square(63), true);
    assert!(bb.get(Square(10)));
    assert!(bb.get(Square(3)));
    assert!(!bb.get(Square(4)));
    assert_eq!(bb.to_square(), Some(Square(3)));
    let mut it = bb.into_iter();
    assert_eq!(it.next(), Some(Square(3)));
    assert_eq!(it.next(), Some(Square(10)));
    assert_eq!(it.next(), Some(Square(63)));
    assert_eq!(it.next(), None);
    bb.set(Square(3), false);
    assert_eq!(bb.to_square(), Some(Square(10)));
    bb.clear();
    assert!(bb.is_empty());
    assert_eq!(bb.to_square(), None);
}

#[test]
fn test_square_geometry() {
    let e4 = Square::from_rank_and_file(Rank::new(4), File::E);
    assert_eq!(e4.0, 28);
    assert_eq!(e4.rank().0, 4);
    assert_eq!(e4.file(), File::E);
    assert_eq!(e4.next_sq(Direction::Up), Some(Square(36)));
    assert_eq!(e4.next_sq(Direction::DownLeft), Some(Square(19)));
    let a1 = Square(0);
    assert_eq!(a1.next_sq(Direction::Down), None);
    assert_eq!(a1.next_sq(Direction::Left), None);
    assert_eq!(a1.next_sq_knight(Direction::Up), Some(Square(17)));
    let h8 = Square(63);
    assert_eq!(h8.next_sq(Direction::Up), None);
    assert_eq!(h8.next_sq(Direction::UpRight), None);
    assert!(e4.is_kingmove_away(Square(29)));
    assert!(!e4.is_kingmove_away(Square(30)));
    assert!(!e4.is_dark());
    assert!(Square(0).is_dark());
}

#[test]
fn test_rank_and_file_steps() {
    assert_eq!(Rank::new(1).prev(), None);
    assert_eq!(Rank::new(8).next(), None);
    assert_eq!(Rank::new(4).next(), Some(Rank::new(5)));
    assert_eq!(File::A.prev(), None);
    assert_eq!(File::H.next(), None);
    assert_eq!(File::C.next(), Some(File::D));
    assert!(Rank::new(2).allow_double_move(Side::White));
    assert!(Rank::new(7).allow_double_move(Side::Black));
    assert!(Rank::new(8).is_promo_rank(Side::White));
    assert!(Rank::new(1).is_promo_rank(Side::Black));
    assert_eq!(Side::White.other(), Side::Black);
    assert_eq!(Side::Black.other(), Side::White);
    assert_eq!(Side::White.to_char(), 'w');
    assert_eq!(Side::Black.to_char(), 'b');
    assert_eq!(Piece::Queen.to_char(Side::White), 'Q');
    assert_eq!(Piece::Queen.to_char(Side::Black), 'q');
}

#[test]
fn test_board_piece_lookup() {
    let b = Board::from_fen("startpos").unwrap();
    assert_eq!(b.piece(Square(4)), Some((Piece::King, Side::White)));
    assert_eq!(b.piece(Square(60)), Some((Piece::King, Side::Black)));
    assert_eq!(b.piece(Square(28)), None);
    assert_eq!(b.check_piece(Square(1)), Some(Piece::Knight));
    assert!(b.assert_is_sane());
    assert!(b.color_pieces(Side::White).get(Square(0)));
    assert!(!b.color_pieces(Side::Black).get(Square(0)));
    assert!(b.pieces(Piece::Pawn).get(Square(12)));
}

#[test]
fn test_legal_moves_startpos_is_twenty() {
    let b = Board::from_fen("startpos").unwrap();
    assert_eq!(b.legal_moves().len(), 20);
}

#[test]
fn test_apply_move_en_passant_lifecycle() {
    // after a pawn double push the skipped square is the unique target...
    let b = Board::from_fen("startpos").unwrap();
    let e2e4 = Move::new(Square(12), Square(28), None);
    let b2 = b.apply_move(&e2e4).unwrap();
    assert_eq!(b2.enpassant().to_square(), Some(Square(20))); // e3
    assert_eq!(
        b2.to_fen(),
        "rnbqkbnr/pppppppp/8/8/4P3/8/PPPP1PPP/RNBQKBNR b KQkq e3 0 1"
    );
    // ...for exactly one ply, then it clears
    let a7a6 = Move::new(Square(48), Square(40), None);
    let b3 = b2.apply_move(&a7a6).unwrap();
    assert_eq!(b3.enpassant().to_square(), None);
}

#[test]
fn test_apply_move_en_passant_capture_removes_pawn() {
    let b = Board::from_fen("4k3/8/8/3pP3/8/8/8/4K3 w - d6 0 3").unwrap();
    let exd6 = Move::new(Square(36), Square(43), None); // e5 takes d6 en passant
    let b2 = b.apply_move(&exd6).unwrap();
    assert_eq!(b2.piece(Square(35)), None); // the d5 pawn is gone
    assert_eq!(b2.piece(Square(43)), Some((Piece::Pawn, Side::White)));
    assert_eq!(b2.halfmove_clock(), 0);
}

#[test]
fn test_en_passant_capture_exposing_own_king_is_illegal() {
    // taking en passant would clear both fifth-rank pawns and leave the
    // rook on h5 checking the king on a5
    let b = Board::from_fen("8/8/8/K1pP3r/8/8/8/4k3 w - c6 0 1").unwrap();
    let dxc6 = Move::new(Square(35), Square(42), None);
    assert!(!b.legal_moves().contains(&dxc6));
    assert!(!b.move_legal(&dxc6, Side::White));
}

#[test]
fn test_no_enpassant_target_from_a_crooked_pawn_leap() {
    // applying a structural (never legal) pawn move from the double-push
    // rank that is not an exact double push installs no target
    let b = Board::from_fen("4k3/8/8/8/8/8/4P3/4K3 w - - 0 1").unwrap();
    let crooked = Move::new(Square(12), Square(35), None); // e2 to d5
    let b2 = b.apply_move(&crooked).unwrap();
    assert_eq!(b2.enpassant().to_square(), None);
}

#[test]
fn test_apply_move_from_empty_square_is_structural_error() {
    let b = Board::from_fen("startpos").unwrap();
    let bad = Move::new(Square(28), Square(36), None);
    assert!(b.apply_move(&bad).is_err());
    assert!(!b.move_structural(&bad));
}

#[test]
fn test_halfmove_clock_resets_on_pawn_move_and_capture() {
    let b = Board::from_fen("r3k3/8/8/8/8/8/8/4K2R w - - 10 30").unwrap();
    // a rook move increments the clock
    let rook = Move::new(Square(7), Square(15), None);
    let b2 = b.apply_move(&rook).unwrap();
    assert_eq!(b2.halfmove_clock(), 11);
    assert_eq!(b2.fullmoves(), 30);
    // Black's reply increments the fullmove counter
    let reply = Move::new(Square(56), Square(48), None);
    let b3 = b2.apply_move(&reply).unwrap();
    assert_eq!(b3.fullmoves(), 31);
}

#[test]
fn test_legal_moves_never_leave_own_king_in_check() {
    // a pinned knight may not move: the scenario form of the legality law
    let b = Board::from_fen("4k3/8/8/8/8/4n3/8/4R1K1 b - - 0 1").unwrap();
    for m in b.legal_moves() {
        let after = b.apply_move(&m).unwrap();
        assert!(!after.is_in_check(Side::Black));
    }
    // the knight on e3 is pinned against the king on e8 by the rook on e1
    assert!(b.is_pinned_by_us(Square(20), Side::White));
    for m in b.legal_moves() {
        assert_ne!(m.start(), Square(20));
    }
}

#[test]
fn test_castling_offered_iff_conditions_hold() {
    // both wings free and safe
    let b = Board::from_fen("r3k2r/8/8/8/8/8/8/R3K2R w KQkq - 0 1").unwrap();
    let ks = Move::new(Square(4), Square(6), None);
    let qs = Move::new(Square(4), Square(2), None);
    assert!(b.legal_moves().contains(&ks));
    assert!(b.legal_moves().contains(&qs));
    assert!(ks.is_castling(&b) && ks.is_kingside_castle(&b));
    assert!(qs.is_castling(&b) && !qs.is_kingside_castle(&b));

    // right not held: no kingside castle
    let b2 = Board::from_fen("r3k2r/8/8/8/8/8/8/R3K2R w Qkq - 0 1").unwrap();
    assert!(!b2.legal_moves().contains(&ks));
    assert!(b2.legal_moves().contains(&qs));

    // path blocked: no queenside castle
    let b3 = Board::from_fen("r3k2r/8/8/8/8/8/8/RN2K2R w KQkq - 0 1").unwrap();
    assert!(b3.legal_moves().contains(&ks));
    assert!(!b3.legal_moves().contains(&qs));

    // transit square attacked: no kingside castle over f1
    let b4 = Board::from_fen("r3k2r/8/8/8/8/5r2/8/R3K2R w KQkq - 0 1").unwrap();
    assert!(!b4.legal_moves().contains(&ks));
    assert!(b4.legal_moves().contains(&qs));

    // rook missing from its home square: no kingside castle
    let b5 = Board::from_fen("r3k2r/8/8/8/8/8/8/R3K3 w KQkq - 0 1").unwrap();
    assert!(!b5.legal_moves().contains(&ks));
}

#[test]
fn test_no_castling_with_king_off_its_home_rank() {
    // a castling move exists only on the king's home rank: a king on
    // e5 with the kingside right still set gets no two-file move
    let b = Board::from_fen("4k3/8/8/4K3/8/8/8/7R w K - 0 1").unwrap();
    let e5g5 = Move::new(Square(36), Square(38), None);
    assert!(!e5g5.is_castling(&b));
    assert!(!b.legal_moves().contains(&e5g5));
    for m in b.castle_moves(Side::White) {
        assert_ne!(m.start(), Square(36));
    }
    // and a two-file move from e1 onto another rank is not castling
    let c = Board::from_fen("4k3/8/8/8/8/8/8/4K2R w K - 0 1").unwrap();
    let e1g2 = Move::new(Square(4), Square(14), None);
    assert!(!e1g2.is_castling(&c));
}

#[test]
fn test_castling_relocates_rook_and_clears_rights() {
    let b = Board::from_fen("r3k2r/8/8/8/8/8/8/R3K2R w KQkq - 0 1").unwrap();
    let b2 = b.apply_move(&Move::new(Square(4), Square(6), None)).unwrap();
    assert_eq!(b2.piece(Square(6)), Some((Piece::King, Side::White)));
    assert_eq!(b2.piece(Square(5)), Some((Piece::Rook, Side::White)));
    assert_eq!(b2.piece(Square(7)), None);
    assert!(!b2.castle_rights(Side::White).kingside());
    assert!(!b2.castle_rights(Side::White).queenside());
    assert!(b2.castle_rights(Side::Black).kingside());
}

#[test]
fn test_promotion_yields_exactly_four_moves() {
    let b = Board::from_fen("8/P7/8/8/8/8/8/k6K w - - 0 1").unwrap();
    let to_last_rank: Vec<Move> = b
        .legal_moves()
        .into_iter()
        .filter(|m| m.dest() == Square(56))
        .collect();
    assert_eq!(to_last_rank.len(), 4);
    let promos: Vec<Option<Piece>> = to_last_rank.iter().map(|m| m.promo()).collect();
    for p in [Piece::Queen, Piece::Knight, Piece::Bishop, Piece::Rook] {
        assert!(promos.contains(&Some(p)));
    }
    // never a non-promoting move onto the last rank
    assert!(!b.legal_moves().contains(&Move::new(Square(48), Square(56), None)));
}

#[test]
fn test_is_attacked_and_pins() {
    let b = Board::from_fen("4k3/8/8/8/8/8/4r3/4K3 w - - 0 1").unwrap();
    assert!(b.is_in_check(Side::White));
    assert!(b.is_attacked(Square(4), Side::White, true));
    assert!(!b.is_in_check(Side::Black));
    // a knight attack
    let b2 = Board::from_fen("4k3/8/8/8/8/3n4/8/4K3 w - - 0 1").unwrap();
    assert!(b2.is_in_check(Side::White));
    // a pawn attack
    let b3 = Board::from_fen("4k3/8/8/8/8/8/3p4/4K3 w - - 0 1").unwrap();
    assert!(b3.is_in_check(Side::White));
}

#[test]
fn test_get_piece_moves_knight_center() {
    let empty = BitBoard::default();
    let dests = chess_engine::piecemoves::get_piece_moves(
        Piece::Knight,
        Side::White,
        Square(28),
        empty,
        empty,
        empty,
    );
    let mut n = 0;
    let mut it = dests.into_iter();
    while let Some(_) = it.next() {
        n += 1;
    }
    assert_eq!(n, 8);
}

#[test]
fn test_monitor_counts() {
    let mut m = chess_engine::Monitor::default();
    m.spawn();
    m.spawn();
    assert_eq!(m.remaining(), 2);
    assert!(!m.finished());
    m.done();
    assert_eq!(m.completed(), 1);
    assert_eq!(m.remaining(), 1);
    m.done();
    assert!(m.finished());
}

#[test]
fn test_testsuite_accessors() {
    let pos = chess_engine::TestPosition::new(
        String::from("start"),
        String::from("rnbqkbnr/pppppppp/8/8/8/8/PPPPPPPP/RNBQKBNR w KQkq - 0 1"),
    );
    let mv = chess_engine::TestMove::new(String::from("e2e4"), String::from("fen-after"));
    let case = chess_engine::TestCase::new(pos, vec![mv]);
    let suite = chess_engine::TestSuite::new(String::from("smoke"), vec![case]);
    assert_eq!(suite.description(), "smoke");
    assert_eq!(suite.test_cases().len(), 1);
    assert_eq!(suite.test_cases()[0].start().description(), "start");
    assert_eq!(suite.test_cases()[0].moves()[0].mv(), "e2e4");
    assert_eq!(suite.test_cases()[0].moves()[0].fen(), "fen-after");
}
