use chess_engine::{Board, Side};

#[test]
fn test_to_fen_start() {
    let b = Board::from_fen("startpos").unwrap();
    assert_eq!(
        b.to_fen(),
        "rnbqkbnr/pppppppp/8/8/8/8/PPPPPPPP/RNBQKBNR w KQkq - 0 1"
    );
}

#[test]
fn test_round_trip_startpos() {
    let b = Board::from_fen("startpos").unwrap();
    let again = Board::from_fen(&b.to_fen()).unwrap();
    assert_eq!(b, again);
}

#[test]
fn test_round_trip_various() {
    let fens = [
        "rnbqkbnr/pppppppp/8/8/8/8/PPPPPPPP/RNBQKBNR w KQkq - 0 1",
        "rnbqkbnr/pppppppp/8/8/4P3/8/PPPP1PPP/RNBQKBNR b KQkq e3 0 1",
        "r3k2r/8/8/8/8/8/8/R3K2R w KQkq - 0 1",
        "8/P7/8/8/8/8/8/k6K w - - 12 34",
        "r3k2r/p1ppqpb1/bn2pnp1/3PN3/1p2P3/2N2Q1p/PPPBBPPP/R3K2R w KQkq - 0 1",
        "4k3/8/8/8/8/8/8/4K2R w K - 0 1",
        "4k3/8/8/8/8/8/8/4K2R b - - 7 44",
    ];
    for fen in fens {
        let b = Board::from_fen(fen).unwrap();
        assert_eq!(b.to_fen(), *fen);
        let again = Board::from_fen(&b.to_fen()).unwrap();
        assert_eq!(b, again);
    }
}

#[test]
fn test_from_fen_fields() {
    let b =
        Board::from_fen("rnbqkbnr/pppppppp/8/8/4P3/8/PPPP1PPP/RNBQKBNR b KQkq e3 5 9").unwrap();
    assert_eq!(b.to_move(), Side::Black);
    assert_eq!(b.halfmove_clock(), 5);
    assert_eq!(b.fullmoves(), 9);
    assert!(b.castle_rights(Side::White).kingside());
    assert!(b.castle_rights(Side::Black).queenside());
    let ep = b.enpassant().to_square().unwrap();
    assert_eq!(ep.0, 20); // e3
}

#[test]
fn test_from_fen_rejects_malformed() {
    // too few ranks
    assert!(Board::from_fen("8/8/8 w - - 0 1").is_err());
    // a rank that does not sum to eight squares
    assert!(Board::from_fen("9/8/8/8/8/8/8/8 w - - 0 1").is_err());
    assert!(Board::from_fen("ppppppppp/8/8/8/8/8/8/8 w - - 0 1").is_err());
    // an unknown piece letter
    assert!(Board::from_fen("xnbqkbnr/pppppppp/8/8/8/8/PPPPPPPP/RNBQKBNR w KQkq - 0 1").is_err());
    // a bad side letter
    assert!(Board::from_fen("rnbqkbnr/pppppppp/8/8/8/8/PPPPPPPP/RNBQKBNR x KQkq - 0 1").is_err());
    // a bad castling letter
    assert!(Board::from_fen("rnbqkbnr/pppppppp/8/8/8/8/PPPPPPPP/RNBQKBNR w KXkq - 0 1").is_err());
    // a bad en-passant square
    assert!(Board::from_fen("rnbqkbnr/pppppppp/8/8/8/8/PPPPPPPP/RNBQKBNR w KQkq i9 0 1").is_err());
    // missing counters
    assert!(Board::from_fen("rnbqkbnr/pppppppp/8/8/8/8/PPPPPPPP/RNBQKBNR w KQkq -").is_err());
    // a halfmove clock that overflows 64 bits
    assert!(Board::from_fen(
        "rnbqkbnr/pppppppp/8/8/8/8/PPPPPPPP/RNBQKBNR w KQkq - 99999999999999999999 1"
    )
    .is_err());
    // trailing garbage
    assert!(
        Board::from_fen("rnbqkbnr/pppppppp/8/8/8/8/PPPPPPPP/RNBQKBNR w KQkq - 0 1 x").is_err()
    );
    // the empty string
    assert!(Board::from_fen("").is_err());
}

#[test]
fn test_castling_rights_render_as_dash_when_gone() {
    let b = Board::from_fen("4k3/8/8/8/8/8/8/4K3 w - - 0 1").unwrap();
    assert_eq!(b.to_fen(), "4k3/8/8/8/8/8/8/4K3 w - - 0 1");
    assert!(b.castle_rights(Side::White).is_empty());
    assert!(b.castle_rights(Side::Black).is_empty());
}
