use chess_engine::{alphabeta, Board, SearchSettings};

#[test]
fn test_perft_divide_depth_one_two_three() {
    let b = Board::from_fen("startpos").unwrap();
    let r1 = b.alphabeta(&SearchSettings::divide(1), true);
    assert_eq!(r1.count, 20);
    let r2 = b.alphabeta(&SearchSettings::divide(2), true);
    assert_eq!(r2.count, 400);
    let r3 = b.alphabeta(&SearchSettings::divide(3), true);
    assert_eq!(r3.count, 8902);
}

#[test]
fn test_perft_divide_depth_four() {
    let b = Board::from_fen("startpos").unwrap();
    let r4 = b.alphabeta(&SearchSettings::divide(4), true);
    assert_eq!(r4.count, 197281);
}

#[test]
fn test_perft_divide_rich_middlegame() {
    // a widely used middlegame perft position with castling, promotion
    // threats and en passant in the tree
    let b = Board::from_fen(
        "r3k2r/p1ppqpb1/bn2pnp1/3PN3/1p2P3/2N2Q1p/PPPBBPPP/R3K2R w KQkq - 0 1",
    )
    .unwrap();
    assert_eq!(b.alphabeta(&SearchSettings::divide(1), true).count, 48);
    assert_eq!(b.alphabeta(&SearchSettings::divide(2), true).count, 2039);
}

#[test]
fn test_perft_divide_endgame_with_ep_pins() {
    // an endgame position whose tree turns on en-passant pins
    let b = Board::from_fen("8/2p5/3p4/KP5r/1R3p1k/8/4P1P1/8 w - - 0 1").unwrap();
    assert_eq!(b.alphabeta(&SearchSettings::divide(1), true).count, 14);
    assert_eq!(b.alphabeta(&SearchSettings::divide(2), true).count, 191);
    assert_eq!(b.alphabeta(&SearchSettings::divide(3), true).count, 2812);
}

#[test]
fn test_search_depth_zero_is_a_leaf() {
    let b = Board::from_fen("startpos").unwrap();
    let s = SearchSettings {
        divide: false,
        ab_prune: false,
        depth: 0,
    };
    let r = b.alphabeta(&s, true);
    assert_eq!(r.count, 1);
    assert_eq!(r.value, 1);
    assert!(r.data.is_empty());
}

#[test]
fn test_pruning_keeps_value_and_never_adds_nodes() {
    let b = Board::from_fen("r3k2r/8/8/8/8/8/8/R3K2R w KQkq - 0 1").unwrap();
    for depth in 1..=3u64 {
        let pruned = b.alphabeta(
            &SearchSettings {
                divide: false,
                ab_prune: true,
                depth,
            },
            true,
        );
        let full = b.alphabeta(
            &SearchSettings {
                divide: false,
                ab_prune: false,
                depth,
            },
            true,
        );
        assert_eq!(pruned.value, full.value);
        assert!(pruned.count <= full.count);
    }
}

#[test]
fn test_search_value_is_the_stub_score() {
    // the evaluation is a constant stub, so every searched value is 1
    let b = Board::from_fen("startpos").unwrap();
    let s = SearchSettings {
        divide: false,
        ab_prune: true,
        depth: 2,
    };
    let r = b.alphabeta(&s, true);
    assert_eq!(r.value, 1);
    let r2 = b.alphabeta(
        &SearchSettings {
            divide: false,
            ab_prune: true,
            depth: 2,
        },
        false,
    );
    assert_eq!(r2.value, 1);
}

#[test]
fn test_search_best_line_walks_the_first_moves() {
    let b = Board::from_fen("startpos").unwrap();
    let s = SearchSettings {
        divide: false,
        ab_prune: false,
        depth: 2,
    };
    let r = b.alphabeta(&s, true);
    // the line is reported child-to-root: read it back to front
    assert_eq!(r.data.len(), 2);
    let first = r.data[r.data.len() - 1].mv;
    assert!(b.legal_moves().contains(&first));
}

#[test]
fn test_stalemate_degrades_to_leaf() {
    // Black to move has no legal moves: the search falls back to the
    // node's own score with a zero count
    let b = Board::from_fen("k7/8/1Q6/8/8/8/8/7K b - - 0 1").unwrap();
    assert_eq!(b.legal_moves().len(), 0);
    let s = SearchSettings {
        divide: false,
        ab_prune: false,
        depth: 2,
    };
    let r = b.alphabeta(&s, true);
    assert_eq!(r.count, 0);
    assert_eq!(r.value, 1);
    assert!(r.data.is_empty());
    // in divide mode the childless node reports zero children
    let d = b.alphabeta(&SearchSettings::divide(1), true);
    assert_eq!(d.count, 0);
}

#[test]
fn test_free_alphabeta_matches_method() {
    let b = Board::from_fen("startpos").unwrap();
    let s = SearchSettings::divide(2);
    let via_method = b.alphabeta(&s, true);
    let via_free = alphabeta(&b, &s, 2, i64::MIN, i64::MAX, true);
    assert_eq!(via_method.count, via_free.count);
    assert_eq!(via_method.value, via_free.value);
}
