use bitchess::board::Board;
use bitchess::gamestate::{str_to_square, Gamestate};
use bitchess::piece::{Piece, PieceColor, PieceType};

const INITIAL_FEN: &str = "rnbqkbnr/pppppppp/8/8/8/8/PPPPPPPP/RNBQKBNR w KQkq - 0 1";

fn assert_consistent(board: &Board) {
    // occupancy = union of the six piece bitboards, per color; occupancies disjoint
    let pieces = board.get_pieces_bb();
    let (white_occ, black_occ) = board.get_us_enemy_colors_bb(PieceColor::White);
    let white_union = pieces[0][0] | pieces[0][1] | pieces[0][2] | pieces[0][3] | pieces[0][4] | pieces[0][5];
    let black_union = pieces[1][0] | pieces[1][1] | pieces[1][2] | pieces[1][3] | pieces[1][4] | pieces[1][5];
    assert_eq!(white_occ, white_union);
    assert_eq!(black_occ, black_union);
    assert_eq!(white_occ & black_occ, 0);

    // mailbox matches the bitboards square by square
    for s in 0..64u64 {
        match board.get_piece_at(s) {
            Some(p) => {
                let c = match p.get_color() {
                    PieceColor::White => 0,
                    PieceColor::Black => 1,
                };
                let t = p.get_type().idx();
                assert_ne!(pieces[c][t] & (1u64 << s), 0);
            }
            None => {
                for c in 0..2 {
                    for t in 0..6 {
                        assert_eq!(pieces[c][t] & (1u64 << s), 0, "square {s} stray bit");
                    }
                }
            }
        }
    }
}

#[test]
fn initial_position_layout() {
    let board = Board::new(INITIAL_FEN).unwrap();
    assert_eq!(board.get_color_to_move(), PieceColor::White);
    assert_eq!(
        board.get_piece_at(0),
        Some(Piece::new(PieceType::Rook, PieceColor::White))
    );
    assert_eq!(
        board.get_piece_at(4),
        Some(Piece::new(PieceType::King, PieceColor::White))
    );
    assert_eq!(
        board.get_piece_at(63),
        Some(Piece::new(PieceType::Rook, PieceColor::Black))
    );
    assert_eq!(
        board.get_piece_at(52),
        Some(Piece::new(PieceType::Pawn, PieceColor::Black))
    );
    assert_eq!(board.get_piece_at(35), None);
    assert_consistent(&board);
}

#[test]
fn initial_position_has_twenty_moves() {
    let board = Board::new(INITIAL_FEN).unwrap();
    assert_eq!(board.get_legal_moves().len(), 20);
}

#[test]
fn malformed_descriptors_are_rejected() {
    assert!(Board::new("").is_none());
    assert!(Board::new("rnbqkbnr/pppppppp/8/8/8/8/PPPPPPPP/RNBQKBNR").is_none());
    assert!(Board::new("rnbqkbnr/pppppppp/8/8/8/8/PPPPPPPP/RNBQKBNR x KQkq -").is_none());
    assert!(Board::new("rnbqkbnr/pppppppp/8/8/8/8/PPPPPPPP/RNBQKBNR w XQkq -").is_none());
    assert!(Board::new("rnbqkbnr/pppppppp/8/8/8/8/PPPPPPPP/RNBQKBNR w KQkq z9").is_none());
    assert!(Board::new("rnbqkbnr/ppppppp/8/8/8/8/PPPPPPPP/RNBQKBNR w KQkq -").is_none());
    assert!(Board::new("rnbxqkbnr/pppppppp/8/8/8/8/PPPPPPPP/RNBQKBNR w KQkq -").is_none());
}

#[test]
fn trailing_clock_fields_are_ignored() {
    let board = Board::new("rnbqkbnr/pppppppp/8/8/8/8/PPPPPPPP/RNBQKBNR w KQkq - 12 34");
    assert!(board.is_some());
}

#[test]
fn gamestate_parses_castling_and_enpassant() {
    let g = Gamestate::new("KQkq", "-").unwrap();
    assert!(g.can_white_castle_kingside());
    assert!(g.can_white_castle_queenside());
    assert!(g.can_black_castle_kingside());
    assert!(g.can_black_castle_queenside());
    assert_eq!(g.get_enpassant_square(), None);
    assert_eq!(g.get_last_piece_captured(), None);

    let g = Gamestate::new("Kq", "e3").unwrap();
    assert!(g.can_white_castle_kingside());
    assert!(!g.can_white_castle_queenside());
    assert!(!g.can_black_castle_kingside());
    assert!(g.can_black_castle_queenside());
    assert_eq!(g.get_enpassant_square(), Some(20));

    let g = Gamestate::new("-", "-").unwrap();
    assert!(!g.can_castle_kingside(PieceColor::White));
    assert!(!g.can_castle_queenside(PieceColor::Black));

    assert!(Gamestate::new("KK", "-").is_none());
    assert!(Gamestate::new("KQx", "-").is_none());
    assert!(Gamestate::new("KQkq", "e9").is_none());
    assert!(Gamestate::new("KQkq", "i3").is_none());
    assert!(Gamestate::new("KQkq", "").is_none());
}

#[test]
fn square_names_map_to_indices() {
    assert_eq!(str_to_square("a1"), Some(0));
    assert_eq!(str_to_square("h1"), Some(7));
    assert_eq!(str_to_square("a8"), Some(56));
    assert_eq!(str_to_square("h8"), Some(63));
    assert_eq!(str_to_square("e3"), Some(20));
    assert_eq!(str_to_square("e33"), None);
    assert_eq!(str_to_square(""), None);
}

#[test]
fn make_and_unmake_restore_the_position() {
    let mut board = Board::new(INITIAL_FEN).unwrap();
    let before_pieces = board.get_pieces_bb();
    let before_color = board.get_color_to_move();
    let before_rights = board.current_gamestate;

    // play the first three legal moves of a short walk, then unwind
    let mut played = Vec::new();
    for _ in 0..3 {
        board.generate_legal_moves();
        let m = board.get_legal_moves().get(0);
        assert!(board.move_fits(m));
        board.make_move(m);
        played.push(m);
        assert_consistent(&board);
    }
    while let Some(m) = played.pop() {
        board.unmake_move(m);
        assert_consistent(&board);
    }

    assert_eq!(board.get_pieces_bb(), before_pieces);
    assert_eq!(board.get_color_to_move(), before_color);
    assert_eq!(
        board.current_gamestate.castling_rights,
        before_rights.castling_rights
    );
    assert_eq!(
        board.current_gamestate.get_enpassant_square(),
        before_rights.get_enpassant_square()
    );
    for s in 0..64u64 {
        let expected = Board::new(INITIAL_FEN).unwrap().get_piece_at(s);
        assert_eq!(board.get_piece_at(s), expected);
    }
}

#[test]
fn double_push_sets_and_unmake_clears_enpassant() {
    let fen = "rnbqkbnr/ppp1pppp/8/3p4/8/5N2/PPPPPPPP/RNBQKBNR w KQkq -";
    let mut board = Board::new(fen).unwrap();
    let moves = board.get_legal_moves();
    let mut push = None;
    for i in 0..moves.len() as usize {
        let m = moves.get(i);
        if m.get_from() == 11 && m.get_to() == 27 {
            push = Some(m);
        }
    }
    let push = push.expect("d2-d4 must be legal");
    board.make_move(push);
    assert_eq!(
        board.current_gamestate.get_enpassant_square(),
        Some(19),
        "double push sets the skipped square"
    );
    board.unmake_move(push);
    assert_eq!(board.current_gamestate.get_enpassant_square(), None);
    assert_consistent(&board);
}

#[test]
fn capture_records_and_restores_the_victim() {
    // White's e4 pawn takes on d5, then the capture is unwound.
    let fen = "rnbqkbnr/ppp1pppp/8/3p4/4P3/8/PPPP1PPP/RNBQKBNR w KQkq -";
    let mut board = Board::new(fen).unwrap();
    let moves = board.get_legal_moves();
    let mut capture = None;
    for i in 0..moves.len() as usize {
        let m = moves.get(i);
        if m.get_from() == 28 && m.get_to() == 35 {
            capture = Some(m);
        }
    }
    let capture = capture.expect("e4xd5 must be legal");
    board.make_move(capture);
    assert_eq!(
        board.get_piece_at(35),
        Some(Piece::new(PieceType::Pawn, PieceColor::White))
    );
    assert_eq!(
        board.current_gamestate.get_last_piece_captured(),
        Some(Piece::new(PieceType::Pawn, PieceColor::Black))
    );
    assert_consistent(&board);
    board.unmake_move(capture);
    assert_eq!(
        board.get_piece_at(35),
        Some(Piece::new(PieceType::Pawn, PieceColor::Black))
    );
    assert_eq!(
        board.get_piece_at(28),
        Some(Piece::new(PieceType::Pawn, PieceColor::White))
    );
    assert_consistent(&board);
}

#[test]
fn enpassant_capture_is_generated_and_clears_target() {
    // White just pushed e2-e4; Black's pawn stands on d4 with e3 as target.
    let fen = "rnbqkbnr/ppp1pppp/8/8/3pP3/8/PPPP1PPP/RNBQKBNR b KQkq e3";
    let mut board = Board::new(fen).unwrap();
    let moves = board.get_legal_moves();
    let mut ep_moves = Vec::new();
    for i in 0..moves.len() as usize {
        let m = moves.get(i);
        if m.is_enpassant() {
            ep_moves.push(m);
        }
    }
    assert_eq!(ep_moves.len(), 1, "exactly one en-passant capture");
    let ep = ep_moves[0];
    assert_eq!(ep.get_from(), 27); // d4
    assert_eq!(ep.get_to(), 20); // e3
    board.make_move(ep);
    assert_eq!(board.current_gamestate.get_enpassant_square(), None);
    assert_eq!(board.get_piece_at(28), None, "the e4 pawn is gone");
    assert_eq!(
        board.get_piece_at(20),
        Some(Piece::new(PieceType::Pawn, PieceColor::Black))
    );
    assert_consistent(&board);
}

#[test]
fn enpassant_revealing_check_is_forbidden() {
    // Capturing en passant would lift both pawns off the fifth rank and
    // expose the white king on a5 to the rook on h5.
    let fen = "8/8/8/KPp4r/8/8/8/8 w - c6";
    let board = Board::new(fen).unwrap();
    let moves = board.get_legal_moves();
    for i in 0..moves.len() as usize {
        assert!(!moves.get(i).is_enpassant(), "en passant must be suppressed");
    }
}

#[test]
fn castling_requires_all_conditions() {
    let count_castles = |fen: &str| -> (bool, bool) {
        let board = Board::new(fen).unwrap();
        let moves = board.get_legal_moves();
        let mut ks = false;
        let mut qs = false;
        for i in 0..moves.len() as usize {
            let m = moves.get(i);
            if m.is_castle_kingside() {
                ks = true;
            }
            if m.is_castle_queenside() {
                qs = true;
            }
        }
        (ks, qs)
    };

    // all conditions hold: both castles
    assert_eq!(count_castles("r3k2r/8/8/8/8/8/8/R3K2R w KQkq -"), (true, true));
    // no rights
    assert_eq!(count_castles("r3k2r/8/8/8/8/8/8/R3K2R w - -"), (false, false));
    // queenside transit square occupied
    assert_eq!(count_castles("r3k2r/8/8/8/8/8/8/RN2K2R w KQkq -"), (true, false));
    // kingside transit square attacked by the f6 rook
    assert_eq!(count_castles("r3k2r/8/5r2/8/8/8/8/R3K2R w KQkq -"), (false, true));
    // kingside rook missing
    assert_eq!(count_castles("r3k2r/8/8/8/8/8/8/R3K3 w KQkq -"), (false, true));
    // king in check: no castling at all
    assert_eq!(count_castles("r3k2r/8/8/8/4r3/8/8/R3K2R w KQkq -"), (false, false));
    // the b1 square may be attacked without stopping queenside castling
    assert_eq!(count_castles("r3k2r/8/1r6/8/8/8/8/R3K2R w KQkq -"), (true, true));
}

#[test]
fn flagless_probe_matches_generated_castle() {
    // a driver builds a plain two-square king move and finds the flagged one
    let board = Board::new("r3k2r/8/8/8/8/8/8/R3K2R w KQkq -").unwrap();
    let probe = bitchess::chess_move::Move::new(4, 6, Piece::new(PieceType::King, PieceColor::White));
    let moves = board.get_legal_moves();
    let mut found = None;
    for i in 0..moves.len() as usize {
        let m = moves.get(i);
        if m == probe {
            found = Some(m);
        }
    }
    let found = found.expect("castle must match the flag-less probe");
    assert!(found.is_castle_kingside());
}

#[test]
fn generated_moves_never_leave_the_king_in_check() {
    // strict legality, checked by making every move and probing the king
    let fens = [
        INITIAL_FEN,
        "r3k2r/p1ppqpb1/bn2pnp1/3PN3/1p2P3/2N2Q1p/PPPBBPPP/R3K2R w KQkq -",
        "8/2p5/3p4/KP5r/1R3p1k/8/4P1P1/8 w - -",
        "rnbqkbnr/ppp1pppp/8/8/3pP3/8/PPPP1PPP/RNBQKBNR b KQkq e3",
    ];
    for fen in fens {
        let mut board = Board::new(fen).unwrap();
        let mover = board.get_color_to_move();
        let moves = board.get_legal_moves().clone();
        assert!((moves.len() as usize) <= 218);
        for i in 0..moves.len() as usize {
            let m = moves.get(i);
            assert!(board.move_fits(m), "generated move fits the position");
            board.make_move(m);
            let (us, enemy, us_occ, enemy_occ) = board.get_us_enemy_bitboards(mover);
            let _ = us_occ;
            let attackers = bitchess::move_generation::find_attackers(
                us[5],
                mover,
                enemy,
                us_occ | enemy_occ,
            );
            assert_eq!(attackers, 0, "king safe after {} -> {}", m.get_from(), m.get_to());
            board.unmake_move(m);
        }
    }
}

#[test]
fn promotion_expands_into_four_moves() {
    // a white pawn on a7 promotes; a8 is empty
    let mut board = Board::new("8/P7/8/8/8/k7/8/K7 w - -").unwrap();
    let moves = board.get_legal_moves();
    let mut promotions = Vec::new();
    for i in 0..moves.len() as usize {
        let m = moves.get(i);
        if m.is_promotion() {
            promotions.push(m);
        }
    }
    assert_eq!(promotions.len(), 4, "one promotion move per target");
    let mut targets: Vec<PieceType> = promotions.iter().map(|m| m.get_promotion_type()).collect();
    targets.sort_by_key(|t| t.idx());
    assert_eq!(
        targets,
        vec![PieceType::Rook, PieceType::Bishop, PieceType::Queen, PieceType::Knight]
    );
    let queen_promo = *promotions
        .iter()
        .find(|m| m.get_promotion_type() == PieceType::Queen)
        .unwrap();
    assert_eq!(queen_promo.get_from(), 48);
    assert_eq!(queen_promo.get_to(), 56);
    board.make_move(queen_promo);
    assert_eq!(
        board.get_piece_at(56),
        Some(Piece::new(PieceType::Queen, PieceColor::White))
    );
    assert_eq!(board.get_piece_at(48), None);
    assert_consistent(&board);
    board.unmake_move(queen_promo);
    assert_eq!(
        board.get_piece_at(48),
        Some(Piece::new(PieceType::Pawn, PieceColor::White))
    );
    assert_eq!(board.get_piece_at(56), None);
    assert_consistent(&board);
}
