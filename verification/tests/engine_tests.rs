use bitchess::board::Board;
use bitchess::chess_move::Move;
use bitchess::engine::{alpha_beta, eval, order_moves, play_next_move};
use bitchess::move_list::MoveList;
use bitchess::piece::{Piece, PieceColor, PieceType};

#[test]
fn move_encoding_round_trip() {
    let piece = Piece::new(PieceType::Knight, PieceColor::White);
    let m = Move::new(6, 21, piece);
    assert_eq!(m.get_from(), 6);
    assert_eq!(m.get_to(), 21);
    assert_eq!(m.get_moved_piece(), piece);
    assert!(!m.is_promotion());
    assert!(!m.is_enpassant());
    assert!(!m.is_castle_kingside());
    assert!(!m.is_castle_queenside());

    let mut ep = Move::new(27, 20, Piece::new(PieceType::Pawn, PieceColor::Black));
    ep.add_enpassant();
    assert!(ep.is_enpassant());
    assert!(!ep.is_promotion());
    assert_eq!(ep.get_from(), 27);
    assert_eq!(ep.get_to(), 20);

    let mut ck = Move::new(4, 6, Piece::new(PieceType::King, PieceColor::White));
    ck.add_castle_kingside();
    assert!(ck.is_castle_kingside());
    assert!(!ck.is_castle_queenside());
    assert!(!ck.is_enpassant());

    let mut cq = Move::new(60, 58, Piece::new(PieceType::King, PieceColor::Black));
    cq.add_castle_queenside();
    assert!(cq.is_castle_queenside());
    assert!(!cq.is_castle_kingside());

    let mut promo = Move::new(52, 60, Piece::new(PieceType::Pawn, PieceColor::White));
    promo.add_promotion(PieceType::Queen);
    assert!(promo.is_promotion());
    assert_eq!(promo.get_promotion_type(), PieceType::Queen);
    assert_eq!(promo.get_from(), 52);
    assert_eq!(promo.get_to(), 60);
    // the en-passant / castle flags read as clear while promoting
    assert!(!promo.is_enpassant());
    assert!(!promo.is_castle_kingside());
    assert!(!promo.is_castle_queenside());
}

#[test]
fn move_identity_ignores_flags_but_not_promotion_target() {
    let king = Piece::new(PieceType::King, PieceColor::White);
    let probe = Move::new(4, 6, king);
    let mut castle = Move::new(4, 6, king);
    castle.add_castle_kingside();
    assert!(probe == castle);

    let pawn = Piece::new(PieceType::Pawn, PieceColor::White);
    let mut to_queen = Move::new(52, 60, pawn);
    to_queen.add_promotion(PieceType::Queen);
    let mut to_knight = Move::new(52, 60, pawn);
    to_knight.add_promotion(PieceType::Knight);
    assert!(to_queen != to_knight);
    let mut to_queen_again = Move::new(52, 60, pawn);
    to_queen_again.add_promotion(PieceType::Queen);
    assert!(to_queen == to_queen_again);
}

#[test]
fn move_list_push_get_and_iterate() {
    let mut list = MoveList::new();
    assert_eq!(list.len(), 0);
    let p = Piece::new(PieceType::Rook, PieceColor::White);
    list.push(Move::new(0, 8, p));
    list.push(Move::new(0, 16, p));
    assert_eq!(list.len(), 2);
    assert_eq!(list.get(0).get_to(), 8);
    assert_eq!(list.get(1).get_to(), 16);

    let mut iter = list.iter();
    assert_eq!(iter.next().map(|m| m.get_to()), Some(8));
    assert_eq!(iter.next().map(|m| m.get_to()), Some(16));
    assert!(iter.next().is_none());

    list.swap(0, 1);
    assert_eq!(list.get(0).get_to(), 16);
    assert_eq!(list.get(1).get_to(), 8);
}

#[test]
fn move_list_never_exceeds_its_capacity() {
    let mut list = MoveList::new();
    let p = Piece::new(PieceType::Queen, PieceColor::Black);
    for i in 0..300u64 {
        list.push(Move::new(i % 64, (i + 1) % 64, p));
    }
    assert_eq!(list.len(), 255);
}

#[test]
fn eval_is_zero_in_the_initial_position() {
    let board = Board::new("rnbqkbnr/pppppppp/8/8/8/8/PPPPPPPP/RNBQKBNR w KQkq -").unwrap();
    assert_eq!(eval(&board), 0);
}

#[test]
fn eval_counts_material_from_the_side_to_move() {
    // White: queen + rook vs Black: bishop; White to move
    let board = Board::new("4k3/8/8/8/8/2b5/8/QR2K3 w - -").unwrap();
    assert_eq!(eval(&board), 900 + 500 - 330);
    // the same position from Black's perspective
    let board = Board::new("4k3/8/8/8/8/2b5/8/QR2K3 b - -").unwrap();
    assert_eq!(eval(&board), -(900 + 500 - 330));
}

#[test]
fn order_moves_permutes_and_sorts_by_score() {
    let board = Board::new("r3k2r/p1ppqpb1/bn2pnp1/3PN3/1p2P3/2N2Q1p/PPPBBPPP/R3K2R w KQkq -")
        .unwrap();
    let weight = |t: PieceType| -> i32 {
        match t {
            PieceType::Rook => 500,
            PieceType::Bishop => 330,
            PieceType::Queen => 900,
            PieceType::Knight => 300,
            PieceType::Pawn => 100,
            PieceType::King => 0,
        }
    };
    let score = |m: &Move| -> i32 {
        let capture = match board.get_piece_at(m.get_to()) {
            Some(victim) => weight(victim.get_type()) - weight(m.get_moved_piece().get_type()),
            None => 0,
        };
        let promo = if m.is_promotion() { weight(m.get_promotion_type()) } else { 0 };
        capture + promo
    };
    let mut moves = board.get_legal_moves().clone();
    let before: Vec<(u64, u64)> = (0..moves.len() as usize)
        .map(|i| (moves.get(i).get_from(), moves.get(i).get_to()))
        .collect();
    order_moves(&mut moves, &board);
    assert_eq!(moves.len() as usize, before.len());
    // a permutation of the same moves
    let mut after: Vec<(u64, u64)> = (0..moves.len() as usize)
        .map(|i| (moves.get(i).get_from(), moves.get(i).get_to()))
        .collect();
    let mut sorted_before = before.clone();
    sorted_before.sort();
    after.sort();
    assert_eq!(after, sorted_before);
    // nonincreasing by victim-minus-attacker weight plus promotion weight
    for i in 1..moves.len() as usize {
        assert!(score(&moves.get(i - 1)) >= score(&moves.get(i)));
    }
}

#[test]
fn alpha_beta_restores_the_board() {
    let fen = "r3k2r/p1ppqpb1/bn2pnp1/3PN3/1p2P3/2N2Q1p/PPPBBPPP/R3K2R w KQkq -";
    let mut board = Board::new(fen).unwrap();
    let before = board.get_pieces_bb();
    let score = alpha_beta(&mut board, -0x7fff_ffff, 0x7fff_fffe, 3);
    assert_eq!(board.get_pieces_bb(), before);
    assert_eq!(board.get_color_to_move(), PieceColor::White);
    assert!(score > -0x7fff_ffff);
}

#[test]
fn engine_takes_the_hanging_pawn() {
    // the bishop on e4 can win the unguarded pawn on d5
    let mut board = Board::new("k7/8/8/3p4/4B3/8/8/K7 w - -").unwrap();
    let played = play_next_move(&mut board, 2).expect("a move exists");
    assert_eq!(played.get_to(), 35); // d5
    assert_eq!(
        board.get_piece_at(35),
        Some(Piece::new(PieceType::Bishop, PieceColor::White))
    );
    assert_eq!(board.get_color_to_move(), PieceColor::Black);
}

#[test]
fn engine_reports_no_move_when_mated() {
    // Black to move, checkmated in the corner by the rook on a1
    let mut board = Board::new("k7/2K5/8/8/8/8/8/R7 b - -").unwrap();
    assert_eq!(board.get_legal_moves().len(), 0);
    assert!(play_next_move(&mut board, 2).is_none());
}
