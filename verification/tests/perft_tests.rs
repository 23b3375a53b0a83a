use bitchess::board::Board;
use bitchess::move_generation::generate_legal_moves;

fn perft(board: &mut Board, depth: u8) -> u64 {
    if depth == 0 {
        return 1;
    }
    let moves = generate_legal_moves(board);
    assert!((moves.len() as usize) <= 218);
    if depth == 1 {
        return moves.len() as u64;
    }
    let mut nodes = 0;
    for i in 0..moves.len() as usize {
        let m = moves.get(i);
        assert!(board.move_fits(m));
        board.make_move(m);
        nodes += perft(board, depth - 1);
        board.unmake_move(m);
    }
    nodes
}

#[test]
fn perft_initial_position() {
    let mut board =
        Board::new("rnbqkbnr/pppppppp/8/8/8/8/PPPPPPPP/RNBQKBNR w KQkq -").unwrap();
    assert_eq!(perft(&mut board, 1), 20);
    assert_eq!(perft(&mut board, 2), 400);
    assert_eq!(perft(&mut board, 3), 8_902);
}

#[test]
fn perft_initial_position_depth_four() {
    let mut board =
        Board::new("rnbqkbnr/pppppppp/8/8/8/8/PPPPPPPP/RNBQKBNR w KQkq -").unwrap();
    assert_eq!(perft(&mut board, 4), 197_281);
}

#[test]
fn perft_kiwipete() {
    let mut board =
        Board::new("r3k2r/p1ppqpb1/bn2pnp1/3PN3/1p2P3/2N2Q1p/PPPBBPPP/R3K2R w KQkq -").unwrap();
    assert_eq!(perft(&mut board, 1), 48);
    assert_eq!(perft(&mut board, 2), 2_039);
}

#[test]
fn perft_kiwipete_depth_three() {
    let mut board =
        Board::new("r3k2r/p1ppqpb1/bn2pnp1/3PN3/1p2P3/2N2Q1p/PPPBBPPP/R3K2R w KQkq -").unwrap();
    assert_eq!(perft(&mut board, 3), 97_862);
}

#[test]
fn perft_enpassant_and_pins() {
    let mut board = Board::new("8/2p5/3p4/KP5r/1R3p1k/8/4P1P1/8 w - -").unwrap();
    assert_eq!(perft(&mut board, 1), 14);
    assert_eq!(perft(&mut board, 2), 191);
    assert_eq!(perft(&mut board, 3), 2_812);
}

#[test]
fn perft_enpassant_and_pins_depth_four() {
    let mut board = Board::new("8/2p5/3p4/KP5r/1R3p1k/8/4P1P1/8 w - -").unwrap();
    assert_eq!(perft(&mut board, 4), 43_238);
}
