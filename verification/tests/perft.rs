use chess_movegen::benchmark::Benchmark;
use chess_movegen::board::Board;
use chess_movegen::move_gen::MoveGenerator;

fn count(fen: &str, depth: usize) -> usize {
    let mut bench = Benchmark::new();
    bench.board = Board::from_str(fen).expect("a position");
    assert!(bench.board.is_sound());
    bench.perft(depth)
}

#[test]
fn tables_are_built() {
    let generator = MoveGenerator::new();
    assert_eq!(generator.rook.len(), 102_400);
    assert_eq!(generator.bishop.len(), 5_248);
}

#[test]
fn start_position_depth_1() {
    let mut bench = Benchmark::new();
    assert_eq!(bench.perft(1), 20);
}

#[test]
fn start_position_depth_2() {
    let mut bench = Benchmark::new();
    assert_eq!(bench.perft(2), 400);
}

#[test]
fn start_position_depth_3() {
    let mut bench = Benchmark::new();
    assert_eq!(bench.perft(3), 8_902);
}

#[test]
fn start_position_depth_4() {
    let mut bench = Benchmark::new();
    assert_eq!(bench.perft(4), 197_281);
}

#[test]
fn kiwipete_depth_1() {
    assert_eq!(
        count("r3k2r/p1ppqpb1/bn2pnp1/3PN3/1p2P3/2N2Q1p/PPPBBPPP/R3K2R w KQkq - 0 1", 1),
        48
    );
}

#[test]
fn kiwipete_depth_2() {
    assert_eq!(
        count("r3k2r/p1ppqpb1/bn2pnp1/3PN3/1p2P3/2N2Q1p/PPPBBPPP/R3K2R w KQkq - 0 1", 2),
        2_039
    );
}

#[test]
fn kiwipete_depth_3() {
    assert_eq!(
        count("r3k2r/p1ppqpb1/bn2pnp1/3PN3/1p2P3/2N2Q1p/PPPBBPPP/R3K2R w KQkq - 0 1", 3),
        97_862
    );
}

#[test]
fn rook_endgame_depth_4() {
    assert_eq!(count("8/2p5/3p4/KP5r/1R3p1k/8/4P1P1/8 w - - 0 1", 4), 43_238);
}

#[test]
fn promotions_depth_3() {
    assert_eq!(
        count("r3k2r/Pppp1ppp/1b3nbN/nP6/BBP1P3/q4N2/Pp1P2PP/R2Q1RK1 w kq - 0 1", 3),
        9_467
    );
}

#[test]
fn start_position_restored_after_counting() {
    let mut bench = Benchmark::new();
    bench.perft(3);
    let start = Board::default();
    assert_eq!(bench.board.pieces, start.pieces);
    assert_eq!(bench.board.colors, start.colors);
    assert!(bench.board.color == start.color);
    assert_eq!(bench.board.castle_rights, start.castle_rights);
    assert_eq!(bench.board.enpassant, start.enpassant);
    assert_eq!(bench.board.move_history.len(), 0);
}

#[test]
fn the_position_of_a_benchmark_can_be_replaced() {
    let mut bench = Benchmark::new();
    assert!(bench.set_fen("8/2p5/3p4/KP5r/1R3p1k/8/4P1P1/8 w - - 0 1").is_ok());
    assert_eq!(bench.board.get_occupancy(), 0x0004_0883_a200_5000);
    assert_eq!(bench.perft(1), 14);
    assert_eq!(bench.perft(2), 191);
    let error = bench.set_fen("8/8 w -").err().unwrap();
    assert_eq!(error.to_string(), "Invalid FEN string: 8/8 w -");
    assert_eq!(bench.board.get_occupancy(), 0x0004_0883_a200_5000);
    assert_eq!(bench._perft(0), 1);
}

#[test]
fn rook_endgame_depth_5() {
    assert_eq!(count("8/2p5/3p4/KP5r/1R3p1k/8/4P1P1/8 w - - 0 1", 5), 674_624);
}

#[test]
fn promotions_depth_1_and_2() {
    let fen = "r3k2r/Pppp1ppp/1b3nbN/nP6/BBP1P3/q4N2/Pp1P2PP/R2Q1RK1 w kq - 0 1";
    assert_eq!(count(fen, 1), 6);
    assert_eq!(count(fen, 2), 264);
}

#[test]
fn mirrored_promotions_depth_3() {
    assert_eq!(
        count("r2q1rk1/pP1p2pp/Q4n2/bbp1p3/Np6/1B3NBn/pPPP1PPP/R3K2R b KQ - 0 1", 3),
        9_467
    );
}

#[test]
fn middle_game_with_pins_depth_3() {
    let fen = "rnbq1k1r/pp1Pbppp/2p5/8/2B5/8/PPP1NnPP/RNBQK2R w KQ - 1 8";
    assert_eq!(count(fen, 1), 44);
    assert_eq!(count(fen, 2), 1_486);
    assert_eq!(count(fen, 3), 62_379);
}

#[test]
fn quiet_middle_game_depth_3() {
    let fen = "r4rk1/1pp1qppp/p1np1n2/2b1p1B1/2B1P1b1/P1NP1N2/1PP1QPPP/R4RK1 w - - 0 10";
    assert_eq!(count(fen, 1), 46);
    assert_eq!(count(fen, 2), 2_079);
    assert_eq!(count(fen, 3), 89_890);
}

#[test]
fn the_default_benchmark_starts_a_game() {
    let mut bench = Benchmark::default();
    assert_eq!(bench.board.to_string(), Benchmark::new().board.to_string());
    assert_eq!(bench.perft(2), 400);
}
