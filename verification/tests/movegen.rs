use chess_movegen::board::Board;
use chess_movegen::color::Color;
use chess_movegen::move_gen::defs::{Move, Shift};
use chess_movegen::move_gen::MoveGenerator;
use chess_movegen::piece::Piece;

fn generator() -> MoveGenerator {
    MoveGenerator::new()
}

fn texts(moves: &[Move]) -> Vec<String> {
    let mut texts: Vec<String> = moves.iter().map(|m| m.to_string()).collect();
    texts.sort();
    texts
}

fn moves_of(fen: &str) -> Vec<String> {
    let mut generator = generator();
    let board = Board::from_str(fen).unwrap();
    assert!(board.is_sound());
    texts(&generator.all_possible(&board))
}

#[test]
fn move_fields_are_packed_and_read_back() {
    let data = 1u64 | (12 << 3) | (28 << 9) | (2 << 15) | (5 << 18) | (8 << 21);
    let mut m = Move::new(data);
    assert_eq!(m.data, data);
    assert_eq!(m.get_moved_piece(), 1);
    assert_eq!(m.get_start_square(), 12);
    assert_eq!(m.get_target_square(), 28);
    assert_eq!(m.get_move_type(), 2);
    assert_eq!(m.get_promotion(), 5);
    assert_eq!(m.get_castle_right(), 8);
    assert_eq!(m.get_prev_enpassant(), None);
    assert_eq!(m.get_prev_castle_rights(), 0);
    assert_eq!(m.get_piece_captured(), None);
    m.set_prev_enpassant(Some(44));
    m.set_prev_castle_rights(0b1011);
    m.set_piece_captured(0);
    assert_eq!(m.get_prev_enpassant(), Some(44));
    assert_eq!(m.get_prev_castle_rights(), 0b1011);
    assert_eq!(m.get_piece_captured(), Some(0));
    assert_eq!(m.data, data | (44 << 25) | (0b1011 << 31) | (1 << 35));
    assert_eq!(m.get_moved_piece(), 1);
    assert_eq!(m.get_start_square(), 12);
    assert_eq!(m.get_target_square(), 28);
    assert_eq!(m.get_move_type(), 2);
    assert_eq!(m.get_promotion(), 5);
    assert_eq!(m.get_castle_right(), 8);
    let mut other = Move::new(0);
    other.set_prev_enpassant(None);
    other.set_piece_captured(5);
    assert_eq!(other.data, 6 << 35);
    assert_eq!(other.get_piece_captured(), Some(5));
    assert_eq!(Shift::PIECE_MOVED, 0);
    assert_eq!(Shift::START_SQUARE, 3);
    assert_eq!(Shift::TARGET_SQUARE, 9);
    assert_eq!(Shift::MOVE_TYPE, 15);
    assert_eq!(Shift::PROMOTION, 18);
    assert_eq!(Shift::CASTLE_RIGHT, 21);
    assert_eq!(Shift::PREV_ENPASSANT, 25);
    assert_eq!(Shift::PREV_CASTLE_RIGHTS, 31);
    assert_eq!(Shift::PIECE_CAPTURED, 35);
}

#[test]
fn moves_are_written_in_coordinate_notation() {
    assert_eq!(Move::new(1 | (12 << 3) | (28 << 9)).to_string(), "e2e4");
    assert_eq!(Move::new(1 | (48 << 3) | (56 << 9) | (2 << 15) | (5 << 18)).to_string(), "a7a8q");
    assert_eq!(Move::new(1 | (55 << 3) | (62 << 9) | (2 << 15) | (2 << 18)).to_string(), "h7g8n");
    assert_eq!(Move::new((4 << 3) | (6 << 9) | (4 << 15) | (2 << 21)).to_string(), "e1g1");
}

#[test]
fn the_start_position_has_twenty_moves() {
    let moves = moves_of("rnbqkbnr/pppppppp/8/8/8/8/PPPPPPPP/RNBQKBNR w KQkq - 0 1");
    assert_eq!(
        moves,
        vec![
            "a2a3", "a2a4", "b1a3", "b1c3", "b2b3", "b2b4", "c2c3", "c2c4", "d2d3", "d2d4",
            "e2e3", "e2e4", "f2f3", "f2f4", "g1f3", "g1h3", "g2g3", "g2g4", "h2h3", "h2h4"
        ]
    );
}

#[test]
fn moves_come_in_the_order_of_generation() {
    let mut generator = generator();
    let board = Board::from_str("4k3/8/8/8/8/8/P7/R3K3 w Q - 0 1").unwrap();
    let moves: Vec<String> =
        generator.all_possible(&board).iter().map(|m| m.to_string()).collect();
    assert_eq!(
        moves,
        vec![
            "e1d1", "e1f1", "e1d2", "e1e2", "e1f2", "e1c1", "a2a3", "a2a4", "a1b1", "a1c1",
            "a1d1"
        ]
    );
}

#[test]
fn in_double_check_only_the_king_moves() {
    let mut generator = generator();
    let board = Board::from_str("4k3/8/8/8/8/5n2/4r3/4K3 w - - 0 1").unwrap();
    assert!(board.is_sound());
    let moves = generator.all_possible(&board);
    assert!(generator.check);
    assert!(generator.double_check);
    for m in &moves {
        assert_eq!(m.get_moved_piece(), Piece::King.to_index());
    }
    assert_eq!(texts(&moves), vec!["e1d1", "e1e2", "e1f1"]);
}

#[test]
fn in_double_check_other_pieces_stay_put() {
    let mut generator = generator();
    // Rook on e8 and bishop on h4 both give check; White has a queen and a rook that could block.
    let board = Board::from_str("4r2k/8/8/8/7b/8/3Q3R/4K3 w - - 0 1").unwrap();
    assert!(board.is_sound());
    let moves = generator.all_possible(&board);
    assert!(generator.double_check);
    for m in &moves {
        assert_eq!(m.get_moved_piece(), 0);
    }
    assert_eq!(texts(&moves), vec!["e1d1", "e1f1"]);
    // With the bishop's line closed by the queen there is one check, and the rook may block it.
    let single = Board::from_str("4r2k/8/8/8/1b6/8/3Q3R/4K3 w - - 0 1").unwrap();
    let answers = generator.all_possible(&single);
    assert!(generator.check);
    assert!(!generator.double_check);
    assert_eq!(texts(&answers), vec!["e1d1", "e1f1", "e1f2", "h2e2"]);
}

#[test]
fn a_single_check_is_answered_on_the_check_ray() {
    let mut generator = generator();
    let board = Board::from_str("4r2k/8/8/8/8/8/3Q4/4K3 w - - 0 1").unwrap();
    let moves = generator.all_possible(&board);
    assert!(generator.check);
    assert!(!generator.double_check);
    // The squares between the king and the rook, and the rook's square.
    assert_eq!(generator.check_ray, 0x1010_1010_1010_1000);
    assert_eq!(texts(&moves), vec!["d2e2", "d2e3", "e1d1", "e1f1", "e1f2"]);
}

#[test]
fn a_knight_check_is_answered_on_its_square() {
    let mut generator = generator();
    let board = Board::from_str("7k/8/8/8/8/3n4/8/4K2R w - - 0 1").unwrap();
    generator.calculate_attack_mask(&board);
    assert!(generator.check);
    assert!(!generator.double_check);
    assert_eq!(generator.check_ray, 1 << 19);
}

#[test]
fn a_pinned_piece_moves_along_its_pin() {
    let mut generator = generator();
    let board = Board::from_str("4r2k/8/8/8/8/8/4R3/4K3 w - - 0 1").unwrap();
    let moves = generator.all_possible(&board);
    assert!(!generator.check);
    // From the square behind the pinned rook up to the pinning rook.
    assert_eq!(generator.pin_rays[12], 0x1010_1010_1010_0000);
    assert_eq!(
        texts(&moves),
        vec![
            "e1d1", "e1d2", "e1f1", "e1f2", "e2e3", "e2e4", "e2e5", "e2e6", "e2e7", "e2e8"
        ]
    );
    let knight = Board::from_str("4r2k/8/8/8/8/8/4N3/4K3 w - - 0 1").unwrap();
    assert_eq!(texts(&generator.all_possible(&knight)), vec!["e1d1", "e1d2", "e1f1", "e1f2"]);
}

#[test]
fn the_king_does_not_step_into_attack() {
    let mut generator = generator();
    let board = Board::from_str("7k/8/8/8/8/8/r7/4K3 w - - 0 1").unwrap();
    let moves = generator.all_possible(&board);
    // The whole second rank and the a-file are attacked.
    assert_eq!(generator.bb_attack & 0xff00, 0xfe00);
    assert_eq!(texts(&moves), vec!["e1d1", "e1f1"]);
    for m in &moves {
        assert_eq!(generator.bb_attack & (1u64 << m.get_target_square()), 0);
    }
}

#[test]
fn the_king_cannot_hide_behind_itself() {
    let mut generator = generator();
    let board = Board::from_str("7k/8/8/8/8/8/8/r3K3 w - - 0 1").unwrap();
    let moves = generator.all_possible(&board);
    assert!(generator.check);
    // f1 lies behind the king on the rook's line.
    assert_ne!(generator.bb_attack & (1 << 5), 0);
    assert_eq!(texts(&moves), vec!["e1d2", "e1e2", "e1f2"]);
}

#[test]
fn castling_needs_empty_and_safe_squares() {
    assert!(moves_of("4k3/8/8/8/8/8/8/R3K2R w KQ - 0 1").contains(&String::from("e1g1")));
    assert!(moves_of("4k3/8/8/8/8/8/8/R3K2R w KQ - 0 1").contains(&String::from("e1c1")));
    // A piece in between.
    assert!(!moves_of("4k3/8/8/8/8/8/8/R3KB1R w KQ - 0 1").contains(&String::from("e1g1")));
    assert!(!moves_of("4k3/8/8/8/8/8/8/RN2K2R w KQ - 0 1").contains(&String::from("e1c1")));
    // The king would cross an attacked square.
    assert!(!moves_of("4kr2/8/8/8/8/8/8/R3K2R w KQ - 0 1").contains(&String::from("e1g1")));
    assert!(moves_of("4kr2/8/8/8/8/8/8/R3K2R w KQ - 0 1").contains(&String::from("e1c1")));
    // The rook may cross an attacked square.
    assert!(moves_of("1r2k3/8/8/8/8/8/8/R3K2R w KQ - 0 1").contains(&String::from("e1c1")));
    // Not out of check.
    assert!(!moves_of("4r1k1/8/8/8/8/8/8/R3K2R w KQ - 0 1").contains(&String::from("e1g1")));
    // Not without the right.
    assert!(!moves_of("4k3/8/8/8/8/8/8/R3K2R w Q - 0 1").contains(&String::from("e1g1")));
    assert!(moves_of("r3k2r/8/8/8/8/8/8/4K3 b kq - 0 1").contains(&String::from("e8g8")));
    assert!(moves_of("r3k2r/8/8/8/8/8/8/4K3 b kq - 0 1").contains(&String::from("e8c8")));
}

#[test]
fn pawns_push_and_capture() {
    let moves = moves_of("4k3/8/8/8/8/1p1p4/2P5/4K3 w - - 0 1");
    for text in ["c2c3", "c2c4", "c2b3", "c2d3"] {
        assert!(moves.contains(&String::from(text)));
    }
    // A blocked pawn does not push, and a double step needs both squares empty.
    let blocked = moves_of("4k3/8/8/8/2p5/8/2P5/4K3 w - - 0 1");
    assert!(blocked.contains(&String::from("c2c3")));
    assert!(!blocked.contains(&String::from("c2c4")));
    let stuck = moves_of("4k3/8/8/8/8/2p5/2P5/4K3 w - - 0 1");
    assert!(!stuck.contains(&String::from("c2c3")));
    assert!(!stuck.contains(&String::from("c2c4")));
    let black = moves_of("4k3/2p5/8/8/8/8/8/4K3 b - - 0 1");
    assert!(black.contains(&String::from("c7c6")));
    assert!(black.contains(&String::from("c7c5")));
}

#[test]
fn en_passant_is_generated_when_the_square_is_set() {
    assert!(moves_of("4k3/8/8/3pP3/8/8/8/4K3 w - d6 0 1").contains(&String::from("e5d6")));
    assert!(!moves_of("4k3/8/8/3pP3/8/8/8/4K3 w - - 0 1").contains(&String::from("e5d6")));
    // Both pawns leave the king's rank, and the rook would give check.
    assert!(!moves_of("8/8/8/K2pP2r/8/8/8/7k w - d6 0 1").contains(&String::from("e5d6")));
    // Two pawns can capture.
    let two = moves_of("4k3/8/8/2PpP3/8/8/8/4K3 w - d6 0 1");
    assert!(two.contains(&String::from("c5d6")));
    assert!(two.contains(&String::from("e5d6")));
}

#[test]
fn no_moves_in_mate_and_stalemate() {
    let mut generator = generator();
    let mate = Board::from_str("R5k1/5ppp/8/8/8/8/8/4K3 b - - 0 1").unwrap();
    assert!(generator.all_possible(&mate).is_empty());
    assert!(generator.check);
    let stalemate = Board::from_str("7k/5Q2/6K1/8/8/8/8/8 b - - 0 1").unwrap();
    assert!(generator.all_possible(&stalemate).is_empty());
    assert!(!generator.check);
}

#[test]
fn add_move_expands_promotions() {
    let generator = generator();
    let board = Board::from_str("4k3/P7/8/8/8/8/8/4K3 w - - 0 1").unwrap();
    let mut list = Vec::new();
    generator.add_move(&board, Piece::Pawn, 48, 1 << 56, &mut list);
    let promotions: Vec<usize> = list.iter().map(|m| m.get_promotion()).collect();
    assert_eq!(promotions, vec![5, 4, 3, 2]);
    for m in &list {
        assert_eq!(m.get_move_type(), 2);
        assert_eq!(m.get_start_square(), 48);
        assert_eq!(m.get_target_square(), 56);
        assert_eq!(m.get_moved_piece(), 1);
    }
    generator.add_move(&board, Piece::King, 4, (1 << 3) | (1 << 12), &mut list);
    assert_eq!(list.len(), 6);
    assert_eq!(list[4].to_string(), "e1d1");
    assert_eq!(list[5].to_string(), "e1e2");
    assert_eq!(list[5].data, (4 << 3) | (12 << 9));
    generator.add_move(&board, Piece::King, 4, 0, &mut list);
    assert_eq!(list.len(), 6);
}

#[test]
fn restriction_to_check_ray_and_pin() {
    let mut generator = generator();
    let mut targets = 0xffu64;
    generator.isolate_attack_pin_checks(&mut targets, 3);
    assert_eq!(targets, 0xff);
    generator.check = true;
    generator.check_ray = 0x0f;
    generator.isolate_attack_pin_checks(&mut targets, 3);
    assert_eq!(targets, 0x0f);
    generator.pin_rays[3] = 0x3c;
    generator.isolate_attack_pin_checks(&mut targets, 3);
    assert_eq!(targets, 0x0c);
    let mut others = 0xffu64;
    generator.isolate_attack_pin_checks(&mut others, 4);
    assert_eq!(others, 0x0f);
}

#[test]
fn pieces_pawns_castling_and_en_passant_add_to_the_list() {
    let mut generator = generator();
    let board = Board::from_str("r3k2r/8/8/3pP3/8/8/8/R3K2R w KQkq d6 0 1").unwrap();
    generator.calculate_attack_mask(&board);
    let mut list = Vec::new();
    generator.castling(&board, &mut list);
    assert_eq!(texts(&list), vec!["e1c1", "e1g1"]);
    generator.enpassant(&board, &mut list);
    assert_eq!(list.len(), 3);
    assert_eq!(list[2].to_string(), "e5d6");
    generator.pawns(&board, &mut list);
    assert_eq!(list.len(), 4);
    assert_eq!(list[3].to_string(), "e5e6");
    generator.piece(&board, Piece::Knight, &mut list);
    assert_eq!(list.len(), 4);
    generator.piece(&board, Piece::King, &mut list);
    assert_eq!(list.len(), 9);
}

/// Whether a piece of the other side attacks a king of `color` as the pieces stand.
fn king_is_attacked(generator: &MoveGenerator, board: &Board, white: bool) -> bool {
    let (own, other) = if white { (Color::White, Color::Black) } else { (Color::Black, Color::White) };
    let kings = board.get_bitboard(Piece::King, own);
    let occupancy = board.get_occupancy();
    let mut attacked = 0u64;
    for square in 0..64usize {
        let here = 1u64 << square;
        if board.get_bitboard(Piece::King, other) & here != 0 {
            attacked |= generator.get_non_slider_attacks(Piece::King, square);
        }
        if board.get_bitboard(Piece::Knight, other) & here != 0 {
            attacked |= generator.get_non_slider_attacks(Piece::Knight, square);
        }
        if board.get_bitboard(Piece::Pawn, other) & here != 0 {
            attacked |= generator.get_pawn_attacks(square, other);
        }
        if (board.get_bitboard(Piece::Rook, other) | board.get_bitboard(Piece::Queen, other)) & here != 0 {
            attacked |= MoveGenerator::rook_attack(square as u8, occupancy);
        }
        if (board.get_bitboard(Piece::Bishop, other) | board.get_bitboard(Piece::Queen, other)) & here != 0 {
            attacked |= MoveGenerator::bishop_attack(square as u8, occupancy);
        }
    }
    attacked & kings != 0
}

/// Plays every move of the position, and every reply, and looks whether the side that moved left
/// its king attacked.
fn no_move_gives_up_the_king(fen: &str) {
    let mut generator = generator();
    let mut board = Board::from_str(fen).unwrap();
    assert!(board.is_sound());
    for m in generator.all_possible(&board) {
        let white = board.get_color() == Color::White;
        board.make_move(m);
        assert!(!king_is_attacked(&generator, &board, white), "{} after {}", fen, m.to_string());
        for reply in generator.all_possible(&board) {
            board.make_move(reply);
            assert!(!king_is_attacked(&generator, &board, !white));
            board.undo_move();
        }
        board.undo_move();
    }
}

#[test]
fn no_move_leaves_the_own_king_attacked() {
    for fen in [
        "rnbqkbnr/pppppppp/8/8/8/8/PPPPPPPP/RNBQKBNR w KQkq - 0 1",
        "r3k2r/p1ppqpb1/bn2pnp1/3PN3/1p2P3/2N2Q1p/PPPBBPPP/R3K2R w KQkq - 0 1",
        "8/2p5/3p4/KP5r/1R3p1k/8/4P1P1/8 w - - 0 1",
        "r3k2r/Pppp1ppp/1b3nbN/nP6/BBP1P3/q4N2/Pp1P2PP/R2Q1RK1 w kq - 0 1",
        "rnbq1k1r/pp1Pbppp/2p5/8/2B5/8/PPP1NnPP/RNBQK2R w KQ - 1 8",
        "r4rk1/1pp1qppp/p1np1n2/2b1p1B1/2B1P1b1/P1NP1N2/1PP1QPPP/R4RK1 w - - 0 10",
        "4r2k/8/8/8/7b/8/3Q3R/4K3 w - - 0 1",
        "4r2k/8/8/8/1b6/8/3Q3R/4K3 w - - 0 1",
        "7k/8/8/8/8/3n4/8/4K2R w K - 0 1",
        "8/8/8/K2pP2r/8/8/8/7k w - d6 0 1",
        "7k/8/8/8/8/3n1n2/4P3/4K3 w - - 0 1",
        "4k3/8/8/8/8/3n1n2/8/3QK3 w - - 0 1",
        "7k/8/8/8/3Q4/8/3p1p2/4K3 w - - 0 1",
        "7k/8/8/8/8/1n6/PPn5/KB6 w - - 0 1",
        "7k/8/8/3pPp2/4K3/8/8/8 w - d6 0 1",
        "8/k7/8/8/3Pp3/8/8/4K1B1 b - d3 0 1",
        "7k/8/8/8/8/5n2/3p4/4K2R w K - 0 1",
    ] {
        no_move_gives_up_the_king(fen);
    }
}

#[test]
fn two_knights_give_a_double_check() {
    let mut generator = generator();
    let board = Board::from_str("7k/8/8/8/8/3n1n2/4P3/4K3 w - - 0 1").unwrap();
    assert!(board.is_sound());
    let moves = generator.all_possible(&board);
    assert!(generator.check);
    assert!(generator.double_check);
    assert_eq!(moves.len(), 2);
    for m in &moves {
        assert_eq!(m.get_moved_piece(), 0);
        assert_eq!(m.get_start_square(), 4);
        assert_ne!(m.get_move_type(), 0b100);
    }
    let mut targets: Vec<u8> = moves.iter().map(|m| m.get_target_square()).collect();
    targets.sort();
    assert_eq!(targets, vec![3, 5]);
    // The queen may not take one knight while the other still gives check.
    let queen = Board::from_str("4k3/8/8/8/8/3n1n2/8/3QK3 w - - 0 1").unwrap();
    assert_eq!(texts(&generator.all_possible(&queen)), vec!["e1e2", "e1f1"]);
    assert!(generator.double_check);
}

#[test]
fn two_pawns_give_a_double_check() {
    let mut generator = generator();
    let board = Board::from_str("7k/8/8/8/3Q4/8/3p1p2/4K3 w - - 0 1").unwrap();
    assert!(board.is_sound());
    let moves = generator.all_possible(&board);
    assert!(generator.check);
    assert!(generator.double_check);
    for m in &moves {
        assert_eq!(m.get_moved_piece(), 0);
    }
    assert_eq!(texts(&moves), vec!["e1d1", "e1d2", "e1e2", "e1f1", "e1f2"]);
}

#[test]
fn a_pawn_and_a_knight_give_a_double_check() {
    let mut generator = generator();
    let board = Board::from_str("7k/8/8/8/8/5n2/3p4/4K2R w K - 0 1").unwrap();
    let moves = generator.all_possible(&board);
    assert!(generator.double_check);
    // The knight guards the pawn.
    assert_eq!(texts(&moves), vec!["e1d1", "e1e2", "e1f1", "e1f2"]);
}

#[test]
fn one_knight_gives_a_single_check() {
    let mut generator = generator();
    let board = Board::from_str("7k/8/8/8/8/3n4/4P3/4K3 w - - 0 1").unwrap();
    let moves = generator.all_possible(&board);
    assert!(generator.check);
    assert!(!generator.double_check);
    assert_eq!(generator.check_ray, 1 << 19);
    assert_eq!(texts(&moves), vec!["e1d1", "e1d2", "e1f1", "e2d3"]);
}

#[test]
fn a_double_check_by_knights_can_be_mate() {
    let mut generator = generator();
    let board = Board::from_str("7k/8/8/8/8/1n6/PPn5/KB6 w - - 0 1").unwrap();
    assert!(board.is_sound());
    assert!(generator.all_possible(&board).is_empty());
    assert!(generator.check);
    assert!(generator.double_check);
}

#[test]
fn no_en_passant_capture_in_a_double_check_by_pawns() {
    let mut generator = generator();
    let board = Board::from_str("7k/8/8/3pPp2/4K3/8/8/8 w - d6 0 1").unwrap();
    assert!(board.is_sound());
    let moves = generator.all_possible(&board);
    assert!(generator.double_check);
    for m in &moves {
        assert_eq!(m.get_moved_piece(), 0);
    }
    assert_eq!(
        texts(&moves),
        vec!["e4d3", "e4d4", "e4d5", "e4e3", "e4f3", "e4f4", "e4f5"]
    );
    // One pawn gives check: it may be captured en passant.
    let single = Board::from_str("7k/8/8/3pP3/4K3/8/8/8 w - d6 0 1").unwrap();
    assert!(texts(&generator.all_possible(&single)).contains(&String::from("e5d6")));
    assert!(!generator.double_check);
}

#[test]
fn no_en_passant_capture_of_a_pawn_that_shields_the_king() {
    let mut generator = generator();
    let board = Board::from_str("8/k7/8/8/3Pp3/8/8/4K1B1 b - d3 0 1").unwrap();
    assert!(board.is_sound());
    let moves = generator.all_possible(&board);
    assert_eq!(
        texts(&moves),
        vec!["a7a6", "a7a8", "a7b6", "a7b7", "a7b8", "e4e3"]
    );
    // Without the bishop the capture is offered.
    let free = Board::from_str("8/k7/8/8/3Pp3/8/8/4K3 b - d3 0 1").unwrap();
    assert!(texts(&generator.all_possible(&free)).contains(&String::from("e4d3")));
    // With another piece on the diagonal as well, the king stays shielded.
    let covered = Board::from_str("8/k7/1n6/8/3Pp3/8/8/4K1B1 b - d3 0 1").unwrap();
    assert!(texts(&generator.all_possible(&covered)).contains(&String::from("e4d3")));
}

#[test]
fn kings_next_to_each_other_are_a_check() {
    let mut generator = generator();
    let board = Board::from_str("8/8/8/8/8/8/8/KkN5 w - - 0 1").unwrap();
    assert!(board.is_sound());
    let moves = generator.all_possible(&board);
    assert!(generator.check);
    assert!(!generator.double_check);
    assert_eq!(generator.check_ray, 1 << 1);
    assert_eq!(texts(&moves), vec!["a1b1"]);
}

#[test]
fn a_pinned_pawn_does_not_capture_en_passant() {
    // The pawn on e5 shields its king from the bishop; the capture on f6
    // would keep it on the bishop's diagonal, and is left out all the same.
    assert_eq!(
        moves_of("7b/8/8/4Pp2/8/8/8/K6k w - f6 0 1"),
        vec!["a1a2", "a1b1", "a1b2"]
    );
    // Without the bishop the pawn captures and steps ahead.
    assert_eq!(
        moves_of("8/8/8/4Pp2/8/8/8/K6k w - f6 0 1"),
        vec!["a1a2", "a1b1", "a1b2", "e5e6", "e5f6"]
    );
}

#[test]
fn a_pinned_piece_that_cannot_stay_on_its_line_does_not_move() {
    // The knight on d2 shields its king from the rook on d8.
    assert_eq!(
        moves_of("3r3k/8/8/8/8/8/3N4/3K4 w - - 0 1"),
        vec!["d1c1", "d1c2", "d1e1", "d1e2"]
    );
}

#[test]
fn a_check_is_answered_by_taking_or_blocking() {
    // The rook on e8 gives check along the e-file: the queen takes it or
    // steps between, the king steps aside.
    assert_eq!(
        moves_of("4r2k/8/8/8/Q7/8/8/4K3 w - - 0 1"),
        vec!["a4e4", "a4e8", "e1d1", "e1d2", "e1f1", "e1f2"]
    );
}

#[test]
fn no_move_is_listed_twice() {
    let mut generator = generator();
    for fen in [
        "rnbqkbnr/pppppppp/8/8/8/8/PPPPPPPP/RNBQKBNR w KQkq - 0 1",
        "r3k2r/p1ppqpb1/bn2pnp1/3PN3/1p2P3/2N2Q1p/PPPBBPPP/R3K2R w KQkq - 0 1",
        "8/2p5/3p4/KP5r/1R3p1k/8/4P1P1/8 w - - 0 1",
        "r3k2r/Pppp1ppp/1b3nbN/nP6/BBP1P3/q4N2/Pp1P2PP/R2Q1RK1 w kq - 0 1",
        "rnbq1k1r/pp1Pbppp/2p5/8/2B5/8/PPP1NnPP/RNBQK2R w KQ - 1 8",
        "7k/8/8/3pPp2/4K3/8/8/8 w - d6 0 1",
    ] {
        let board = Board::from_str(fen).unwrap();
        assert!(board.is_sound());
        let moves = generator.all_possible(&board);
        for (i, first) in moves.iter().enumerate() {
            for second in &moves[i + 1..] {
                assert!(
                    first.get_start_square() != second.get_start_square()
                        || first.get_target_square() != second.get_target_square()
                        || first.get_promotion() != second.get_promotion()
                );
            }
        }
    }
}

#[test]
fn the_list_is_empty_at_mate_and_at_stalemate() {
    // Mate: the rook gives check along the back rank, and the king's own
    // pawns box it in.
    assert!(moves_of("R5k1/5ppp/8/8/8/8/8/7K b - - 0 1").is_empty());
    // Stalemate: the king in the corner has no square and is not attacked.
    assert!(moves_of("7k/5Q2/6K1/8/8/8/8/8 b - - 0 1").is_empty());
    // A king that can still move is neither.
    assert_eq!(moves_of("7k/8/6K1/8/8/8/8/8 b - - 0 1"), vec!["h8g8"]);
}

#[test]
fn a_double_check_by_a_pawn_and_a_knight_leaves_the_king_alone_to_move() {
    let mut generator = generator();
    let board = Board::from_str("7k/8/5n2/3pP3/4K3/8/8/8 w - d6 0 1").unwrap();
    assert!(board.is_sound());
    let moves = generator.all_possible(&board);
    assert!(generator.check);
    assert!(generator.double_check);
    for m in &moves {
        assert_eq!(m.get_moved_piece(), 0);
        assert_ne!(m.get_move_type(), 1);
    }
    assert_eq!(
        texts(&moves),
        vec!["e4d3", "e4d4", "e4e3", "e4f3", "e4f4", "e4f5"]
    );
}
