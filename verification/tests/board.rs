use chess_movegen::board::Board;
use chess_movegen::color::Color;
use chess_movegen::error::Error;
use chess_movegen::move_gen::defs::Move;
use chess_movegen::move_gen::MoveGenerator;
use chess_movegen::piece::Piece;

const START: &str = "rnbqkbnr/pppppppp/8/8/8/8/PPPPPPPP/RNBQKBNR w KQkq - 0 1";
const KIWIPETE: &str = "r3k2r/p1ppqpb1/bn2pnp1/3PN3/1p2P3/2N2Q1p/PPPBBPPP/R3K2R w KQkq - 0 1";

struct Snapshot {
    pieces: [u64; 6],
    colors: [u64; 2],
    white_to_move: bool,
    castle_rights: usize,
    enpassant: Option<usize>,
    history: Vec<u64>,
}

fn snapshot(board: &Board) -> Snapshot {
    Snapshot {
        pieces: board.pieces,
        colors: board.colors,
        white_to_move: board.color == Color::White,
        castle_rights: board.castle_rights,
        enpassant: board.enpassant,
        history: board.move_history.iter().map(|m| m.data).collect(),
    }
}

fn assert_same(board: &Board, before: &Snapshot) {
    assert_eq!(board.pieces, before.pieces);
    assert_eq!(board.colors, before.colors);
    assert_eq!(board.color == Color::White, before.white_to_move);
    assert_eq!(board.castle_rights, before.castle_rights);
    assert_eq!(board.enpassant, before.enpassant);
    let history: Vec<u64> = board.move_history.iter().map(|m| m.data).collect();
    assert_eq!(history, before.history);
}

fn find(moves: &[Move], text: &str) -> Move {
    for m in moves {
        if m.to_string() == text {
            return *m;
        }
    }
    panic!("no move {text}");
}

/// Plays and takes back every move of the position, and every reply to it.
fn play_and_take_back(fen: &str) {
    let mut generator = MoveGenerator::new();
    let mut board = Board::from_str(fen).unwrap();
    assert!(board.is_sound());
    let before = snapshot(&board);
    for m in generator.all_possible(&board) {
        board.make_move(m);
        assert!(board.is_sound());
        let between = snapshot(&board);
        for reply in generator.all_possible(&board) {
            board.make_move(reply);
            assert!(board.is_sound());
            assert!(board.undo_move());
            assert_same(&board, &between);
        }
        assert!(board.undo_move());
        assert_same(&board, &before);
    }
}

#[test]
fn the_empty_board() {
    let board = Board::new();
    assert_eq!(board.pieces, [0; 6]);
    assert_eq!(board.colors, [0; 2]);
    assert!(board.get_color() == Color::White);
    assert_eq!(board.castle_rights, 0);
    assert_eq!(board.enpassant, None);
    assert!(board.move_history.is_empty());
    assert_eq!(board.get_occupancy(), 0);
    assert!(board.is_sound());
}

#[test]
fn squares_ranks_and_files() {
    assert_eq!(Board::to_square_index(0, 0), 0);
    assert_eq!(Board::to_square_index(0, 7), 7);
    assert_eq!(Board::to_square_index(3, 4), 28);
    assert_eq!(Board::to_square_index(7, 7), 63);
    assert_eq!(Board::square_to_rank_file(0), (0, 0));
    assert_eq!(Board::square_to_rank_file(28), (3, 4));
    assert_eq!(Board::square_to_rank_file(63), (7, 7));
}

#[test]
fn the_start_position_is_read() {
    let board = Board::from_str(START).unwrap();
    let start = Board::default();
    assert_eq!(board.pieces, start.pieces);
    assert_eq!(board.colors, start.colors);
    assert!(board.get_color() == Color::White);
    assert_eq!(board.castle_rights, 0b1111);
    assert_eq!(board.enpassant, None);
    assert_eq!(board.get_bitboard(Piece::King, Color::White), 1 << 4);
    assert_eq!(board.get_bitboard(Piece::King, Color::Black), 1 << 60);
    assert_eq!(board.get_bitboard(Piece::Pawn, Color::White), 0xff00);
    assert_eq!(board.get_bitboard(Piece::Queen, Color::Black), 1 << 59);
    assert_eq!(board.get_bitboard(Piece::Rook, Color::White), 0x81);
    assert_eq!(board.get_occupancy(), 0xffff_0000_0000_ffff);
    assert_eq!(board.get_allys(Color::White), 0xffff);
    assert_eq!(board.get_allys(Color::Black), 0xffff_0000_0000_0000);
    assert_eq!(board.get_piece_from_square(0), Some(4));
    assert_eq!(board.get_piece_from_square(4), Some(0));
    assert_eq!(board.get_piece_from_square(12), Some(1));
    assert_eq!(board.get_piece_from_square(28), None);
    assert!(board.is_sound());
}

#[test]
fn side_castling_and_en_passant_fields_are_read() {
    let board =
        Board::from_str("rnbqkbnr/pppppppp/8/8/4P3/8/PPPP1PPP/RNBQKBNR b Kq e3 0 1").unwrap();
    assert!(board.get_color() == Color::Black);
    assert_eq!(board.castle_rights, 0b0110);
    assert_eq!(board.enpassant, Some(20));
    assert!(board.is_sound());
    let upper = Board::from_str("8/8/8/8/8/8/8/8 W - -").unwrap();
    assert!(upper.get_color() == Color::White);
    let lower = Board::from_str("8/8/8/8/8/8/8/8 B - x9").unwrap();
    assert!(lower.get_color() == Color::Black);
    assert_eq!(lower.enpassant, None);
    assert_eq!(lower.castle_rights, 0);
    let rights = Board::from_str("8/8/8/8/8/8/8/8 w Q - ").unwrap();
    assert_eq!(rights.castle_rights, 0b0001);
    assert_eq!(Board::from_str("8/8/8/8/8/8/8/8 w K -").unwrap().castle_rights, 0b0010);
    assert_eq!(Board::from_str("8/8/8/8/8/8/8/8 w q -").unwrap().castle_rights, 0b0100);
    assert_eq!(Board::from_str("8/8/8/8/8/8/8/8 w k -").unwrap().castle_rights, 0b1000);
}

#[test]
fn pieces_are_placed_from_the_eighth_rank_down() {
    let board = Board::from_str("k7/8/8/8/3Q4/8/8/7K w - -").unwrap();
    assert_eq!(board.get_bitboard(Piece::King, Color::Black), 1 << 56);
    assert_eq!(board.get_bitboard(Piece::Queen, Color::White), 1 << 27);
    assert_eq!(board.get_bitboard(Piece::King, Color::White), 1 << 7);
    assert_eq!(board.get_occupancy(), (1 << 56) | (1 << 27) | (1 << 7));
}

#[test]
fn malformed_positions_are_rejected() {
    for text in [
        "",
        "8/8/8/8/8/8/8/8",
        "8/8/8/8/8/8/8/8 w",
        "8/8/8/8/8/8/8/8 w -",
        "8/8/8/8/8/8/8/8 x - -",
        "8/8/8/8/8/8/8/8 ww - -",
        "8/8/8/8/8/8/8/8  - -",
        "8/8/8/8/8/8/8/7X w - -",
        "8/8/8/8/8/8/8/9 w - -",
        "8/8/8/8/8/8/8/0 w - -",
        "8/8/8/8/8/8/8/8 w KQxq -",
        "8/8/8/8/8/8/8/8/8 w - -",
        "PPPPPPPPP/8/8/8/8/8/8/8 w - -",
        "8P/8/8/8/8/8/8/8 w - -",
    ] {
        match Board::from_str(text) {
            Err(Error::InvalidFen { fen }) => assert_eq!(fen, text),
            _ => panic!("{text} is no position"),
        }
    }
    let error = Board::from_str("8/8 w").err().unwrap();
    assert_eq!(error.to_string(), "Invalid FEN string: 8/8 w");
}

#[test]
fn unsound_positions_are_told_apart() {
    // Castling rights without the rooks and the king.
    assert!(!Board::from_str("8/8/8/8/8/8/8/R3K2R w KQkq - 0 1").unwrap().is_sound());
    // The en-passant square of the side that is to move.
    assert!(!Board::from_str("rnbqkbnr/pppppppp/8/8/8/8/PPPPPPPP/RNBQKBNR w KQkq e3 0 1")
        .unwrap()
        .is_sound());
    // A pawn on its last rank.
    assert!(!Board::from_str("P3k3/8/8/8/8/8/8/4K3 w - - 0 1").unwrap().is_sound());
    assert!(!Board::from_str("4k3/8/8/8/8/8/8/p3K3 w - - 0 1").unwrap().is_sound());
    // The king off its home square with a right left.
    assert!(!Board::from_str("4k3/8/8/8/8/8/8/R2K3R w K - 0 1").unwrap().is_sound());
    assert!(Board::from_str("4k3/8/8/8/8/8/8/R3K2R w KQ - 0 1").unwrap().is_sound());
    assert!(Board::from_str(KIWIPETE).unwrap().is_sound());
    let mut twice = Board::default();
    twice.colors[1] |= 1;
    assert!(!twice.is_sound());
    let mut rights = Board::default();
    rights.castle_rights = 16;
    assert!(!rights.is_sound());
}

#[test]
fn nothing_to_take_back_on_a_fresh_board() {
    let mut board = Board::default();
    let before = snapshot(&board);
    assert!(!board.undo_move());
    assert_same(&board, &before);
}

#[test]
fn a_double_step_sets_the_en_passant_square() {
    let mut generator = MoveGenerator::new();
    let mut board = Board::default();
    let before = snapshot(&board);
    let moves = generator.all_possible(&board);
    board.make_move(find(&moves, "e2e4"));
    assert_eq!(board.enpassant, Some(20));
    assert!(board.get_color() == Color::Black);
    assert_eq!(board.get_bitboard(Piece::Pawn, Color::White), 0x1000_ef00);
    assert_eq!(board.move_history.len(), 1);
    let replies = generator.all_possible(&board);
    board.make_move(find(&replies, "c7c5"));
    assert_eq!(board.enpassant, Some(42));
    let next = generator.all_possible(&board);
    board.make_move(find(&next, "g1f3"));
    assert_eq!(board.enpassant, None);
    assert_eq!(board.move_history[2].get_prev_enpassant(), Some(42));
    assert!(board.undo_move());
    assert!(board.undo_move());
    assert!(board.undo_move());
    assert_same(&board, &before);
}

#[test]
fn an_en_passant_capture_removes_the_pawn_behind_the_target() {
    let mut generator = MoveGenerator::new();
    let mut board = Board::from_str("4k3/8/8/3pP3/8/8/8/4K3 w - d6 0 1").unwrap();
    assert!(board.is_sound());
    let before = snapshot(&board);
    let moves = generator.all_possible(&board);
    let capture = find(&moves, "e5d6");
    assert_eq!(capture.get_move_type(), 1);
    board.make_move(capture);
    assert_eq!(board.get_bitboard(Piece::Pawn, Color::Black), 0);
    assert_eq!(board.get_bitboard(Piece::Pawn, Color::White), 1 << 43);
    assert_eq!(board.get_occupancy(), (1 << 60) | (1 << 43) | (1 << 4));
    assert_eq!(board.move_history[0].get_piece_captured(), None);
    assert!(board.undo_move());
    assert_same(&board, &before);
}

#[test]
fn a_promotion_replaces_the_pawn() {
    let mut generator = MoveGenerator::new();
    let mut board = Board::from_str("1n2k3/P7/8/8/8/8/8/4K3 w - - 0 1").unwrap();
    let before = snapshot(&board);
    let moves = generator.all_possible(&board);
    let texts: Vec<String> = moves.iter().map(|m| m.to_string()).collect();
    for text in ["a7a8q", "a7a8r", "a7a8b", "a7a8n", "a7b8q", "a7b8r", "a7b8b", "a7b8n"] {
        assert!(texts.iter().any(|t| t == text));
    }
    let capture = find(&moves, "a7b8n");
    assert_eq!(capture.get_move_type(), 2);
    assert_eq!(capture.get_promotion(), 2);
    board.make_move(capture);
    assert_eq!(board.get_bitboard(Piece::Pawn, Color::White), 0);
    assert_eq!(board.get_bitboard(Piece::Knight, Color::White), 1 << 57);
    assert_eq!(board.get_bitboard(Piece::Knight, Color::Black), 0);
    assert_eq!(board.pieces[1], 0);
    assert_eq!(board.move_history[0].get_piece_captured(), Some(2));
    assert!(board.undo_move());
    assert_same(&board, &before);
}

#[test]
fn castling_moves_the_rook_and_gives_up_the_rights() {
    let mut generator = MoveGenerator::new();
    let mut board = Board::from_str("r3k2r/8/8/8/8/8/8/R3K2R w KQkq - 0 1").unwrap();
    let before = snapshot(&board);
    let moves = generator.all_possible(&board);
    let short = find(&moves, "e1g1");
    assert_eq!(short.get_move_type(), 4);
    assert_eq!(short.get_castle_right(), 0b0010);
    board.make_move(short);
    assert_eq!(board.get_bitboard(Piece::King, Color::White), 1 << 6);
    assert_eq!(board.get_bitboard(Piece::Rook, Color::White), (1 << 0) | (1 << 5));
    assert_eq!(board.castle_rights, 0b1100);
    assert_eq!(board.move_history[0].get_prev_castle_rights(), 0b1111);
    let replies = generator.all_possible(&board);
    let long = find(&replies, "e8c8");
    assert_eq!(long.get_castle_right(), 0b0100);
    board.make_move(long);
    assert_eq!(board.get_bitboard(Piece::King, Color::Black), 1 << 58);
    assert_eq!(board.get_bitboard(Piece::Rook, Color::Black), (1 << 59) | (1 << 63));
    assert_eq!(board.castle_rights, 0);
    assert!(board.undo_move());
    assert!(board.undo_move());
    assert_same(&board, &before);
}

#[test]
fn rook_moves_and_captures_give_up_one_right() {
    let mut generator = MoveGenerator::new();
    let mut board = Board::from_str("r3k2r/8/8/8/8/8/8/R3K2R w KQkq - 0 1").unwrap();
    let moves = generator.all_possible(&board);
    board.make_move(find(&moves, "a1a2"));
    assert_eq!(board.castle_rights, 0b1110);
    assert_eq!(board.move_history[0].get_piece_captured(), None);
    let replies = generator.all_possible(&board);
    board.make_move(find(&replies, "h8h1"));
    assert_eq!(board.castle_rights, 0b0100);
    assert_eq!(board.move_history[1].get_piece_captured(), Some(4));
    assert_eq!(board.move_history[1].get_prev_castle_rights(), 0b1110);
    assert!(board.undo_move());
    assert_eq!(board.castle_rights, 0b1110);
    assert!(board.undo_move());
    assert_eq!(board.castle_rights, 0b1111);
    let captures = generator.all_possible(&board);
    board.make_move(find(&captures, "a1a8"));
    assert_eq!(board.castle_rights, 0b1010);
    assert_eq!(board.move_history[0].get_piece_captured(), Some(4));
}

#[test]
fn a_captured_king_comes_back() {
    let mut generator = MoveGenerator::new();
    let mut board = Board::from_str("4k3/8/8/8/8/8/8/4RK2 w - - 0 1").unwrap();
    assert!(board.is_sound());
    let before = snapshot(&board);
    let moves = generator.all_possible(&board);
    let capture = find(&moves, "e1e8");
    board.make_move(capture);
    assert_eq!(board.get_bitboard(Piece::King, Color::Black), 0);
    assert_eq!(board.move_history[0].get_piece_captured(), Some(0));
    assert!(board.is_sound());
    assert!(generator.all_possible(&board).is_empty());
    assert!(board.undo_move());
    assert_same(&board, &before);
}

#[test]
fn every_move_of_the_start_position_is_taken_back_exactly() {
    play_and_take_back(START);
}

#[test]
fn every_move_of_kiwipete_is_taken_back_exactly() {
    play_and_take_back(KIWIPETE);
}

#[test]
fn every_move_with_promotions_is_taken_back_exactly() {
    play_and_take_back("r3k2r/Pppp1ppp/1b3nbN/nP6/BBP1P3/q4N2/Pp1P2PP/R2Q1RK1 w kq - 0 1");
    play_and_take_back("n1n5/PPPk4/8/8/8/8/4Kppp/5N1N b - - 0 1");
}

#[test]
fn every_move_with_en_passant_is_taken_back_exactly() {
    play_and_take_back("8/2p5/3p4/KP5r/1R3p1k/8/4P1P1/8 w - - 0 1");
    play_and_take_back("rnbqkbnr/ppp1pppp/8/8/3pP3/8/PPPP1PPP/RNBQKBNR b KQkq e3 0 1");
}

#[test]
fn the_diagram_shows_the_eighth_rank_on_top() {
    let line = "   +———+———+———+———+———+———+———+———+\n";
    let mut expected = String::from(line);
    for row in [
        " 8 | r | n | b | q | k | b | n | r |\n",
        " 7 | p | p | p | p | p | p | p | p |\n",
        " 6 |   |   |   |   |   |   |   |   |\n",
        " 5 |   |   |   |   |   |   |   |   |\n",
        " 4 |   |   |   |   |   |   |   |   |\n",
        " 3 |   |   |   |   |   |   |   |   |\n",
        " 2 | P | P | P | P | P | P | P | P |\n",
        " 1 | R | N | B | Q | K | B | N | R |\n",
    ] {
        expected += row;
        expected += line;
    }
    expected += "     a   b   c   d   e   f   g   h\n";
    assert_eq!(Board::default().to_string(), expected);
}

#[test]
fn generated_moves_are_accepted_and_others_are_not() {
    let mut generator = MoveGenerator::new();
    for fen in [START, KIWIPETE, "r3k2r/Pppp1ppp/1b3nbN/nP6/BBP1P3/q4N2/Pp1P2PP/R2Q1RK1 w kq - 0 1"] {
        let board = Board::from_str(fen).unwrap();
        for m in generator.all_possible(&board) {
            assert!(board.accepts(m));
        }
    }
    let board = Board::default();
    // No piece moves from a1 to a1.
    assert!(!board.accepts(Move::new(0)));
    // The rook on a1 cannot take the pawn on a2.
    assert!(!board.accepts(Move::new(4 | (0 << 3) | (8 << 9))));
    // There is no knight on e4.
    assert!(!board.accepts(Move::new(2 | (28 << 3) | (45 << 9))));
    // A black pawn does not move with White to move.
    assert!(!board.accepts(Move::new(1 | (52 << 3) | (44 << 9))));
    // A pawn on the second rank does not promote.
    assert!(!board.accepts(Move::new(1 | (12 << 3) | (20 << 9) | (2 << 15) | (5 << 18))));
    // The king cannot castle through its bishop.
    assert!(!board.accepts(Move::new((4 << 3) | (6 << 9) | (4 << 15) | (2 << 21))));
    // A played move is no longer fresh.
    let mut played = Move::new(1 | (12 << 3) | (28 << 9));
    assert!(board.accepts(played));
    played.set_prev_castle_rights(0b1111);
    assert!(!board.accepts(played));
    // A knight may move where no generated move leads, as long as the squares fit.
    assert!(board.accepts(Move::new(2 | (1 << 3) | (35 << 9))));
}

#[test]
fn an_over_full_rank_runs_on_into_the_rank_above() {
    // The seventh rank holds eight empty squares and a king: the king
    // stands on the first square of the eighth rank.
    let board = Board::from_str("/8K w - -").unwrap();
    assert_eq!(board.pieces[Piece::King.to_index()], 1 << 56);
    assert_eq!(board.colors[Color::White.to_index()], 1 << 56);
    assert_eq!(board.colors[Color::Black.to_index()], 0);
    assert_eq!(board.get_occupancy(), 1 << 56);
    // Two pawns behind the h-file of the first rank stand on a2 and b2.
    let board = Board::from_str("8/8/8/8/8/8/8/44pP w - -").unwrap();
    assert_eq!(board.pieces[Piece::Pawn.to_index()], 0b11 << 8);
    assert_eq!(board.colors[Color::Black.to_index()], 1 << 8);
    assert_eq!(board.colors[Color::White.to_index()], 1 << 9);
    // Nine pawns on the second rank: the ninth stands on a3.
    let board = Board::from_str("8/8/8/8/8/8/PPPPPPPPP/8 w - -").unwrap();
    assert_eq!(board.pieces[Piece::Pawn.to_index()], 0x1ff << 8);
    // Digits alone never leave the board, however many there are.
    let long = format!("{} b - -", "8".repeat(100));
    let board = Board::from_str(&long).unwrap();
    assert_eq!(board.get_occupancy(), 0);
    assert_eq!(board.color, Color::Black);
}

#[test]
fn a_placement_that_leaves_the_board_is_rejected() {
    for text in [
        // A piece behind h8, the last square.
        "8K/8/8/8/8/8/8/8 w - -",
        "7KQ/8/8/8/8/8/8/8 w - -",
        "/88k w - -",
        "//888q w - -",
        // A slash below the first rank.
        "8/8/8/8/8/8/8/8/ w - -",
        "//////// w - -",
    ] {
        match Board::from_str(text) {
            Err(Error::InvalidFen { fen }) => assert_eq!(fen, text),
            _ => panic!("{text} is no position"),
        }
    }
    // The last square itself is on the board.
    assert_eq!(Board::from_str("7K w - -").unwrap().get_occupancy(), 1 << 63);
    assert_eq!(Board::from_str("/87K w - -").unwrap().get_occupancy(), 1 << 63);
    assert_eq!(Board::from_str("/////// w - -").unwrap().get_occupancy(), 0);
}

#[test]
fn the_square_index_counts_on_behind_the_h_file() {
    assert_eq!(Board::to_square_index(6, 8), 56);
    assert_eq!(Board::to_square_index(0, 9), 9);
    assert_eq!(Board::to_square_index(7, 8), 64);
}
