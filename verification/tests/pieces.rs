use chess_movegen::color::Color;
use chess_movegen::error::Error;
use chess_movegen::piece::{Piece, ALL_PIECES, PROMOTION_PIECES};

#[test]
fn colors_have_indices_and_opposites() {
    assert_eq!(Color::White.to_index(), 0);
    assert_eq!(Color::Black.to_index(), 1);
    assert!(!Color::White == Color::Black);
    assert!(!Color::Black == Color::White);
    assert!(!!Color::White == Color::White);
}

#[test]
fn colors_are_read_from_the_case_of_a_letter() {
    assert!(Color::from('K') == Color::White);
    assert!(Color::from('P') == Color::White);
    assert!(Color::from('k') == Color::Black);
    assert!(Color::from('q') == Color::Black);
    assert!(Color::from('1') == Color::White);
}

#[test]
fn colors_have_names() {
    assert_eq!(Color::White.to_string(), "White");
    assert_eq!(Color::Black.to_string(), "Black");
}

#[test]
fn pieces_have_indices() {
    let expected = [
        Piece::King,
        Piece::Pawn,
        Piece::Knight,
        Piece::Bishop,
        Piece::Rook,
        Piece::Queen,
    ];
    for index in 0..6 {
        assert!(Piece::new(index) == expected[index]);
        assert_eq!(expected[index].to_index(), index);
        assert!(ALL_PIECES[index] == expected[index]);
    }
    assert!(PROMOTION_PIECES[0] == Piece::Queen);
    assert!(PROMOTION_PIECES[1] == Piece::Rook);
    assert!(PROMOTION_PIECES[2] == Piece::Bishop);
    assert!(PROMOTION_PIECES[3] == Piece::Knight);
}

#[test]
fn pieces_are_read_from_letters() {
    assert!(Piece::from('k') == Piece::King);
    assert!(Piece::from('K') == Piece::King);
    assert!(Piece::from('p') == Piece::Pawn);
    assert!(Piece::from('N') == Piece::Knight);
    assert!(Piece::from('b') == Piece::Bishop);
    assert!(Piece::from('R') == Piece::Rook);
    assert!(Piece::from('q') == Piece::Queen);
}

#[test]
fn pieces_have_letters_and_names() {
    assert_eq!(Piece::King.to_string(Color::White), "K");
    assert_eq!(Piece::King.to_string(Color::Black), "k");
    assert_eq!(Piece::Pawn.to_string(Color::White), "P");
    assert_eq!(Piece::Knight.to_string(Color::Black), "n");
    assert_eq!(Piece::Bishop.to_string(Color::White), "B");
    assert_eq!(Piece::Rook.to_string(Color::Black), "r");
    assert_eq!(Piece::Queen.to_string(Color::White), "Q");
    assert_eq!(Piece::Queen.to_char(), 'q');
    assert_eq!(Piece::King.to_full_name(), "King");
    assert_eq!(Piece::Pawn.to_full_name(), "Pawn");
    assert_eq!(Piece::Knight.to_full_name(), "Knight");
    assert_eq!(Piece::Bishop.to_full_name(), "Bishop");
    assert_eq!(Piece::Rook.to_full_name(), "Rook");
    assert_eq!(Piece::Queen.to_full_name(), "Queen");
}

#[test]
fn errors_have_messages() {
    let fen = Error::InvalidFen { fen: String::from("8/8 w") };
    assert_eq!(fen.to_string(), "Invalid FEN string: 8/8 w");
    let square = Error::InvalidStr { str: String::from("j9") };
    assert_eq!(square.to_string(), "Invalid str: j9");
}
