use chess_movegen::error::Error;
use chess_movegen::notation::{square_from_str, square_to_string, Notation};

#[test]
fn square_names_round_trip_for_every_square() {
    for index in 0..64usize {
        let name = Notation::from(index).to_string();
        let back = Notation::from_str(&name).expect("a square name");
        assert_eq!(back.to_index(), index);
        assert_eq!(square_from_str(&square_to_string(index)), Some(index));
    }
}

#[test]
fn square_names_are_file_then_rank() {
    assert_eq!(Notation::from(0).to_string(), "a1");
    assert_eq!(Notation::from(7).to_string(), "h1");
    assert_eq!(Notation::from(8).to_string(), "a2");
    assert_eq!(Notation::from(28).to_string(), "e4");
    assert_eq!(Notation::from(56).to_string(), "a8");
    assert_eq!(Notation::from(63).to_string(), "h8");
    assert_eq!(Notation::E4.to_string(), "e4");
}

#[test]
fn square_indices_count_from_a1() {
    assert_eq!(Notation::A1.to_index(), 0);
    assert_eq!(Notation::H1.to_index(), 7);
    assert_eq!(Notation::A2.to_index(), 8);
    assert_eq!(Notation::E3.to_index(), 20);
    assert_eq!(Notation::E6.to_index(), 44);
    assert_eq!(Notation::A8.to_index(), 56);
    assert_eq!(Notation::H8.to_index(), 63);
    assert!(Notation::from(20) == Notation::E3);
}

#[test]
fn square_names_are_parsed() {
    assert!(Notation::from_str("a1").unwrap() == Notation::A1);
    assert!(Notation::from_str("e4").unwrap() == Notation::E4);
    assert!(Notation::from_str("h8").unwrap() == Notation::H8);
    assert_eq!(square_from_str("c7"), Some(50));
}

#[test]
fn other_texts_name_no_square() {
    for text in ["", "a", "i1", "a9", "a0", "A1", "e44", "4e", "-", " e4", "e4 ", "é4"] {
        assert_eq!(square_from_str(text), None);
        match Notation::from_str(text) {
            Err(Error::InvalidStr { str }) => assert_eq!(str, text),
            _ => panic!("{text} names no square"),
        }
    }
}

#[test]
fn a_rejected_square_name_is_reported() {
    let error = Notation::from_str("z9").err().unwrap();
    assert_eq!(error.to_string(), "Invalid str: z9");
}
