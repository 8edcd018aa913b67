use chess_movegen::bitboard::{
    clear_bit, count_bits, get_lsb_bitboard, get_lsb_index, is_occupied, pop_lsb,
    pop_lsb_to_bitboard, set_bit, squares,
};

#[test]
fn set_bit_adds_the_square() {
    let mut board = 0u64;
    set_bit(&mut board, 0);
    set_bit(&mut board, 63);
    set_bit(&mut board, 28);
    assert_eq!(board, 0x8000_0000_1000_0001);
    set_bit(&mut board, 28);
    assert_eq!(board, 0x8000_0000_1000_0001);
}

#[test]
fn clear_bit_removes_the_square() {
    let mut board = 0x8000_0000_1000_0001u64;
    clear_bit(&mut board, 28);
    assert_eq!(board, 0x8000_0000_0000_0001);
}

#[test]
fn clear_bit_leaves_an_absent_square_out() {
    let mut board = 0x8000_0000_0000_0001u64;
    clear_bit(&mut board, 28);
    assert_eq!(board, 0x8000_0000_0000_0001);
}

#[test]
fn is_occupied_tests_one_square() {
    let board = 0x0000_0000_1000_0000u64;
    assert!(is_occupied(board, 28));
    assert!(!is_occupied(board, 27));
    assert!(!is_occupied(board, 29));
    assert!(!is_occupied(0, 0));
    assert!(is_occupied(u64::MAX, 63));
}

#[test]
fn lowest_square_of_a_set() {
    assert_eq!(get_lsb_index(0b1000), 3);
    assert_eq!(get_lsb_index(1), 0);
    assert_eq!(get_lsb_index(0x8000_0000_0000_0000), 63);
    assert_eq!(get_lsb_index(0x8010_0000_0000_0000), 52);
    assert_eq!(get_lsb_bitboard(0b1011000), 0b1000);
    assert_eq!(get_lsb_bitboard(0x8000_0000_0000_0000), 0x8000_0000_0000_0000);
}

#[test]
fn pop_lsb_takes_the_lowest_square() {
    let mut board = 0b1011000u64;
    assert_eq!(pop_lsb(&mut board), 3);
    assert_eq!(board, 0b1010000);
    assert_eq!(pop_lsb(&mut board), 4);
    assert_eq!(pop_lsb(&mut board), 6);
    assert_eq!(board, 0);
}

#[test]
fn pop_lsb_to_bitboard_takes_the_lowest_square() {
    let mut board = 0b1011000u64;
    assert_eq!(pop_lsb_to_bitboard(&mut board), 0b1000);
    assert_eq!(board, 0b1010000);
    let mut last = 0x8000_0000_0000_0000u64;
    assert_eq!(pop_lsb_to_bitboard(&mut last), 0x8000_0000_0000_0000);
    assert_eq!(last, 0);
}

#[test]
fn count_bits_counts_the_members() {
    assert_eq!(count_bits(0), 0);
    assert_eq!(count_bits(u64::MAX), 64);
    assert_eq!(count_bits(0x8000_0000_1000_0001), 3);
    assert_eq!(count_bits(0x0001_0101_0101_017e), 12);
}

#[test]
fn squares_lists_the_members_in_ascending_order() {
    assert_eq!(squares(0), Vec::<u8>::new());
    assert_eq!(squares(0x8000_0000_1000_0001), vec![0, 28, 63]);
    let all: Vec<u8> = squares(u64::MAX);
    assert_eq!(all.len(), 64);
    for (place, square) in all.iter().enumerate() {
        assert_eq!(*square as usize, place);
    }
}

#[test]
fn popping_every_square_visits_them_in_ascending_order() {
    let mut board = 0x0040_2010_0804_0200u64;
    let mut seen = Vec::new();
    while board != 0 {
        seen.push(pop_lsb(&mut board));
    }
    assert_eq!(seen, vec![9, 18, 27, 36, 45, 54]);
}
