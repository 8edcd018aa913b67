use chess_movegen::color::Color;
use chess_movegen::magic::{
    few_bits, index_to_uint64, random_u64_fewbits, Magic, BISHOP_MAGIC_NR, ROOK_MAGIC_NR,
};
use chess_movegen::move_gen::init::init_magic_attacks;
use chess_movegen::move_gen::MoveGenerator;
use chess_movegen::piece::Piece;
use chess_movegen::wizardry::{find_magic, generate_64_magic_numbers, is_magic, sliding_attack};

fn generator() -> MoveGenerator {
    MoveGenerator::new()
}

#[test]
fn squares_to_the_edge() {
    assert_eq!(MoveGenerator::rook_num_to_edge(0), [7, 7, 0, 0]);
    assert_eq!(MoveGenerator::rook_num_to_edge(63), [0, 0, 7, 7]);
    assert_eq!(MoveGenerator::rook_num_to_edge(27), [4, 4, 3, 3]);
    assert_eq!(MoveGenerator::bishop_num_to_edge(0), [0, 7, 0, 0]);
    assert_eq!(MoveGenerator::bishop_num_to_edge(7), [7, 0, 0, 0]);
    assert_eq!(MoveGenerator::bishop_num_to_edge(27), [3, 4, 3, 3]);
}

#[test]
fn rook_attacks_stop_at_the_first_piece() {
    assert_eq!(MoveGenerator::rook_attack(0, 0), 0x0101_0101_0101_01fe);
    assert_eq!(MoveGenerator::rook_attack(27, 0x0000_0800_2200_0008), 0x0000_0808_3608_0808);
    assert_eq!(MoveGenerator::rook_attack(0, u64::MAX), 0x0000_0000_0000_0102);
}

#[test]
fn bishop_attacks_stop_at_the_first_piece() {
    assert_eq!(MoveGenerator::bishop_attack(0, 0), 0x8040_2010_0804_0200);
    assert_eq!(MoveGenerator::bishop_attack(27, 0x0000_2200_0000_0200), 0x0000_2214_0014_2240);
    assert_eq!(MoveGenerator::bishop_attack(0, u64::MAX), 0x0000_0000_0000_0200);
}

#[test]
fn relevant_squares_leave_out_the_edges() {
    assert_eq!(MoveGenerator::rook_mask(0), 0x0001_0101_0101_017e);
    assert_eq!(MoveGenerator::rook_mask(27), 0x0008_0808_7608_0800);
    assert_eq!(MoveGenerator::bishop_mask(0), 0x0040_2010_0804_0200);
    assert_eq!(MoveGenerator::bishop_mask(27), 0x0040_2214_0014_2200);
}

#[test]
fn blocker_boards_list_every_subset_once() {
    assert_eq!(MoveGenerator::blocker_boards(0), vec![0]);
    assert_eq!(MoveGenerator::blocker_boards(0b101), vec![0, 1, 4, 5]);
    let boards = MoveGenerator::blocker_boards(MoveGenerator::rook_mask(0));
    assert_eq!(boards.len(), 4096);
    for pair in boards.windows(2) {
        assert!(pair[0] < pair[1]);
    }
    assert_eq!(boards[4095], 0x0001_0101_0101_017e);
}

#[test]
fn attack_boards_follow_the_blockers() {
    let blockers = [0u64, 0x0000_0800_2200_0008, u64::MAX];
    assert_eq!(
        MoveGenerator::rook_attack_boards(27, &blockers),
        vec![0x0808_0808_f708_0808, 0x0000_0808_3608_0808, 0x0000_0008_1408_0000]
    );
    assert_eq!(
        MoveGenerator::bishop_attack_boards(0, &blockers),
        vec![0x8040_2010_0804_0200, 0x8040_2010_0804_0200, 0x0000_0000_0000_0200]
    );
}

#[test]
fn magic_index_is_multiply_shift_and_offset() {
    let magic = Magic { mask: 0x0f, shift: 60, offset: 5, nr: 1 << 60 };
    assert_eq!(magic.get_index(0b1010), 15);
    assert_eq!(magic.get_index(0xf0), 5);
    assert_eq!(magic.get_index(0xffff_ffff_ffff_fff3), 8);
    let zero = Magic::default();
    assert_eq!((zero.mask, zero.shift, zero.offset, zero.nr), (0, 0, 0, 0));
}

#[test]
fn table_lookups_agree_with_walking_the_rays() {
    let generator = generator();
    let mut word = 0x9e37_79b9_7f4a_7c15u64;
    for round in 0..2000u64 {
        word = word.wrapping_mul(6364136223846793005).wrapping_add(1442695040888963407);
        let occupancy = word & word.rotate_left(17) | (round << 7);
        let square = (word >> 58) as usize;
        let rook = MoveGenerator::rook_attack(square as u8, occupancy);
        let bishop = MoveGenerator::bishop_attack(square as u8, occupancy);
        assert_eq!(generator.get_slider_attacks(Piece::Rook, square, occupancy), rook);
        assert_eq!(generator.get_slider_attacks(Piece::Bishop, square, occupancy), bishop);
        assert_eq!(generator.get_slider_attacks(Piece::Queen, square, occupancy), rook ^ bishop);
    }
}

#[test]
fn table_lookups_on_the_empty_and_the_full_board() {
    let generator = generator();
    for square in 0..64usize {
        for occupancy in [0u64, u64::MAX] {
            assert_eq!(
                generator.get_slider_attacks(Piece::Rook, square, occupancy),
                MoveGenerator::rook_attack(square as u8, occupancy)
            );
            assert_eq!(
                generator.get_slider_attacks(Piece::Bishop, square, occupancy),
                MoveGenerator::bishop_attack(square as u8, occupancy)
            );
        }
    }
}

#[test]
fn king_knight_and_pawn_tables() {
    let generator = generator();
    assert_eq!(generator.get_non_slider_attacks(Piece::King, 0), 0x302);
    assert_eq!(generator.get_non_slider_attacks(Piece::King, 28), 0x0000_0038_2838_0000);
    assert_eq!(generator.get_non_slider_attacks(Piece::Knight, 0), 0x0002_0400);
    assert_eq!(generator.get_non_slider_attacks(Piece::Knight, 6), 0x00a0_1000);
    assert_eq!(generator.get_non_slider_attacks(Piece::Knight, 27), 0x0000_1422_0022_1400);
    assert_eq!(generator.get_pawn_attacks(8, Color::White), 0x0002_0000);
    assert_eq!(generator.get_pawn_attacks(12, Color::White), 0x0028_0000);
    assert_eq!(generator.get_pawn_attacks(15, Color::White), 0x0040_0000);
    assert_eq!(generator.get_pawn_attacks(52, Color::Black), 0x0000_2800_0000_0000);
    assert_eq!(generator.get_pawn_attacks(48, Color::Black), 0x0000_0200_0000_0000);
    assert_eq!(generator.get_pawn_attacks(60, Color::White), 0);
    assert_eq!(generator.get_pawn_attacks(4, Color::Black), 0);
    for square in 0..64usize {
        assert_eq!(generator.square_bit[square], 1u64 << square);
    }
}

#[test]
fn xray_sees_behind_the_first_blocker() {
    let generator = generator();
    // Rook on a1, pieces on a3 and a6: behind a3 it sees a4, a5 and a6.
    let occupancy = (1u64 << 16) | (1u64 << 40);
    let (xray, attack) = generator.xray_attack(Piece::Rook, 0, occupancy, occupancy);
    assert_eq!(attack, 0x0000_0000_0001_01fe);
    assert_eq!(xray, 0x0000_0101_0100_0000);
    // No blocker among the attacked squares: nothing behind.
    let (nothing, same) = generator.xray_attack(Piece::Rook, 0, 1u64 << 63, occupancy);
    assert_eq!(nothing, 0);
    assert_eq!(same, attack);
}

#[test]
fn shipped_multipliers_are_free_of_collisions() {
    for square in 0..64u8 {
        assert!(is_magic(MoveGenerator::rook_mask(square), ROOK_MAGIC_NR[square as usize]));
        assert!(is_magic(MoveGenerator::bishop_mask(square), BISHOP_MAGIC_NR[square as usize]));
    }
}

#[test]
fn poor_multipliers_are_told_apart() {
    assert!(!is_magic(MoveGenerator::rook_mask(0), 0));
    assert!(!is_magic(MoveGenerator::rook_mask(0), 1));
    assert!(!is_magic(MoveGenerator::bishop_mask(27), u64::MAX));
    // One relevant square on bit 0: the multiplier 2^63 sends it to the top bit.
    assert!(is_magic(1, 1 << 63));
    assert!(!is_magic(1, 1));
}

#[test]
fn a_found_multiplier_is_free_of_collisions() {
    let mask = MoveGenerator::bishop_mask(0);
    if let Some(nr) = find_magic(mask, 200_000) {
        assert!(is_magic(mask, nr));
    }
    assert_eq!(find_magic(mask, 0), None);
    assert_eq!(generate_64_magic_numbers(Piece::Bishop, 0), None);
}

#[test]
fn random_words_can_be_drawn() {
    let first = random_u64_fewbits();
    let second = random_u64_fewbits();
    let third = random_u64_fewbits();
    let fourth = random_u64_fewbits();
    assert!(first != second || second != third || third != fourth || first.count_ones() <= 64);
}

#[test]
fn index_selects_a_subset_of_the_mask() {
    assert_eq!(index_to_uint64(0b101, 3, 0b11010), 0b10010);
    assert_eq!(index_to_uint64(0, 3, 0b11010), 0);
    assert_eq!(index_to_uint64(0b111, 3, 0b11010), 0b11010);
    assert_eq!(index_to_uint64(0b111, 2, 0b11010), 0b01010);
    let mask = MoveGenerator::rook_mask(0);
    let boards = MoveGenerator::blocker_boards(mask);
    for (index, board) in boards.iter().enumerate() {
        assert_eq!(index_to_uint64(index, 12, mask), *board);
    }
}

#[test]
fn sliding_attack_walks_each_ray() {
    let east: [u8; 3] = [1, 2, 3];
    let north: [u8; 3] = [8, 16, 24];
    let rays: [&[u8]; 2] = [&east, &north];
    assert_eq!(sliding_attack(&rays, 0), 0x0101_010e);
    assert_eq!(sliding_attack(&rays, 1 << 2), 0x0101_0106);
    assert_eq!(sliding_attack(&rays, (1 << 1) | (1 << 8)), 0x0000_0102);
    let none: [&[u8]; 0] = [];
    assert_eq!(sliding_attack(&none, u64::MAX), 0);
}

#[test]
fn few_bits_intersects_three_words() {
    assert_eq!(few_bits(0b1110, 0b0111, 0b1101), 0b0100);
    assert_eq!(few_bits(u64::MAX, u64::MAX, u64::MAX), u64::MAX);
    assert_eq!(few_bits(u64::MAX, 0, u64::MAX), 0);
    assert_eq!(
        few_bits(0xff00_ff00_ff00_ff00, 0x0ff0_0ff0_0ff0_0ff0, 0x0f0f_0f0f_0f0f_0f0f),
        0x0f00_0f00_0f00_0f00
    );
}

#[test]
fn no_attempt_finds_no_multiplier() {
    for square in 0..64u8 {
        assert_eq!(find_magic(MoveGenerator::rook_mask(square), 0), None);
        assert_eq!(find_magic(MoveGenerator::bishop_mask(square), 0), None);
    }
    assert_eq!(generate_64_magic_numbers(Piece::Rook, 0), None);
    assert_eq!(generate_64_magic_numbers(Piece::Bishop, 0), None);
}

#[test]
fn tables_are_built_from_given_multipliers() {
    let (magics, table) = init_magic_attacks(Piece::Rook, ROOK_MAGIC_NR).expect("rook tables");
    assert_eq!(table.len(), 102_400);
    assert_eq!(magics[0].mask, 0x0001_0101_0101_017e);
    assert_eq!(magics[0].shift, 52);
    assert_eq!(magics[0].offset, 0);
    assert_eq!(magics[0].nr, ROOK_MAGIC_NR[0]);
    assert_eq!(magics[1].offset, 4096);
    assert_eq!(magics[1].shift, 53);
    assert_eq!(magics[63].offset + 4096, 102_400);
    for slot in &table {
        assert_ne!(*slot, 0);
    }
    let occupancy = 0x0000_0800_2200_0008u64;
    assert_eq!(table[magics[27].get_index(occupancy)], 0x0000_0808_3608_0808);
    let (diagonals, slanted) =
        init_magic_attacks(Piece::Bishop, BISHOP_MAGIC_NR).expect("bishop tables");
    assert_eq!(slanted.len(), 5_248);
    assert_eq!(diagonals[0].shift, 58);
    assert_eq!(diagonals[27].shift, 55);
    assert_eq!(slanted[diagonals[27].get_index(0x0000_2200_0000_0200)], 0x0000_2214_0014_2240);
}

#[test]
fn tables_are_refused_for_poor_multipliers() {
    assert!(init_magic_attacks(Piece::Rook, [0; 64]).is_none());
    assert!(init_magic_attacks(Piece::Bishop, [1; 64]).is_none());
    // The rooks' multipliers do not serve the bishops.
    assert!(init_magic_attacks(Piece::Bishop, ROOK_MAGIC_NR).is_none());
    let mut numbers = ROOK_MAGIC_NR;
    numbers[63] = 0;
    assert!(init_magic_attacks(Piece::Rook, numbers).is_none());
}

#[test]
fn the_default_generator_has_its_tables() {
    let generator = MoveGenerator::default();
    assert_eq!(generator.rook.len(), 102_400);
    assert_eq!(generator.bishop.len(), 5_248);
    assert_eq!(generator.get_slider_attacks(Piece::Rook, 0, 0), 0x0101_0101_0101_01fe);
    assert_eq!(generator.get_slider_attacks(Piece::Bishop, 0, 0), 0x8040_2010_0804_0200);
}

#[test]
fn no_slot_of_the_tables_is_left_empty() {
    let generator = MoveGenerator::new();
    assert!(generator.rook.iter().all(|&attack| attack != 0));
    assert!(generator.bishop.iter().all(|&attack| attack != 0));
    let mut offset = 0;
    for (square, magic) in generator.rook_magics.iter().enumerate() {
        assert_eq!(magic.offset, offset, "square {square}");
        offset += 1u64 << magic.mask.count_ones();
    }
    assert_eq!(offset, 102_400);
}

#[test]
fn every_multiplier_serves_the_empty_set() {
    assert!(is_magic(0, 0));
    assert!(is_magic(0, 1));
    assert!(is_magic(0, u64::MAX));
    assert!(find_magic(0, 1).is_some());
    assert!(find_magic(0, 0).is_none());
}

#[test]
fn a_set_of_more_than_twenty_four_squares_is_hashed() {
    // Twenty-five squares side by side: multiplying by one keeps them
    // apart only where they end at the top of the word.
    assert!(is_magic(0xffff_ff80_0000_0000, 1));
    assert!(!is_magic(0x0000_0000_01ff_ffff, 1));
}
