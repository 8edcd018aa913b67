//! Building the attack tables.

use super::attack::{is_knight_jump, is_neighbor, is_pawn_capture, king_attacks, knight_attacks};
use super::attack::{lemma_line_target, lemma_lines_masked, lemma_lines_nonzero, line_reach};
use super::attack::{line_step, line_target, lines, pawn_attacks, slide, AttackBoards};
use super::mask::{enumerates_subsets, is_subset, lemma_subsets_count, subsets_of, BlockerBoards};
use super::num_to_edge::{bishop_reach, rook_reach};
use super::shipped::{lemma_shipped_multipliers_serve, lemma_table_sizes};
use super::{entry_ok, entry_serves, table_offset, table_ok, table_serves, MoveGenerator};
use crate::wizardry::serve_all;
use crate::bitboard::{bit, count, count_below, count_bits, group_has_bit, has_bit, set_bit};
use crate::bitboard::{lemma_count_empty, lemma_count_one_more, lemma_count_positive, lemma_lsb};
use crate::bitboard::lemma_squares_where;
use crate::bitboard::{lsb, Bitboard};
use crate::board::Board;
use crate::color::Color;
use crate::magic::{is_perfect, magic_hash, magic_nr, magic_shift, Magic, BISHOP_MAGIC_NR};
use crate::magic::ROOK_MAGIC_NR;
use crate::piece::Piece;
use vstd::arithmetic::power2::{lemma2_to64, lemma_pow2_strictly_increases, pow2};
use vstd::bits::lemma_u64_shl_is_mul;
use vstd::pervasive::unreached;
use vstd::relations::injective_on;
use vstd::set_lib::{lemma_int_range, lemma_map_size, lemma_subset_equality, set_int_range};
use vstd::prelude::*;

verus! {

/// A hash that is shifted right by 64 less `bits` lies below two to the power
/// of `bits`.
proof fn lemma_mask_facts(occupancy: u64, mask: u64, product: u64, bits: u64)
    by (bit_vector)
    requires
        1 <= bits <= 31,
    ensures
        (occupancy & mask) & mask == occupancy & mask,
        product >> ((64 - bits) as u64) < (1u64 << bits),
        u64::MAX >> ((64 - bits) as u64) == ((1u64 << bits) - 1) as u64,
        1 <= (1u64 << bits) <= 0x8000_0000,
        bits <= 24 ==> (1u64 << bits) <= 0x100_0000,
{
}

/// The slots of an entry whose shift is 64 less `bits` are the `2^bits`
/// slots from its offset on.
pub proof fn lemma_slot_bounds(magic: Magic, blocker: Bitboard, bits: u64)
    requires
        1 <= bits <= 31,
        magic.shift == 64 - bits,
    ensures
        magic.offset <= magic.slot(blocker) < magic.offset + (1u64 << bits),
        magic.span() == (1u64 << bits) - 1,
        1 <= (1u64 << bits) <= 0x8000_0000,
        bits <= 24 ==> (1u64 << bits) <= 0x100_0000,
{
    let product = (blocker & magic.mask).wrapping_mul(magic.nr);
    lemma_mask_facts(blocker, magic.mask, product, bits);
}

/// A line that is walked adds at most as many squares as it is long.
proof fn lemma_slide_count(
    diagonal: bool,
    square: int,
    direction: int,
    occupancy: Bitboard,
    k: int,
    seen: Bitboard,
)
    requires
        0 <= square < 64,
        0 <= direction < 4,
        1 <= k,
    ensures
        count(
            slide(
                square,
                line_step(diagonal, direction),
                line_reach(diagonal, square, direction, 1),
                occupancy,
                k,
                seen,
            ),
        ) <= count(seen) + if k <= line_reach(diagonal, square, direction, 1) {
            line_reach(diagonal, square, direction, 1) - k + 1
        } else {
            0
        },
    decreases line_reach(diagonal, square, direction, 1) - k + 1,
{
    let step = line_step(diagonal, direction);
    let reach = line_reach(diagonal, square, direction, 1);
    if k <= reach {
        lemma_line_target(diagonal, square, direction, 1, k);
        let t = line_target(square, step, k);
        lemma_count_one_more(seen, t, 64);
        if !has_bit(occupancy, t) {
            lemma_slide_count(diagonal, square, direction, occupancy, k + 1, seen | bit(t));
        }
    }
}

/// The relevant set of a slider has at most six squares for each of the
/// lines counted.
proof fn lemma_relevant_count(diagonal: bool, square: int, directions: int)
    requires
        0 <= square < 64,
        0 <= directions <= 4,
    ensures
        count(lines(diagonal, square, 1, 0, directions)) <= 6 * directions,
    decreases directions,
{
    broadcast use group_has_bit;

    if directions > 0 {
        lemma_relevant_count(diagonal, square, directions - 1);
        lemma_slide_count(
            diagonal,
            square,
            directions - 1,
            0,
            1,
            lines(diagonal, square, 1, 0, directions - 1),
        );
    } else {
        assert(count_below(0, 64) == 0) by {
            lemma_count_empty(64);
        }
    }
}

/// The relevant set of a slider has between one and twenty-four squares.
pub proof fn lemma_relevant_bits(diagonal: bool, square: int)
    requires
        0 <= square < 64,
    ensures
        1 <= count(lines(diagonal, square, 1, 0, 4)) <= 24,
{
    let mask = lines(diagonal, square, 1, 0, 4);
    lemma_relevant_count(diagonal, square, 4);
    lemma_lines_nonzero(diagonal, square, 0);
    lemma_lsb(mask);
    lemma_count_positive(mask, lsb(mask), 64);
}

/// No two blocker sets of a square share a slot: an entry that serves a
/// square with the shipped multiplier keeps two different sets of blockers
/// within the square's relevant squares in different slots, each within the
/// square's own run of slots, which begins behind those of the squares
/// before it and has one slot for every subset of the relevant squares.
/// The slot of a set holds what the slider attacks with those blockers,
/// which is never nothing.
pub proof fn lemma_slots_differ(
    entry: Magic,
    table: Seq<Bitboard>,
    diagonal: bool,
    square: int,
    a: Bitboard,
    b: Bitboard,
)
    requires
        0 <= square < 64,
        entry_ok(entry, table, diagonal, square),
        a & entry.mask == a,
        b & entry.mask == b,
        a != b,
    ensures
        entry.slot(a) != entry.slot(b),
        table_offset(diagonal, square) <= entry.slot(a) < table_offset(diagonal, square + 1),
        table_offset(diagonal, square) <= entry.slot(b) < table_offset(diagonal, square + 1),
        table[entry.slot(a)] == lines(diagonal, square, 0, a, 4),
        table[entry.slot(a)] != 0,
{
    lemma_shipped_multipliers_serve();
    lemma_relevant_bits(diagonal, square);
    lemma_lines_nonzero(diagonal, square, a);
    let bits = count(entry.mask) as u64;
    lemma_slot_bounds(entry, a, bits);
    lemma_slot_bounds(entry, b, bits);
    assert(is_perfect(
        lines(diagonal, square, 1, 0, 4),
        magic_shift(lines(diagonal, square, 1, 0, 4)),
        magic_nr(diagonal, square),
    ));
    assert(magic_hash(entry.mask, entry.shift, entry.nr, a) != magic_hash(
        entry.mask,
        entry.shift,
        entry.nr,
        b,
    ));
}

/// Every slot is used: each slot of the run of a square is the slot of a
/// set of blockers within the square's relevant squares, and holds what
/// the slider attacks with those blockers, which is never nothing. With
/// `lemma_slots_differ`, the slots of a square and the sets of blockers
/// within its relevant squares stand one to one.
pub proof fn lemma_every_slot_is_used(
    entry: Magic,
    table: Seq<Bitboard>,
    diagonal: bool,
    square: int,
    slot: int,
)
    requires
        0 <= square < 64,
        entry_ok(entry, table, diagonal, square),
        table_offset(diagonal, square) <= slot < table_offset(diagonal, square + 1),
    ensures
        exists|a: Bitboard| a & entry.mask == a && #[trigger] entry.slot(a) == slot,
        table[slot] != 0,
{
    lemma_shipped_multipliers_serve();
    lemma_relevant_bits(diagonal, square);
    let mask = entry.mask;
    let bits = count(mask) as u64;
    let subsets = subsets_of(mask);
    let slot_of = |a: Bitboard| entry.slot(a);
    lemma_subsets_count(mask);
    assert(is_perfect(
        lines(diagonal, square, 1, 0, 4),
        magic_shift(lines(diagonal, square, 1, 0, 4)),
        magic_nr(diagonal, square),
    ));
    assert(injective_on(slot_of, subsets)) by {
        assert forall|a: Bitboard, b: Bitboard|
            subsets.contains(a) && subsets.contains(b) && #[trigger] slot_of(a) == #[trigger] slot_of(
                b,
            ) implies a == b by {
            if a != b {
                assert(magic_hash(entry.mask, entry.shift, entry.nr, a) != magic_hash(
                    entry.mask,
                    entry.shift,
                    entry.nr,
                    b,
                ));
            }
        }
    }
    let used = subsets.map(slot_of);
    lemma_map_size(subsets, used, slot_of);
    let first = entry.offset as int;
    let run = set_int_range(first, first + (1u64 << bits));
    lemma_slot_bounds(entry, 0, bits);
    lemma_int_range(first, first + (1u64 << bits));
    assert((1u64 << bits) == pow2(bits as nat)) by {
        lemma_pow2_strictly_increases(bits as nat, 25);
        lemma2_to64();
        lemma_u64_shl_is_mul(1, bits);
    }
    assert(used.subset_of(run)) by {
        assert forall|s: int| used.contains(s) implies run.contains(s) by {
            let a = choose|a: Bitboard| subsets.contains(a) && s == slot_of(a);
            lemma_slot_bounds(entry, a, bits);
        }
    }
    lemma_subset_equality(used, run);
    assert(run.contains(slot));
    assert(used.contains(slot));
    let a = choose|a: Bitboard| subsets.contains(a) && slot == slot_of(a);
    assert(a & entry.mask == a && entry.slot(a) == slot);
    lemma_lines_nonzero(diagonal, square, a);
}

/// The square in whose run a slot of a table lies.
proof fn lemma_run_of(diagonal: bool, slot: int, limit: int) -> (square: int)
    requires
        0 <= limit <= 64,
        0 <= slot < table_offset(diagonal, limit),
    ensures
        0 <= square < limit,
        table_offset(diagonal, square) <= slot < table_offset(diagonal, square + 1),
    decreases limit,
{
    if slot >= table_offset(diagonal, limit - 1) {
        limit - 1
    } else {
        lemma_run_of(diagonal, slot, limit - 1)
    }
}

/// No slot of a table is left empty: in the rook's table and in the
/// bishop's, as a generator with its tables built holds them, every slot is
/// the slot of a set of blockers within the relevant squares of some
/// square, and holds what the slider attacks from there with those
/// blockers.
pub proof fn lemma_tables_are_full(
    magics: Seq<Magic>,
    table: Seq<Bitboard>,
    diagonal: bool,
    slot: int,
)
    requires
        table_ok(magics, table, diagonal),
        table.len() == table_offset(diagonal, 64),
        0 <= slot < table.len(),
    ensures
        exists|square: int, a: Bitboard|
            0 <= square < 64 && a & magics[square].mask == a && #[trigger] magics[square].slot(a)
                == slot && table[slot] == lines(diagonal, square, 0, a, 4),
        table[slot] != 0,
{
    let square = lemma_run_of(diagonal, slot, 64);
    assert(entry_ok(magics[square], table, diagonal, square));
    lemma_every_slot_is_used(magics[square], table, diagonal, square, slot);
    let a = choose|a: Bitboard|
        a & magics[square].mask == a && #[trigger] magics[square].slot(a) == slot;
    assert(table[magics[square].slot(a)] == lines(diagonal, square, 0, a, 4));
}

/// An entry that serves a square on a table serves it on every table that
/// begins with that table.
proof fn lemma_entry_extends(
    entry: Magic,
    shorter: Seq<Bitboard>,
    longer: Seq<Bitboard>,
    diagonal: bool,
    square: int,
    nr: u64,
)
    requires
        entry_serves(entry, shorter, diagonal, square, nr),
        shorter.len() <= longer.len() <= usize::MAX,
        forall|i: int| 0 <= i < shorter.len() ==> longer[i] == shorter[i],
    ensures
        entry_serves(entry, longer, diagonal, square, nr),
{
    assert forall|occupancy: Bitboard|
        longer[#[trigger] entry.slot(occupancy)] == lines(diagonal, square, 0, occupancy, 4) by {
        let product = (occupancy & entry.mask).wrapping_mul(entry.nr);
        let shift = entry.shift as u64;
        assert(product >> shift <= u64::MAX >> shift) by (bit_vector)
            requires
                shift < 64,
        ;
    }
}

/// Adds the square `square_index + capture` to the set when that square is
/// on the board and the file allows it.
fn set_pawn_capture(
    bitboard: &mut Bitboard,
    square_index: i8,
    right_capture: i8,
    left_capture: i8,
    file: u8,
)
    requires
        0 <= square_index < 64,
        file == square_index % 8,
        (right_capture == 7 && left_capture == 9 && square_index < 56) || (right_capture == -9
            && left_capture == -7 && square_index >= 8),
    ensures
        forall|j: int|
            has_bit(*final(bitboard), j) == (has_bit(*old(bitboard), j) || (file != 0 && j
                == square_index + right_capture) || (file != 7 && j == square_index
                + left_capture)),
{
    if file != 0 {
        set_bit(&mut *bitboard, (square_index + right_capture) as u8);
    }
    if file != 7 {
        set_bit(&mut *bitboard, (square_index + left_capture) as u8);
    }
}

/// Adds the square `square_index + offset` to the set when `wanted`.
fn set_neighbor(bitboard: &mut Bitboard, square_index: u8, offset: i8, wanted: bool)
    requires
        square_index < 64,
        wanted ==> 0 <= square_index + offset < 64,
        -9 <= offset <= 9,
    ensures
        forall|j: int|
            has_bit(*final(bitboard), j) == (has_bit(*old(bitboard), j) || (wanted && j
                == square_index + offset)),
{
    if wanted {
        set_bit(&mut *bitboard, (square_index as i8 + offset) as u8);
    }
}

/// Adds the square `square_index + offset` to the set when it is on the
/// board and two ranks or two files away, and no further.
fn set_knight_jump(bitboard: &mut Bitboard, rank: i8, file: i8, offset: i8)
    requires
        0 <= rank < 8,
        0 <= file < 8,
        -17 <= offset <= 17,
    ensures
        forall|j: int|
            has_bit(*final(bitboard), j) == (has_bit(*old(bitboard), j) || (j == rank * 8 + file
                + offset && 0 <= j < 64 && ({
                let ranks = j / 8 - rank;
                let files = j % 8 - file;
                -2 <= ranks <= 2 && -2 <= files <= 2 && (ranks == 2 || ranks == -2 || files == 2
                    || files == -2)
            }))),
{
    let target_square: i8 = rank * 8 + file + offset;
    if 0 <= target_square && target_square < 64 {
        let y: i8 = target_square / 8;
        let x: i8 = target_square - y * 8;
        let files: i8 = if file >= x {
            file - x
        } else {
            x - file
        };
        let ranks: i8 = if rank >= y {
            rank - y
        } else {
            y - rank
        };
        let max_distance: i8 = if files >= ranks {
            files
        } else {
            ranks
        };
        if max_distance == 2 {
            set_bit(&mut *bitboard, target_square as u8);
        }
    }
}

impl MoveGenerator {
    /// A generator with its tables built: the rook's with 102,400 slots,
    /// the bishop's with 5,248. The shipped multipliers serve every square,
    /// so the tables are always built.
    pub fn new() -> (generator: MoveGenerator)
        ensures
            generator.wf(),
            generator.rook@.len() == 102_400,
            generator.bishop@.len() == 5_248,
    {
        let mut move_gen = MoveGenerator {
            king: [0;64],
            pawn: [[0;64];2],
            knight: [0;64],
            rook: Vec::new(),
            bishop: Vec::new(),
            rook_magics: [Magic { mask: 0, shift: 0, offset: 0, nr: 0 };64],
            bishop_magics: [Magic { mask: 0, shift: 0, offset: 0, nr: 0 };64],
            square_bit: [0;64],
            check: false,
            double_check: false,
            pin_rays: [0;64],
            check_ray: 0,
            bb_attack: 0,
        };
        move_gen.init();
        move_gen
    }

    /// Builds every table anew: what the king, the pawns of each side and
    /// the knight attack from each square, the one-square sets, and the
    /// magic entries and attack tables of the rook and of the bishop. No
    /// shipped multiplier lets two blocker sets of one square collide, so
    /// the tables are always built. The check and pin state is left as it
    /// is.
    pub fn init(&mut self)
        ensures
            final(self).wf(),
            final(self).rook@.len() == 102_400,
            final(self).bishop@.len() == 5_248,
            final(self).check == old(self).check,
            final(self).double_check == old(self).double_check,
            final(self).pin_rays == old(self).pin_rays,
            final(self).check_ray == old(self).check_ray,
            final(self).bb_attack == old(self).bb_attack,
    {
        proof {
            lemma_table_sizes();
        }
        self.king = MoveGenerator::init_king();
        self.pawn = MoveGenerator::init_pawn();
        self.knight = MoveGenerator::init_knight();

        let mut square_index: usize = 0;
        while square_index < 64
            invariant
                square_index <= 64,
                forall|s: int| 0 <= s < square_index ==> #[trigger] self.square_bit[s] == bit(s),
                forall|s: int| 0 <= s < 64 ==> #[trigger] self.king[s] == king_attacks(s),
                forall|s: int| 0 <= s < 64 ==> #[trigger] self.knight[s] == knight_attacks(s),
                forall|s: int|
                    0 <= s < 64 ==> #[trigger] self.pawn[0][s] == pawn_attacks(Color::White, s),
                forall|s: int|
                    0 <= s < 64 ==> #[trigger] self.pawn[1][s] == pawn_attacks(Color::Black, s),
                self.check == old(self).check,
                self.double_check == old(self).double_check,
                self.pin_rays == old(self).pin_rays,
                self.check_ray == old(self).check_ray,
                self.bb_attack == old(self).bb_attack,
            decreases 64 - square_index,
        {
            self.square_bit[square_index] = 1u64 << (square_index as u64);
            square_index += 1;
        }

        let (magics, table) = MoveGenerator::init_magic(Piece::Rook);
        self.rook_magics = magics;
        self.rook = table;
        let (magics, table) = MoveGenerator::init_magic(Piece::Bishop);
        self.bishop_magics = magics;
        self.bishop = table;
    }

    /// The squares next to each square.
    fn init_king() -> (king: [Bitboard; 64])
        ensures
            forall|s: int| 0 <= s < 64 ==> #[trigger] king[s] == king_attacks(s),
    {
        let mut king: [Bitboard; 64] = [0;64];
        let mut square_index: u8 = 0;
        while square_index < 64
            invariant
                square_index <= 64,
                forall|s: int| 0 <= s < square_index ==> #[trigger] king[s] == king_attacks(s),
            decreases 64 - square_index,
        {
            let level: [u8; 4] = MoveGenerator::rook_num_to_edge(square_index);
            let diagonal: [u8; 4] = MoveGenerator::bishop_num_to_edge(square_index);
            let mut attack: Bitboard = 0;
            proof {
                broadcast use group_has_bit;

                let s = square_index as int;
                assert(level[0] == rook_reach(s, 0) && level[1] == rook_reach(s, 1));
                assert(level[2] == rook_reach(s, 2) && level[3] == rook_reach(s, 3));
                assert(diagonal[0] == bishop_reach(s, 0) && diagonal[1] == bishop_reach(s, 1));
                assert(diagonal[2] == bishop_reach(s, 2) && diagonal[3] == bishop_reach(s, 3));
            }
            set_neighbor(&mut attack, square_index, 1, level[0] > 0);
            set_neighbor(&mut attack, square_index, 7, diagonal[0] > 0);
            set_neighbor(&mut attack, square_index, 8, level[1] > 0);
            set_neighbor(&mut attack, square_index, 9, diagonal[1] > 0);
            set_neighbor(&mut attack, square_index, -1, level[2] > 0);
            set_neighbor(&mut attack, square_index, -7, diagonal[2] > 0);
            set_neighbor(&mut attack, square_index, -8, level[3] > 0);
            set_neighbor(&mut attack, square_index, -9, diagonal[3] > 0);
            proof {
                let s = square_index as int;
                assert forall|j: int| 0 <= j < 64 implies has_bit(attack, j) == is_neighbor(
                    s,
                    j,
                ) by {}
                lemma_squares_where(attack, |target: int| is_neighbor(s, target));
            }
            king[square_index as usize] = attack;
            square_index += 1;
        }
        king
    }

    /// The squares a pawn of each side attacks from each square.
    fn init_pawn() -> (pawn: [[Bitboard; 64]; 2])
        ensures
            forall|s: int| 0 <= s < 64 ==> #[trigger] pawn[0][s] == pawn_attacks(Color::White, s),
            forall|s: int| 0 <= s < 64 ==> #[trigger] pawn[1][s] == pawn_attacks(Color::Black, s),
    {
        let mut white: [Bitboard; 64] = [0;64];
        let mut black: [Bitboard; 64] = [0;64];
        let mut square_index: u8 = 0;
        while square_index < 64
            invariant
                square_index <= 64,
                forall|s: int|
                    0 <= s < square_index ==> #[trigger] white[s] == pawn_attacks(Color::White, s),
                forall|s: int|
                    0 <= s < square_index ==> #[trigger] black[s] == pawn_attacks(Color::Black, s),
            decreases 64 - square_index,
        {
            let (rank, file) = Board::square_to_rank_file(square_index);
            let mut white_attack: Bitboard = 0;
            let mut black_attack: Bitboard = 0;
            proof {
                broadcast use group_has_bit;

            }
            if square_index < 56 {
                set_pawn_capture(&mut white_attack, square_index as i8, 7, 9, file);
            }
            if square_index >= 8 {
                set_pawn_capture(&mut black_attack, square_index as i8, -9, -7, file);
            }
            proof {
                let s = square_index as int;
                assert forall|j: int| 0 <= j < 64 implies has_bit(white_attack, j)
                    == is_pawn_capture(Color::White, s, j) by {}
                assert forall|j: int| 0 <= j < 64 implies has_bit(black_attack, j)
                    == is_pawn_capture(Color::Black, s, j) by {}
                lemma_squares_where(
                    white_attack,
                    |target: int| is_pawn_capture(Color::White, s, target),
                );
                lemma_squares_where(
                    black_attack,
                    |target: int| is_pawn_capture(Color::Black, s, target),
                );
            }
            white[square_index as usize] = white_attack;
            black[square_index as usize] = black_attack;
            square_index += 1;
        }
        [white, black]
    }

    /// The squares a knight's jump away from each square.
    fn init_knight() -> (knight: [Bitboard; 64])
        ensures
            forall|s: int| 0 <= s < 64 ==> #[trigger] knight[s] == knight_attacks(s),
    {
        let mut knight: [Bitboard; 64] = [0;64];
        let mut square_index: u8 = 0;
        while square_index < 64
            invariant
                square_index <= 64,
                forall|s: int| 0 <= s < square_index ==> #[trigger] knight[s] == knight_attacks(s),
            decreases 64 - square_index,
        {
            let (rank, file) = Board::square_to_rank_file(square_index);
            let rank: i8 = rank as i8;
            let file: i8 = file as i8;
            let mut attack: Bitboard = 0;
            proof {
                broadcast use group_has_bit;

            }
            set_knight_jump(&mut attack, rank, file, 17);
            set_knight_jump(&mut attack, rank, file, 15);
            set_knight_jump(&mut attack, rank, file, 10);
            set_knight_jump(&mut attack, rank, file, 6);
            set_knight_jump(&mut attack, rank, file, -6);
            set_knight_jump(&mut attack, rank, file, -10);
            set_knight_jump(&mut attack, rank, file, -15);
            set_knight_jump(&mut attack, rank, file, -17);
            proof {
                let s = square_index as int;
                assert forall|j: int| 0 <= j < 64 implies has_bit(attack, j) == is_knight_jump(
                    s,
                    j,
                ) by {}
                lemma_squares_where(attack, |target: int| is_knight_jump(s, target));
            }
            knight[square_index as usize] = attack;
            square_index += 1;
        }
        knight
    }

    /// The magic entries and the shared attack table of the rooks or of the
    /// bishops, built with the shipped multipliers.
    fn init_magic(piece: Piece) -> (built: ([Magic; 64], Vec<Bitboard>))
        requires
            piece == Piece::Rook || piece == Piece::Bishop,
        ensures
            table_ok(built.0@, built.1@, piece == Piece::Bishop),
            built.1@.len() == table_offset(piece == Piece::Bishop, 64),
    {
        proof {
            lemma_shipped_multipliers_serve();
        }
        let built = if piece == Piece::Rook {
            init_magic_attacks(piece, ROOK_MAGIC_NR)
        } else {
            init_magic_attacks(piece, BISHOP_MAGIC_NR)
        };
        match built {
            Some(pair) => pair,
            None => unreached(),
        }
    }
}

impl Default for MoveGenerator {
    /// A generator with its tables built.
    fn default() -> (generator: MoveGenerator)
        ensures
            generator.wf(),
            generator.rook@.len() == 102_400,
            generator.bishop@.len() == 5_248,
    {
        MoveGenerator::new()
    }
}

/// The magic entries and the shared attack table of the rooks or of the
/// bishops for a list of multipliers, one for each square: for each square
/// its relevant squares, the shift, the place of its slots behind those of
/// the squares before it, and its multiplier; and in the table, for every
/// blocker set within the relevant squares, what the slider attacks.
/// `None` when a multiplier lets two blocker sets of its square collide.
pub fn init_magic_attacks(piece: Piece, magic_numbers: [u64; 64]) -> (built: Option<
    ([Magic; 64], Vec<Bitboard>),
>)
    requires
        piece == Piece::Rook || piece == Piece::Bishop,
    ensures
        built is Some == serve_all(piece == Piece::Bishop, magic_numbers@, 64),
        built matches Some(pair) ==> table_serves(
            pair.0@,
            pair.1@,
            piece == Piece::Bishop,
            magic_numbers@,
        ),
        built matches Some(pair) ==> pair.1@.len() == table_offset(piece == Piece::Bishop, 64),
{
    let is_rook: bool = piece == Piece::Rook;
    let ghost diagonal = !is_rook;
    let mut offset: u64 = 0;
    let mut magics: [Magic; 64] = [Magic { mask: 0, shift: 0, offset: 0, nr: 0 };64];
    let mut table: Vec<Bitboard> = Vec::new();

    let mut square_index: u8 = 0;
    while square_index < 64
        invariant
            square_index <= 64,
            diagonal == !is_rook,
            diagonal == (piece == Piece::Bishop),
            table@.len() == offset,
            offset == table_offset(diagonal, square_index as int),
            offset <= square_index * 0x100_0000,
            forall|s: int|
                0 <= s < square_index ==> entry_serves(#[trigger] magics[s], table@, diagonal, s, magic_numbers@[s]),
            forall|s: int|
                0 <= s < square_index ==> is_perfect(
                    #[trigger] lines(diagonal, s, 1, 0, 4),
                    magic_shift(lines(diagonal, s, 1, 0, 4)),
                    magic_numbers@[s],
                ),
        decreases 64 - square_index,
    {
        let mask: Bitboard = if is_rook {
            MoveGenerator::rook_mask(square_index)
        } else {
            MoveGenerator::bishop_mask(square_index)
        };
        let bits: u32 = count_bits(mask);
        proof {
            lemma_relevant_bits(diagonal, square_index as int);
            lemma_mask_facts(0, mask, 0, bits as u64);
        }
        let permutations: u64 = 1u64 << bits;

        let blocker_boards: BlockerBoards = MoveGenerator::blocker_boards(mask);
        let attack_boards: AttackBoards = if is_rook {
            MoveGenerator::rook_attack_boards(square_index, blocker_boards.as_slice())
        } else {
            MoveGenerator::bishop_attack_boards(square_index, blocker_boards.as_slice())
        };
        let magic = Magic {
            mask,
            shift: (64 - bits) as u8,
            offset,
            nr: magic_numbers[square_index as usize],
        };
        let ghost before = table@;

        let mut added: u64 = 0;
        while added < permutations
            invariant
                added <= permutations <= 0x100_0000,
                offset <= 63 * 0x100_0000,
                table@.len() == offset + added,
                before.len() == offset,
                forall|i: int| 0 <= i < offset ==> table@[i] == before[i],
                forall|i: int| offset <= i < offset + added ==> table@[i] == 0,
            decreases permutations - added,
        {
            table.push(0);
            added += 1;
        }

        let mut next: usize = 0;
        while next < blocker_boards.len()
            invariant
                square_index < 64,
                next <= blocker_boards@.len(),
                attack_boards@.len() == blocker_boards@.len(),
                enumerates_subsets(blocker_boards@, mask),
                forall|i: int|
                    0 <= i < blocker_boards@.len() ==> attack_boards@[i] == lines(
                        diagonal,
                        square_index as int,
                        0,
                        #[trigger] blocker_boards@[i],
                        4,
                    ),
                magic.mask == mask,
                diagonal == (piece == Piece::Bishop),
                before.len() == offset,
                mask == lines(diagonal, square_index as int, 1, 0, 4),
                magic.shift == 64 - bits,
                magic.shift == magic_shift(mask),
                magic.nr == magic_numbers@[square_index as int],
                magic.offset == offset,
                1 <= bits <= 24,
                permutations == 1u64 << bits,
                permutations <= 0x100_0000,
                offset <= 63 * 0x100_0000,
                table@.len() == offset + permutations,
                forall|i: int| 0 <= i < offset ==> table@[i] == before[i],
                forall|j: int|
                    0 <= j < next ==> table@[#[trigger] magic.slot(blocker_boards@[j])]
                        == attack_boards@[j],
                forall|i: int|
                    offset <= i < offset + permutations && table@[i] != 0 ==> exists|j: int|
                        0 <= j < next && #[trigger] magic.slot(blocker_boards@[j]) == i,
                forall|i: int, j: int|
                    0 <= i < j < next ==> #[trigger] magic.slot(blocker_boards@[i])
                        != #[trigger] magic.slot(blocker_boards@[j]),
            decreases blocker_boards@.len() - next,
        {
            let blocker: Bitboard = blocker_boards[next];
            proof {
                lemma_slot_bounds(magic, blocker, bits as u64);
                lemma_lines_nonzero(diagonal, square_index as int, blocker);
                assert forall|j: int| 0 <= j < blocker_boards@.len() implies offset
                    <= #[trigger] magic.slot(blocker_boards@[j]) < offset + permutations by {
                    lemma_slot_bounds(magic, blocker_boards@[j], bits as u64);
                }
            }
            let index: usize = magic.get_index(blocker);

            if table[index] == 0 {
                let ghost old_table = table@;
                table.set(index, attack_boards[next]);
                proof {
                    assert forall|j: int| 0 <= j < next implies table@[#[trigger] magic.slot(
                        blocker_boards@[j],
                    )] == attack_boards@[j] by {
                        lemma_lines_nonzero(diagonal, square_index as int, blocker_boards@[j]);
                        assert(old_table[magic.slot(blocker_boards@[j])] != 0);
                    }
                    assert forall|i: int|
                        offset <= i < offset + permutations && table@[i]
                            != 0 implies exists|j: int|
                        0 <= j < next + 1 && #[trigger] magic.slot(blocker_boards@[j])
                            == i by {
                        if i == index {
                            assert(magic.slot(blocker_boards@[next as int]) == i);
                        } else {
                            let j = choose|j: int|
                                0 <= j < next && #[trigger] magic.slot(blocker_boards@[j])
                                    == i;
                            assert(magic.slot(blocker_boards@[j]) == i);
                        }
                    }
                    assert forall|i: int, j: int| 0 <= i < j < next + 1 implies #[trigger]
                        magic.slot(blocker_boards@[i]) != #[trigger] magic.slot(
                        blocker_boards@[j],
                    ) by {
                        if j == next {
                            lemma_lines_nonzero(
                                diagonal,
                                square_index as int,
                                blocker_boards@[i],
                            );
                            assert(old_table[magic.slot(blocker_boards@[i])] != 0);
                        }
                    }
                }
            } else {
                proof {
                    let j = choose|j: int|
                        0 <= j < next && #[trigger] magic.slot(blocker_boards@[j]) == index;
                    let a = blocker_boards@[j];
                    let b = blocker_boards@[next as int];
                    assert(is_subset(a, mask) && is_subset(b, mask));
                    assert(a < b);
                    assert(magic_hash(mask, magic.shift, magic.nr, a) == magic_hash(
                        mask,
                        magic.shift,
                        magic.nr,
                        b,
                    ));
                    assert(!is_perfect(mask, magic.shift, magic.nr));
                    assert(mask == lines(diagonal, square_index as int, 1, 0, 4));
                }
                return None;
            }
            next += 1;
        }

        proof {
            let s = square_index as int;
            assert forall|occupancy: Bitboard|
                table@[#[trigger] magic.slot(occupancy)] == lines(
                    diagonal,
                    s,
                    0,
                    occupancy,
                    4,
                ) by {
                let inside = occupancy & mask;
                lemma_mask_facts(occupancy, mask, 0, bits as u64);
                lemma_slot_bounds(magic, inside, bits as u64);
                assert(is_subset(inside, mask));
                let j = choose|j: int|
                    0 <= j < blocker_boards@.len() && blocker_boards@[j] == inside;
                assert(magic.slot(inside) == magic.slot(occupancy));
                assert(table@[magic.slot(blocker_boards@[j])] == attack_boards@[j]);
                lemma_lines_masked(diagonal, s, occupancy, 4);
            }
            lemma_slot_bounds(magic, 0, bits as u64);
            assert(table_offset(diagonal, s + 1) == offset + permutations);
            assert(entry_serves(magic, table@, diagonal, s, magic_numbers@[s]));
            assert forall|a: Bitboard, b: Bitboard|
                a & mask == a && b & mask == b && a != b implies #[trigger] magic_hash(
                mask,
                magic.shift,
                magic.nr,
                a,
            ) != #[trigger] magic_hash(mask, magic.shift, magic.nr, b) by {
                assert(is_subset(a, mask) && is_subset(b, mask));
                let i = choose|i: int|
                    0 <= i < blocker_boards@.len() && blocker_boards@[i] == a;
                let j = choose|j: int|
                    0 <= j < blocker_boards@.len() && blocker_boards@[j] == b;
                if i < j {
                    assert(magic.slot(blocker_boards@[i]) != magic.slot(blocker_boards@[j]));
                } else {
                    assert(magic.slot(blocker_boards@[j]) != magic.slot(blocker_boards@[i]));
                }
            }
            assert forall|earlier: int| 0 <= earlier < square_index implies entry_serves(
                #[trigger] magics[earlier],
                table@,
                diagonal,
                earlier,
                magic_numbers@[earlier],
            ) by {
                lemma_entry_extends(
                    magics[earlier],
                    before,
                    table@,
                    diagonal,
                    earlier,
                    magic_numbers@[earlier],
                );
            }
        }
        magics[square_index as usize] = magic;
        offset += permutations;
        square_index += 1;
    }
    Some((magics, table))
}

} // verus!
