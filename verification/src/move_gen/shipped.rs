//! The shipped multipliers are perfect: for every square, the rook's and
//! the bishop's multiplier hashes the blocker sets within the square's
//! relevant squares without collision, so that the attack tables are always
//! built. Each square's relevant set and multiplier are written out and
//! checked bit by bit.

use super::attack::{line_reach, line_step, line_target, lines, open_between, seen_along, slide};
use super::attack::{lemma_line_target, lemma_slide_members};
use super::num_to_edge::{file_of, lemma_bishop_target, lemma_rook_target, rank_of};
use super::pins::lemma_one_line;
use super::table_offset;
use crate::bitboard::{bit, count, group_has_bit, has_bit, lemma_count_empty};
use crate::bitboard::{lemma_count_one_less, lemma_same_members, Bitboard};
use crate::magic::{is_perfect, magic_shift, BISHOP_MAGIC_NR, ROOK_MAGIC_NR};
use crate::wizardry::serve_all;
use vstd::prelude::*;

verus! {

/// Whether the occupancy of `target` matters to a rook or a bishop on
/// `square`: it lies on one of the piece's lines, and it is not the last
/// square of the line, on the edge of the board.
pub open spec fn relevant(diagonal: bool, square: int, target: int) -> bool {
    let ranks = rank_of(target) - rank_of(square);
    let files = file_of(target) - file_of(square);
    &&& 0 <= target < 64
    &&& target != square
    &&& if diagonal {
        (ranks == files || ranks == -files) && 1 <= rank_of(target) <= 6 && 1 <= file_of(target)
            <= 6
    } else {
        (files == 0 && 1 <= rank_of(target) <= 6) || (ranks == 0 && 1 <= file_of(target) <= 6)
    }
}

/// What the first lines of a slider hold when each is cut short by its
/// last square and nothing stands in the way: every square within reach.
proof fn lemma_trimmed_members(diagonal: bool, square: int, directions: int, target: int)
    requires
        0 <= square < 64,
        0 <= directions <= 4,
    ensures
        has_bit(lines(diagonal, square, 1, 0, directions), target) == exists|
            direction: int,
            k: int,
        |
            0 <= direction < directions && 1 <= k <= line_reach(diagonal, square, direction, 1)
                && target == #[trigger] line_target(square, line_step(diagonal, direction), k),
    decreases directions,
{
    broadcast use group_has_bit;

    if directions > 0 {
        let last = directions - 1;
        let step = line_step(diagonal, last);
        let reach = line_reach(diagonal, square, last, 1);
        let seen = lines(diagonal, square, 1, 0, last);
        lemma_trimmed_members(diagonal, square, last, target);
        assert forall|j: int| 1 <= j <= reach implies 0 <= #[trigger] line_target(square, step, j)
            < 64 by {
            lemma_line_target(diagonal, square, last, 1, j);
        }
        lemma_slide_members(square, step, reach, 0, 1, seen, target);
        if seen_along(square, step, reach, 0, 1, target) {
            let j = choose|j: int|
                1 <= j <= reach && target == #[trigger] line_target(square, step, j)
                    && open_between(square, step, 0, 1, j);
            assert(target == line_target(square, line_step(diagonal, last), j));
        }
        if exists|direction: int, k: int|
            0 <= direction < directions && 1 <= k <= line_reach(diagonal, square, direction, 1)
                && target == #[trigger] line_target(square, line_step(diagonal, direction), k) {
            let (direction, k) = choose|direction: int, k: int|
                0 <= direction < directions && 1 <= k <= line_reach(
                    diagonal,
                    square,
                    direction,
                    1,
                ) && target == #[trigger] line_target(square, line_step(diagonal, direction), k);
            if direction == last {
                assert(open_between(square, step, 0, 1, k));
                assert(seen_along(square, step, reach, 0, 1, target));
            } else {
                assert(target == line_target(square, line_step(diagonal, direction), k));
            }
        }
    }
}

/// The relevant squares of a slider are those whose occupancy matters to
/// it.
pub proof fn lemma_relevant_members(diagonal: bool, square: int, target: int)
    requires
        0 <= square < 64,
    ensures
        has_bit(lines(diagonal, square, 1, 0, 4), target) == relevant(diagonal, square, target),
{
    lemma_trimmed_members(diagonal, square, 4, target);
    let rank = rank_of(square);
    let file = file_of(square);
    if has_bit(lines(diagonal, square, 1, 0, 4), target) {
        let (direction, k) = choose|direction: int, k: int|
            0 <= direction < 4 && 1 <= k <= line_reach(diagonal, square, direction, 1) && target
                == #[trigger] line_target(square, line_step(diagonal, direction), k);
        if diagonal {
            lemma_bishop_target(square, direction, k);
        } else {
            lemma_rook_target(square, direction, k);
        }
        assert(relevant(diagonal, square, target));
    }
    if relevant(diagonal, square, target) {
        let ranks = rank_of(target) - rank;
        let files = file_of(target) - file;
        let direction = if diagonal {
            if ranks > 0 {
                if files < 0 {
                    0int
                } else {
                    1
                }
            } else if files > 0 {
                2
            } else {
                3
            }
        } else if ranks == 0 {
            if files > 0 {
                0int
            } else {
                2
            }
        } else if ranks > 0 {
            1
        } else {
            3
        };
        let k = if ranks != 0 {
            if ranks > 0 {
                ranks
            } else {
                -ranks
            }
        } else if files > 0 {
            files
        } else {
            -files
        };
        assert(target == 8 * rank_of(target) + file_of(target));
        assert(square == 8 * rank + file);
        let step = line_step(diagonal, direction);
        assert(target - square == 8 * ranks + files);
        assert(k * step == 8 * ranks + files) by {
            if diagonal {
                if direction == 0 {
                    assert(step == 7 && k == ranks && files == -ranks);
                } else if direction == 1 {
                    assert(step == 9 && k == ranks && files == ranks);
                } else if direction == 2 {
                    assert(step == -7 && k == -ranks && files == -ranks);
                } else {
                    assert(step == -9 && k == -ranks && files == ranks);
                }
            } else {
                if direction == 0 {
                    assert(step == 1 && k == files && ranks == 0);
                } else if direction == 1 {
                    assert(step == 8 && k == ranks && files == 0);
                } else if direction == 2 {
                    assert(step == -1 && k == -files && ranks == 0);
                } else {
                    assert(step == -8 && k == -ranks && files == 0);
                }
            }
        }
        assert(1 <= k <= line_reach(diagonal, square, direction, 1));
        assert(target == line_target(square, step, k));
    }
}

/// `relevant`, in operations on words.
pub open spec fn relevant_bits(diagonal: bool, square: u64, j: u64) -> bool {
    if diagonal {
        j != square && (((j >> 3) + (square & 7) == (j & 7) + (square >> 3)) || ((j >> 3) + (j & 7)
            == (square >> 3) + (square & 7))) && 1 <= j >> 3 && j >> 3 <= 6 && 1 <= j & 7 && j & 7
            <= 6
    } else {
        ((j & 7 == square & 7) && (j >> 3 != square >> 3) && 1 <= j >> 3 && j >> 3 <= 6) || ((j
            >> 3 == square >> 3) && (j & 7 != square & 7) && 1 <= j & 7 && j & 7 <= 6)
    }
}

/// The rank and the file of a square, in operations on words.
proof fn lemma_rank_and_file(j: u64)
    requires
        j < 64,
    ensures
        j >> 3 == rank_of(j as int),
        j & 7 == file_of(j as int),
{
    assert(j >> 3 == j / 8 && j & 7 == j % 8) by (bit_vector)
        requires
            j < 64,
    ;
}

/// Whether a multiplier serves a square for a rook or a bishop: it hashes
/// the blocker sets within the square's relevant squares without collision.
pub open spec fn served(diagonal: bool, square: int, nr: u64) -> bool {
    is_perfect(lines(diagonal, square, 1, 0, 4), magic_shift(lines(diagonal, square, 1, 0, 4)), nr)
}

/// Whether the multipliers of a list serve the eight squares of a rank.
pub open spec fn rank_served(diagonal: bool, numbers: Seq<u64>, rank: int) -> bool {
    forall|square: int|
        8 * rank <= square < 8 * rank + 8 ==> #[trigger] served(diagonal, square, numbers[square])
}

/// A square that is added to a set adds one to the number of its members.
proof fn lemma_count_added(a: Bitboard, s: int)
    requires
        0 <= s < 64,
        !has_bit(a, s),
    ensures
        count(a | bit(s)) == count(a) + 1,
{
    broadcast use group_has_bit;

    lemma_count_one_less(a | bit(s), s, 64);
    lemma_same_members((a | bit(s)) & !bit(s), a);
}

/// A line that is walked over an empty board adds each of its squares, if
/// none of them was seen before.
proof fn lemma_trimmed_line_count(
    diagonal: bool,
    square: int,
    direction: int,
    k: int,
    seen: Bitboard,
)
    requires
        0 <= square < 64,
        0 <= direction < 4,
        1 <= k,
        forall|j: int|
            k <= j <= line_reach(diagonal, square, direction, 1) ==> !has_bit(
                seen,
                #[trigger] line_target(square, line_step(diagonal, direction), j),
            ),
    ensures
        count(
            slide(
                square,
                line_step(diagonal, direction),
                line_reach(diagonal, square, direction, 1),
                0,
                k,
                seen,
            ),
        ) == count(seen) + if k <= line_reach(diagonal, square, direction, 1) {
            line_reach(diagonal, square, direction, 1) - k + 1
        } else {
            0
        },
    decreases line_reach(diagonal, square, direction, 1) - k + 1,
{
    broadcast use group_has_bit;

    let step = line_step(diagonal, direction);
    let reach = line_reach(diagonal, square, direction, 1);
    if k <= reach {
        lemma_line_target(diagonal, square, direction, 1, k);
        let t = line_target(square, step, k);
        lemma_count_added(seen, t);
        assert forall|j: int| k + 1 <= j <= reach implies !has_bit(
            seen | bit(t),
            #[trigger] line_target(square, step, j),
        ) by {
            lemma_line_target(diagonal, square, direction, 1, j);
            assert(line_target(square, step, j) != t);
        }
        lemma_trimmed_line_count(diagonal, square, direction, k + 1, seen | bit(t));
    }
}

/// The number of squares on the first lines of a slider, each cut short by
/// its last square.
pub open spec fn trimmed_reach(diagonal: bool, square: int, directions: int) -> int
    decreases directions,
{
    if directions <= 0 {
        0
    } else {
        trimmed_reach(diagonal, square, directions - 1) + line_reach(
            diagonal,
            square,
            directions - 1,
            1,
        )
    }
}

/// The first lines of a slider, each cut short by its last square, hold as
/// many squares as they are long.
proof fn lemma_trimmed_count(diagonal: bool, square: int, directions: int)
    requires
        0 <= square < 64,
        0 <= directions <= 4,
    ensures
        count(lines(diagonal, square, 1, 0, directions)) == trimmed_reach(
            diagonal,
            square,
            directions,
        ),
    decreases directions,
{
    if directions > 0 {
        let last = directions - 1;
        let step = line_step(diagonal, last);
        let reach = line_reach(diagonal, square, last, 1);
        let seen = lines(diagonal, square, 1, 0, last);
        lemma_trimmed_count(diagonal, square, last);
        assert forall|j: int| 1 <= j <= reach implies !has_bit(
            seen,
            #[trigger] line_target(square, step, j),
        ) by {
            let t = line_target(square, step, j);
            lemma_trimmed_members(diagonal, square, last, t);
            if has_bit(seen, t) {
                let (direction, k) = choose|direction: int, k: int|
                    0 <= direction < last && 1 <= k <= line_reach(diagonal, square, direction, 1)
                        && t == #[trigger] line_target(square, line_step(diagonal, direction), k);
                lemma_one_line(diagonal, diagonal, square, last, j, direction, k);
            }
        }
        lemma_trimmed_line_count(diagonal, square, last, 1, seen);
    } else {
        lemma_count_empty(64);
    }
}

/// The number of squares whose occupancy matters to a slider on `square`:
/// the lengths of its four lines, each less its last square.
pub open spec fn relevant_count(diagonal: bool, square: int) -> int {
    line_reach(diagonal, square, 0, 1) + line_reach(diagonal, square, 1, 1) + line_reach(
        diagonal,
        square,
        2,
        1,
    ) + line_reach(diagonal, square, 3, 1)
}

/// The relevant set of a slider has as many squares as its four lines are
/// long, each less its last square.
pub proof fn lemma_relevant_count(diagonal: bool, square: int)
    requires
        0 <= square < 64,
    ensures
        count(lines(diagonal, square, 1, 0, 4)) == relevant_count(diagonal, square),
{
    reveal_with_fuel(trimmed_reach, 5);
    lemma_trimmed_count(diagonal, square, 4);
}

/// A multiplier that is perfect for a word serves the square whose
/// relevant squares the word holds.
proof fn lemma_square_served(diagonal: bool, square: u64, mask: u64, shift: u8, nr: u64)
    requires
        square < 64,
        forall|j: u64|
            j < 64 ==> (#[trigger] (mask >> j) & 1 == 1) == relevant_bits(diagonal, square, j),
        relevant_count(diagonal, square as int) == 64 - shift,
        is_perfect(mask, shift, nr),
    ensures
        served(diagonal, square as int, nr),
{
    let relevant_set = lines(diagonal, square as int, 1, 0, 4);
    lemma_rank_and_file(square);
    assert forall|t: int| 0 <= t < 64 implies has_bit(relevant_set, t) == has_bit(mask, t) by {
        let j = t as u64;
        lemma_relevant_members(diagonal, square as int, t);
        lemma_rank_and_file(j);
        assert(((mask >> j) & 1 == 1) == relevant_bits(diagonal, square, j));
    }
    lemma_same_members(relevant_set, mask);
    lemma_relevant_count(diagonal, square as int);
}

/// The rook's multipliers serve the squares of the first rank.
proof fn lemma_rooks_on_rank_1()
    ensures
        rank_served(false, ROOK_MAGIC_NR@, 0),
{
    assert(
        (forall|j: u64|
            j < 64 ==> (#[trigger] (0x000101010101017eu64 >> j) & 1 == 1)
                == (((j & 7 == 0u64 & 7) && (j >> 3 != 0u64 >> 3) && 1 <= j >> 3 && j >> 3 <= 6)
                    || ((j >> 3 == 0u64 >> 3) && (j & 7 != 0u64 & 7) && 1 <= j & 7 && j & 7 <= 6)))
        && (forall|a: u64, b: u64|
            a & 0x000101010101017eu64 == a && b & 0x000101010101017eu64 == b && a != b
                ==> (a & 0x000101010101017eu64).wrapping_mul(0x0280002280534000u64) >> 52u64
                != (b & 0x000101010101017eu64).wrapping_mul(0x0280002280534000u64) >> 52u64)
        && (forall|j: u64|
            j < 64 ==> (#[trigger] (0x000202020202027cu64 >> j) & 1 == 1)
                == (((j & 7 == 1u64 & 7) && (j >> 3 != 1u64 >> 3) && 1 <= j >> 3 && j >> 3 <= 6)
                    || ((j >> 3 == 1u64 >> 3) && (j & 7 != 1u64 & 7) && 1 <= j & 7 && j & 7 <= 6)))
        && (forall|a: u64, b: u64|
            a & 0x000202020202027cu64 == a && b & 0x000202020202027cu64 == b && a != b
                ==> (a & 0x000202020202027cu64).wrapping_mul(0x04c00b3000200040u64) >> 53u64
                != (b & 0x000202020202027cu64).wrapping_mul(0x04c00b3000200040u64) >> 53u64)
        && (forall|j: u64|
            j < 64 ==> (#[trigger] (0x000404040404047au64 >> j) & 1 == 1)
                == (((j & 7 == 2u64 & 7) && (j >> 3 != 2u64 >> 3) && 1 <= j >> 3 && j >> 3 <= 6)
                    || ((j >> 3 == 2u64 >> 3) && (j & 7 != 2u64 & 7) && 1 <= j & 7 && j & 7 <= 6)))
        && (forall|a: u64, b: u64|
            a & 0x000404040404047au64 == a && b & 0x000404040404047au64 == b && a != b
                ==> (a & 0x000404040404047au64).wrapping_mul(0x1080200008100082u64) >> 53u64
                != (b & 0x000404040404047au64).wrapping_mul(0x1080200008100082u64) >> 53u64)
        && (forall|j: u64|
            j < 64 ==> (#[trigger] (0x0008080808080876u64 >> j) & 1 == 1)
                == (((j & 7 == 3u64 & 7) && (j >> 3 != 3u64 >> 3) && 1 <= j >> 3 && j >> 3 <= 6)
                    || ((j >> 3 == 3u64 >> 3) && (j & 7 != 3u64 & 7) && 1 <= j & 7 && j & 7 <= 6)))
        && (forall|a: u64, b: u64|
            a & 0x0008080808080876u64 == a && b & 0x0008080808080876u64 == b && a != b
                ==> (a & 0x0008080808080876u64).wrapping_mul(0x058008021000800cu64) >> 53u64
                != (b & 0x0008080808080876u64).wrapping_mul(0x058008021000800cu64) >> 53u64)
        && (forall|j: u64|
            j < 64 ==> (#[trigger] (0x001010101010106eu64 >> j) & 1 == 1)
                == (((j & 7 == 4u64 & 7) && (j >> 3 != 4u64 >> 3) && 1 <= j >> 3 && j >> 3 <= 6)
                    || ((j >> 3 == 4u64 >> 3) && (j & 7 != 4u64 & 7) && 1 <= j & 7 && j & 7 <= 6)))
        && (forall|a: u64, b: u64|
            a & 0x001010101010106eu64 == a && b & 0x001010101010106eu64 == b && a != b
                ==> (a & 0x001010101010106eu64).wrapping_mul(0x0c800c0022800800u64) >> 53u64
                != (b & 0x001010101010106eu64).wrapping_mul(0x0c800c0022800800u64) >> 53u64)
        && (forall|j: u64|
            j < 64 ==> (#[trigger] (0x002020202020205eu64 >> j) & 1 == 1)
                == (((j & 7 == 5u64 & 7) && (j >> 3 != 5u64 >> 3) && 1 <= j >> 3 && j >> 3 <= 6)
                    || ((j >> 3 == 5u64 >> 3) && (j & 7 != 5u64 & 7) && 1 <= j & 7 && j & 7 <= 6)))
        && (forall|a: u64, b: u64|
            a & 0x002020202020205eu64 == a && b & 0x002020202020205eu64 == b && a != b
                ==> (a & 0x002020202020205eu64).wrapping_mul(0x0100040042210008u64) >> 53u64
                != (b & 0x002020202020205eu64).wrapping_mul(0x0100040042210008u64) >> 53u64)
        && (forall|j: u64|
            j < 64 ==> (#[trigger] (0x004040404040403eu64 >> j) & 1 == 1)
                == (((j & 7 == 6u64 & 7) && (j >> 3 != 6u64 >> 3) && 1 <= j >> 3 && j >> 3 <= 6)
                    || ((j >> 3 == 6u64 >> 3) && (j & 7 != 6u64 & 7) && 1 <= j & 7 && j & 7 <= 6)))
        && (forall|a: u64, b: u64|
            a & 0x004040404040403eu64 == a && b & 0x004040404040403eu64 == b && a != b
                ==> (a & 0x004040404040403eu64).wrapping_mul(0x0a80428022000100u64) >> 53u64
                != (b & 0x004040404040403eu64).wrapping_mul(0x0a80428022000100u64) >> 53u64)
        && (forall|j: u64|
            j < 64 ==> (#[trigger] (0x008080808080807eu64 >> j) & 1 == 1)
                == (((j & 7 == 7u64 & 7) && (j >> 3 != 7u64 >> 3) && 1 <= j >> 3 && j >> 3 <= 6)
                    || ((j >> 3 == 7u64 >> 3) && (j & 7 != 7u64 & 7) && 1 <= j & 7 && j & 7 <= 6)))
        && (forall|a: u64, b: u64|
            a & 0x008080808080807eu64 == a && b & 0x008080808080807eu64 == b && a != b
                ==> (a & 0x008080808080807eu64).wrapping_mul(0x0200020400844021u64) >> 52u64
                != (b & 0x008080808080807eu64).wrapping_mul(0x0200020400844021u64) >> 52u64)
    ) by (bit_vector);
    assert(is_perfect(0x000101010101017eu64, 52u8, 0x0280002280534000u64));
    lemma_square_served(false, 0u64, 0x000101010101017eu64, 52u8, 0x0280002280534000u64);
    assert(is_perfect(0x000202020202027cu64, 53u8, 0x04c00b3000200040u64));
    lemma_square_served(false, 1u64, 0x000202020202027cu64, 53u8, 0x04c00b3000200040u64);
    assert(is_perfect(0x000404040404047au64, 53u8, 0x1080200008100082u64));
    lemma_square_served(false, 2u64, 0x000404040404047au64, 53u8, 0x1080200008100082u64);
    assert(is_perfect(0x0008080808080876u64, 53u8, 0x058008021000800cu64));
    lemma_square_served(false, 3u64, 0x0008080808080876u64, 53u8, 0x058008021000800cu64);
    assert(is_perfect(0x001010101010106eu64, 53u8, 0x0c800c0022800800u64));
    lemma_square_served(false, 4u64, 0x001010101010106eu64, 53u8, 0x0c800c0022800800u64);
    assert(is_perfect(0x002020202020205eu64, 53u8, 0x0100040042210008u64));
    lemma_square_served(false, 5u64, 0x002020202020205eu64, 53u8, 0x0100040042210008u64);
    assert(is_perfect(0x004040404040403eu64, 53u8, 0x0a80428022000100u64));
    lemma_square_served(false, 6u64, 0x004040404040403eu64, 53u8, 0x0a80428022000100u64);
    assert(is_perfect(0x008080808080807eu64, 52u8, 0x0200020400844021u64));
    lemma_square_served(false, 7u64, 0x008080808080807eu64, 52u8, 0x0200020400844021u64);
}

/// The rook's multipliers serve the squares of the second rank.
proof fn lemma_rooks_on_rank_2()
    ensures
        rank_served(false, ROOK_MAGIC_NR@, 1),
{
    assert(
        (forall|j: u64|
            j < 64 ==> (#[trigger] (0x0001010101017e00u64 >> j) & 1 == 1)
                == (((j & 7 == 8u64 & 7) && (j >> 3 != 8u64 >> 3) && 1 <= j >> 3 && j >> 3 <= 6)
                    || ((j >> 3 == 8u64 >> 3) && (j & 7 != 8u64 & 7) && 1 <= j & 7 && j & 7 <= 6)))
        && (forall|a: u64, b: u64|
            a & 0x0001010101017e00u64 == a && b & 0x0001010101017e00u64 == b && a != b
                ==> (a & 0x0001010101017e00u64).wrapping_mul(0x41888000c0018028u64) >> 53u64
                != (b & 0x0001010101017e00u64).wrapping_mul(0x41888000c0018028u64) >> 53u64)
        && (forall|j: u64|
            j < 64 ==> (#[trigger] (0x0002020202027c00u64 >> j) & 1 == 1)
                == (((j & 7 == 9u64 & 7) && (j >> 3 != 9u64 >> 3) && 1 <= j >> 3 && j >> 3 <= 6)
                    || ((j >> 3 == 9u64 >> 3) && (j & 7 != 9u64 & 7) && 1 <= j & 7 && j & 7 <= 6)))
        && (forall|a: u64, b: u64|
            a & 0x0002020202027c00u64 == a && b & 0x0002020202027c00u64 == b && a != b
                ==> (a & 0x0002020202027c00u64).wrapping_mul(0x1483401000402000u64) >> 54u64
                != (b & 0x0002020202027c00u64).wrapping_mul(0x1483401000402000u64) >> 54u64)
        && (forall|j: u64|
            j < 64 ==> (#[trigger] (0x0004040404047a00u64 >> j) & 1 == 1)
                == (((j & 7 == 10u64 & 7) && (j >> 3 != 10u64 >> 3) && 1 <= j >> 3 && j >> 3 <= 6)
                    || ((j >> 3 == 10u64 >> 3) && (j & 7 != 10u64 & 7) && 1 <= j & 7 && j & 7 <= 6)))
        && (forall|a: u64, b: u64|
            a & 0x0004040404047a00u64 == a && b & 0x0004040404047a00u64 == b && a != b
                ==> (a & 0x0004040404047a00u64).wrapping_mul(0x0d50802000900480u64) >> 54u64
                != (b & 0x0004040404047a00u64).wrapping_mul(0x0d50802000900480u64) >> 54u64)
        && (forall|j: u64|
            j < 64 ==> (#[trigger] (0x0008080808087600u64 >> j) & 1 == 1)
                == (((j & 7 == 11u64 & 7) && (j >> 3 != 11u64 >> 3) && 1 <= j >> 3 && j >> 3 <= 6)
                    || ((j >> 3 == 11u64 >> 3) && (j & 7 != 11u64 & 7) && 1 <= j & 7 && j & 7 <= 6)))
        && (forall|a: u64, b: u64|
            a & 0x0008080808087600u64 == a && b & 0x0008080808087600u64 == b && a != b
                ==> (a & 0x0008080808087600u64).wrapping_mul(0x8801000900201004u64) >> 54u64
                != (b & 0x0008080808087600u64).wrapping_mul(0x8801000900201004u64) >> 54u64)
        && (forall|j: u64|
            j < 64 ==> (#[trigger] (0x0010101010106e00u64 >> j) & 1 == 1)
                == (((j & 7 == 12u64 & 7) && (j >> 3 != 12u64 >> 3) && 1 <= j >> 3 && j >> 3 <= 6)
                    || ((j >> 3 == 12u64 >> 3) && (j & 7 != 12u64 & 7) && 1 <= j & 7 && j & 7 <= 6)))
        && (forall|a: u64, b: u64|
            a & 0x0010101010106e00u64 == a && b & 0x0010101010106e00u64 == b && a != b
                ==> (a & 0x0010101010106e00u64).wrapping_mul(0x5100804400801800u64) >> 54u64
                != (b & 0x0010101010106e00u64).wrapping_mul(0x5100804400801800u64) >> 54u64)
        && (forall|j: u64|
            j < 64 ==> (#[trigger] (0x0020202020205e00u64 >> j) & 1 == 1)
                == (((j & 7 == 13u64 & 7) && (j >> 3 != 13u64 >> 3) && 1 <= j >> 3 && j >> 3 <= 6)
                    || ((j >> 3 == 13u64 >> 3) && (j & 7 != 13u64 & 7) && 1 <= j & 7 && j & 7 <= 6)))
        && (forall|a: u64, b: u64|
            a & 0x0020202020205e00u64 == a && b & 0x0020202020205e00u64 == b && a != b
                ==> (a & 0x0020202020205e00u64).wrapping_mul(0x0202000502001890u64) >> 54u64
                != (b & 0x0020202020205e00u64).wrapping_mul(0x0202000502001890u64) >> 54u64)
        && (forall|j: u64|
            j < 64 ==> (#[trigger] (0x0040404040403e00u64 >> j) & 1 == 1)
                == (((j & 7 == 14u64 & 7) && (j >> 3 != 14u64 >> 3) && 1 <= j >> 3 && j >> 3 <= 6)
                    || ((j >> 3 == 14u64 >> 3) && (j & 7 != 14u64 & 7) && 1 <= j & 7 && j & 7 <= 6)))
        && (forall|a: u64, b: u64|
            a & 0x0040404040403e00u64 == a && b & 0x0040404040403e00u64 == b && a != b
                ==> (a & 0x0040404040403e00u64).wrapping_mul(0x0022000a00030804u64) >> 54u64
                != (b & 0x0040404040403e00u64).wrapping_mul(0x0022000a00030804u64) >> 54u64)
        && (forall|j: u64|
            j < 64 ==> (#[trigger] (0x0080808080807e00u64 >> j) & 1 == 1)
                == (((j & 7 == 15u64 & 7) && (j >> 3 != 15u64 >> 3) && 1 <= j >> 3 && j >> 3 <= 6)
                    || ((j >> 3 == 15u64 >> 3) && (j & 7 != 15u64 & 7) && 1 <= j & 7 && j & 7 <= 6)))
        && (forall|a: u64, b: u64|
            a & 0x0080808080807e00u64 == a && b & 0x0080808080807e00u64 == b && a != b
                ==> (a & 0x0080808080807e00u64).wrapping_mul(0x4002800441001080u64) >> 53u64
                != (b & 0x0080808080807e00u64).wrapping_mul(0x4002800441001080u64) >> 53u64)
    ) by (bit_vector);
    assert(is_perfect(0x0001010101017e00u64, 53u8, 0x41888000c0018028u64));
    lemma_square_served(false, 8u64, 0x0001010101017e00u64, 53u8, 0x41888000c0018028u64);
    assert(is_perfect(0x0002020202027c00u64, 54u8, 0x1483401000402000u64));
    lemma_square_served(false, 9u64, 0x0002020202027c00u64, 54u8, 0x1483401000402000u64);
    assert(is_perfect(0x0004040404047a00u64, 54u8, 0x0d50802000900480u64));
    lemma_square_served(false, 10u64, 0x0004040404047a00u64, 54u8, 0x0d50802000900480u64);
    assert(is_perfect(0x0008080808087600u64, 54u8, 0x8801000900201004u64));
    lemma_square_served(false, 11u64, 0x0008080808087600u64, 54u8, 0x8801000900201004u64);
    assert(is_perfect(0x0010101010106e00u64, 54u8, 0x5100804400801800u64));
    lemma_square_served(false, 12u64, 0x0010101010106e00u64, 54u8, 0x5100804400801800u64);
    assert(is_perfect(0x0020202020205e00u64, 54u8, 0x0202000502001890u64));
    lemma_square_served(false, 13u64, 0x0020202020205e00u64, 54u8, 0x0202000502001890u64);
    assert(is_perfect(0x0040404040403e00u64, 54u8, 0x0022000a00030804u64));
    lemma_square_served(false, 14u64, 0x0040404040403e00u64, 54u8, 0x0022000a00030804u64);
    assert(is_perfect(0x0080808080807e00u64, 53u8, 0x4002800441001080u64));
    lemma_square_served(false, 15u64, 0x0080808080807e00u64, 53u8, 0x4002800441001080u64);
}

/// The rook's multipliers serve the squares of the third rank.
proof fn lemma_rooks_on_rank_3()
    ensures
        rank_served(false, ROOK_MAGIC_NR@, 2),
{
    assert(
        (forall|j: u64|
            j < 64 ==> (#[trigger] (0x00010101017e0100u64 >> j) & 1 == 1)
                == (((j & 7 == 16u64 & 7) && (j >> 3 != 16u64 >> 3) && 1 <= j >> 3 && j >> 3 <= 6)
                    || ((j >> 3 == 16u64 >> 3) && (j & 7 != 16u64 & 7) && 1 <= j & 7 && j & 7 <= 6)))
        && (forall|a: u64, b: u64|
            a & 0x00010101017e0100u64 == a && b & 0x00010101017e0100u64 == b && a != b
                ==> (a & 0x00010101017e0100u64).wrapping_mul(0x0880004000200251u64) >> 53u64
                != (b & 0x00010101017e0100u64).wrapping_mul(0x0880004000200251u64) >> 53u64)
        && (forall|j: u64|
            j < 64 ==> (#[trigger] (0x00020202027c0200u64 >> j) & 1 == 1)
                == (((j & 7 == 17u64 & 7) && (j >> 3 != 17u64 >> 3) && 1 <= j >> 3 && j >> 3 <= 6)
                    || ((j >> 3 == 17u64 >> 3) && (j & 7 != 17u64 & 7) && 1 <= j & 7 && j & 7 <= 6)))
        && (forall|a: u64, b: u64|
            a & 0x00020202027c0200u64 == a && b & 0x00020202027c0200u64 == b && a != b
                ==> (a & 0x00020202027c0200u64).wrapping_mul(0x800202004081006cu64) >> 54u64
                != (b & 0x00020202027c0200u64).wrapping_mul(0x800202004081006cu64) >> 54u64)
        && (forall|j: u64|
            j < 64 ==> (#[trigger] (0x00040404047a0400u64 >> j) & 1 == 1)
                == (((j & 7 == 18u64 & 7) && (j >> 3 != 18u64 >> 3) && 1 <= j >> 3 && j >> 3 <= 6)
                    || ((j >> 3 == 18u64 >> 3) && (j & 7 != 18u64 & 7) && 1 <= j & 7 && j & 7 <= 6)))
        && (forall|a: u64, b: u64|
            a & 0x00040404047a0400u64 == a && b & 0x00040404047a0400u64 == b && a != b
                ==> (a & 0x00040404047a0400u64).wrapping_mul(0x0000110041002000u64) >> 54u64
                != (b & 0x00040404047a0400u64).wrapping_mul(0x0000110041002000u64) >> 54u64)
        && (forall|j: u64|
            j < 64 ==> (#[trigger] (0x0008080808760800u64 >> j) & 1 == 1)
                == (((j & 7 == 19u64 & 7) && (j >> 3 != 19u64 >> 3) && 1 <= j >> 3 && j >> 3 <= 6)
                    || ((j >> 3 == 19u64 >> 3) && (j & 7 != 19u64 & 7) && 1 <= j & 7 && j & 7 <= 6)))
        && (forall|a: u64, b: u64|
            a & 0x0008080808760800u64 == a && b & 0x0008080808760800u64 == b && a != b
                ==> (a & 0x0008080808760800u64).wrapping_mul(0x10106a0020401200u64) >> 54u64
                != (b & 0x0008080808760800u64).wrapping_mul(0x10106a0020401200u64) >> 54u64)
        && (forall|j: u64|
            j < 64 ==> (#[trigger] (0x00101010106e1000u64 >> j) & 1 == 1)
                == (((j & 7 == 20u64 & 7) && (j >> 3 != 20u64 >> 3) && 1 <= j >> 3 && j >> 3 <= 6)
                    || ((j >> 3 == 20u64 >> 3) && (j & 7 != 20u64 & 7) && 1 <= j & 7 && j & 7 <= 6)))
        && (forall|a: u64, b: u64|
            a & 0x00101010106e1000u64 == a && b & 0x00101010106e1000u64 == b && a != b
                ==> (a & 0x00101010106e1000u64).wrapping_mul(0x000800801400800au64) >> 54u64
                != (b & 0x00101010106e1000u64).wrapping_mul(0x000800801400800au64) >> 54u64)
        && (forall|j: u64|
            j < 64 ==> (#[trigger] (0x00202020205e2000u64 >> j) & 1 == 1)
                == (((j & 7 == 21u64 & 7) && (j >> 3 != 21u64 >> 3) && 1 <= j >> 3 && j >> 3 <= 6)
                    || ((j >> 3 == 21u64 >> 3) && (j & 7 != 21u64 & 7) && 1 <= j & 7 && j & 7 <= 6)))
        && (forall|a: u64, b: u64|
            a & 0x00202020205e2000u64 == a && b & 0x00202020205e2000u64 == b && a != b
                ==> (a & 0x00202020205e2000u64).wrapping_mul(0x1284808006000400u64) >> 54u64
                != (b & 0x00202020205e2000u64).wrapping_mul(0x1284808006000400u64) >> 54u64)
        && (forall|j: u64|
            j < 64 ==> (#[trigger] (0x00404040403e4000u64 >> j) & 1 == 1)
                == (((j & 7 == 22u64 & 7) && (j >> 3 != 22u64 >> 3) && 1 <= j >> 3 && j >> 3 <= 6)
                    || ((j >> 3 == 22u64 >> 3) && (j & 7 != 22u64 & 7) && 1 <= j & 7 && j & 7 <= 6)))
        && (forall|a: u64, b: u64|
            a & 0x00404040403e4000u64 == a && b & 0x00404040403e4000u64 == b && a != b
                ==> (a & 0x00404040403e4000u64).wrapping_mul(0x104c840048010210u64) >> 54u64
                != (b & 0x00404040403e4000u64).wrapping_mul(0x104c840048010210u64) >> 54u64)
        && (forall|j: u64|
            j < 64 ==> (#[trigger] (0x00808080807e8000u64 >> j) & 1 == 1)
                == (((j & 7 == 23u64 & 7) && (j >> 3 != 23u64 >> 3) && 1 <= j >> 3 && j >> 3 <= 6)
                    || ((j >> 3 == 23u64 >> 3) && (j & 7 != 23u64 & 7) && 1 <= j & 7 && j & 7 <= 6)))
        && (forall|a: u64, b: u64|
            a & 0x00808080807e8000u64 == a && b & 0x00808080807e8000u64 == b && a != b
                ==> (a & 0x00808080807e8000u64).wrapping_mul(0x20940200104c0091u64) >> 53u64
                != (b & 0x00808080807e8000u64).wrapping_mul(0x20940200104c0091u64) >> 53u64)
    ) by (bit_vector);
    assert(is_perfect(0x00010101017e0100u64, 53u8, 0x0880004000200251u64));
    lemma_square_served(false, 16u64, 0x00010101017e0100u64, 53u8, 0x0880004000200251u64);
    assert(is_perfect(0x00020202027c0200u64, 54u8, 0x800202004081006cu64));
    lemma_square_served(false, 17u64, 0x00020202027c0200u64, 54u8, 0x800202004081006cu64);
    assert(is_perfect(0x00040404047a0400u64, 54u8, 0x0000110041002000u64));
    lemma_square_served(false, 18u64, 0x00040404047a0400u64, 54u8, 0x0000110041002000u64);
    assert(is_perfect(0x0008080808760800u64, 54u8, 0x10106a0020401200u64));
    lemma_square_served(false, 19u64, 0x0008080808760800u64, 54u8, 0x10106a0020401200u64);
    assert(is_perfect(0x00101010106e1000u64, 54u8, 0x000800801400800au64));
    lemma_square_served(false, 20u64, 0x00101010106e1000u64, 54u8, 0x000800801400800au64);
    assert(is_perfect(0x00202020205e2000u64, 54u8, 0x1284808006000400u64));
    lemma_square_served(false, 21u64, 0x00202020205e2000u64, 54u8, 0x1284808006000400u64);
    assert(is_perfect(0x00404040403e4000u64, 54u8, 0x104c840048010210u64));
    lemma_square_served(false, 22u64, 0x00404040403e4000u64, 54u8, 0x104c840048010210u64);
    assert(is_perfect(0x00808080807e8000u64, 53u8, 0x20940200104c0091u64));
    lemma_square_served(false, 23u64, 0x00808080807e8000u64, 53u8, 0x20940200104c0091u64);
}

/// The rook's multipliers serve the squares of the fourth rank.
proof fn lemma_rooks_on_rank_4()
    ensures
        rank_served(false, ROOK_MAGIC_NR@, 3),
{
    assert(
        (forall|j: u64|
            j < 64 ==> (#[trigger] (0x000101017e010100u64 >> j) & 1 == 1)
                == (((j & 7 == 24u64 & 7) && (j >> 3 != 24u64 >> 3) && 1 <= j >> 3 && j >> 3 <= 6)
                    || ((j >> 3 == 24u64 >> 3) && (j & 7 != 24u64 & 7) && 1 <= j & 7 && j & 7 <= 6)))
        && (forall|a: u64, b: u64|
            a & 0x000101017e010100u64 == a && b & 0x000101017e010100u64 == b && a != b
                ==> (a & 0x000101017e010100u64).wrapping_mul(0x0000400080208000u64) >> 53u64
                != (b & 0x000101017e010100u64).wrapping_mul(0x0000400080208000u64) >> 53u64)
        && (forall|j: u64|
            j < 64 ==> (#[trigger] (0x000202027c020200u64 >> j) & 1 == 1)
                == (((j & 7 == 25u64 & 7) && (j >> 3 != 25u64 >> 3) && 1 <= j >> 3 && j >> 3 <= 6)
                    || ((j >> 3 == 25u64 >> 3) && (j & 7 != 25u64 & 7) && 1 <= j & 7 && j & 7 <= 6)))
        && (forall|a: u64, b: u64|
            a & 0x000202027c020200u64 == a && b & 0x000202027c020200u64 == b && a != b
                ==> (a & 0x000202027c020200u64).wrapping_mul(0x0210004840016002u64) >> 54u64
                != (b & 0x000202027c020200u64).wrapping_mul(0x0210004840016002u64) >> 54u64)
        && (forall|j: u64|
            j < 64 ==> (#[trigger] (0x000404047a040400u64 >> j) & 1 == 1)
                == (((j & 7 == 26u64 & 7) && (j >> 3 != 26u64 >> 3) && 1 <= j >> 3 && j >> 3 <= 6)
                    || ((j >> 3 == 26u64 >> 3) && (j & 7 != 26u64 & 7) && 1 <= j & 7 && j & 7 <= 6)))
        && (forall|a: u64, b: u64|
            a & 0x000404047a040400u64 == a && b & 0x000404047a040400u64 == b && a != b
                ==> (a & 0x000404047a040400u64).wrapping_mul(0x0100200180100181u64) >> 54u64
                != (b & 0x000404047a040400u64).wrapping_mul(0x0100200180100181u64) >> 54u64)
        && (forall|j: u64|
            j < 64 ==> (#[trigger] (0x0008080876080800u64 >> j) & 1 == 1)
                == (((j & 7 == 27u64 & 7) && (j >> 3 != 27u64 >> 3) && 1 <= j >> 3 && j >> 3 <= 6)
                    || ((j >> 3 == 27u64 >> 3) && (j & 7 != 27u64 & 7) && 1 <= j & 7 && j & 7 <= 6)))
        && (forall|a: u64, b: u64|
            a & 0x0008080876080800u64 == a && b & 0x0008080876080800u64 == b && a != b
                ==> (a & 0x0008080876080800u64).wrapping_mul(0x08210009001000a0u64) >> 54u64
                != (b & 0x0008080876080800u64).wrapping_mul(0x08210009001000a0u64) >> 54u64)
        && (forall|j: u64|
            j < 64 ==> (#[trigger] (0x001010106e101000u64 >> j) & 1 == 1)
                == (((j & 7 == 28u64 & 7) && (j >> 3 != 28u64 >> 3) && 1 <= j >> 3 && j >> 3 <= 6)
                    || ((j >> 3 == 28u64 >> 3) && (j & 7 != 28u64 & 7) && 1 <= j & 7 && j & 7 <= 6)))
        && (forall|a: u64, b: u64|
            a & 0x001010106e101000u64 == a && b & 0x001010106e101000u64 == b && a != b
                ==> (a & 0x001010106e101000u64).wrapping_mul(0x1200180080240080u64) >> 54u64
                != (b & 0x001010106e101000u64).wrapping_mul(0x1200180080240080u64) >> 54u64)
        && (forall|j: u64|
            j < 64 ==> (#[trigger] (0x002020205e202000u64 >> j) & 1 == 1)
                == (((j & 7 == 29u64 & 7) && (j >> 3 != 29u64 >> 3) && 1 <= j >> 3 && j >> 3 <= 6)
                    || ((j >> 3 == 29u64 >> 3) && (j & 7 != 29u64 & 7) && 1 <= j & 7 && j & 7 <= 6)))
        && (forall|a: u64, b: u64|
            a & 0x002020205e202000u64 == a && b & 0x002020205e202000u64 == b && a != b
                ==> (a & 0x002020205e202000u64).wrapping_mul(0x0404fa0080240080u64) >> 54u64
                != (b & 0x002020205e202000u64).wrapping_mul(0x0404fa0080240080u64) >> 54u64)
        && (forall|j: u64|
            j < 64 ==> (#[trigger] (0x004040403e404000u64 >> j) & 1 == 1)
                == (((j & 7 == 30u64 & 7) && (j >> 3 != 30u64 >> 3) && 1 <= j >> 3 && j >> 3 <= 6)
                    || ((j >> 3 == 30u64 >> 3) && (j & 7 != 30u64 & 7) && 1 <= j & 7 && j & 7 <= 6)))
        && (forall|a: u64, b: u64|
            a & 0x004040403e404000u64 == a && b & 0x004040403e404000u64 == b && a != b
                ==> (a & 0x004040403e404000u64).wrapping_mul(0x410a000600014804u64) >> 54u64
                != (b & 0x004040403e404000u64).wrapping_mul(0x410a000600014804u64) >> 54u64)
        && (forall|j: u64|
            j < 64 ==> (#[trigger] (0x008080807e808000u64 >> j) & 1 == 1)
                == (((j & 7 == 31u64 & 7) && (j >> 3 != 31u64 >> 3) && 1 <= j >> 3 && j >> 3 <= 6)
                    || ((j >> 3 == 31u64 >> 3) && (j & 7 != 31u64 & 7) && 1 <= j & 7 && j & 7 <= 6)))
        && (forall|a: u64, b: u64|
            a & 0x008080807e808000u64 == a && b & 0x008080807e808000u64 == b && a != b
                ==> (a & 0x008080807e808000u64).wrapping_mul(0x001408420002a401u64) >> 53u64
                != (b & 0x008080807e808000u64).wrapping_mul(0x001408420002a401u64) >> 53u64)
    ) by (bit_vector);
    assert(is_perfect(0x000101017e010100u64, 53u8, 0x0000400080208000u64));
    lemma_square_served(false, 24u64, 0x000101017e010100u64, 53u8, 0x0000400080208000u64);
    assert(is_perfect(0x000202027c020200u64, 54u8, 0x0210004840016002u64));
    lemma_square_served(false, 25u64, 0x000202027c020200u64, 54u8, 0x0210004840016002u64);
    assert(is_perfect(0x000404047a040400u64, 54u8, 0x0100200180100181u64));
    lemma_square_served(false, 26u64, 0x000404047a040400u64, 54u8, 0x0100200180100181u64);
    assert(is_perfect(0x0008080876080800u64, 54u8, 0x08210009001000a0u64));
    lemma_square_served(false, 27u64, 0x0008080876080800u64, 54u8, 0x08210009001000a0u64);
    assert(is_perfect(0x001010106e101000u64, 54u8, 0x1200180080240080u64));
    lemma_square_served(false, 28u64, 0x001010106e101000u64, 54u8, 0x1200180080240080u64);
    assert(is_perfect(0x002020205e202000u64, 54u8, 0x0404fa0080240080u64));
    lemma_square_served(false, 29u64, 0x002020205e202000u64, 54u8, 0x0404fa0080240080u64);
    assert(is_perfect(0x004040403e404000u64, 54u8, 0x410a000600014804u64));
    lemma_square_served(false, 30u64, 0x004040403e404000u64, 54u8, 0x410a000600014804u64);
    assert(is_perfect(0x008080807e808000u64, 53u8, 0x001408420002a401u64));
    lemma_square_served(false, 31u64, 0x008080807e808000u64, 53u8, 0x001408420002a401u64);
}

/// The rook's multipliers serve the squares of the fifth rank.
proof fn lemma_rooks_on_rank_5()
    ensures
        rank_served(false, ROOK_MAGIC_NR@, 4),
{
    assert(
        (forall|j: u64|
            j < 64 ==> (#[trigger] (0x0001017e01010100u64 >> j) & 1 == 1)
                == (((j & 7 == 32u64 & 7) && (j >> 3 != 32u64 >> 3) && 1 <= j >> 3 && j >> 3 <= 6)
                    || ((j >> 3 == 32u64 >> 3) && (j & 7 != 32u64 & 7) && 1 <= j & 7 && j & 7 <= 6)))
        && (forall|a: u64, b: u64|
            a & 0x0001017e01010100u64 == a && b & 0x0001017e01010100u64 == b && a != b
                ==> (a & 0x0001017e01010100u64).wrapping_mul(0x4184400022800880u64) >> 53u64
                != (b & 0x0001017e01010100u64).wrapping_mul(0x4184400022800880u64) >> 53u64)
        && (forall|j: u64|
            j < 64 ==> (#[trigger] (0x0002027c02020200u64 >> j) & 1 == 1)
                == (((j & 7 == 33u64 & 7) && (j >> 3 != 33u64 >> 3) && 1 <= j >> 3 && j >> 3 <= 6)
                    || ((j >> 3 == 33u64 >> 3) && (j & 7 != 33u64 & 7) && 1 <= j & 7 && j & 7 <= 6)))
        && (forall|a: u64, b: u64|
            a & 0x0002027c02020200u64 == a && b & 0x0002027c02020200u64 == b && a != b
                ==> (a & 0x0002027c02020200u64).wrapping_mul(0x0060804000802000u64) >> 54u64
                != (b & 0x0002027c02020200u64).wrapping_mul(0x0060804000802000u64) >> 54u64)
        && (forall|j: u64|
            j < 64 ==> (#[trigger] (0x0004047a04040400u64 >> j) & 1 == 1)
                == (((j & 7 == 34u64 & 7) && (j >> 3 != 34u64 >> 3) && 1 <= j >> 3 && j >> 3 <= 6)
                    || ((j >> 3 == 34u64 >> 3) && (j & 7 != 34u64 & 7) && 1 <= j & 7 && j & 7 <= 6)))
        && (forall|a: u64, b: u64|
            a & 0x0004047a04040400u64 == a && b & 0x0004047a04040400u64 == b && a != b
                ==> (a & 0x0004047a04040400u64).wrapping_mul(0x0201802008801004u64) >> 54u64
                != (b & 0x0004047a04040400u64).wrapping_mul(0x0201802008801004u64) >> 54u64)
        && (forall|j: u64|
            j < 64 ==> (#[trigger] (0x0008087608080800u64 >> j) & 1 == 1)
                == (((j & 7 == 35u64 & 7) && (j >> 3 != 35u64 >> 3) && 1 <= j >> 3 && j >> 3 <= 6)
                    || ((j >> 3 == 35u64 >> 3) && (j & 7 != 35u64 & 7) && 1 <= j & 7 && j & 7 <= 6)))
        && (forall|a: u64, b: u64|
            a & 0x0008087608080800u64 == a && b & 0x0008087608080800u64 == b && a != b
                ==> (a & 0x0008087608080800u64).wrapping_mul(0x0000920222000840u64) >> 54u64
                != (b & 0x0008087608080800u64).wrapping_mul(0x0000920222000840u64) >> 54u64)
        && (forall|j: u64|
            j < 64 ==> (#[trigger] (0x0010106e10101000u64 >> j) & 1 == 1)
                == (((j & 7 == 36u64 & 7) && (j >> 3 != 36u64 >> 3) && 1 <= j >> 3 && j >> 3 <= 6)
                    || ((j >> 3 == 36u64 >> 3) && (j & 7 != 36u64 & 7) && 1 <= j & 7 && j & 7 <= 6)))
        && (forall|a: u64, b: u64|
            a & 0x0010106e10101000u64 == a && b & 0x0010106e10101000u64 == b && a != b
                ==> (a & 0x0010106e10101000u64).wrapping_mul(0x0102000422000810u64) >> 54u64
                != (b & 0x0010106e10101000u64).wrapping_mul(0x0102000422000810u64) >> 54u64)
        && (forall|j: u64|
            j < 64 ==> (#[trigger] (0x0020205e20202000u64 >> j) & 1 == 1)
                == (((j & 7 == 37u64 & 7) && (j >> 3 != 37u64 >> 3) && 1 <= j >> 3 && j >> 3 <= 6)
                    || ((j >> 3 == 37u64 >> 3) && (j & 7 != 37u64 & 7) && 1 <= j & 7 && j & 7 <= 6)))
        && (forall|a: u64, b: u64|
            a & 0x0020205e20202000u64 == a && b & 0x0020205e20202000u64 == b && a != b
                ==> (a & 0x0020205e20202000u64).wrapping_mul(0x00000c0080804200u64) >> 54u64
                != (b & 0x0020205e20202000u64).wrapping_mul(0x00000c0080804200u64) >> 54u64)
        && (forall|j: u64|
            j < 64 ==> (#[trigger] (0x0040403e40404000u64 >> j) & 1 == 1)
                == (((j & 7 == 38u64 & 7) && (j >> 3 != 38u64 >> 3) && 1 <= j >> 3 && j >> 3 <= 6)
                    || ((j >> 3 == 38u64 >> 3) && (j & 7 != 38u64 & 7) && 1 <= j & 7 && j & 7 <= 6)))
        && (forall|a: u64, b: u64|
            a & 0x0040403e40404000u64 == a && b & 0x0040403e40404000u64 == b && a != b
                ==> (a & 0x0040403e40404000u64).wrapping_mul(0x1442025004002801u64) >> 54u64
                != (b & 0x0040403e40404000u64).wrapping_mul(0x1442025004002801u64) >> 54u64)
        && (forall|j: u64|
            j < 64 ==> (#[trigger] (0x0080807e80808000u64 >> j) & 1 == 1)
                == (((j & 7 == 39u64 & 7) && (j >> 3 != 39u64 >> 3) && 1 <= j >> 3 && j >> 3 <= 6)
                    || ((j >> 3 == 39u64 >> 3) && (j & 7 != 39u64 & 7) && 1 <= j & 7 && j & 7 <= 6)))
        && (forall|a: u64, b: u64|
            a & 0x0080807e80808000u64 == a && b & 0x0080807e80808000u64 == b && a != b
                ==> (a & 0x0080807e80808000u64).wrapping_mul(0x04004106a6000444u64) >> 53u64
                != (b & 0x0080807e80808000u64).wrapping_mul(0x04004106a6000444u64) >> 53u64)
    ) by (bit_vector);
    assert(is_perfect(0x0001017e01010100u64, 53u8, 0x4184400022800880u64));
    lemma_square_served(false, 32u64, 0x0001017e01010100u64, 53u8, 0x4184400022800880u64);
    assert(is_perfect(0x0002027c02020200u64, 54u8, 0x0060804000802000u64));
    lemma_square_served(false, 33u64, 0x0002027c02020200u64, 54u8, 0x0060804000802000u64);
    assert(is_perfect(0x0004047a04040400u64, 54u8, 0x0201802008801004u64));
    lemma_square_served(false, 34u64, 0x0004047a04040400u64, 54u8, 0x0201802008801004u64);
    assert(is_perfect(0x0008087608080800u64, 54u8, 0x0000920222000840u64));
    lemma_square_served(false, 35u64, 0x0008087608080800u64, 54u8, 0x0000920222000840u64);
    assert(is_perfect(0x0010106e10101000u64, 54u8, 0x0102000422000810u64));
    lemma_square_served(false, 36u64, 0x0010106e10101000u64, 54u8, 0x0102000422000810u64);
    assert(is_perfect(0x0020205e20202000u64, 54u8, 0x00000c0080804200u64));
    lemma_square_served(false, 37u64, 0x0020205e20202000u64, 54u8, 0x00000c0080804200u64);
    assert(is_perfect(0x0040403e40404000u64, 54u8, 0x1442025004002801u64));
    lemma_square_served(false, 38u64, 0x0040403e40404000u64, 54u8, 0x1442025004002801u64);
    assert(is_perfect(0x0080807e80808000u64, 53u8, 0x04004106a6000444u64));
    lemma_square_served(false, 39u64, 0x0080807e80808000u64, 53u8, 0x04004106a6000444u64);
}

/// The rook's multipliers serve the squares of the sixth rank.
proof fn lemma_rooks_on_rank_6()
    ensures
        rank_served(false, ROOK_MAGIC_NR@, 5),
{
    assert(
        (forall|j: u64|
            j < 64 ==> (#[trigger] (0x00017e0101010100u64 >> j) & 1 == 1)
                == (((j & 7 == 40u64 & 7) && (j >> 3 != 40u64 >> 3) && 1 <= j >> 3 && j >> 3 <= 6)
                    || ((j >> 3 == 40u64 >> 3) && (j & 7 != 40u64 & 7) && 1 <= j & 7 && j & 7 <= 6)))
        && (forall|a: u64, b: u64|
            a & 0x00017e0101010100u64 == a && b & 0x00017e0101010100u64 == b && a != b
                ==> (a & 0x00017e0101010100u64).wrapping_mul(0x0054c00082208000u64) >> 53u64
                != (b & 0x00017e0101010100u64).wrapping_mul(0x0054c00082208000u64) >> 53u64)
        && (forall|j: u64|
            j < 64 ==> (#[trigger] (0x00027c0202020200u64 >> j) & 1 == 1)
                == (((j & 7 == 41u64 & 7) && (j >> 3 != 41u64 >> 3) && 1 <= j >> 3 && j >> 3 <= 6)
                    || ((j >> 3 == 41u64 >> 3) && (j & 7 != 41u64 & 7) && 1 <= j & 7 && j & 7 <= 6)))
        && (forall|a: u64, b: u64|
            a & 0x00027c0202020200u64 == a && b & 0x00027c0202020200u64 == b && a != b
                ==> (a & 0x00027c0202020200u64).wrapping_mul(0x0020200040008080u64) >> 54u64
                != (b & 0x00027c0202020200u64).wrapping_mul(0x0020200040008080u64) >> 54u64)
        && (forall|j: u64|
            j < 64 ==> (#[trigger] (0x00047a0404040400u64 >> j) & 1 == 1)
                == (((j & 7 == 42u64 & 7) && (j >> 3 != 42u64 >> 3) && 1 <= j >> 3 && j >> 3 <= 6)
                    || ((j >> 3 == 42u64 >> 3) && (j & 7 != 42u64 & 7) && 1 <= j & 7 && j & 7 <= 6)))
        && (forall|a: u64, b: u64|
            a & 0x00047a0404040400u64 == a && b & 0x00047a0404040400u64 == b && a != b
                ==> (a & 0x00047a0404040400u64).wrapping_mul(0x0801004120010010u64) >> 54u64
                != (b & 0x00047a0404040400u64).wrapping_mul(0x0801004120010010u64) >> 54u64)
        && (forall|j: u64|
            j < 64 ==> (#[trigger] (0x0008760808080800u64 >> j) & 1 == 1)
                == (((j & 7 == 43u64 & 7) && (j >> 3 != 43u64 >> 3) && 1 <= j >> 3 && j >> 3 <= 6)
                    || ((j >> 3 == 43u64 >> 3) && (j & 7 != 43u64 & 7) && 1 <= j & 7 && j & 7 <= 6)))
        && (forall|a: u64, b: u64|
            a & 0x0008760808080800u64 == a && b & 0x0008760808080800u64 == b && a != b
                ==> (a & 0x0008760808080800u64).wrapping_mul(0x8000880010008080u64) >> 54u64
                != (b & 0x0008760808080800u64).wrapping_mul(0x8000880010008080u64) >> 54u64)
        && (forall|j: u64|
            j < 64 ==> (#[trigger] (0x00106e1010101000u64 >> j) & 1 == 1)
                == (((j & 7 == 44u64 & 7) && (j >> 3 != 44u64 >> 3) && 1 <= j >> 3 && j >> 3 <= 6)
                    || ((j >> 3 == 44u64 >> 3) && (j & 7 != 44u64 & 7) && 1 <= j & 7 && j & 7 <= 6)))
        && (forall|a: u64, b: u64|
            a & 0x00106e1010101000u64 == a && b & 0x00106e1010101000u64 == b && a != b
                ==> (a & 0x00106e1010101000u64).wrapping_mul(0x0208000804008080u64) >> 54u64
                != (b & 0x00106e1010101000u64).wrapping_mul(0x0208000804008080u64) >> 54u64)
        && (forall|j: u64|
            j < 64 ==> (#[trigger] (0x00205e2020202000u64 >> j) & 1 == 1)
                == (((j & 7 == 45u64 & 7) && (j >> 3 != 45u64 >> 3) && 1 <= j >> 3 && j >> 3 <= 6)
                    || ((j >> 3 == 45u64 >> 3) && (j & 7 != 45u64 & 7) && 1 <= j & 7 && j & 7 <= 6)))
        && (forall|a: u64, b: u64|
            a & 0x00205e2020202000u64 == a && b & 0x00205e2020202000u64 == b && a != b
                ==> (a & 0x00205e2020202000u64).wrapping_mul(0x0402000428420010u64) >> 54u64
                != (b & 0x00205e2020202000u64).wrapping_mul(0x0402000428420010u64) >> 54u64)
        && (forall|j: u64|
            j < 64 ==> (#[trigger] (0x00403e4040404000u64 >> j) & 1 == 1)
                == (((j & 7 == 46u64 & 7) && (j >> 3 != 46u64 >> 3) && 1 <= j >> 3 && j >> 3 <= 6)
                    || ((j >> 3 == 46u64 >> 3) && (j & 7 != 46u64 & 7) && 1 <= j & 7 && j & 7 <= 6)))
        && (forall|a: u64, b: u64|
            a & 0x00403e4040404000u64 == a && b & 0x00403e4040404000u64 == b && a != b
                ==> (a & 0x00403e4040404000u64).wrapping_mul(0x04200a4830040001u64) >> 54u64
                != (b & 0x00403e4040404000u64).wrapping_mul(0x04200a4830040001u64) >> 54u64)
        && (forall|j: u64|
            j < 64 ==> (#[trigger] (0x00807e8080808000u64 >> j) & 1 == 1)
                == (((j & 7 == 47u64 & 7) && (j >> 3 != 47u64 >> 3) && 1 <= j >> 3 && j >> 3 <= 6)
                    || ((j >> 3 == 47u64 >> 3) && (j & 7 != 47u64 & 7) && 1 <= j & 7 && j & 7 <= 6)))
        && (forall|a: u64, b: u64|
            a & 0x00807e8080808000u64 == a && b & 0x00807e8080808000u64 == b && a != b
                ==> (a & 0x00807e8080808000u64).wrapping_mul(0x0080440044820009u64) >> 53u64
                != (b & 0x00807e8080808000u64).wrapping_mul(0x0080440044820009u64) >> 53u64)
    ) by (bit_vector);
    assert(is_perfect(0x00017e0101010100u64, 53u8, 0x0054c00082208000u64));
    lemma_square_served(false, 40u64, 0x00017e0101010100u64, 53u8, 0x0054c00082208000u64);
    assert(is_perfect(0x00027c0202020200u64, 54u8, 0x0020200040008080u64));
    lemma_square_served(false, 41u64, 0x00027c0202020200u64, 54u8, 0x0020200040008080u64);
    assert(is_perfect(0x00047a0404040400u64, 54u8, 0x0801004120010010u64));
    lemma_square_served(false, 42u64, 0x00047a0404040400u64, 54u8, 0x0801004120010010u64);
    assert(is_perfect(0x0008760808080800u64, 54u8, 0x8000880010008080u64));
    lemma_square_served(false, 43u64, 0x0008760808080800u64, 54u8, 0x8000880010008080u64);
    assert(is_perfect(0x00106e1010101000u64, 54u8, 0x0208000804008080u64));
    lemma_square_served(false, 44u64, 0x00106e1010101000u64, 54u8, 0x0208000804008080u64);
    assert(is_perfect(0x00205e2020202000u64, 54u8, 0x0402000428420010u64));
    lemma_square_served(false, 45u64, 0x00205e2020202000u64, 54u8, 0x0402000428420010u64);
    assert(is_perfect(0x00403e4040404000u64, 54u8, 0x04200a4830040001u64));
    lemma_square_served(false, 46u64, 0x00403e4040404000u64, 54u8, 0x04200a4830040001u64);
    assert(is_perfect(0x00807e8080808000u64, 53u8, 0x0080440044820009u64));
    lemma_square_served(false, 47u64, 0x00807e8080808000u64, 53u8, 0x0080440044820009u64);
}

/// The rook's multipliers serve the squares of the seventh rank.
proof fn lemma_rooks_on_rank_7()
    ensures
        rank_served(false, ROOK_MAGIC_NR@, 6),
{
    assert(
        (forall|j: u64|
            j < 64 ==> (#[trigger] (0x007e010101010100u64 >> j) & 1 == 1)
                == (((j & 7 == 48u64 & 7) && (j >> 3 != 48u64 >> 3) && 1 <= j >> 3 && j >> 3 <= 6)
                    || ((j >> 3 == 48u64 >> 3) && (j & 7 != 48u64 & 7) && 1 <= j & 7 && j & 7 <= 6)))
        && (forall|a: u64, b: u64|
            a & 0x007e010101010100u64 == a && b & 0x007e010101010100u64 == b && a != b
                ==> (a & 0x007e010101010100u64).wrapping_mul(0x1000801027024500u64) >> 53u64
                != (b & 0x007e010101010100u64).wrapping_mul(0x1000801027024500u64) >> 53u64)
        && (forall|j: u64|
            j < 64 ==> (#[trigger] (0x007c020202020200u64 >> j) & 1 == 1)
                == (((j & 7 == 49u64 & 7) && (j >> 3 != 49u64 >> 3) && 1 <= j >> 3 && j >> 3 <= 6)
                    || ((j >> 3 == 49u64 >> 3) && (j & 7 != 49u64 & 7) && 1 <= j & 7 && j & 7 <= 6)))
        && (forall|a: u64, b: u64|
            a & 0x007c020202020200u64 == a && b & 0x007c020202020200u64 == b && a != b
                ==> (a & 0x007c020202020200u64).wrapping_mul(0x6340008020005080u64) >> 54u64
                != (b & 0x007c020202020200u64).wrapping_mul(0x6340008020005080u64) >> 54u64)
        && (forall|j: u64|
            j < 64 ==> (#[trigger] (0x007a040404040400u64 >> j) & 1 == 1)
                == (((j & 7 == 50u64 & 7) && (j >> 3 != 50u64 >> 3) && 1 <= j >> 3 && j >> 3 <= 6)
                    || ((j >> 3 == 50u64 >> 3) && (j & 7 != 50u64 & 7) && 1 <= j & 7 && j & 7 <= 6)))
        && (forall|a: u64, b: u64|
            a & 0x007a040404040400u64 == a && b & 0x007a040404040400u64 == b && a != b
                ==> (a & 0x007a040404040400u64).wrapping_mul(0x0300200102104300u64) >> 54u64
                != (b & 0x007a040404040400u64).wrapping_mul(0x0300200102104300u64) >> 54u64)
        && (forall|j: u64|
            j < 64 ==> (#[trigger] (0x0076080808080800u64 >> j) & 1 == 1)
                == (((j & 7 == 51u64 & 7) && (j >> 3 != 51u64 >> 3) && 1 <= j >> 3 && j >> 3 <= 6)
                    || ((j >> 3 == 51u64 >> 3) && (j & 7 != 51u64 & 7) && 1 <= j & 7 && j & 7 <= 6)))
        && (forall|a: u64, b: u64|
            a & 0x0076080808080800u64 == a && b & 0x0076080808080800u64 == b && a != b
                ==> (a & 0x0076080808080800u64).wrapping_mul(0xc081201000090100u64) >> 54u64
                != (b & 0x0076080808080800u64).wrapping_mul(0xc081201000090100u64) >> 54u64)
        && (forall|j: u64|
            j < 64 ==> (#[trigger] (0x006e101010101000u64 >> j) & 1 == 1)
                == (((j & 7 == 52u64 & 7) && (j >> 3 != 52u64 >> 3) && 1 <= j >> 3 && j >> 3 <= 6)
                    || ((j >> 3 == 52u64 >> 3) && (j & 7 != 52u64 & 7) && 1 <= j & 7 && j & 7 <= 6)))
        && (forall|a: u64, b: u64|
            a & 0x006e101010101000u64 == a && b & 0x006e101010101000u64 == b && a != b
                ==> (a & 0x006e101010101000u64).wrapping_mul(0x5408080284008080u64) >> 54u64
                != (b & 0x006e101010101000u64).wrapping_mul(0x5408080284008080u64) >> 54u64)
        && (forall|j: u64|
            j < 64 ==> (#[trigger] (0x005e202020202000u64 >> j) & 1 == 1)
                == (((j & 7 == 53u64 & 7) && (j >> 3 != 53u64 >> 3) && 1 <= j >> 3 && j >> 3 <= 6)
                    || ((j >> 3 == 53u64 >> 3) && (j & 7 != 53u64 & 7) && 1 <= j & 7 && j & 7 <= 6)))
        && (forall|a: u64, b: u64|
            a & 0x005e202020202000u64 == a && b & 0x005e202020202000u64 == b && a != b
                ==> (a & 0x005e202020202000u64).wrapping_mul(0x08020004000e8080u64) >> 54u64
                != (b & 0x005e202020202000u64).wrapping_mul(0x08020004000e8080u64) >> 54u64)
        && (forall|j: u64|
            j < 64 ==> (#[trigger] (0x003e404040404000u64 >> j) & 1 == 1)
                == (((j & 7 == 54u64 & 7) && (j >> 3 != 54u64 >> 3) && 1 <= j >> 3 && j >> 3 <= 6)
                    || ((j >> 3 == 54u64 >> 3) && (j & 7 != 54u64 & 7) && 1 <= j & 7 && j & 7 <= 6)))
        && (forall|a: u64, b: u64|
            a & 0x003e404040404000u64 == a && b & 0x003e404040404000u64 == b && a != b
                ==> (a & 0x003e404040404000u64).wrapping_mul(0x200d0002000c4100u64) >> 54u64
                != (b & 0x003e404040404000u64).wrapping_mul(0x200d0002000c4100u64) >> 54u64)
        && (forall|j: u64|
            j < 64 ==> (#[trigger] (0x007e808080808000u64 >> j) & 1 == 1)
                == (((j & 7 == 55u64 & 7) && (j >> 3 != 55u64 >> 3) && 1 <= j >> 3 && j >> 3 <= 6)
                    || ((j >> 3 == 55u64 >> 3) && (j & 7 != 55u64 & 7) && 1 <= j & 7 && j & 7 <= 6)))
        && (forall|a: u64, b: u64|
            a & 0x007e808080808000u64 == a && b & 0x007e808080808000u64 == b && a != b
                ==> (a & 0x007e808080808000u64).wrapping_mul(0x0000112408c48a00u64) >> 53u64
                != (b & 0x007e808080808000u64).wrapping_mul(0x0000112408c48a00u64) >> 53u64)
    ) by (bit_vector);
    assert(is_perfect(0x007e010101010100u64, 53u8, 0x1000801027024500u64));
    lemma_square_served(false, 48u64, 0x007e010101010100u64, 53u8, 0x1000801027024500u64);
    assert(is_perfect(0x007c020202020200u64, 54u8, 0x6340008020005080u64));
    lemma_square_served(false, 49u64, 0x007c020202020200u64, 54u8, 0x6340008020005080u64);
    assert(is_perfect(0x007a040404040400u64, 54u8, 0x0300200102104300u64));
    lemma_square_served(false, 50u64, 0x007a040404040400u64, 54u8, 0x0300200102104300u64);
    assert(is_perfect(0x0076080808080800u64, 54u8, 0xc081201000090100u64));
    lemma_square_served(false, 51u64, 0x0076080808080800u64, 54u8, 0xc081201000090100u64);
    assert(is_perfect(0x006e101010101000u64, 54u8, 0x5408080284008080u64));
    lemma_square_served(false, 52u64, 0x006e101010101000u64, 54u8, 0x5408080284008080u64);
    assert(is_perfect(0x005e202020202000u64, 54u8, 0x08020004000e8080u64));
    lemma_square_served(false, 53u64, 0x005e202020202000u64, 54u8, 0x08020004000e8080u64);
    assert(is_perfect(0x003e404040404000u64, 54u8, 0x200d0002000c4100u64));
    lemma_square_served(false, 54u64, 0x003e404040404000u64, 54u8, 0x200d0002000c4100u64);
    assert(is_perfect(0x007e808080808000u64, 53u8, 0x0000112408c48a00u64));
    lemma_square_served(false, 55u64, 0x007e808080808000u64, 53u8, 0x0000112408c48a00u64);
}

/// The rook's multipliers serve the squares of the eighth rank.
proof fn lemma_rooks_on_rank_8()
    ensures
        rank_served(false, ROOK_MAGIC_NR@, 7),
{
    assert(
        (forall|j: u64|
            j < 64 ==> (#[trigger] (0x7e01010101010100u64 >> j) & 1 == 1)
                == (((j & 7 == 56u64 & 7) && (j >> 3 != 56u64 >> 3) && 1 <= j >> 3 && j >> 3 <= 6)
                    || ((j >> 3 == 56u64 >> 3) && (j & 7 != 56u64 & 7) && 1 <= j & 7 && j & 7 <= 6)))
        && (forall|a: u64, b: u64|
            a & 0x7e01010101010100u64 == a && b & 0x7e01010101010100u64 == b && a != b
                ==> (a & 0x7e01010101010100u64).wrapping_mul(0x20808542015100a2u64) >> 52u64
                != (b & 0x7e01010101010100u64).wrapping_mul(0x20808542015100a2u64) >> 52u64)
        && (forall|j: u64|
            j < 64 ==> (#[trigger] (0x7c02020202020200u64 >> j) & 1 == 1)
                == (((j & 7 == 57u64 & 7) && (j >> 3 != 57u64 >> 3) && 1 <= j >> 3 && j >> 3 <= 6)
                    || ((j >> 3 == 57u64 >> 3) && (j & 7 != 57u64 & 7) && 1 <= j & 7 && j & 7 <= 6)))
        && (forall|a: u64, b: u64|
            a & 0x7c02020202020200u64 == a && b & 0x7c02020202020200u64 == b && a != b
                ==> (a & 0x7c02020202020200u64).wrapping_mul(0x0401645302c20082u64) >> 53u64
                != (b & 0x7c02020202020200u64).wrapping_mul(0x0401645302c20082u64) >> 53u64)
        && (forall|j: u64|
            j < 64 ==> (#[trigger] (0x7a04040404040400u64 >> j) & 1 == 1)
                == (((j & 7 == 58u64 & 7) && (j >> 3 != 58u64 >> 3) && 1 <= j >> 3 && j >> 3 <= 6)
                    || ((j >> 3 == 58u64 >> 3) && (j & 7 != 58u64 & 7) && 1 <= j & 7 && j & 7 <= 6)))
        && (forall|a: u64, b: u64|
            a & 0x7a04040404040400u64 == a && b & 0x7a04040404040400u64 == b && a != b
                ==> (a & 0x7a04040404040400u64).wrapping_mul(0x00c0228040081202u64) >> 53u64
                != (b & 0x7a04040404040400u64).wrapping_mul(0x00c0228040081202u64) >> 53u64)
        && (forall|j: u64|
            j < 64 ==> (#[trigger] (0x7608080808080800u64 >> j) & 1 == 1)
                == (((j & 7 == 59u64 & 7) && (j >> 3 != 59u64 >> 3) && 1 <= j >> 3 && j >> 3 <= 6)
                    || ((j >> 3 == 59u64 >> 3) && (j & 7 != 59u64 & 7) && 1 <= j & 7 && j & 7 <= 6)))
        && (forall|a: u64, b: u64|
            a & 0x7608080808080800u64 == a && b & 0x7608080808080800u64 == b && a != b
                ==> (a & 0x7608080808080800u64).wrapping_mul(0x800808d001000c61u64) >> 53u64
                != (b & 0x7608080808080800u64).wrapping_mul(0x800808d001000c61u64) >> 53u64)
        && (forall|j: u64|
            j < 64 ==> (#[trigger] (0x6e10101010101000u64 >> j) & 1 == 1)
                == (((j & 7 == 60u64 & 7) && (j >> 3 != 60u64 >> 3) && 1 <= j >> 3 && j >> 3 <= 6)
                    || ((j >> 3 == 60u64 >> 3) && (j & 7 != 60u64 & 7) && 1 <= j & 7 && j & 7 <= 6)))
        && (forall|a: u64, b: u64|
            a & 0x6e10101010101000u64 == a && b & 0x6e10101010101000u64 == b && a != b
                ==> (a & 0x6e10101010101000u64).wrapping_mul(0x0006008410200802u64) >> 53u64
                != (b & 0x6e10101010101000u64).wrapping_mul(0x0006008410200802u64) >> 53u64)
        && (forall|j: u64|
            j < 64 ==> (#[trigger] (0x5e20202020202000u64 >> j) & 1 == 1)
                == (((j & 7 == 61u64 & 7) && (j >> 3 != 61u64 >> 3) && 1 <= j >> 3 && j >> 3 <= 6)
                    || ((j >> 3 == 61u64 >> 3) && (j & 7 != 61u64 & 7) && 1 <= j & 7 && j & 7 <= 6)))
        && (forall|a: u64, b: u64|
            a & 0x5e20202020202000u64 == a && b & 0x5e20202020202000u64 == b && a != b
                ==> (a & 0x5e20202020202000u64).wrapping_mul(0x0205001804000299u64) >> 53u64
                != (b & 0x5e20202020202000u64).wrapping_mul(0x0205001804000299u64) >> 53u64)
        && (forall|j: u64|
            j < 64 ==> (#[trigger] (0x3e40404040404000u64 >> j) & 1 == 1)
                == (((j & 7 == 62u64 & 7) && (j >> 3 != 62u64 >> 3) && 1 <= j >> 3 && j >> 3 <= 6)
                    || ((j >> 3 == 62u64 >> 3) && (j & 7 != 62u64 & 7) && 1 <= j & 7 && j & 7 <= 6)))
        && (forall|a: u64, b: u64|
            a & 0x3e40404040404000u64 == a && b & 0x3e40404040404000u64 == b && a != b
                ==> (a & 0x3e40404040404000u64).wrapping_mul(0x00010209300808a4u64) >> 53u64
                != (b & 0x3e40404040404000u64).wrapping_mul(0x00010209300808a4u64) >> 53u64)
        && (forall|j: u64|
            j < 64 ==> (#[trigger] (0x7e80808080808000u64 >> j) & 1 == 1)
                == (((j & 7 == 63u64 & 7) && (j >> 3 != 63u64 >> 3) && 1 <= j >> 3 && j >> 3 <= 6)
                    || ((j >> 3 == 63u64 >> 3) && (j & 7 != 63u64 & 7) && 1 <= j & 7 && j & 7 <= 6)))
        && (forall|a: u64, b: u64|
            a & 0x7e80808080808000u64 == a && b & 0x7e80808080808000u64 == b && a != b
                ==> (a & 0x7e80808080808000u64).wrapping_mul(0x0804812140840116u64) >> 52u64
                != (b & 0x7e80808080808000u64).wrapping_mul(0x0804812140840116u64) >> 52u64)
    ) by (bit_vector);
    assert(is_perfect(0x7e01010101010100u64, 52u8, 0x20808542015100a2u64));
    lemma_square_served(false, 56u64, 0x7e01010101010100u64, 52u8, 0x20808542015100a2u64);
    assert(is_perfect(0x7c02020202020200u64, 53u8, 0x0401645302c20082u64));
    lemma_square_served(false, 57u64, 0x7c02020202020200u64, 53u8, 0x0401645302c20082u64);
    assert(is_perfect(0x7a04040404040400u64, 53u8, 0x00c0228040081202u64));
    lemma_square_served(false, 58u64, 0x7a04040404040400u64, 53u8, 0x00c0228040081202u64);
    assert(is_perfect(0x7608080808080800u64, 53u8, 0x800808d001000c61u64));
    lemma_square_served(false, 59u64, 0x7608080808080800u64, 53u8, 0x800808d001000c61u64);
    assert(is_perfect(0x6e10101010101000u64, 53u8, 0x0006008410200802u64));
    lemma_square_served(false, 60u64, 0x6e10101010101000u64, 53u8, 0x0006008410200802u64);
    assert(is_perfect(0x5e20202020202000u64, 53u8, 0x0205001804000299u64));
    lemma_square_served(false, 61u64, 0x5e20202020202000u64, 53u8, 0x0205001804000299u64);
    assert(is_perfect(0x3e40404040404000u64, 53u8, 0x00010209300808a4u64));
    lemma_square_served(false, 62u64, 0x3e40404040404000u64, 53u8, 0x00010209300808a4u64);
    assert(is_perfect(0x7e80808080808000u64, 52u8, 0x0804812140840116u64));
    lemma_square_served(false, 63u64, 0x7e80808080808000u64, 52u8, 0x0804812140840116u64);
}

/// The bishop's multipliers serve the squares of the first rank.
proof fn lemma_bishops_on_rank_1()
    ensures
        rank_served(true, BISHOP_MAGIC_NR@, 0),
{
    assert(
        (forall|j: u64|
            j < 64 ==> (#[trigger] (0x0040201008040200u64 >> j) & 1 == 1)
                == (j != 0u64 && (((j >> 3) + (0u64 & 7) == (j & 7) + (0u64 >> 3))
                    || ((j >> 3) + (j & 7) == (0u64 >> 3) + (0u64 & 7)))
                    && 1 <= j >> 3 && j >> 3 <= 6 && 1 <= j & 7 && j & 7 <= 6))
        && (forall|a: u64, b: u64|
            a & 0x0040201008040200u64 == a && b & 0x0040201008040200u64 == b && a != b
                ==> (a & 0x0040201008040200u64).wrapping_mul(0x0410501010802046u64) >> 58u64
                != (b & 0x0040201008040200u64).wrapping_mul(0x0410501010802046u64) >> 58u64)
        && (forall|j: u64|
            j < 64 ==> (#[trigger] (0x0000402010080400u64 >> j) & 1 == 1)
                == (j != 1u64 && (((j >> 3) + (1u64 & 7) == (j & 7) + (1u64 >> 3))
                    || ((j >> 3) + (j & 7) == (1u64 >> 3) + (1u64 & 7)))
                    && 1 <= j >> 3 && j >> 3 <= 6 && 1 <= j & 7 && j & 7 <= 6))
        && (forall|a: u64, b: u64|
            a & 0x0000402010080400u64 == a && b & 0x0000402010080400u64 == b && a != b
                ==> (a & 0x0000402010080400u64).wrapping_mul(0x02900210a400820au64) >> 59u64
                != (b & 0x0000402010080400u64).wrapping_mul(0x02900210a400820au64) >> 59u64)
        && (forall|j: u64|
            j < 64 ==> (#[trigger] (0x0000004020100a00u64 >> j) & 1 == 1)
                == (j != 2u64 && (((j >> 3) + (2u64 & 7) == (j & 7) + (2u64 >> 3))
                    || ((j >> 3) + (j & 7) == (2u64 >> 3) + (2u64 & 7)))
                    && 1 <= j >> 3 && j >> 3 <= 6 && 1 <= j & 7 && j & 7 <= 6))
        && (forall|a: u64, b: u64|
            a & 0x0000004020100a00u64 == a && b & 0x0000004020100a00u64 == b && a != b
                ==> (a & 0x0000004020100a00u64).wrapping_mul(0x0410810600610600u64) >> 59u64
                != (b & 0x0000004020100a00u64).wrapping_mul(0x0410810600610600u64) >> 59u64)
        && (forall|j: u64|
            j < 64 ==> (#[trigger] (0x0000000040221400u64 >> j) & 1 == 1)
                == (j != 3u64 && (((j >> 3) + (3u64 & 7) == (j & 7) + (3u64 >> 3))
                    || ((j >> 3) + (j & 7) == (3u64 >> 3) + (3u64 & 7)))
                    && 1 <= j >> 3 && j >> 3 <= 6 && 1 <= j & 7 && j & 7 <= 6))
        && (forall|a: u64, b: u64|
            a & 0x0000000040221400u64 == a && b & 0x0000000040221400u64 == b && a != b
                ==> (a & 0x0000000040221400u64).wrapping_mul(0x1930918204810000u64) >> 59u64
                != (b & 0x0000000040221400u64).wrapping_mul(0x1930918204810000u64) >> 59u64)
        && (forall|j: u64|
            j < 64 ==> (#[trigger] (0x0000000002442800u64 >> j) & 1 == 1)
                == (j != 4u64 && (((j >> 3) + (4u64 & 7) == (j & 7) + (4u64 >> 3))
                    || ((j >> 3) + (j & 7) == (4u64 >> 3) + (4u64 & 7)))
                    && 1 <= j >> 3 && j >> 3 <= 6 && 1 <= j & 7 && j & 7 <= 6))
        && (forall|a: u64, b: u64|
            a & 0x0000000002442800u64 == a && b & 0x0000000002442800u64 == b && a != b
                ==> (a & 0x0000000002442800u64).wrapping_mul(0x4004104400008000u64) >> 59u64
                != (b & 0x0000000002442800u64).wrapping_mul(0x4004104400008000u64) >> 59u64)
        && (forall|j: u64|
            j < 64 ==> (#[trigger] (0x0000000204085000u64 >> j) & 1 == 1)
                == (j != 5u64 && (((j >> 3) + (5u64 & 7) == (j & 7) + (5u64 >> 3))
                    || ((j >> 3) + (j & 7) == (5u64 >> 3) + (5u64 & 7)))
                    && 1 <= j >> 3 && j >> 3 <= 6 && 1 <= j & 7 && j & 7 <= 6))
        && (forall|a: u64, b: u64|
            a & 0x0000000204085000u64 == a && b & 0x0000000204085000u64 == b && a != b
                ==> (a & 0x0000000204085000u64).wrapping_mul(0x0202080404000012u64) >> 59u64
                != (b & 0x0000000204085000u64).wrapping_mul(0x0202080404000012u64) >> 59u64)
        && (forall|j: u64|
            j < 64 ==> (#[trigger] (0x0000020408102000u64 >> j) & 1 == 1)
                == (j != 6u64 && (((j >> 3) + (6u64 & 7) == (j & 7) + (6u64 >> 3))
                    || ((j >> 3) + (j & 7) == (6u64 >> 3) + (6u64 & 7)))
                    && 1 <= j >> 3 && j >> 3 <= 6 && 1 <= j & 7 && j & 7 <= 6))
        && (forall|a: u64, b: u64|
            a & 0x0000020408102000u64 == a && b & 0x0000020408102000u64 == b && a != b
                ==> (a & 0x0000020408102000u64).wrapping_mul(0x0222081202120000u64) >> 59u64
                != (b & 0x0000020408102000u64).wrapping_mul(0x0222081202120000u64) >> 59u64)
        && (forall|j: u64|
            j < 64 ==> (#[trigger] (0x0002040810204000u64 >> j) & 1 == 1)
                == (j != 7u64 && (((j >> 3) + (7u64 & 7) == (j & 7) + (7u64 >> 3))
                    || ((j >> 3) + (j & 7) == (7u64 >> 3) + (7u64 & 7)))
                    && 1 <= j >> 3 && j >> 3 <= 6 && 1 <= j & 7 && j & 7 <= 6))
        && (forall|a: u64, b: u64|
            a & 0x0002040810204000u64 == a && b & 0x0002040810204000u64 == b && a != b
                ==> (a & 0x0002040810204000u64).wrapping_mul(0x808240c200904000u64) >> 58u64
                != (b & 0x0002040810204000u64).wrapping_mul(0x808240c200904000u64) >> 58u64)
    ) by (bit_vector);
    assert(is_perfect(0x0040201008040200u64, 58u8, 0x0410501010802046u64));
    lemma_square_served(true, 0u64, 0x0040201008040200u64, 58u8, 0x0410501010802046u64);
    assert(is_perfect(0x0000402010080400u64, 59u8, 0x02900210a400820au64));
    lemma_square_served(true, 1u64, 0x0000402010080400u64, 59u8, 0x02900210a400820au64);
    assert(is_perfect(0x0000004020100a00u64, 59u8, 0x0410810600610600u64));
    lemma_square_served(true, 2u64, 0x0000004020100a00u64, 59u8, 0x0410810600610600u64);
    assert(is_perfect(0x0000000040221400u64, 59u8, 0x1930918204810000u64));
    lemma_square_served(true, 3u64, 0x0000000040221400u64, 59u8, 0x1930918204810000u64);
    assert(is_perfect(0x0000000002442800u64, 59u8, 0x4004104400008000u64));
    lemma_square_served(true, 4u64, 0x0000000002442800u64, 59u8, 0x4004104400008000u64);
    assert(is_perfect(0x0000000204085000u64, 59u8, 0x0202080404000012u64));
    lemma_square_served(true, 5u64, 0x0000000204085000u64, 59u8, 0x0202080404000012u64);
    assert(is_perfect(0x0000020408102000u64, 59u8, 0x0222081202120000u64));
    lemma_square_served(true, 6u64, 0x0000020408102000u64, 59u8, 0x0222081202120000u64);
    assert(is_perfect(0x0002040810204000u64, 58u8, 0x808240c200904000u64));
    lemma_square_served(true, 7u64, 0x0002040810204000u64, 58u8, 0x808240c200904000u64);
}

/// The bishop's multipliers serve the squares of the second rank.
proof fn lemma_bishops_on_rank_2()
    ensures
        rank_served(true, BISHOP_MAGIC_NR@, 1),
{
    assert(
        (forall|j: u64|
            j < 64 ==> (#[trigger] (0x0020100804020000u64 >> j) & 1 == 1)
                == (j != 8u64 && (((j >> 3) + (8u64 & 7) == (j & 7) + (8u64 >> 3))
                    || ((j >> 3) + (j & 7) == (8u64 >> 3) + (8u64 & 7)))
                    && 1 <= j >> 3 && j >> 3 <= 6 && 1 <= j & 7 && j & 7 <= 6))
        && (forall|a: u64, b: u64|
            a & 0x0020100804020000u64 == a && b & 0x0020100804020000u64 == b && a != b
                ==> (a & 0x0020100804020000u64).wrapping_mul(0x000004110c180080u64) >> 59u64
                != (b & 0x0020100804020000u64).wrapping_mul(0x000004110c180080u64) >> 59u64)
        && (forall|j: u64|
            j < 64 ==> (#[trigger] (0x0040201008040000u64 >> j) & 1 == 1)
                == (j != 9u64 && (((j >> 3) + (9u64 & 7) == (j & 7) + (9u64 >> 3))
                    || ((j >> 3) + (j & 7) == (9u64 >> 3) + (9u64 & 7)))
                    && 1 <= j >> 3 && j >> 3 <= 6 && 1 <= j & 7 && j & 7 <= 6))
        && (forall|a: u64, b: u64|
            a & 0x0040201008040000u64 == a && b & 0x0040201008040000u64 == b && a != b
                ==> (a & 0x0040201008040000u64).wrapping_mul(0x0002081001204101u64) >> 59u64
                != (b & 0x0040201008040000u64).wrapping_mul(0x0002081001204101u64) >> 59u64)
        && (forall|j: u64|
            j < 64 ==> (#[trigger] (0x00004020100a0000u64 >> j) & 1 == 1)
                == (j != 10u64 && (((j >> 3) + (10u64 & 7) == (j & 7) + (10u64 >> 3))
                    || ((j >> 3) + (j & 7) == (10u64 >> 3) + (10u64 & 7)))
                    && 1 <= j >> 3 && j >> 3 <= 6 && 1 <= j & 7 && j & 7 <= 6))
        && (forall|a: u64, b: u64|
            a & 0x00004020100a0000u64 == a && b & 0x00004020100a0000u64 == b && a != b
                ==> (a & 0x00004020100a0000u64).wrapping_mul(0x0a00100122086402u64) >> 59u64
                != (b & 0x00004020100a0000u64).wrapping_mul(0x0a00100122086402u64) >> 59u64)
        && (forall|j: u64|
            j < 64 ==> (#[trigger] (0x0000004022140000u64 >> j) & 1 == 1)
                == (j != 11u64 && (((j >> 3) + (11u64 & 7) == (j & 7) + (11u64 >> 3))
                    || ((j >> 3) + (j & 7) == (11u64 >> 3) + (11u64 & 7)))
                    && 1 <= j >> 3 && j >> 3 <= 6 && 1 <= j & 7 && j & 7 <= 6))
        && (forall|a: u64, b: u64|
            a & 0x0000004022140000u64 == a && b & 0x0000004022140000u64 == b && a != b
                ==> (a & 0x0000004022140000u64).wrapping_mul(0x9024040404808041u64) >> 59u64
                != (b & 0x0000004022140000u64).wrapping_mul(0x9024040404808041u64) >> 59u64)
        && (forall|j: u64|
            j < 64 ==> (#[trigger] (0x0000000244280000u64 >> j) & 1 == 1)
                == (j != 12u64 && (((j >> 3) + (12u64 & 7) == (j & 7) + (12u64 >> 3))
                    || ((j >> 3) + (j & 7) == (12u64 >> 3) + (12u64 & 7)))
                    && 1 <= j >> 3 && j >> 3 <= 6 && 1 <= j & 7 && j & 7 <= 6))
        && (forall|a: u64, b: u64|
            a & 0x0000000244280000u64 == a && b & 0x0000000244280000u64 == b && a != b
                ==> (a & 0x0000000244280000u64).wrapping_mul(0x07d0021210400000u64) >> 59u64
                != (b & 0x0000000244280000u64).wrapping_mul(0x07d0021210400000u64) >> 59u64)
        && (forall|j: u64|
            j < 64 ==> (#[trigger] (0x0000020408500000u64 >> j) & 1 == 1)
                == (j != 13u64 && (((j >> 3) + (13u64 & 7) == (j & 7) + (13u64 >> 3))
                    || ((j >> 3) + (j & 7) == (13u64 >> 3) + (13u64 & 7)))
                    && 1 <= j >> 3 && j >> 3 <= 6 && 1 <= j & 7 && j & 7 <= 6))
        && (forall|a: u64, b: u64|
            a & 0x0000020408500000u64 == a && b & 0x0000020408500000u64 == b && a != b
                ==> (a & 0x0000020408500000u64).wrapping_mul(0x00084a08121a0000u64) >> 59u64
                != (b & 0x0000020408500000u64).wrapping_mul(0x00084a08121a0000u64) >> 59u64)
        && (forall|j: u64|
            j < 64 ==> (#[trigger] (0x0002040810200000u64 >> j) & 1 == 1)
                == (j != 14u64 && (((j >> 3) + (14u64 & 7) == (j & 7) + (14u64 >> 3))
                    || ((j >> 3) + (j & 7) == (14u64 >> 3) + (14u64 & 7)))
                    && 1 <= j >> 3 && j >> 3 <= 6 && 1 <= j & 7 && j & 7 <= 6))
        && (forall|a: u64, b: u64|
            a & 0x0002040810200000u64 == a && b & 0x0002040810200000u64 == b && a != b
                ==> (a & 0x0002040810200000u64).wrapping_mul(0x4000020890080800u64) >> 59u64
                != (b & 0x0002040810200000u64).wrapping_mul(0x4000020890080800u64) >> 59u64)
        && (forall|j: u64|
            j < 64 ==> (#[trigger] (0x0004081020400000u64 >> j) & 1 == 1)
                == (j != 15u64 && (((j >> 3) + (15u64 & 7) == (j & 7) + (15u64 >> 3))
                    || ((j >> 3) + (j & 7) == (15u64 >> 3) + (15u64 & 7)))
                    && 1 <= j >> 3 && j >> 3 <= 6 && 1 <= j & 7 && j & 7 <= 6))
        && (forall|a: u64, b: u64|
            a & 0x0004081020400000u64 == a && b & 0x0004081020400000u64 == b && a != b
                ==> (a & 0x0004081020400000u64).wrapping_mul(0x10000021084a1030u64) >> 59u64
                != (b & 0x0004081020400000u64).wrapping_mul(0x10000021084a1030u64) >> 59u64)
    ) by (bit_vector);
    assert(is_perfect(0x0020100804020000u64, 59u8, 0x000004110c180080u64));
    lemma_square_served(true, 8u64, 0x0020100804020000u64, 59u8, 0x000004110c180080u64);
    assert(is_perfect(0x0040201008040000u64, 59u8, 0x0002081001204101u64));
    lemma_square_served(true, 9u64, 0x0040201008040000u64, 59u8, 0x0002081001204101u64);
    assert(is_perfect(0x00004020100a0000u64, 59u8, 0x0a00100122086402u64));
    lemma_square_served(true, 10u64, 0x00004020100a0000u64, 59u8, 0x0a00100122086402u64);
    assert(is_perfect(0x0000004022140000u64, 59u8, 0x9024040404808041u64));
    lemma_square_served(true, 11u64, 0x0000004022140000u64, 59u8, 0x9024040404808041u64);
    assert(is_perfect(0x0000000244280000u64, 59u8, 0x07d0021210400000u64));
    lemma_square_served(true, 12u64, 0x0000000244280000u64, 59u8, 0x07d0021210400000u64);
    assert(is_perfect(0x0000020408500000u64, 59u8, 0x00084a08121a0000u64));
    lemma_square_served(true, 13u64, 0x0000020408500000u64, 59u8, 0x00084a08121a0000u64);
    assert(is_perfect(0x0002040810200000u64, 59u8, 0x4000020890080800u64));
    lemma_square_served(true, 14u64, 0x0002040810200000u64, 59u8, 0x4000020890080800u64);
    assert(is_perfect(0x0004081020400000u64, 59u8, 0x10000021084a1030u64));
    lemma_square_served(true, 15u64, 0x0004081020400000u64, 59u8, 0x10000021084a1030u64);
}

/// The bishop's multipliers serve the squares of the third rank.
proof fn lemma_bishops_on_rank_3()
    ensures
        rank_served(true, BISHOP_MAGIC_NR@, 2),
{
    assert(
        (forall|j: u64|
            j < 64 ==> (#[trigger] (0x0010080402000200u64 >> j) & 1 == 1)
                == (j != 16u64 && (((j >> 3) + (16u64 & 7) == (j & 7) + (16u64 >> 3))
                    || ((j >> 3) + (j & 7) == (16u64 >> 3) + (16u64 & 7)))
                    && 1 <= j >> 3 && j >> 3 <= 6 && 1 <= j & 7 && j & 7 <= 6))
        && (forall|a: u64, b: u64|
            a & 0x0010080402000200u64 == a && b & 0x0010080402000200u64 == b && a != b
                ==> (a & 0x0010080402000200u64).wrapping_mul(0x0010102002024816u64) >> 59u64
                != (b & 0x0010080402000200u64).wrapping_mul(0x0010102002024816u64) >> 59u64)
        && (forall|j: u64|
            j < 64 ==> (#[trigger] (0x0020100804000400u64 >> j) & 1 == 1)
                == (j != 17u64 && (((j >> 3) + (17u64 & 7) == (j & 7) + (17u64 >> 3))
                    || ((j >> 3) + (j & 7) == (17u64 >> 3) + (17u64 & 7)))
                    && 1 <= j >> 3 && j >> 3 <= 6 && 1 <= j & 7 && j & 7 <= 6))
        && (forall|a: u64, b: u64|
            a & 0x0020100804000400u64 == a && b & 0x0020100804000400u64 == b && a != b
                ==> (a & 0x0020100804000400u64).wrapping_mul(0x0820020608012120u64) >> 59u64
                != (b & 0x0020100804000400u64).wrapping_mul(0x0820020608012120u64) >> 59u64)
        && (forall|j: u64|
            j < 64 ==> (#[trigger] (0x004020100a000a00u64 >> j) & 1 == 1)
                == (j != 18u64 && (((j >> 3) + (18u64 & 7) == (j & 7) + (18u64 >> 3))
                    || ((j >> 3) + (j & 7) == (18u64 >> 3) + (18u64 & 7)))
                    && 1 <= j >> 3 && j >> 3 <= 6 && 1 <= j & 7 && j & 7 <= 6))
        && (forall|a: u64, b: u64|
            a & 0x004020100a000a00u64 == a && b & 0x004020100a000a00u64 == b && a != b
                ==> (a & 0x004020100a000a00u64).wrapping_mul(0x0808005408041070u64) >> 57u64
                != (b & 0x004020100a000a00u64).wrapping_mul(0x0808005408041070u64) >> 57u64)
        && (forall|j: u64|
            j < 64 ==> (#[trigger] (0x0000402214001400u64 >> j) & 1 == 1)
                == (j != 19u64 && (((j >> 3) + (19u64 & 7) == (j & 7) + (19u64 >> 3))
                    || ((j >> 3) + (j & 7) == (19u64 >> 3) + (19u64 & 7)))
                    && 1 <= j >> 3 && j >> 3 <= 6 && 1 <= j & 7 && j & 7 <= 6))
        && (forall|a: u64, b: u64|
            a & 0x0000402214001400u64 == a && b & 0x0000402214001400u64 == b && a != b
                ==> (a & 0x0000402214001400u64).wrapping_mul(0x0024078804105000u64) >> 57u64
                != (b & 0x0000402214001400u64).wrapping_mul(0x0024078804105000u64) >> 57u64)
        && (forall|j: u64|
            j < 64 ==> (#[trigger] (0x0000024428002800u64 >> j) & 1 == 1)
                == (j != 20u64 && (((j >> 3) + (20u64 & 7) == (j & 7) + (20u64 >> 3))
                    || ((j >> 3) + (j & 7) == (20u64 >> 3) + (20u64 & 7)))
                    && 1 <= j >> 3 && j >> 3 <= 6 && 1 <= j & 7 && j & 7 <= 6))
        && (forall|a: u64, b: u64|
            a & 0x0000024428002800u64 == a && b & 0x0000024428002800u64 == b && a != b
                ==> (a & 0x0000024428002800u64).wrapping_mul(0x8203008820084014u64) >> 57u64
                != (b & 0x0000024428002800u64).wrapping_mul(0x8203008820084014u64) >> 57u64)
        && (forall|j: u64|
            j < 64 ==> (#[trigger] (0x0002040850005000u64 >> j) & 1 == 1)
                == (j != 21u64 && (((j >> 3) + (21u64 & 7) == (j & 7) + (21u64 >> 3))
                    || ((j >> 3) + (j & 7) == (21u64 >> 3) + (21u64 & 7)))
                    && 1 <= j >> 3 && j >> 3 <= 6 && 1 <= j & 7 && j & 7 <= 6))
        && (forall|a: u64, b: u64|
            a & 0x0002040850005000u64 == a && b & 0x0002040850005000u64 == b && a != b
                ==> (a & 0x0002040850005000u64).wrapping_mul(0x8001000881600232u64) >> 57u64
                != (b & 0x0002040850005000u64).wrapping_mul(0x8001000881600232u64) >> 57u64)
        && (forall|j: u64|
            j < 64 ==> (#[trigger] (0x0004081020002000u64 >> j) & 1 == 1)
                == (j != 22u64 && (((j >> 3) + (22u64 & 7) == (j & 7) + (22u64 >> 3))
                    || ((j >> 3) + (j & 7) == (22u64 >> 3) + (22u64 & 7)))
                    && 1 <= j >> 3 && j >> 3 <= 6 && 1 <= j & 7 && j & 7 <= 6))
        && (forall|a: u64, b: u64|
            a & 0x0004081020002000u64 == a && b & 0x0004081020002000u64 == b && a != b
                ==> (a & 0x0004081020002000u64).wrapping_mul(0x0020600384242000u64) >> 59u64
                != (b & 0x0004081020002000u64).wrapping_mul(0x0020600384242000u64) >> 59u64)
        && (forall|j: u64|
            j < 64 ==> (#[trigger] (0x0008102040004000u64 >> j) & 1 == 1)
                == (j != 23u64 && (((j >> 3) + (23u64 & 7) == (j & 7) + (23u64 >> 3))
                    || ((j >> 3) + (j & 7) == (23u64 >> 3) + (23u64 & 7)))
                    && 1 <= j >> 3 && j >> 3 <= 6 && 1 <= j & 7 && j & 7 <= 6))
        && (forall|a: u64, b: u64|
            a & 0x0008102040004000u64 == a && b & 0x0008102040004000u64 == b && a != b
                ==> (a & 0x0008102040004000u64).wrapping_mul(0x28108001a4040200u64) >> 59u64
                != (b & 0x0008102040004000u64).wrapping_mul(0x28108001a4040200u64) >> 59u64)
    ) by (bit_vector);
    assert(is_perfect(0x0010080402000200u64, 59u8, 0x0010102002024816u64));
    lemma_square_served(true, 16u64, 0x0010080402000200u64, 59u8, 0x0010102002024816u64);
    assert(is_perfect(0x0020100804000400u64, 59u8, 0x0820020608012120u64));
    lemma_square_served(true, 17u64, 0x0020100804000400u64, 59u8, 0x0820020608012120u64);
    assert(is_perfect(0x004020100a000a00u64, 57u8, 0x0808005408041070u64));
    lemma_square_served(true, 18u64, 0x004020100a000a00u64, 57u8, 0x0808005408041070u64);
    assert(is_perfect(0x0000402214001400u64, 57u8, 0x0024078804105000u64));
    lemma_square_served(true, 19u64, 0x0000402214001400u64, 57u8, 0x0024078804105000u64);
    assert(is_perfect(0x0000024428002800u64, 57u8, 0x8203008820084014u64));
    lemma_square_served(true, 20u64, 0x0000024428002800u64, 57u8, 0x8203008820084014u64);
    assert(is_perfect(0x0002040850005000u64, 57u8, 0x8001000881600232u64));
    lemma_square_served(true, 21u64, 0x0002040850005000u64, 57u8, 0x8001000881600232u64);
    assert(is_perfect(0x0004081020002000u64, 59u8, 0x0020600384242000u64));
    lemma_square_served(true, 22u64, 0x0004081020002000u64, 59u8, 0x0020600384242000u64);
    assert(is_perfect(0x0008102040004000u64, 59u8, 0x28108001a4040200u64));
    lemma_square_served(true, 23u64, 0x0008102040004000u64, 59u8, 0x28108001a4040200u64);
}

/// The bishop's multipliers serve the squares of the fourth rank.
proof fn lemma_bishops_on_rank_4()
    ensures
        rank_served(true, BISHOP_MAGIC_NR@, 3),
{
    assert(
        (forall|j: u64|
            j < 64 ==> (#[trigger] (0x0008040200020400u64 >> j) & 1 == 1)
                == (j != 24u64 && (((j >> 3) + (24u64 & 7) == (j & 7) + (24u64 >> 3))
                    || ((j >> 3) + (j & 7) == (24u64 >> 3) + (24u64 & 7)))
                    && 1 <= j >> 3 && j >> 3 <= 6 && 1 <= j & 7 && j & 7 <= 6))
        && (forall|a: u64, b: u64|
            a & 0x0008040200020400u64 == a && b & 0x0008040200020400u64 == b && a != b
                ==> (a & 0x0008040200020400u64).wrapping_mul(0x4810100040044140u64) >> 59u64
                != (b & 0x0008040200020400u64).wrapping_mul(0x4810100040044140u64) >> 59u64)
        && (forall|j: u64|
            j < 64 ==> (#[trigger] (0x0010080400040800u64 >> j) & 1 == 1)
                == (j != 25u64 && (((j >> 3) + (25u64 & 7) == (j & 7) + (25u64 >> 3))
                    || ((j >> 3) + (j & 7) == (25u64 >> 3) + (25u64 & 7)))
                    && 1 <= j >> 3 && j >> 3 <= 6 && 1 <= j & 7 && j & 7 <= 6))
        && (forall|a: u64, b: u64|
            a & 0x0010080400040800u64 == a && b & 0x0010080400040800u64 == b && a != b
                ==> (a & 0x0010080400040800u64).wrapping_mul(0x4092288010150830u64) >> 59u64
                != (b & 0x0010080400040800u64).wrapping_mul(0x4092288010150830u64) >> 59u64)
        && (forall|j: u64|
            j < 64 ==> (#[trigger] (0x0020100a000a1000u64 >> j) & 1 == 1)
                == (j != 26u64 && (((j >> 3) + (26u64 & 7) == (j & 7) + (26u64 >> 3))
                    || ((j >> 3) + (j & 7) == (26u64 >> 3) + (26u64 & 7)))
                    && 1 <= j >> 3 && j >> 3 <= 6 && 1 <= j & 7 && j & 7 <= 6))
        && (forall|a: u64, b: u64|
            a & 0x0020100a000a1000u64 == a && b & 0x0020100a000a1000u64 == b && a != b
                ==> (a & 0x0020100a000a1000u64).wrapping_mul(0x0048040808002424u64) >> 57u64
                != (b & 0x0020100a000a1000u64).wrapping_mul(0x0048040808002424u64) >> 57u64)
        && (forall|j: u64|
            j < 64 ==> (#[trigger] (0x0040221400142200u64 >> j) & 1 == 1)
                == (j != 27u64 && (((j >> 3) + (27u64 & 7) == (j & 7) + (27u64 >> 3))
                    || ((j >> 3) + (j & 7) == (27u64 >> 3) + (27u64 & 7)))
                    && 1 <= j >> 3 && j >> 3 <= 6 && 1 <= j & 7 && j & 7 <= 6))
        && (forall|a: u64, b: u64|
            a & 0x0040221400142200u64 == a && b & 0x0040221400142200u64 == b && a != b
                ==> (a & 0x0040221400142200u64).wrapping_mul(0x0040410008010900u64) >> 55u64
                != (b & 0x0040221400142200u64).wrapping_mul(0x0040410008010900u64) >> 55u64)
        && (forall|j: u64|
            j < 64 ==> (#[trigger] (0x0002442800284400u64 >> j) & 1 == 1)
                == (j != 28u64 && (((j >> 3) + (28u64 & 7) == (j & 7) + (28u64 >> 3))
                    || ((j >> 3) + (j & 7) == (28u64 >> 3) + (28u64 & 7)))
                    && 1 <= j >> 3 && j >> 3 <= 6 && 1 <= j & 7 && j & 7 <= 6))
        && (forall|a: u64, b: u64|
            a & 0x0002442800284400u64 == a && b & 0x0002442800284400u64 == b && a != b
                ==> (a & 0x0002442800284400u64).wrapping_mul(0x49408c0000806003u64) >> 55u64
                != (b & 0x0002442800284400u64).wrapping_mul(0x49408c0000806003u64) >> 55u64)
        && (forall|j: u64|
            j < 64 ==> (#[trigger] (0x0004085000500800u64 >> j) & 1 == 1)
                == (j != 29u64 && (((j >> 3) + (29u64 & 7) == (j & 7) + (29u64 >> 3))
                    || ((j >> 3) + (j & 7) == (29u64 >> 3) + (29u64 & 7)))
                    && 1 <= j >> 3 && j >> 3 <= 6 && 1 <= j & 7 && j & 7 <= 6))
        && (forall|a: u64, b: u64|
            a & 0x0004085000500800u64 == a && b & 0x0004085000500800u64 == b && a != b
                ==> (a & 0x0004085000500800u64).wrapping_mul(0x0418260004414201u64) >> 57u64
                != (b & 0x0004085000500800u64).wrapping_mul(0x0418260004414201u64) >> 57u64)
        && (forall|j: u64|
            j < 64 ==> (#[trigger] (0x0008102000201000u64 >> j) & 1 == 1)
                == (j != 30u64 && (((j >> 3) + (30u64 & 7) == (j & 7) + (30u64 >> 3))
                    || ((j >> 3) + (j & 7) == (30u64 >> 3) + (30u64 & 7)))
                    && 1 <= j >> 3 && j >> 3 <= 6 && 1 <= j & 7 && j & 7 <= 6))
        && (forall|a: u64, b: u64|
            a & 0x0008102000201000u64 == a && b & 0x0008102000201000u64 == b && a != b
                ==> (a & 0x0008102000201000u64).wrapping_mul(0x0002008002019008u64) >> 59u64
                != (b & 0x0008102000201000u64).wrapping_mul(0x0002008002019008u64) >> 59u64)
        && (forall|j: u64|
            j < 64 ==> (#[trigger] (0x0010204000402000u64 >> j) & 1 == 1)
                == (j != 31u64 && (((j >> 3) + (31u64 & 7) == (j & 7) + (31u64 >> 3))
                    || ((j >> 3) + (j & 7) == (31u64 >> 3) + (31u64 & 7)))
                    && 1 <= j >> 3 && j >> 3 <= 6 && 1 <= j & 7 && j & 7 <= 6))
        && (forall|a: u64, b: u64|
            a & 0x0010204000402000u64 == a && b & 0x0010204000402000u64 == b && a != b
                ==> (a & 0x0010204000402000u64).wrapping_mul(0x0201010082004920u64) >> 59u64
                != (b & 0x0010204000402000u64).wrapping_mul(0x0201010082004920u64) >> 59u64)
    ) by (bit_vector);
    assert(is_perfect(0x0008040200020400u64, 59u8, 0x4810100040044140u64));
    lemma_square_served(true, 24u64, 0x0008040200020400u64, 59u8, 0x4810100040044140u64);
    assert(is_perfect(0x0010080400040800u64, 59u8, 0x4092288010150830u64));
    lemma_square_served(true, 25u64, 0x0010080400040800u64, 59u8, 0x4092288010150830u64);
    assert(is_perfect(0x0020100a000a1000u64, 57u8, 0x0048040808002424u64));
    lemma_square_served(true, 26u64, 0x0020100a000a1000u64, 57u8, 0x0048040808002424u64);
    assert(is_perfect(0x0040221400142200u64, 55u8, 0x0040410008010900u64));
    lemma_square_served(true, 27u64, 0x0040221400142200u64, 55u8, 0x0040410008010900u64);
    assert(is_perfect(0x0002442800284400u64, 55u8, 0x49408c0000806003u64));
    lemma_square_served(true, 28u64, 0x0002442800284400u64, 55u8, 0x49408c0000806003u64);
    assert(is_perfect(0x0004085000500800u64, 57u8, 0x0418260004414201u64));
    lemma_square_served(true, 29u64, 0x0004085000500800u64, 57u8, 0x0418260004414201u64);
    assert(is_perfect(0x0008102000201000u64, 59u8, 0x0002008002019008u64));
    lemma_square_served(true, 30u64, 0x0008102000201000u64, 59u8, 0x0002008002019008u64);
    assert(is_perfect(0x0010204000402000u64, 59u8, 0x0201010082004920u64));
    lemma_square_served(true, 31u64, 0x0010204000402000u64, 59u8, 0x0201010082004920u64);
}

/// The bishop's multipliers serve the squares of the fifth rank.
proof fn lemma_bishops_on_rank_5()
    ensures
        rank_served(true, BISHOP_MAGIC_NR@, 4),
{
    assert(
        (forall|j: u64|
            j < 64 ==> (#[trigger] (0x0004020002040800u64 >> j) & 1 == 1)
                == (j != 32u64 && (((j >> 3) + (32u64 & 7) == (j & 7) + (32u64 >> 3))
                    || ((j >> 3) + (j & 7) == (32u64 >> 3) + (32u64 & 7)))
                    && 1 <= j >> 3 && j >> 3 <= 6 && 1 <= j & 7 && j & 7 <= 6))
        && (forall|a: u64, b: u64|
            a & 0x0004020002040800u64 == a && b & 0x0004020002040800u64 == b && a != b
                ==> (a & 0x0004020002040800u64).wrapping_mul(0x8088184244080210u64) >> 59u64
                != (b & 0x0004020002040800u64).wrapping_mul(0x8088184244080210u64) >> 59u64)
        && (forall|j: u64|
            j < 64 ==> (#[trigger] (0x0008040004081000u64 >> j) & 1 == 1)
                == (j != 33u64 && (((j >> 3) + (33u64 & 7) == (j & 7) + (33u64 >> 3))
                    || ((j >> 3) + (j & 7) == (33u64 >> 3) + (33u64 & 7)))
                    && 1 <= j >> 3 && j >> 3 <= 6 && 1 <= j & 7 && j & 7 <= 6))
        && (forall|a: u64, b: u64|
            a & 0x0008040004081000u64 == a && b & 0x0008040004081000u64 == b && a != b
                ==> (a & 0x0008040004081000u64).wrapping_mul(0x1000982000540408u64) >> 59u64
                != (b & 0x0008040004081000u64).wrapping_mul(0x1000982000540408u64) >> 59u64)
        && (forall|j: u64|
            j < 64 ==> (#[trigger] (0x00100a000a102000u64 >> j) & 1 == 1)
                == (j != 34u64 && (((j >> 3) + (34u64 & 7) == (j & 7) + (34u64 >> 3))
                    || ((j >> 3) + (j & 7) == (34u64 >> 3) + (34u64 & 7)))
                    && 1 <= j >> 3 && j >> 3 <= 6 && 1 <= j & 7 && j & 7 <= 6))
        && (forall|a: u64, b: u64|
            a & 0x00100a000a102000u64 == a && b & 0x00100a000a102000u64 == b && a != b
                ==> (a & 0x00100a000a102000u64).wrapping_mul(0x80040024000802c0u64) >> 57u64
                != (b & 0x00100a000a102000u64).wrapping_mul(0x80040024000802c0u64) >> 57u64)
        && (forall|j: u64|
            j < 64 ==> (#[trigger] (0x0022140014224000u64 >> j) & 1 == 1)
                == (j != 35u64 && (((j >> 3) + (35u64 & 7) == (j & 7) + (35u64 >> 3))
                    || ((j >> 3) + (j & 7) == (35u64 >> 3) + (35u64 & 7)))
                    && 1 <= j >> 3 && j >> 3 <= 6 && 1 <= j & 7 && j & 7 <= 6))
        && (forall|a: u64, b: u64|
            a & 0x0022140014224000u64 == a && b & 0x0022140014224000u64 == b && a != b
                ==> (a & 0x0022140014224000u64).wrapping_mul(0x8280042008040100u64) >> 55u64
                != (b & 0x0022140014224000u64).wrapping_mul(0x8280042008040100u64) >> 55u64)
        && (forall|j: u64|
            j < 64 ==> (#[trigger] (0x0044280028440200u64 >> j) & 1 == 1)
                == (j != 36u64 && (((j >> 3) + (36u64 & 7) == (j & 7) + (36u64 >> 3))
                    || ((j >> 3) + (j & 7) == (36u64 >> 3) + (36u64 & 7)))
                    && 1 <= j >> 3 && j >> 3 <= 6 && 1 <= j & 7 && j & 7 <= 6))
        && (forall|a: u64, b: u64|
            a & 0x0044280028440200u64 == a && b & 0x0044280028440200u64 == b && a != b
                ==> (a & 0x0044280028440200u64).wrapping_mul(0x014c010805040040u64) >> 55u64
                != (b & 0x0044280028440200u64).wrapping_mul(0x014c010805040040u64) >> 55u64)
        && (forall|j: u64|
            j < 64 ==> (#[trigger] (0x0008500050080400u64 >> j) & 1 == 1)
                == (j != 37u64 && (((j >> 3) + (37u64 & 7) == (j & 7) + (37u64 >> 3))
                    || ((j >> 3) + (j & 7) == (37u64 >> 3) + (37u64 & 7)))
                    && 1 <= j >> 3 && j >> 3 <= 6 && 1 <= j & 7 && j & 7 <= 6))
        && (forall|a: u64, b: u64|
            a & 0x0008500050080400u64 == a && b & 0x0008500050080400u64 == b && a != b
                ==> (a & 0x0008500050080400u64).wrapping_mul(0x9041110200010805u64) >> 57u64
                != (b & 0x0008500050080400u64).wrapping_mul(0x9041110200010805u64) >> 57u64)
        && (forall|j: u64|
            j < 64 ==> (#[trigger] (0x0010200020100800u64 >> j) & 1 == 1)
                == (j != 38u64 && (((j >> 3) + (38u64 & 7) == (j & 7) + (38u64 >> 3))
                    || ((j >> 3) + (j & 7) == (38u64 >> 3) + (38u64 & 7)))
                    && 1 <= j >> 3 && j >> 3 <= 6 && 1 <= j & 7 && j & 7 <= 6))
        && (forall|a: u64, b: u64|
            a & 0x0010200020100800u64 == a && b & 0x0010200020100800u64 == b && a != b
                ==> (a & 0x0010200020100800u64).wrapping_mul(0x08020403000c0882u64) >> 59u64
                != (b & 0x0010200020100800u64).wrapping_mul(0x08020403000c0882u64) >> 59u64)
        && (forall|j: u64|
            j < 64 ==> (#[trigger] (0x0020400040201000u64 >> j) & 1 == 1)
                == (j != 39u64 && (((j >> 3) + (39u64 & 7) == (j & 7) + (39u64 >> 3))
                    || ((j >> 3) + (j & 7) == (39u64 >> 3) + (39u64 & 7)))
                    && 1 <= j >> 3 && j >> 3 <= 6 && 1 <= j & 7 && j & 7 <= 6))
        && (forall|a: u64, b: u64|
            a & 0x0020400040201000u64 == a && b & 0x0020400040201000u64 == b && a != b
                ==> (a & 0x0020400040201000u64).wrapping_mul(0x0104148080060062u64) >> 59u64
                != (b & 0x0020400040201000u64).wrapping_mul(0x0104148080060062u64) >> 59u64)
    ) by (bit_vector);
    assert(is_perfect(0x0004020002040800u64, 59u8, 0x8088184244080210u64));
    lemma_square_served(true, 32u64, 0x0004020002040800u64, 59u8, 0x8088184244080210u64);
    assert(is_perfect(0x0008040004081000u64, 59u8, 0x1000982000540408u64));
    lemma_square_served(true, 33u64, 0x0008040004081000u64, 59u8, 0x1000982000540408u64);
    assert(is_perfect(0x00100a000a102000u64, 57u8, 0x80040024000802c0u64));
    lemma_square_served(true, 34u64, 0x00100a000a102000u64, 57u8, 0x80040024000802c0u64);
    assert(is_perfect(0x0022140014224000u64, 55u8, 0x8280042008040100u64));
    lemma_square_served(true, 35u64, 0x0022140014224000u64, 55u8, 0x8280042008040100u64);
    assert(is_perfect(0x0044280028440200u64, 55u8, 0x014c010805040040u64));
    lemma_square_served(true, 36u64, 0x0044280028440200u64, 55u8, 0x014c010805040040u64);
    assert(is_perfect(0x0008500050080400u64, 57u8, 0x9041110200010805u64));
    lemma_square_served(true, 37u64, 0x0008500050080400u64, 57u8, 0x9041110200010805u64);
    assert(is_perfect(0x0010200020100800u64, 59u8, 0x08020403000c0882u64));
    lemma_square_served(true, 38u64, 0x0010200020100800u64, 59u8, 0x08020403000c0882u64);
    assert(is_perfect(0x0020400040201000u64, 59u8, 0x0104148080060062u64));
    lemma_square_served(true, 39u64, 0x0020400040201000u64, 59u8, 0x0104148080060062u64);
}

/// The bishop's multipliers serve the squares of the sixth rank.
proof fn lemma_bishops_on_rank_6()
    ensures
        rank_served(true, BISHOP_MAGIC_NR@, 5),
{
    assert(
        (forall|j: u64|
            j < 64 ==> (#[trigger] (0x0002000204081000u64 >> j) & 1 == 1)
                == (j != 40u64 && (((j >> 3) + (40u64 & 7) == (j & 7) + (40u64 >> 3))
                    || ((j >> 3) + (j & 7) == (40u64 >> 3) + (40u64 & 7)))
                    && 1 <= j >> 3 && j >> 3 <= 6 && 1 <= j & 7 && j & 7 <= 6))
        && (forall|a: u64, b: u64|
            a & 0x0002000204081000u64 == a && b & 0x0002000204081000u64 == b && a != b
                ==> (a & 0x0002000204081000u64).wrapping_mul(0x0000820820004000u64) >> 59u64
                != (b & 0x0002000204081000u64).wrapping_mul(0x0000820820004000u64) >> 59u64)
        && (forall|j: u64|
            j < 64 ==> (#[trigger] (0x0004000408102000u64 >> j) & 1 == 1)
                == (j != 41u64 && (((j >> 3) + (41u64 & 7) == (j & 7) + (41u64 >> 3))
                    || ((j >> 3) + (j & 7) == (41u64 >> 3) + (41u64 & 7)))
                    && 1 <= j >> 3 && j >> 3 <= 6 && 1 <= j & 7 && j & 7 <= 6))
        && (forall|a: u64, b: u64|
            a & 0x0004000408102000u64 == a && b & 0x0004000408102000u64 == b && a != b
                ==> (a & 0x0004000408102000u64).wrapping_mul(0x0002010420002600u64) >> 59u64
                != (b & 0x0004000408102000u64).wrapping_mul(0x0002010420002600u64) >> 59u64)
        && (forall|j: u64|
            j < 64 ==> (#[trigger] (0x000a000a10204000u64 >> j) & 1 == 1)
                == (j != 42u64 && (((j >> 3) + (42u64 & 7) == (j & 7) + (42u64 >> 3))
                    || ((j >> 3) + (j & 7) == (42u64 >> 3) + (42u64 & 7)))
                    && 1 <= j >> 3 && j >> 3 <= 6 && 1 <= j & 7 && j & 7 <= 6))
        && (forall|a: u64, b: u64|
            a & 0x000a000a10204000u64 == a && b & 0x000a000a10204000u64 == b && a != b
                ==> (a & 0x000a000a10204000u64).wrapping_mul(0x0202602028001020u64) >> 57u64
                != (b & 0x000a000a10204000u64).wrapping_mul(0x0202602028001020u64) >> 57u64)
        && (forall|j: u64|
            j < 64 ==> (#[trigger] (0x0014001422400000u64 >> j) & 1 == 1)
                == (j != 43u64 && (((j >> 3) + (43u64 & 7) == (j & 7) + (43u64 >> 3))
                    || ((j >> 3) + (j & 7) == (43u64 >> 3) + (43u64 & 7)))
                    && 1 <= j >> 3 && j >> 3 <= 6 && 1 <= j & 7 && j & 7 <= 6))
        && (forall|a: u64, b: u64|
            a & 0x0014001422400000u64 == a && b & 0x0014001422400000u64 == b && a != b
                ==> (a & 0x0014001422400000u64).wrapping_mul(0x0200004200811800u64) >> 57u64
                != (b & 0x0014001422400000u64).wrapping_mul(0x0200004200811800u64) >> 57u64)
        && (forall|j: u64|
            j < 64 ==> (#[trigger] (0x0028002844020000u64 >> j) & 1 == 1)
                == (j != 44u64 && (((j >> 3) + (44u64 & 7) == (j & 7) + (44u64 >> 3))
                    || ((j >> 3) + (j & 7) == (44u64 >> 3) + (44u64 & 7)))
                    && 1 <= j >> 3 && j >> 3 <= 6 && 1 <= j & 7 && j & 7 <= 6))
        && (forall|a: u64, b: u64|
            a & 0x0028002844020000u64 == a && b & 0x0028002844020000u64 == b && a != b
                ==> (a & 0x0028002844020000u64).wrapping_mul(0x0102380104014040u64) >> 57u64
                != (b & 0x0028002844020000u64).wrapping_mul(0x0102380104014040u64) >> 57u64)
        && (forall|j: u64|
            j < 64 ==> (#[trigger] (0x0050005008040200u64 >> j) & 1 == 1)
                == (j != 45u64 && (((j >> 3) + (45u64 & 7) == (j & 7) + (45u64 >> 3))
                    || ((j >> 3) + (j & 7) == (45u64 >> 3) + (45u64 & 7)))
                    && 1 <= j >> 3 && j >> 3 <= 6 && 1 <= j & 7 && j & 7 <= 6))
        && (forall|a: u64, b: u64|
            a & 0x0050005008040200u64 == a && b & 0x0050005008040200u64 == b && a != b
                ==> (a & 0x0050005008040200u64).wrapping_mul(0x2040280081000221u64) >> 57u64
                != (b & 0x0050005008040200u64).wrapping_mul(0x2040280081000221u64) >> 57u64)
        && (forall|j: u64|
            j < 64 ==> (#[trigger] (0x0020002010080400u64 >> j) & 1 == 1)
                == (j != 46u64 && (((j >> 3) + (46u64 & 7) == (j & 7) + (46u64 >> 3))
                    || ((j >> 3) + (j & 7) == (46u64 >> 3) + (46u64 & 7)))
                    && 1 <= j >> 3 && j >> 3 <= 6 && 1 <= j & 7 && j & 7 <= 6))
        && (forall|a: u64, b: u64|
            a & 0x0020002010080400u64 == a && b & 0x0020002010080400u64 == b && a != b
                ==> (a & 0x0020002010080400u64).wrapping_mul(0x4008022808400200u64) >> 59u64
                != (b & 0x0020002010080400u64).wrapping_mul(0x4008022808400200u64) >> 59u64)
        && (forall|j: u64|
            j < 64 ==> (#[trigger] (0x0040004020100800u64 >> j) & 1 == 1)
                == (j != 47u64 && (((j >> 3) + (47u64 & 7) == (j & 7) + (47u64 >> 3))
                    || ((j >> 3) + (j & 7) == (47u64 >> 3) + (47u64 & 7)))
                    && 1 <= j >> 3 && j >> 3 <= 6 && 1 <= j & 7 && j & 7 <= 6))
        && (forall|a: u64, b: u64|
            a & 0x0040004020100800u64 == a && b & 0x0040004020100800u64 == b && a != b
                ==> (a & 0x0040004020100800u64).wrapping_mul(0x9010240840900242u64) >> 59u64
                != (b & 0x0040004020100800u64).wrapping_mul(0x9010240840900242u64) >> 59u64)
    ) by (bit_vector);
    assert(is_perfect(0x0002000204081000u64, 59u8, 0x0000820820004000u64));
    lemma_square_served(true, 40u64, 0x0002000204081000u64, 59u8, 0x0000820820004000u64);
    assert(is_perfect(0x0004000408102000u64, 59u8, 0x0002010420002600u64));
    lemma_square_served(true, 41u64, 0x0004000408102000u64, 59u8, 0x0002010420002600u64);
    assert(is_perfect(0x000a000a10204000u64, 57u8, 0x0202602028001020u64));
    lemma_square_served(true, 42u64, 0x000a000a10204000u64, 57u8, 0x0202602028001020u64);
    assert(is_perfect(0x0014001422400000u64, 57u8, 0x0200004200811800u64));
    lemma_square_served(true, 43u64, 0x0014001422400000u64, 57u8, 0x0200004200811800u64);
    assert(is_perfect(0x0028002844020000u64, 57u8, 0x0102380104014040u64));
    lemma_square_served(true, 44u64, 0x0028002844020000u64, 57u8, 0x0102380104014040u64);
    assert(is_perfect(0x0050005008040200u64, 57u8, 0x2040280081000221u64));
    lemma_square_served(true, 45u64, 0x0050005008040200u64, 57u8, 0x2040280081000221u64);
    assert(is_perfect(0x0020002010080400u64, 59u8, 0x4008022808400200u64));
    lemma_square_served(true, 46u64, 0x0020002010080400u64, 59u8, 0x4008022808400200u64);
    assert(is_perfect(0x0040004020100800u64, 59u8, 0x9010240840900242u64));
    lemma_square_served(true, 47u64, 0x0040004020100800u64, 59u8, 0x9010240840900242u64);
}

/// The bishop's multipliers serve the squares of the seventh rank.
proof fn lemma_bishops_on_rank_7()
    ensures
        rank_served(true, BISHOP_MAGIC_NR@, 6),
{
    assert(
        (forall|j: u64|
            j < 64 ==> (#[trigger] (0x0000020408102000u64 >> j) & 1 == 1)
                == (j != 48u64 && (((j >> 3) + (48u64 & 7) == (j & 7) + (48u64 >> 3))
                    || ((j >> 3) + (j & 7) == (48u64 >> 3) + (48u64 & 7)))
                    && 1 <= j >> 3 && j >> 3 <= 6 && 1 <= j & 7 && j & 7 <= 6))
        && (forall|a: u64, b: u64|
            a & 0x0000020408102000u64 == a && b & 0x0000020408102000u64 == b && a != b
                ==> (a & 0x0000020408102000u64).wrapping_mul(0x4201420860890000u64) >> 59u64
                != (b & 0x0000020408102000u64).wrapping_mul(0x4201420860890000u64) >> 59u64)
        && (forall|j: u64|
            j < 64 ==> (#[trigger] (0x0000040810204000u64 >> j) & 1 == 1)
                == (j != 49u64 && (((j >> 3) + (49u64 & 7) == (j & 7) + (49u64 >> 3))
                    || ((j >> 3) + (j & 7) == (49u64 >> 3) + (49u64 & 7)))
                    && 1 <= j >> 3 && j >> 3 <= 6 && 1 <= j & 7 && j & 7 <= 6))
        && (forall|a: u64, b: u64|
            a & 0x0000040810204000u64 == a && b & 0x0000040810204000u64 == b && a != b
                ==> (a & 0x0000040810204000u64).wrapping_mul(0x0440808490101011u64) >> 59u64
                != (b & 0x0000040810204000u64).wrapping_mul(0x0440808490101011u64) >> 59u64)
        && (forall|j: u64|
            j < 64 ==> (#[trigger] (0x00000a1020400000u64 >> j) & 1 == 1)
                == (j != 50u64 && (((j >> 3) + (50u64 & 7) == (j & 7) + (50u64 >> 3))
                    || ((j >> 3) + (j & 7) == (50u64 >> 3) + (50u64 & 7)))
                    && 1 <= j >> 3 && j >> 3 <= 6 && 1 <= j & 7 && j & 7 <= 6))
        && (forall|a: u64, b: u64|
            a & 0x00000a1020400000u64 == a && b & 0x00000a1020400000u64 == b && a != b
                ==> (a & 0x00000a1020400000u64).wrapping_mul(0x0001090841102008u64) >> 59u64
                != (b & 0x00000a1020400000u64).wrapping_mul(0x0001090841102008u64) >> 59u64)
        && (forall|j: u64|
            j < 64 ==> (#[trigger] (0x0000142240000000u64 >> j) & 1 == 1)
                == (j != 51u64 && (((j >> 3) + (51u64 & 7) == (j & 7) + (51u64 >> 3))
                    || ((j >> 3) + (j & 7) == (51u64 >> 3) + (51u64 & 7)))
                    && 1 <= j >> 3 && j >> 3 <= 6 && 1 <= j & 7 && j & 7 <= 6))
        && (forall|a: u64, b: u64|
            a & 0x0000142240000000u64 == a && b & 0x0000142240000000u64 == b && a != b
                ==> (a & 0x0000142240000000u64).wrapping_mul(0x8040bc2084040018u64) >> 59u64
                != (b & 0x0000142240000000u64).wrapping_mul(0x8040bc2084040018u64) >> 59u64)
        && (forall|j: u64|
            j < 64 ==> (#[trigger] (0x0000284402000000u64 >> j) & 1 == 1)
                == (j != 52u64 && (((j >> 3) + (52u64 & 7) == (j & 7) + (52u64 >> 3))
                    || ((j >> 3) + (j & 7) == (52u64 >> 3) + (52u64 & 7)))
                    && 1 <= j >> 3 && j >> 3 <= 6 && 1 <= j & 7 && j & 7 <= 6))
        && (forall|a: u64, b: u64|
            a & 0x0000284402000000u64 == a && b & 0x0000284402000000u64 == b && a != b
                ==> (a & 0x0000284402000000u64).wrapping_mul(0x9c000c90ca021110u64) >> 59u64
                != (b & 0x0000284402000000u64).wrapping_mul(0x9c000c90ca021110u64) >> 59u64)
        && (forall|j: u64|
            j < 64 ==> (#[trigger] (0x0000500804020000u64 >> j) & 1 == 1)
                == (j != 53u64 && (((j >> 3) + (53u64 & 7) == (j & 7) + (53u64 >> 3))
                    || ((j >> 3) + (j & 7) == (53u64 >> 3) + (53u64 & 7)))
                    && 1 <= j >> 3 && j >> 3 <= 6 && 1 <= j & 7 && j & 7 <= 6))
        && (forall|a: u64, b: u64|
            a & 0x0000500804020000u64 == a && b & 0x0000500804020000u64 == b && a != b
                ==> (a & 0x0000500804020000u64).wrapping_mul(0x04121c0408020088u64) >> 59u64
                != (b & 0x0000500804020000u64).wrapping_mul(0x04121c0408020088u64) >> 59u64)
        && (forall|j: u64|
            j < 64 ==> (#[trigger] (0x0000201008040200u64 >> j) & 1 == 1)
                == (j != 54u64 && (((j >> 3) + (54u64 & 7) == (j & 7) + (54u64 >> 3))
                    || ((j >> 3) + (j & 7) == (54u64 >> 3) + (54u64 & 7)))
                    && 1 <= j >> 3 && j >> 3 <= 6 && 1 <= j & 7 && j & 7 <= 6))
        && (forall|a: u64, b: u64|
            a & 0x0000201008040200u64 == a && b & 0x0000201008040200u64 == b && a != b
                ==> (a & 0x0000201008040200u64).wrapping_mul(0x0040940806086020u64) >> 59u64
                != (b & 0x0000201008040200u64).wrapping_mul(0x0040940806086020u64) >> 59u64)
        && (forall|j: u64|
            j < 64 ==> (#[trigger] (0x0000402010080400u64 >> j) & 1 == 1)
                == (j != 55u64 && (((j >> 3) + (55u64 & 7) == (j & 7) + (55u64 >> 3))
                    || ((j >> 3) + (j & 7) == (55u64 >> 3) + (55u64 & 7)))
                    && 1 <= j >> 3 && j >> 3 <= 6 && 1 <= j & 7 && j & 7 <= 6))
        && (forall|a: u64, b: u64|
            a & 0x0000402010080400u64 == a && b & 0x0000402010080400u64 == b && a != b
                ==> (a & 0x0000402010080400u64).wrapping_mul(0x0004308202106214u64) >> 59u64
                != (b & 0x0000402010080400u64).wrapping_mul(0x0004308202106214u64) >> 59u64)
    ) by (bit_vector);
    assert(is_perfect(0x0000020408102000u64, 59u8, 0x4201420860890000u64));
    lemma_square_served(true, 48u64, 0x0000020408102000u64, 59u8, 0x4201420860890000u64);
    assert(is_perfect(0x0000040810204000u64, 59u8, 0x0440808490101011u64));
    lemma_square_served(true, 49u64, 0x0000040810204000u64, 59u8, 0x0440808490101011u64);
    assert(is_perfect(0x00000a1020400000u64, 59u8, 0x0001090841102008u64));
    lemma_square_served(true, 50u64, 0x00000a1020400000u64, 59u8, 0x0001090841102008u64);
    assert(is_perfect(0x0000142240000000u64, 59u8, 0x8040bc2084040018u64));
    lemma_square_served(true, 51u64, 0x0000142240000000u64, 59u8, 0x8040bc2084040018u64);
    assert(is_perfect(0x0000284402000000u64, 59u8, 0x9c000c90ca021110u64));
    lemma_square_served(true, 52u64, 0x0000284402000000u64, 59u8, 0x9c000c90ca021110u64);
    assert(is_perfect(0x0000500804020000u64, 59u8, 0x04121c0408020088u64));
    lemma_square_served(true, 53u64, 0x0000500804020000u64, 59u8, 0x04121c0408020088u64);
    assert(is_perfect(0x0000201008040200u64, 59u8, 0x0040940806086020u64));
    lemma_square_served(true, 54u64, 0x0000201008040200u64, 59u8, 0x0040940806086020u64);
    assert(is_perfect(0x0000402010080400u64, 59u8, 0x0004308202106214u64));
    lemma_square_served(true, 55u64, 0x0000402010080400u64, 59u8, 0x0004308202106214u64);
}

/// The bishop's multipliers serve the squares of the eighth rank.
proof fn lemma_bishops_on_rank_8()
    ensures
        rank_served(true, BISHOP_MAGIC_NR@, 7),
{
    assert(
        (forall|j: u64|
            j < 64 ==> (#[trigger] (0x0002040810204000u64 >> j) & 1 == 1)
                == (j != 56u64 && (((j >> 3) + (56u64 & 7) == (j & 7) + (56u64 >> 3))
                    || ((j >> 3) + (j & 7) == (56u64 >> 3) + (56u64 & 7)))
                    && 1 <= j >> 3 && j >> 3 <= 6 && 1 <= j & 7 && j & 7 <= 6))
        && (forall|a: u64, b: u64|
            a & 0x0002040810204000u64 == a && b & 0x0002040810204000u64 == b && a != b
                ==> (a & 0x0002040810204000u64).wrapping_mul(0x2202120110083402u64) >> 58u64
                != (b & 0x0002040810204000u64).wrapping_mul(0x2202120110083402u64) >> 58u64)
        && (forall|j: u64|
            j < 64 ==> (#[trigger] (0x0004081020400000u64 >> j) & 1 == 1)
                == (j != 57u64 && (((j >> 3) + (57u64 & 7) == (j & 7) + (57u64 >> 3))
                    || ((j >> 3) + (j & 7) == (57u64 >> 3) + (57u64 & 7)))
                    && 1 <= j >> 3 && j >> 3 <= 6 && 1 <= j & 7 && j & 7 <= 6))
        && (forall|a: u64, b: u64|
            a & 0x0004081020400000u64 == a && b & 0x0004081020400000u64 == b && a != b
                ==> (a & 0x0004081020400000u64).wrapping_mul(0x0200008184100225u64) >> 59u64
                != (b & 0x0004081020400000u64).wrapping_mul(0x0200008184100225u64) >> 59u64)
        && (forall|j: u64|
            j < 64 ==> (#[trigger] (0x000a102040000000u64 >> j) & 1 == 1)
                == (j != 58u64 && (((j >> 3) + (58u64 & 7) == (j & 7) + (58u64 >> 3))
                    || ((j >> 3) + (j & 7) == (58u64 >> 3) + (58u64 & 7)))
                    && 1 <= j >> 3 && j >> 3 <= 6 && 1 <= j & 7 && j & 7 <= 6))
        && (forall|a: u64, b: u64|
            a & 0x000a102040000000u64 == a && b & 0x000a102040000000u64 == b && a != b
                ==> (a & 0x000a102040000000u64).wrapping_mul(0x0120621121080822u64) >> 59u64
                != (b & 0x000a102040000000u64).wrapping_mul(0x0120621121080822u64) >> 59u64)
        && (forall|j: u64|
            j < 64 ==> (#[trigger] (0x0014224000000000u64 >> j) & 1 == 1)
                == (j != 59u64 && (((j >> 3) + (59u64 & 7) == (j & 7) + (59u64 >> 3))
                    || ((j >> 3) + (j & 7) == (59u64 >> 3) + (59u64 & 7)))
                    && 1 <= j >> 3 && j >> 3 <= 6 && 1 <= j & 7 && j & 7 <= 6))
        && (forall|a: u64, b: u64|
            a & 0x0014224000000000u64 == a && b & 0x0014224000000000u64 == b && a != b
                ==> (a & 0x0014224000000000u64).wrapping_mul(0x9004823583460810u64) >> 59u64
                != (b & 0x0014224000000000u64).wrapping_mul(0x9004823583460810u64) >> 59u64)
        && (forall|j: u64|
            j < 64 ==> (#[trigger] (0x0028440200000000u64 >> j) & 1 == 1)
                == (j != 60u64 && (((j >> 3) + (60u64 & 7) == (j & 7) + (60u64 >> 3))
                    || ((j >> 3) + (j & 7) == (60u64 >> 3) + (60u64 & 7)))
                    && 1 <= j >> 3 && j >> 3 <= 6 && 1 <= j & 7 && j & 7 <= 6))
        && (forall|a: u64, b: u64|
            a & 0x0028440200000000u64 == a && b & 0x0028440200000000u64 == b && a != b
                ==> (a & 0x0028440200000000u64).wrapping_mul(0x001100004010c505u64) >> 59u64
                != (b & 0x0028440200000000u64).wrapping_mul(0x001100004010c505u64) >> 59u64)
        && (forall|j: u64|
            j < 64 ==> (#[trigger] (0x0050080402000000u64 >> j) & 1 == 1)
                == (j != 61u64 && (((j >> 3) + (61u64 & 7) == (j & 7) + (61u64 >> 3))
                    || ((j >> 3) + (j & 7) == (61u64 >> 3) + (61u64 & 7)))
                    && 1 <= j >> 3 && j >> 3 <= 6 && 1 <= j & 7 && j & 7 <= 6))
        && (forall|a: u64, b: u64|
            a & 0x0050080402000000u64 == a && b & 0x0050080402000000u64 == b && a != b
                ==> (a & 0x0050080402000000u64).wrapping_mul(0x8000010820088082u64) >> 59u64
                != (b & 0x0050080402000000u64).wrapping_mul(0x8000010820088082u64) >> 59u64)
        && (forall|j: u64|
            j < 64 ==> (#[trigger] (0x0020100804020000u64 >> j) & 1 == 1)
                == (j != 62u64 && (((j >> 3) + (62u64 & 7) == (j & 7) + (62u64 >> 3))
                    || ((j >> 3) + (j & 7) == (62u64 >> 3) + (62u64 & 7)))
                    && 1 <= j >> 3 && j >> 3 <= 6 && 1 <= j & 7 && j & 7 <= 6))
        && (forall|a: u64, b: u64|
            a & 0x0020100804020000u64 == a && b & 0x0020100804020000u64 == b && a != b
                ==> (a & 0x0020100804020000u64).wrapping_mul(0x004004201ca40081u64) >> 59u64
                != (b & 0x0020100804020000u64).wrapping_mul(0x004004201ca40081u64) >> 59u64)
        && (forall|j: u64|
            j < 64 ==> (#[trigger] (0x0040201008040200u64 >> j) & 1 == 1)
                == (j != 63u64 && (((j >> 3) + (63u64 & 7) == (j & 7) + (63u64 >> 3))
                    || ((j >> 3) + (j & 7) == (63u64 >> 3) + (63u64 & 7)))
                    && 1 <= j >> 3 && j >> 3 <= 6 && 1 <= j & 7 && j & 7 <= 6))
        && (forall|a: u64, b: u64|
            a & 0x0040201008040200u64 == a && b & 0x0040201008040200u64 == b && a != b
                ==> (a & 0x0040201008040200u64).wrapping_mul(0x0005101005010030u64) >> 58u64
                != (b & 0x0040201008040200u64).wrapping_mul(0x0005101005010030u64) >> 58u64)
    ) by (bit_vector);
    assert(is_perfect(0x0002040810204000u64, 58u8, 0x2202120110083402u64));
    lemma_square_served(true, 56u64, 0x0002040810204000u64, 58u8, 0x2202120110083402u64);
    assert(is_perfect(0x0004081020400000u64, 59u8, 0x0200008184100225u64));
    lemma_square_served(true, 57u64, 0x0004081020400000u64, 59u8, 0x0200008184100225u64);
    assert(is_perfect(0x000a102040000000u64, 59u8, 0x0120621121080822u64));
    lemma_square_served(true, 58u64, 0x000a102040000000u64, 59u8, 0x0120621121080822u64);
    assert(is_perfect(0x0014224000000000u64, 59u8, 0x9004823583460810u64));
    lemma_square_served(true, 59u64, 0x0014224000000000u64, 59u8, 0x9004823583460810u64);
    assert(is_perfect(0x0028440200000000u64, 59u8, 0x001100004010c505u64));
    lemma_square_served(true, 60u64, 0x0028440200000000u64, 59u8, 0x001100004010c505u64);
    assert(is_perfect(0x0050080402000000u64, 59u8, 0x8000010820088082u64));
    lemma_square_served(true, 61u64, 0x0050080402000000u64, 59u8, 0x8000010820088082u64);
    assert(is_perfect(0x0020100804020000u64, 59u8, 0x004004201ca40081u64));
    lemma_square_served(true, 62u64, 0x0020100804020000u64, 59u8, 0x004004201ca40081u64);
    assert(is_perfect(0x0040201008040200u64, 58u8, 0x0005101005010030u64));
    lemma_square_served(true, 63u64, 0x0040201008040200u64, 58u8, 0x0005101005010030u64);
}

/// The powers of two that count the subsets of a relevant set.
proof fn lemma_small_powers()
    ensures
        1u64 << 5u64 == 32,
        1u64 << 6u64 == 64,
        1u64 << 7u64 == 128,
        1u64 << 8u64 == 256,
        1u64 << 9u64 == 512,
        1u64 << 10u64 == 1024,
        1u64 << 11u64 == 2048,
        1u64 << 12u64 == 4096,
{
    assert(1u64 << 5u64 == 32 && 1u64 << 6u64 == 64 && 1u64 << 7u64 == 128 && 1u64 << 8u64 == 256
        && 1u64 << 9u64 == 512 && 1u64 << 10u64 == 1024 && 1u64 << 11u64 == 2048 && 1u64 << 12u64
        == 4096) by (bit_vector);
}

/// The slots that the rook's table holds for the squares of the first rank.
proof fn lemma_rook_slots_on_rank_1()
    ensures
        table_offset(false, 8) == table_offset(false, 0) + 20480,
{
    lemma_small_powers();
    lemma_relevant_count(false, 0);
    lemma_relevant_count(false, 1);
    lemma_relevant_count(false, 2);
    lemma_relevant_count(false, 3);
    lemma_relevant_count(false, 4);
    lemma_relevant_count(false, 5);
    lemma_relevant_count(false, 6);
    lemma_relevant_count(false, 7);
    reveal_with_fuel(table_offset, 9);
}

/// The slots that the rook's table holds for the squares of the second rank.
proof fn lemma_rook_slots_on_rank_2()
    ensures
        table_offset(false, 16) == table_offset(false, 8) + 10240,
{
    lemma_small_powers();
    lemma_relevant_count(false, 8);
    lemma_relevant_count(false, 9);
    lemma_relevant_count(false, 10);
    lemma_relevant_count(false, 11);
    lemma_relevant_count(false, 12);
    lemma_relevant_count(false, 13);
    lemma_relevant_count(false, 14);
    lemma_relevant_count(false, 15);
    reveal_with_fuel(table_offset, 9);
}

/// The slots that the rook's table holds for the squares of the third rank.
proof fn lemma_rook_slots_on_rank_3()
    ensures
        table_offset(false, 24) == table_offset(false, 16) + 10240,
{
    lemma_small_powers();
    lemma_relevant_count(false, 16);
    lemma_relevant_count(false, 17);
    lemma_relevant_count(false, 18);
    lemma_relevant_count(false, 19);
    lemma_relevant_count(false, 20);
    lemma_relevant_count(false, 21);
    lemma_relevant_count(false, 22);
    lemma_relevant_count(false, 23);
    reveal_with_fuel(table_offset, 9);
}

/// The slots that the rook's table holds for the squares of the fourth rank.
proof fn lemma_rook_slots_on_rank_4()
    ensures
        table_offset(false, 32) == table_offset(false, 24) + 10240,
{
    lemma_small_powers();
    lemma_relevant_count(false, 24);
    lemma_relevant_count(false, 25);
    lemma_relevant_count(false, 26);
    lemma_relevant_count(false, 27);
    lemma_relevant_count(false, 28);
    lemma_relevant_count(false, 29);
    lemma_relevant_count(false, 30);
    lemma_relevant_count(false, 31);
    reveal_with_fuel(table_offset, 9);
}

/// The slots that the rook's table holds for the squares of the fifth rank.
proof fn lemma_rook_slots_on_rank_5()
    ensures
        table_offset(false, 40) == table_offset(false, 32) + 10240,
{
    lemma_small_powers();
    lemma_relevant_count(false, 32);
    lemma_relevant_count(false, 33);
    lemma_relevant_count(false, 34);
    lemma_relevant_count(false, 35);
    lemma_relevant_count(false, 36);
    lemma_relevant_count(false, 37);
    lemma_relevant_count(false, 38);
    lemma_relevant_count(false, 39);
    reveal_with_fuel(table_offset, 9);
}

/// The slots that the rook's table holds for the squares of the sixth rank.
proof fn lemma_rook_slots_on_rank_6()
    ensures
        table_offset(false, 48) == table_offset(false, 40) + 10240,
{
    lemma_small_powers();
    lemma_relevant_count(false, 40);
    lemma_relevant_count(false, 41);
    lemma_relevant_count(false, 42);
    lemma_relevant_count(false, 43);
    lemma_relevant_count(false, 44);
    lemma_relevant_count(false, 45);
    lemma_relevant_count(false, 46);
    lemma_relevant_count(false, 47);
    reveal_with_fuel(table_offset, 9);
}

/// The slots that the rook's table holds for the squares of the seventh rank.
proof fn lemma_rook_slots_on_rank_7()
    ensures
        table_offset(false, 56) == table_offset(false, 48) + 10240,
{
    lemma_small_powers();
    lemma_relevant_count(false, 48);
    lemma_relevant_count(false, 49);
    lemma_relevant_count(false, 50);
    lemma_relevant_count(false, 51);
    lemma_relevant_count(false, 52);
    lemma_relevant_count(false, 53);
    lemma_relevant_count(false, 54);
    lemma_relevant_count(false, 55);
    reveal_with_fuel(table_offset, 9);
}

/// The slots that the rook's table holds for the squares of the eighth rank.
proof fn lemma_rook_slots_on_rank_8()
    ensures
        table_offset(false, 64) == table_offset(false, 56) + 20480,
{
    lemma_small_powers();
    lemma_relevant_count(false, 56);
    lemma_relevant_count(false, 57);
    lemma_relevant_count(false, 58);
    lemma_relevant_count(false, 59);
    lemma_relevant_count(false, 60);
    lemma_relevant_count(false, 61);
    lemma_relevant_count(false, 62);
    lemma_relevant_count(false, 63);
    reveal_with_fuel(table_offset, 9);
}

/// The slots that the bishop's table holds for the squares of the first rank.
proof fn lemma_bishop_slots_on_rank_1()
    ensures
        table_offset(true, 8) == table_offset(true, 0) + 320,
{
    lemma_small_powers();
    lemma_relevant_count(true, 0);
    lemma_relevant_count(true, 1);
    lemma_relevant_count(true, 2);
    lemma_relevant_count(true, 3);
    lemma_relevant_count(true, 4);
    lemma_relevant_count(true, 5);
    lemma_relevant_count(true, 6);
    lemma_relevant_count(true, 7);
    reveal_with_fuel(table_offset, 9);
}

/// The slots that the bishop's table holds for the squares of the second rank.
proof fn lemma_bishop_slots_on_rank_2()
    ensures
        table_offset(true, 16) == table_offset(true, 8) + 256,
{
    lemma_small_powers();
    lemma_relevant_count(true, 8);
    lemma_relevant_count(true, 9);
    lemma_relevant_count(true, 10);
    lemma_relevant_count(true, 11);
    lemma_relevant_count(true, 12);
    lemma_relevant_count(true, 13);
    lemma_relevant_count(true, 14);
    lemma_relevant_count(true, 15);
    reveal_with_fuel(table_offset, 9);
}

/// The slots that the bishop's table holds for the squares of the third rank.
proof fn lemma_bishop_slots_on_rank_3()
    ensures
        table_offset(true, 24) == table_offset(true, 16) + 640,
{
    lemma_small_powers();
    lemma_relevant_count(true, 16);
    lemma_relevant_count(true, 17);
    lemma_relevant_count(true, 18);
    lemma_relevant_count(true, 19);
    lemma_relevant_count(true, 20);
    lemma_relevant_count(true, 21);
    lemma_relevant_count(true, 22);
    lemma_relevant_count(true, 23);
    reveal_with_fuel(table_offset, 9);
}

/// The slots that the bishop's table holds for the squares of the fourth rank.
proof fn lemma_bishop_slots_on_rank_4()
    ensures
        table_offset(true, 32) == table_offset(true, 24) + 1408,
{
    lemma_small_powers();
    lemma_relevant_count(true, 24);
    lemma_relevant_count(true, 25);
    lemma_relevant_count(true, 26);
    lemma_relevant_count(true, 27);
    lemma_relevant_count(true, 28);
    lemma_relevant_count(true, 29);
    lemma_relevant_count(true, 30);
    lemma_relevant_count(true, 31);
    reveal_with_fuel(table_offset, 9);
}

/// The slots that the bishop's table holds for the squares of the fifth rank.
proof fn lemma_bishop_slots_on_rank_5()
    ensures
        table_offset(true, 40) == table_offset(true, 32) + 1408,
{
    lemma_small_powers();
    lemma_relevant_count(true, 32);
    lemma_relevant_count(true, 33);
    lemma_relevant_count(true, 34);
    lemma_relevant_count(true, 35);
    lemma_relevant_count(true, 36);
    lemma_relevant_count(true, 37);
    lemma_relevant_count(true, 38);
    lemma_relevant_count(true, 39);
    reveal_with_fuel(table_offset, 9);
}

/// The slots that the bishop's table holds for the squares of the sixth rank.
proof fn lemma_bishop_slots_on_rank_6()
    ensures
        table_offset(true, 48) == table_offset(true, 40) + 640,
{
    lemma_small_powers();
    lemma_relevant_count(true, 40);
    lemma_relevant_count(true, 41);
    lemma_relevant_count(true, 42);
    lemma_relevant_count(true, 43);
    lemma_relevant_count(true, 44);
    lemma_relevant_count(true, 45);
    lemma_relevant_count(true, 46);
    lemma_relevant_count(true, 47);
    reveal_with_fuel(table_offset, 9);
}

/// The slots that the bishop's table holds for the squares of the seventh rank.
proof fn lemma_bishop_slots_on_rank_7()
    ensures
        table_offset(true, 56) == table_offset(true, 48) + 256,
{
    lemma_small_powers();
    lemma_relevant_count(true, 48);
    lemma_relevant_count(true, 49);
    lemma_relevant_count(true, 50);
    lemma_relevant_count(true, 51);
    lemma_relevant_count(true, 52);
    lemma_relevant_count(true, 53);
    lemma_relevant_count(true, 54);
    lemma_relevant_count(true, 55);
    reveal_with_fuel(table_offset, 9);
}

/// The slots that the bishop's table holds for the squares of the eighth rank.
proof fn lemma_bishop_slots_on_rank_8()
    ensures
        table_offset(true, 64) == table_offset(true, 56) + 320,
{
    lemma_small_powers();
    lemma_relevant_count(true, 56);
    lemma_relevant_count(true, 57);
    lemma_relevant_count(true, 58);
    lemma_relevant_count(true, 59);
    lemma_relevant_count(true, 60);
    lemma_relevant_count(true, 61);
    lemma_relevant_count(true, 62);
    lemma_relevant_count(true, 63);
    reveal_with_fuel(table_offset, 9);
}

/// The sizes of the attack tables: the rook's has 102,400 slots, the
/// bishop's 5,248, one for every subset of the relevant squares of every
/// square.
pub proof fn lemma_table_sizes()
    ensures
        table_offset(false, 64) == 102_400,
        table_offset(true, 64) == 5_248,
{
    lemma_rook_slots_on_rank_1();
    lemma_rook_slots_on_rank_2();
    lemma_rook_slots_on_rank_3();
    lemma_rook_slots_on_rank_4();
    lemma_rook_slots_on_rank_5();
    lemma_rook_slots_on_rank_6();
    lemma_rook_slots_on_rank_7();
    lemma_rook_slots_on_rank_8();
    lemma_bishop_slots_on_rank_1();
    lemma_bishop_slots_on_rank_2();
    lemma_bishop_slots_on_rank_3();
    lemma_bishop_slots_on_rank_4();
    lemma_bishop_slots_on_rank_5();
    lemma_bishop_slots_on_rank_6();
    lemma_bishop_slots_on_rank_7();
    lemma_bishop_slots_on_rank_8();
}

/// The shipped multipliers are perfect: each of them hashes the blocker
/// sets within the relevant squares of its square without collision, for
/// the rook and for the bishop.
pub proof fn lemma_shipped_multipliers_serve()
    ensures
        serve_all(false, ROOK_MAGIC_NR@, 64),
        serve_all(true, BISHOP_MAGIC_NR@, 64),
{
    lemma_rooks_on_rank_1();
    lemma_rooks_on_rank_2();
    lemma_rooks_on_rank_3();
    lemma_rooks_on_rank_4();
    lemma_rooks_on_rank_5();
    lemma_rooks_on_rank_6();
    lemma_rooks_on_rank_7();
    lemma_rooks_on_rank_8();
    lemma_bishops_on_rank_1();
    lemma_bishops_on_rank_2();
    lemma_bishops_on_rank_3();
    lemma_bishops_on_rank_4();
    lemma_bishops_on_rank_5();
    lemma_bishops_on_rank_6();
    lemma_bishops_on_rank_7();
    lemma_bishops_on_rank_8();
    assert forall|square: int| 0 <= square < 64 implies served(
        false,
        square,
        ROOK_MAGIC_NR@[square],
    ) by {
        assert(rank_served(false, ROOK_MAGIC_NR@, square / 8));
    }
    assert forall|square: int| 0 <= square < 64 implies served(
        true,
        square,
        BISHOP_MAGIC_NR@[square],
    ) by {
        assert(rank_served(true, BISHOP_MAGIC_NR@, square / 8));
    }
}

} // verus!
