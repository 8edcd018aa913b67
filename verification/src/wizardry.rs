//! Finding magic multipliers: a multiplier serves a square when it hashes
//! the blocker sets within the relevant squares without collision.

use crate::bitboard::{count, count_bits, has_bit, is_occupied, set_bit, Bitboard};
use crate::bitboard::{group_has_bit, lemma_count_positive, lemma_lsb, lemma_same_members, lsb};
use crate::magic::{is_perfect, magic_hash, magic_shift, random_u64_fewbits, Magic};
use crate::move_gen::attack::lines;
use crate::move_gen::init::{lemma_relevant_bits, lemma_slot_bounds};
use crate::move_gen::mask::{enumerates_subsets, is_subset, lemma_subset_members, BlockerBoards};
use crate::move_gen::MoveGenerator;
use crate::piece::Piece;
use vstd::prelude::*;

verus! {

/// `seen`, and the squares of a ray from place `from` on, up to and
/// including the first that holds a blocker.
pub open spec fn ray_attack(ray: Seq<u8>, blocker: Bitboard, from: int, seen: Bitboard) -> Bitboard
    decreases ray.len() - from,
{
    if from < 0 || from >= ray.len() {
        seen
    } else if has_bit(blocker, ray[from] as int) {
        seen | crate::bitboard::bit(ray[from] as int)
    } else {
        ray_attack(ray, blocker, from + 1, seen | crate::bitboard::bit(ray[from] as int))
    }
}

/// `seen`, and what is attacked along the rays from place `from` on.
pub open spec fn rays_attack(rays: Seq<&[u8]>, blocker: Bitboard, from: int, seen: Bitboard) -> Bitboard
    decreases rays.len() - from,
{
    if from < 0 || from >= rays.len() {
        seen
    } else {
        rays_attack(rays, blocker, from + 1, ray_attack(rays[from]@, blocker, 0, seen))
    }
}

/// The squares attacked along a list of rays, each given as its squares in
/// order from the piece outwards: along each ray every square up to and
/// including the first that holds a blocker.
pub fn sliding_attack(target_squares: &[&[u8]], blocker: u64) -> (attack: u64)
    requires
        forall|i: int, j: int|
            0 <= i < target_squares@.len() && 0 <= j < target_squares@[i]@.len()
                ==> #[trigger] target_squares@[i]@[j] < 64,
    ensures
        attack == rays_attack(target_squares@, blocker, 0, 0),
{
    let mut attack: u64 = 0;
    let mut i: usize = 0;

    while i < target_squares.len()
        invariant
            i <= target_squares@.len(),
            forall|i: int, j: int|
                0 <= i < target_squares@.len() && 0 <= j < target_squares@[i]@.len()
                    ==> #[trigger] target_squares@[i]@[j] < 64,
            rays_attack(target_squares@, blocker, 0, 0) == rays_attack(
                target_squares@,
                blocker,
                i as int,
                attack,
            ),
        decreases target_squares@.len() - i,
    {
        let ray: &[u8] = target_squares[i];
        let ghost before = attack;
        let mut j: usize = 0;
        while j < ray.len()
            invariant_except_break
                j <= ray@.len(),
                ray_attack(ray@, blocker, 0, before) == ray_attack(ray@, blocker, j as int, attack),
            invariant
                forall|k: int| 0 <= k < ray@.len() ==> #[trigger] ray@[k] < 64,
            ensures
                attack == ray_attack(ray@, blocker, 0, before),
            decreases ray@.len() - j,
        {
            let target_square: u8 = ray[j];
            set_bit(&mut attack, target_square);

            if is_occupied(blocker, target_square) {
                break ;
            }
            j += 1;
        }
        i += 1;
    }
    attack
}

/// Whether a multiplier hashes the subsets of `mask` without collision,
/// with the shift that belongs to `mask`. Every multiplier does so for the
/// empty set, which has one subset. The subsets are counted in 32 bits, so
/// that `mask` has at most 31 squares.
pub fn is_magic(mask: Bitboard, nr: u64) -> (perfect: bool)
    requires
        count(mask) <= 31,
    ensures
        perfect == is_perfect(mask, magic_shift(mask), nr),
{
    let bits: u32 = count_bits(mask);
    if bits == 0 {
        proof {
            broadcast use group_has_bit;

            if mask != 0 {
                lemma_lsb(mask);
                lemma_count_positive(mask, lsb(mask), 64);
            }
            assert forall|a: Bitboard, b: Bitboard|
                a & mask == a && b & mask == b && a != b implies #[trigger] magic_hash(
                mask,
                magic_shift(mask),
                nr,
                a,
            ) != #[trigger] magic_hash(mask, magic_shift(mask), nr, b) by {
                lemma_subset_members(a, 0);
                lemma_subset_members(b, 0);
                lemma_same_members(a, 0);
                lemma_same_members(b, 0);
            }
        }
        return true;
    }
    let magic = Magic { mask, shift: (64 - bits) as u8, offset: 0, nr };
    proof {
        lemma_slot_bounds(magic, 0, bits as u64);
    }
    let permutations: u64 = 1u64 << bits;
    let blocker_boards: BlockerBoards = MoveGenerator::blocker_boards(mask);

    let mut used: Vec<bool> = Vec::new();
    let mut added: u64 = 0;
    while added < permutations
        invariant
            added <= permutations <= 0x8000_0000,
            used@.len() == added,
            forall|i: int| 0 <= i < added ==> !used@[i],
        decreases permutations - added,
    {
        used.push(false);
        added += 1;
    }

    let mut next: usize = 0;
    while next < blocker_boards.len()
        invariant
            next <= blocker_boards@.len(),
            enumerates_subsets(blocker_boards@, mask),
            magic.mask == mask,
            magic.nr == nr,
            magic.offset == 0,
            magic.shift == 64 - bits,
            magic.shift == magic_shift(mask),
            1 <= bits <= 31,
            permutations == 1u64 << bits,
            used@.len() == permutations,
            forall|i: int|
                0 <= i < permutations && used@[i] ==> exists|j: int|
                    0 <= j < next && #[trigger] magic.slot(blocker_boards@[j]) == i,
            forall|j: int| 0 <= j < next ==> used@[#[trigger] magic.slot(blocker_boards@[j])],
            forall|i: int, j: int|
                0 <= i < j < next ==> #[trigger] magic.slot(blocker_boards@[i])
                    != #[trigger] magic.slot(blocker_boards@[j]),
        decreases blocker_boards@.len() - next,
    {
        let blocker: Bitboard = blocker_boards[next];
        proof {
            lemma_slot_bounds(magic, blocker, bits as u64);
            assert forall|j: int| 0 <= j < blocker_boards@.len() implies 0
                <= #[trigger] magic.slot(blocker_boards@[j]) < permutations by {
                lemma_slot_bounds(magic, blocker_boards@[j], bits as u64);
            }
        }
        let index: usize = magic.get_index(blocker);

        if used[index] {
            proof {
                let j = choose|j: int|
                    0 <= j < next && #[trigger] magic.slot(blocker_boards@[j]) == index;
                let a = blocker_boards@[j];
                let b = blocker_boards@[next as int];
                assert(is_subset(a, mask) && is_subset(b, mask));
                assert(a < b);
                assert(magic_hash(mask, magic.shift, nr, a) == magic_hash(
                    mask,
                    magic.shift,
                    nr,
                    b,
                ));
            }
            return false;
        }
        let ghost before = used@;
        used.set(index, true);
        proof {
            assert forall|i: int| 0 <= i < permutations && used@[i] implies exists|j: int|
                0 <= j < next + 1 && #[trigger] magic.slot(blocker_boards@[j]) == i by {
                if i == index {
                    assert(magic.slot(blocker_boards@[next as int]) == i);
                } else {
                    let j = choose|j: int|
                        0 <= j < next && #[trigger] magic.slot(blocker_boards@[j]) == i;
                    assert(magic.slot(blocker_boards@[j]) == i);
                }
            }
            assert forall|i: int, j: int| 0 <= i < j < next + 1 implies #[trigger] magic.slot(
                blocker_boards@[i],
            ) != #[trigger] magic.slot(blocker_boards@[j]) by {
                if j == next {
                    assert(before[magic.slot(blocker_boards@[i])]);
                }
            }
        }
        next += 1;
    }
    proof {
        assert forall|a: Bitboard, b: Bitboard|
            a & mask == a && b & mask == b && a != b implies #[trigger] magic_hash(
            mask,
            magic.shift,
            nr,
            a,
        ) != #[trigger] magic_hash(mask, magic.shift, nr, b) by {
            assert(is_subset(a, mask) && is_subset(b, mask));
            let i = choose|i: int| 0 <= i < blocker_boards@.len() && blocker_boards@[i] == a;
            let j = choose|j: int| 0 <= j < blocker_boards@.len() && blocker_boards@[j] == b;
            if i < j {
                assert(magic.slot(blocker_boards@[i]) != magic.slot(blocker_boards@[j]));
            } else {
                assert(magic.slot(blocker_boards@[j]) != magic.slot(blocker_boards@[i]));
            }
        }
    }
    true
}

/// Looks for a multiplier that serves `mask`: tries up to `attempts` random
/// words with few bits set and returns the first that hashes the subsets of
/// `mask` without collision. With no attempt none is found; with more,
/// which words are tried is left to chance, and so is whether one is found.
pub fn find_magic(mask: Bitboard, attempts: usize) -> (found: Option<u64>)
    requires
        count(mask) <= 31,
    ensures
        found is Some ==> is_perfect(mask, magic_shift(mask), found->0),
        attempts == 0 ==> found is None,
{
    let mut tried: usize = 0;
    while tried < attempts
        invariant
            count(mask) <= 31,
        decreases attempts - tried,
    {
        let nr: u64 = random_u64_fewbits();
        if is_magic(mask, nr) {
            return Some(nr);
        }
        tried += 1;
    }
    None
}

/// Whether the first `squares` multipliers of a list each serve their
/// square for a rook or a bishop: each hashes the blocker sets within the
/// square's relevant squares without collision.
pub open spec fn serve_all(diagonal: bool, numbers: Seq<u64>, squares: int) -> bool {
    forall|square: int|
        0 <= square < squares ==> is_perfect(
            #[trigger] lines(diagonal, square, 1, 0, 4),
            magic_shift(lines(diagonal, square, 1, 0, 4)),
            numbers[square],
        )
}

/// Looks for a multiplier for each square of a rook or a bishop, with up to
/// `attempts` random words a square, and returns the sixty-four multipliers
/// in square order, or `None` when a square was left without one.
pub fn generate_64_magic_numbers(piece: Piece, attempts: usize) -> (found: Option<Vec<u64>>)
    requires
        piece == Piece::Rook || piece == Piece::Bishop,
    ensures
        found is Some ==> found->0@.len() == 64 && serve_all(piece == Piece::Bishop, found->0@, 64),
        attempts == 0 ==> found is None,
{
    let is_rook: bool = piece == Piece::Rook;
    let ghost diagonal = piece == Piece::Bishop;
    let mut numbers: Vec<u64> = Vec::new();
    let mut square_index: u8 = 0;
    while square_index < 64
        invariant
            square_index <= 64,
            is_rook == (piece == Piece::Rook),
            piece == Piece::Rook || piece == Piece::Bishop,
            numbers@.len() == square_index,
            diagonal == (piece == Piece::Bishop),
            serve_all(diagonal, numbers@, square_index as int),
            square_index > 0 ==> attempts > 0,
        decreases 64 - square_index,
    {
        let mask: Bitboard = if is_rook {
            MoveGenerator::rook_mask(square_index)
        } else {
            MoveGenerator::bishop_mask(square_index)
        };
        proof {
            lemma_relevant_bits(diagonal, square_index as int);
        }
        match find_magic(mask, attempts) {
            Some(nr) => {
                let ghost before = numbers@;
                numbers.push(nr);
                assert forall|square: int| 0 <= square < square_index + 1 implies is_perfect(
                    #[trigger] lines(diagonal, square, 1, 0, 4),
                    magic_shift(lines(diagonal, square, 1, 0, 4)),
                    numbers@[square],
                ) by {
                    if square < square_index {
                        assert(numbers@[square] == before[square]);
                    }
                }
            },
            None => {
                return None;
            },
        }
        square_index += 1;
    }
    Some(numbers)
}

} // verus!
