//! Relevant-occupancy masks of the sliding pieces, and the enumeration of
//! the blocker sets within a mask.

use super::attack::{bishop_relevant, rook_relevant, sweep};
use super::MoveGenerator;
use crate::bitboard::{bit, count, group_has_bit, has_bit, lemma_count_empty, lemma_count_one_less};
use crate::bitboard::{lemma_lsb, lemma_same_members, lsb, Bitboard};
use vstd::arithmetic::power2::{lemma2_to64, lemma_pow2_unfold, pow2};
use vstd::prelude::*;
use vstd::relations::injective_on;
use vstd::set_lib::{lemma_map_size, lemma_set_disjoint_lens};

verus! {

/// A list of blocker sets.
pub type BlockerBoards = Vec<Bitboard>;

/// Whether every member of `subset` is a member of `mask`.
pub open spec fn is_subset(subset: Bitboard, mask: Bitboard) -> bool {
    subset & mask == subset
}

/// Whether `boards` lists every subset of `mask` exactly once, in ascending
/// order of the words.
pub open spec fn enumerates_subsets(boards: Seq<Bitboard>, mask: Bitboard) -> bool {
    &&& forall|i: int| 0 <= i < boards.len() ==> is_subset(#[trigger] boards[i], mask)
    &&& forall|i: int, j: int| 0 <= i < j < boards.len() ==> boards[i] < boards[j]
    &&& forall|subset: Bitboard| #[trigger]
        is_subset(subset, mask) ==> exists|i: int| 0 <= i < boards.len() && boards[i] == subset
}

/// The set of the subsets of `mask`.
pub open spec fn subsets_of(mask: Bitboard) -> Set<Bitboard> {
    Set::new(|subset: Bitboard| is_subset(subset, mask))
}

/// A set of squares is a subset of another exactly when each of its
/// members is a member of the other.
pub proof fn lemma_subset_members(subset: Bitboard, mask: Bitboard)
    ensures
        is_subset(subset, mask) == (forall|j: int| has_bit(subset, j) ==> has_bit(mask, j)),
{
    broadcast use group_has_bit;

    if forall|j: int| has_bit(subset, j) ==> has_bit(mask, j) {
        lemma_same_members(subset & mask, subset);
    }
    if is_subset(subset, mask) {
        assert forall|j: int| has_bit(subset, j) implies has_bit(mask, j) by {
            assert(has_bit(subset & mask, j));
        }
    }
}

/// A set of squares has two subsets for each way to choose among its
/// members: two to the power of the number of its members.
pub proof fn lemma_subsets_count(mask: Bitboard)
    ensures
        subsets_of(mask).finite(),
        subsets_of(mask).len() == pow2(count(mask)),
    decreases count(mask),
{
    broadcast use group_has_bit;

    if mask == 0 {
        assert forall|subset: Bitboard| is_subset(subset, mask) implies subset == 0 by {
            lemma_subset_members(subset, mask);
            lemma_same_members(subset, 0);
        }
        lemma_subset_members(0, mask);
        assert(subsets_of(mask) =~= set![0u64]);
        lemma_count_empty(64);
        lemma2_to64();
    } else {
        lemma_lsb(mask);
        let low = lsb(mask);
        let rest = mask & !bit(low);
        lemma_count_one_less(mask, low, 64);
        lemma_subsets_count(rest);
        let without = subsets_of(rest);
        let joined = |subset: Bitboard| subset | bit(low);
        let with = without.map(joined);
        assert forall|x: Bitboard| without.contains(x) implies !has_bit(x, low) && is_subset(
            x,
            mask,
        ) && is_subset(#[trigger] joined(x), mask) by {
            lemma_subset_members(x, rest);
            lemma_subset_members(x, mask);
            lemma_subset_members(joined(x), mask);
        }
        assert(injective_on(joined, without)) by {
            assert forall|x: Bitboard, y: Bitboard|
                without.contains(x) && without.contains(y) && #[trigger] joined(x) == #[trigger] joined(
                    y,
                ) implies x == y by {
                assert forall|j: int| 0 <= j < 64 implies has_bit(x, j) == has_bit(y, j) by {
                    assert(has_bit(joined(x), j) == has_bit(joined(y), j));
                }
                lemma_same_members(x, y);
            }
        }
        lemma_map_size(without, with, joined);
        assert(without.disjoint(with)) by {
            assert forall|x: Bitboard| without.contains(x) implies !with.contains(x) by {
                if with.contains(x) {
                    let y = choose|y: Bitboard| without.contains(y) && x == joined(y);
                    assert(has_bit(joined(y), low));
                }
            }
        }
        assert(subsets_of(mask) =~= without + with) by {
            assert forall|subset: Bitboard| subsets_of(mask).contains(subset) implies (without
                + with).contains(subset) by {
                lemma_subset_members(subset, mask);
                if has_bit(subset, low) {
                    let smaller = subset & !bit(low);
                    lemma_subset_members(smaller, rest);
                    assert(without.contains(smaller));
                    lemma_same_members(joined(smaller), subset);
                    assert(with.contains(subset));
                } else {
                    lemma_subset_members(subset, rest);
                }
            }
            assert forall|subset: Bitboard| (without + with).contains(subset) implies subsets_of(
                mask,
            ).contains(subset) by {
                if !without.contains(subset) {
                    let y = choose|y: Bitboard| without.contains(y) && subset == joined(y);
                    assert(is_subset(joined(y), mask));
                }
            }
        }
        lemma_set_disjoint_lens(without, with);
        lemma_pow2_unfold(count(mask));
    }
}

/// A list of every subset of `mask`, each once, has two to the power of
/// the number of members of `mask` entries.
pub proof fn lemma_enumeration_length(boards: Seq<Bitboard>, mask: Bitboard)
    requires
        enumerates_subsets(boards, mask),
    ensures
        boards.len() == pow2(count(mask)),
{
    lemma_subsets_count(mask);
    assert(boards.no_duplicates());
    boards.unique_seq_to_set();
    assert(boards.to_set() =~= subsets_of(mask)) by {
        assert forall|subset: Bitboard| subsets_of(mask).contains(subset) implies boards.to_set(
        ).contains(subset) by {
            assert(is_subset(subset, mask));
            let i = choose|i: int| 0 <= i < boards.len() && boards[i] == subset;
            assert(boards[i] == subset);
        }
    }
}

/// A subset is no greater, as a word, than the set.
proof fn lemma_subset_bound(subset: u64, mask: u64)
    by (bit_vector)
    requires
        subset & mask == subset,
    ensures
        subset <= mask,
{
}

/// The next subset in ascending order: the difference of subset and set,
/// within the set.
proof fn lemma_next_subset(subset: u64, mask: u64, difference: u64, other: u64)
    by (bit_vector)
    requires
        subset & mask == subset,
        subset == mask ==> difference == 0,
        subset != mask ==> difference + (mask - subset) == 0x1_0000_0000_0000_0000,
    ensures
        (difference & mask) & mask == difference & mask,
        subset == mask ==> difference & mask == 0,
        subset != mask ==> (difference & mask) > subset,
        (other & mask == other && other > subset) ==> other >= (difference & mask),
{
}

impl MoveGenerator {
    /// The squares whose occupancy can change a rook's attack from
    /// `square_index`: its lines without the edge square at the end of each.
    pub fn rook_mask(square_index: u8) -> (mask: Bitboard)
        requires
            square_index < 64,
        ensures
            mask == rook_relevant(square_index as int),
    {
        sweep(false, square_index, 1, 0)
    }

    /// The squares whose occupancy can change a bishop's attack from
    /// `square_index`: its diagonals without the edge square at the end of
    /// each.
    pub fn bishop_mask(square_index: u8) -> (mask: Bitboard)
        requires
            square_index < 64,
        ensures
            mask == bishop_relevant(square_index as int),
    {
        sweep(true, square_index, 1, 0)
    }

    /// Every subset of `mask`, each once, in ascending order: the empty set
    /// first, and two to the power of the number of members of `mask` in all.
    pub fn blocker_boards(mask: Bitboard) -> (boards: BlockerBoards)
        ensures
            enumerates_subsets(boards@, mask),
            boards@.len() == pow2(count(mask)),
            boards@.len() >= 1,
            boards@[0] == 0,
    {
        let mut bb_blocker_boards: Vec<Bitboard> = Vec::new();
        let mut current_mask: u64 = 0u64;

        assert(is_subset(0, mask)) by (bit_vector);
        loop
            invariant_except_break
                is_subset(current_mask, mask),
                forall|i: int|
                    0 <= i < bb_blocker_boards@.len() ==> is_subset(
                        #[trigger] bb_blocker_boards@[i],
                        mask,
                    ),
                forall|i: int|
                    0 <= i < bb_blocker_boards@.len() ==> #[trigger] bb_blocker_boards@[i]
                        < current_mask,
                forall|i: int, j: int|
                    0 <= i < j < bb_blocker_boards@.len() ==> bb_blocker_boards@[i]
                        < bb_blocker_boards@[j],
                forall|subset: Bitboard| #[trigger]
                    is_subset(subset, mask) && subset < current_mask ==> exists|i: int|
                        0 <= i < bb_blocker_boards@.len() && bb_blocker_boards@[i] == subset,
                bb_blocker_boards@.len() == 0 <==> current_mask == 0,
                bb_blocker_boards@.len() > 0 ==> bb_blocker_boards@[0] == 0,
            ensures
                enumerates_subsets(bb_blocker_boards@, mask),
                bb_blocker_boards@.len() >= 1,
                bb_blocker_boards@[0] == 0,
            decreases mask - current_mask,
        {
            let ghost before = bb_blocker_boards@;
            let ghost subset = current_mask;
            bb_blocker_boards.push(current_mask);
            let difference: u64 = current_mask.wrapping_sub(mask);
            current_mask = difference & mask;
            proof {
                lemma_subset_bound(subset, mask);
                lemma_next_subset(subset, mask, difference, 0);
                lemma_subset_bound(current_mask, mask);
                assert(bb_blocker_boards@[before.len() as int] == subset);
                assert forall|other: Bitboard| #[trigger]
                    is_subset(other, mask) && (other < current_mask || subset
                        == mask) implies exists|i: int|
                    0 <= i < bb_blocker_boards@.len() && bb_blocker_boards@[i] == other by {
                    lemma_next_subset(subset, mask, difference, other);
                    lemma_subset_bound(other, mask);
                    if other < subset {
                        let i = choose|i: int| 0 <= i < before.len() && before[i] == other;
                        assert(bb_blocker_boards@[i] == other);
                    } else {
                        assert(other == subset);
                    }
                }
            }

            if current_mask == 0 {
                break ;
            }
        }

        proof {
            lemma_enumeration_length(bb_blocker_boards@, mask);
        }
        bb_blocker_boards
    }
}

} // verus!
