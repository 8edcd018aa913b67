//! Sets of squares held in one 64-bit word: bit `i` is set exactly when
//! square `i` is a member.

use vstd::prelude::*;
use vstd::std_specs::bits::axiom_u64_trailing_zeros;

verus! {

/// A set of squares; square `i` is a member when bit `i` is set.
pub type Bitboard = u64;

/// Whether square `square` is a member of `bitboard`. No square outside
/// `0..64` is a member of any set.
pub open spec fn has_bit(bitboard: Bitboard, square: int) -> bool {
    0 <= square < 64 && (bitboard >> (square as u64)) & 1 == 1
}

/// The set that holds `square` alone.
pub open spec fn bit(square: int) -> Bitboard {
    1u64 << (square as u64)
}

/// The lowest member of a non-empty set; 64 for the empty set.
pub open spec fn lsb(bitboard: Bitboard) -> int {
    bitboard.trailing_zeros() as int
}

/// How many of the squares below `limit` are members of the set.
pub open spec fn count_below(bitboard: Bitboard, limit: int) -> nat
    decreases limit,
{
    if limit <= 0 {
        0
    } else {
        count_below(bitboard, limit - 1) + if has_bit(bitboard, limit - 1) {
            1nat
        } else {
            0nat
        }
    }
}

/// The number of members of the set.
pub open spec fn count(bitboard: Bitboard) -> nat {
    count_below(bitboard, 64)
}

/// The members of the set from `from` upwards, in ascending order.
pub open spec fn members_from(bitboard: Bitboard, from: int) -> Seq<u8>
    decreases 64 - from,
{
    if from < 0 || from >= 64 {
        Seq::empty()
    } else if has_bit(bitboard, from) {
        seq![from as u8] + members_from(bitboard, from + 1)
    } else {
        members_from(bitboard, from + 1)
    }
}

/// The members of the set in ascending order.
pub open spec fn members(bitboard: Bitboard) -> Seq<u8> {
    members_from(bitboard, 0)
}

/// The set of the squares below `limit` of which `holds` is true.
pub open spec fn squares_where_below(holds: spec_fn(int) -> bool, limit: int) -> Bitboard
    decreases limit,
{
    if limit <= 0 {
        0
    } else {
        squares_where_below(holds, limit - 1) | if holds(limit - 1) {
            bit(limit - 1)
        } else {
            0
        }
    }
}

/// The set of the squares of the board of which `holds` is true.
pub open spec fn squares_where(holds: spec_fn(int) -> bool) -> Bitboard {
    squares_where_below(holds, 64)
}

/// How the set operations act on single bits.
proof fn lemma_bit_facts(a: u64, b: u64, s: u64, j: u64)
    by (bit_vector)
    requires
        s < 64,
        j < 64,
    ensures
        (((a | b) >> j) & 1 == 1) <==> ((a >> j) & 1 == 1 || (b >> j) & 1 == 1),
        (((a & b) >> j) & 1 == 1) <==> ((a >> j) & 1 == 1 && (b >> j) & 1 == 1),
        (((a ^ b) >> j) & 1 == 1) <==> (((a >> j) & 1 == 1) != ((b >> j) & 1 == 1)),
        (((!a) >> j) & 1 == 1) <==> !((a >> j) & 1 == 1),
        (((1u64 << s) >> j) & 1 == 1) <==> s == j,
        (0u64 >> j) & 1 == 0,
        (a & (1u64 << s) != 0) <==> ((a >> s) & 1 == 1),
        (((a << 8u64) >> j) & 1 == 1) <==> (j >= 8 && (a >> ((j - 8) as u64)) & 1 == 1),
        (((a >> 8u64) >> j) & 1 == 1) <==> (j < 56 && (a >> ((j + 8) as u64)) & 1 == 1),
{
}

/// Taking one from a word clears its lowest set bit and sets the bits below
/// it.
proof fn lemma_lsb_facts(a: u64, r: u64)
    by (bit_vector)
    requires
        r < 64,
        (a >> r) & 1 == 1,
        r == 0 || a << ((64 - r) as u64) == 0,
    ensures
        a != 0,
        a & ((a - 1) as u64) == a & !(1u64 << r),
        a & !((a - 1) as u64) == 1u64 << r,
{
}

/// Membership in a union.
pub broadcast proof fn lemma_has_bit_or(a: Bitboard, b: Bitboard, j: int)
    ensures
        #[trigger] has_bit(a | b, j) == (has_bit(a, j) || has_bit(b, j)),
{
    if 0 <= j < 64 {
        lemma_bit_facts(a, b, 0, j as u64);
    }
}

/// Membership in an intersection.
pub broadcast proof fn lemma_has_bit_and(a: Bitboard, b: Bitboard, j: int)
    ensures
        #[trigger] has_bit(a & b, j) == (has_bit(a, j) && has_bit(b, j)),
{
    if 0 <= j < 64 {
        lemma_bit_facts(a, b, 0, j as u64);
    }
}

/// Membership in a symmetric difference.
pub broadcast proof fn lemma_has_bit_xor(a: Bitboard, b: Bitboard, j: int)
    ensures
        #[trigger] has_bit(a ^ b, j) == (has_bit(a, j) != has_bit(b, j)),
{
    if 0 <= j < 64 {
        lemma_bit_facts(a, b, 0, j as u64);
    }
}

/// Membership in a complement, within the board.
pub broadcast proof fn lemma_has_bit_not(a: Bitboard, j: int)
    ensures
        #[trigger] has_bit(!a, j) == (0 <= j < 64 && !has_bit(a, j)),
{
    if 0 <= j < 64 {
        lemma_bit_facts(a, 0, 0, j as u64);
    }
}

/// A one-square set has that square as its only member.
pub broadcast proof fn lemma_has_bit_single(s: int, j: int)
    requires
        0 <= s < 64,
    ensures
        #[trigger] has_bit(bit(s), j) == (j == s),
{
    if 0 <= j < 64 {
        lemma_bit_facts(0, 0, s as u64, j as u64);
    }
}

/// The empty set has no member.
pub broadcast proof fn lemma_has_bit_zero(j: int)
    ensures
        !(#[trigger] has_bit(0, j)),
{
    if 0 <= j < 64 {
        lemma_bit_facts(0, 0, 0, j as u64);
    }
}

/// Moving a set one rank up or down moves each member by eight squares.
pub proof fn lemma_has_bit_shift8(a: Bitboard, j: int)
    ensures
        has_bit(a << 8u64, j) == (j < 64 && has_bit(a, j - 8)),
        has_bit(a >> 8u64, j) == (0 <= j && has_bit(a, j + 8)),
{
    if 0 <= j < 64 {
        lemma_bit_facts(a, 0, 0, j as u64);
    }
}

/// Membership under the set operations.
pub broadcast group group_has_bit {
    lemma_has_bit_or,
    lemma_has_bit_and,
    lemma_has_bit_xor,
    lemma_has_bit_not,
    lemma_has_bit_single,
    lemma_has_bit_zero,
}

/// Two sets with the same members are the same word.
pub proof fn lemma_same_members(a: Bitboard, b: Bitboard)
    requires
        forall|j: int| 0 <= j < 64 ==> has_bit(a, j) == has_bit(b, j),
    ensures
        a == b,
{
    broadcast use {axiom_u64_trailing_zeros, lemma_has_bit_xor};

    let x = a ^ b;
    if x != 0 {
        let r = x.trailing_zeros() as int;
        assert(has_bit(x, r));
        assert(has_bit(a, r) != has_bit(b, r));
    } else {
        assert(a == b) by (bit_vector)
            requires
                a ^ b == 0,
        ;
    }
}

/// A square is a member of the set of squares with a property exactly when
/// it is on the board and has the property.
pub proof fn lemma_squares_where_below(holds: spec_fn(int) -> bool, limit: int, j: int)
    requires
        0 <= limit <= 64,
    ensures
        has_bit(squares_where_below(holds, limit), j) == (0 <= j < limit && holds(j)),
    decreases limit,
{
    broadcast use group_has_bit;

    if limit > 0 {
        lemma_squares_where_below(holds, limit - 1, j);
    }
}

/// A set whose members are exactly the squares with a property is the set
/// of the squares with that property.
pub proof fn lemma_squares_where(bitboard: Bitboard, holds: spec_fn(int) -> bool)
    requires
        forall|j: int| 0 <= j < 64 ==> has_bit(bitboard, j) == holds(j),
    ensures
        bitboard == squares_where(holds),
{
    assert forall|j: int| 0 <= j < 64 implies has_bit(bitboard, j) == has_bit(
        squares_where(holds),
        j,
    ) by {
        lemma_squares_where_below(holds, 64, j);
    }
    lemma_same_members(bitboard, squares_where(holds));
}

/// Membership in the set of the squares with a property.
pub proof fn lemma_squares_where_member(holds: spec_fn(int) -> bool, j: int)
    ensures
        has_bit(squares_where(holds), j) == (0 <= j < 64 && holds(j)),
{
    lemma_squares_where_below(holds, 64, j);
}

/// Adding one square to a set adds at most one to the number of members.
pub proof fn lemma_count_one_more(a: Bitboard, s: int, limit: int)
    requires
        0 <= s < 64,
        0 <= limit <= 64,
    ensures
        count_below(a | bit(s), limit) <= count_below(a, limit) + 1,
        count_below(a, limit) <= count_below(a | bit(s), limit),
        count_below(a, limit) <= limit,
    decreases limit,
{
    broadcast use group_has_bit;

    if limit > 0 {
        lemma_count_one_more(a, s, limit - 1);
        if s >= limit {
            lemma_count_same_below(a, a | bit(s), limit);
        } else if s < limit - 1 {
        } else {
            lemma_count_same_below(a, a | bit(s), limit - 1);
        }
    }
}

/// Sets that agree below a limit have the same number of members below it.
pub proof fn lemma_count_same_below(a: Bitboard, b: Bitboard, limit: int)
    requires
        forall|j: int| 0 <= j < limit ==> has_bit(a, j) == has_bit(b, j),
    ensures
        count_below(a, limit) == count_below(b, limit),
    decreases limit,
{
    if limit > 0 {
        lemma_count_same_below(a, b, limit - 1);
    }
}

/// Taking a member out of a set takes one from the number of its members.
pub proof fn lemma_count_one_less(a: Bitboard, s: int, limit: int)
    requires
        has_bit(a, s),
        0 <= limit <= 64,
    ensures
        count_below(a & !bit(s), limit) == count_below(a, limit) - if s < limit {
            1int
        } else {
            0int
        },
    decreases limit,
{
    broadcast use group_has_bit;

    if limit > 0 {
        lemma_count_one_less(a, s, limit - 1);
    }
}

/// A one-square set has one member.
pub proof fn lemma_count_single(s: int, limit: int)
    requires
        0 <= s < 64,
        0 <= limit <= 64,
    ensures
        count_below(bit(s), limit) == if s < limit {
            1nat
        } else {
            0nat
        },
    decreases limit,
{
    broadcast use group_has_bit;

    if limit > 0 {
        lemma_count_single(s, limit - 1);
    }
}

/// A set with two members below a limit has at least two members below it.
pub proof fn lemma_count_two(a: Bitboard, i: int, j: int, limit: int)
    requires
        has_bit(a, i),
        has_bit(a, j),
        i < j < limit <= 64,
    ensures
        count_below(a, limit) >= 2,
    decreases limit,
{
    if j < limit - 1 {
        lemma_count_two(a, i, j, limit - 1);
    } else {
        lemma_count_positive(a, i, j);
    }
}

/// A set with at least one member below a limit has a member below it.
pub proof fn lemma_counted_member(a: Bitboard, limit: int) -> (member: int)
    requires
        limit <= 64,
        count_below(a, limit) >= 1,
    ensures
        0 <= member < limit,
        has_bit(a, member),
    decreases limit,
{
    if has_bit(a, limit - 1) {
        limit - 1
    } else {
        lemma_counted_member(a, limit - 1)
    }
}

/// A set with at least two members below a limit has two different members
/// below it.
pub proof fn lemma_counted_members(a: Bitboard, limit: int) -> (members: (int, int))
    requires
        limit <= 64,
        count_below(a, limit) >= 2,
    ensures
        0 <= members.0 < members.1 < limit,
        has_bit(a, members.0),
        has_bit(a, members.1),
    decreases limit,
{
    if has_bit(a, limit - 1) {
        (lemma_counted_member(a, limit - 1), limit - 1)
    } else {
        lemma_counted_members(a, limit - 1)
    }
}

/// The empty set has no members.
pub proof fn lemma_count_empty(limit: int)
    ensures
        count_below(0, limit) == 0,
    decreases limit,
{
    broadcast use group_has_bit;

    if limit > 0 {
        lemma_count_empty(limit - 1);
    }
}

/// A set with a member has at least one member below any limit above it.
pub proof fn lemma_count_positive(a: Bitboard, j: int, limit: int)
    requires
        has_bit(a, j),
        j < limit <= 64,
    ensures
        count_below(a, limit) >= 1,
    decreases limit,
{
    if j < limit - 1 {
        lemma_count_positive(a, j, limit - 1);
    }
}

/// A set with a member is not empty.
pub proof fn lemma_member_nonzero(a: Bitboard, j: int)
    requires
        has_bit(a, j),
    ensures
        a != 0,
{
    broadcast use lemma_has_bit_zero;

}

/// The lowest member of a non-empty set is a member, and nothing below it is.
pub proof fn lemma_lsb(a: Bitboard)
    requires
        a != 0,
    ensures
        0 <= lsb(a) < 64,
        has_bit(a, lsb(a)),
        forall|j: int| 0 <= j < lsb(a) ==> !has_bit(a, j),
        forall|j: int| has_bit(a, j) ==> lsb(a) <= j,
        a & ((a - 1) as u64) == a & !bit(lsb(a)),
        a & !((a - 1) as u64) == bit(lsb(a)),
{
    broadcast use axiom_u64_trailing_zeros;

    let r = a.trailing_zeros() as u64;
    assert forall|j: int| 0 <= j < lsb(a) implies !has_bit(a, j) by {
        let ju = j as u64;
        assert((a >> ju) & 1 == 0);
    }
    assert(r == 0 || a << ((64 - r) as u64) == 0);
    lemma_lsb_facts(a, r);
}

/// Adds a square to the set.
pub fn set_bit(bitboard: &mut Bitboard, square_index: u8)
    requires
        square_index < 64,
    ensures
        *final(bitboard) == *old(bitboard) | bit(square_index as int),
        forall|j: int|
            has_bit(*final(bitboard), j) == (has_bit(*old(bitboard), j) || j == square_index),
{
    broadcast use group_has_bit;

    *bitboard |= 1u64 << (square_index as u64);
}

/// Removes a square from the set; a square that is no member stays out.
pub fn clear_bit(bitboard: &mut Bitboard, square_index: u8)
    requires
        square_index < 64,
    ensures
        *final(bitboard) == *old(bitboard) & !bit(square_index as int),
        forall|j: int|
            has_bit(*final(bitboard), j) == (has_bit(*old(bitboard), j) && j != square_index),
{
    broadcast use group_has_bit;

    *bitboard &= !(1u64 << (square_index as u64));
}

/// Tells whether the square is a member of the set.
pub fn is_occupied(bitboard: Bitboard, square_index: u8) -> (occupied: bool)
    requires
        square_index < 64,
    ensures
        occupied == has_bit(bitboard, square_index as int),
{
    proof {
        lemma_bit_facts(bitboard, 0, square_index as u64, 0);
    }
    bitboard & (1u64 << (square_index as u64)) != 0
}

/// The index of the lowest member of a non-empty set.
pub fn get_lsb_index(bitboard: Bitboard) -> (index: u8)
    requires
        bitboard != 0,
    ensures
        index == lsb(bitboard),
        index < 64,
        has_bit(bitboard, index as int),
        forall|j: int| has_bit(bitboard, j) ==> index <= j,
{
    proof {
        lemma_lsb(bitboard);
    }
    bitboard.trailing_zeros() as u8
}

/// The one-square set of the lowest member of a non-empty set.
pub fn get_lsb_bitboard(bitboard: Bitboard) -> (least: Bitboard)
    requires
        bitboard != 0,
    ensures
        least == bit(lsb(bitboard)),
{
    proof {
        lemma_lsb(bitboard);
    }
    bitboard & !(bitboard - 1)
}

/// Removes the lowest member of a non-empty set and returns its index.
pub fn pop_lsb(bitboard: &mut Bitboard) -> (index: u8)
    requires
        *old(bitboard) != 0,
    ensures
        index == lsb(*old(bitboard)),
        index < 64,
        has_bit(*old(bitboard), index as int),
        *final(bitboard) == *old(bitboard) & !bit(index as int),
        forall|j: int|
            has_bit(*final(bitboard), j) == (has_bit(*old(bitboard), j) && j != index),
        forall|j: int| has_bit(*final(bitboard), j) ==> index < j,
{
    broadcast use group_has_bit;

    proof {
        lemma_lsb(*bitboard);
    }
    let lsb_index: u8 = get_lsb_index(*bitboard);
    *bitboard &= *bitboard - 1;
    lsb_index
}

/// Removes the lowest member of a non-empty set and returns it as a
/// one-square set.
pub fn pop_lsb_to_bitboard(bitboard: &mut Bitboard) -> (least: Bitboard)
    requires
        *old(bitboard) != 0,
    ensures
        least == bit(lsb(*old(bitboard))),
        lsb(least) == lsb(*old(bitboard)),
        least != 0,
        *final(bitboard) == *old(bitboard) & !least,
        forall|j: int|
            has_bit(*final(bitboard), j) == (has_bit(*old(bitboard), j) && j != lsb(
                *old(bitboard),
            )),
{
    broadcast use group_has_bit;

    proof {
        lemma_lsb(*bitboard);
    }
    let least_bit: Bitboard = get_lsb_bitboard(*bitboard);
    proof {
        let r = lsb(*bitboard);
        assert(has_bit(least_bit, r));
        lemma_member_nonzero(least_bit, r);
        lemma_lsb(least_bit);
    }
    *bitboard &= !least_bit;

    least_bit
}

/// The number of members of the set.
pub fn count_bits(bitboard: Bitboard) -> (n: u32)
    ensures
        n == count(bitboard),
        n <= 64,
{
    let mut n: u32 = 0;
    let mut i: u8 = 0;
    while i < 64
        invariant
            i <= 64,
            n == count_below(bitboard, i as int),
            n <= i,
        decreases 64 - i,
    {
        if is_occupied(bitboard, i) {
            n += 1;
        }
        i += 1;
    }
    n
}

/// The members of the set, in ascending order.
pub fn squares(bitboard: Bitboard) -> (list: Vec<u8>)
    ensures
        list@ == members(bitboard),
{
    let mut list: Vec<u8> = Vec::new();
    let mut rest: Bitboard = bitboard;
    let ghost mut from: int = 0;
    assert(members(bitboard) == list@ + members_from(bitboard, 0));
    while rest != 0
        invariant
            forall|j: int| has_bit(rest, j) == (has_bit(bitboard, j) && j >= from),
            0 <= from <= 64,
            members(bitboard) == list@ + members_from(bitboard, from),
        decreases 64 - from,
    {
        proof {
            lemma_lsb(rest);
            lemma_members_skip(bitboard, from, lsb(rest));
        }
        let index: u8 = pop_lsb(&mut rest);
        list.push(index);
        proof {
            assert(members_from(bitboard, index as int) == seq![index] + members_from(
                bitboard,
                index + 1,
            ));
            from = index + 1;
        }
    }
    proof {
        broadcast use lemma_has_bit_zero;

        lemma_members_skip(bitboard, from, 64);
    }
    list
}

/// Squares that are no members contribute nothing to the list of members.
proof fn lemma_members_skip(bitboard: Bitboard, from: int, to: int)
    requires
        0 <= from <= to <= 64,
        forall|j: int| from <= j < to ==> !has_bit(bitboard, j),
    ensures
        members_from(bitboard, from) == members_from(bitboard, to),
    decreases to - from,
{
    if from < to {
        lemma_members_skip(bitboard, from + 1, to);
    }
}

} // verus!
