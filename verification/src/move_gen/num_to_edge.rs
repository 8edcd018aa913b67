//! Board geometry: how far each line runs from a square before it leaves
//! the board.

use super::MoveGen;
use crate::board::Board;
use vstd::prelude::*;

verus! {

/// The rank of a square, 0 for the first rank.
pub open spec fn rank_of(square: int) -> int {
    square / 8
}

/// The file of a square, 0 for the a-file.
pub open spec fn file_of(square: int) -> int {
    square % 8
}

/// The smaller of two numbers.
pub open spec fn least(a: int, b: int) -> int {
    if a <= b {
        a
    } else {
        b
    }
}

/// The step, in squares, of the straight direction `direction`: east,
/// north, west, south.
pub open spec fn rook_step(direction: int) -> int {
    if direction == 0 {
        1
    } else if direction == 1 {
        8
    } else if direction == 2 {
        -1
    } else {
        -8
    }
}

/// The step, in squares, of the diagonal direction `direction`: north-west,
/// north-east, south-east, south-west.
pub open spec fn bishop_step(direction: int) -> int {
    if direction == 0 {
        7
    } else if direction == 1 {
        9
    } else if direction == 2 {
        -7
    } else {
        -9
    }
}

/// How many squares lie between `square` and the edge of the board in a
/// straight direction.
pub open spec fn rook_reach(square: int, direction: int) -> int {
    if direction == 0 {
        7 - file_of(square)
    } else if direction == 1 {
        7 - rank_of(square)
    } else if direction == 2 {
        file_of(square)
    } else {
        rank_of(square)
    }
}

/// How many squares lie between `square` and the edge of the board in a
/// diagonal direction.
pub open spec fn bishop_reach(square: int, direction: int) -> int {
    if direction == 0 {
        least(7 - rank_of(square), file_of(square))
    } else if direction == 1 {
        least(7 - rank_of(square), 7 - file_of(square))
    } else if direction == 2 {
        least(rank_of(square), 7 - file_of(square))
    } else {
        least(rank_of(square), file_of(square))
    }
}

/// The `k`-th square from `square` along a straight direction.
pub open spec fn rook_target(square: int, direction: int, k: int) -> int {
    if direction == 0 {
        square + k
    } else if direction == 1 {
        square + 8 * k
    } else if direction == 2 {
        square - k
    } else {
        square - 8 * k
    }
}

/// The `k`-th square from `square` along a diagonal direction.
pub open spec fn bishop_target(square: int, direction: int, k: int) -> int {
    if direction == 0 {
        square + 7 * k
    } else if direction == 1 {
        square + 9 * k
    } else if direction == 2 {
        square - 7 * k
    } else {
        square - 9 * k
    }
}

/// Every square within reach along a straight direction is on the board, on
/// the rank and file that the direction leads to.
pub proof fn lemma_rook_target(square: int, direction: int, k: int)
    requires
        0 <= square < 64,
        0 <= direction < 4,
        1 <= k <= rook_reach(square, direction),
    ensures
        0 <= rook_target(square, direction, k) < 64,
        rook_target(square, direction, k) == square + k * rook_step(direction),
        direction == 0 || direction == 2 ==> rank_of(rook_target(square, direction, k)) == rank_of(
            square,
        ),
        direction == 1 || direction == 3 ==> file_of(rook_target(square, direction, k)) == file_of(
            square,
        ),
{
}

/// Every square within reach along a diagonal direction is on the board,
/// `k` ranks and `k` files away.
pub proof fn lemma_bishop_target(square: int, direction: int, k: int)
    requires
        0 <= square < 64,
        0 <= direction < 4,
        1 <= k <= bishop_reach(square, direction),
    ensures
        0 <= bishop_target(square, direction, k) < 64,
        bishop_target(square, direction, k) == square + k * bishop_step(direction),
        rank_of(bishop_target(square, direction, k)) == rank_of(square) + (if direction < 2 {
            k
        } else {
            -k
        }),
        file_of(bishop_target(square, direction, k)) == file_of(square) + (if direction == 1
            || direction == 2 {
            k
        } else {
            -k
        }),
{
}

impl MoveGen {
    /// The number of squares between a square and the edge of the board to
    /// the east, north, west and south, in that order.
    pub fn rook_num_to_edge(square_index: u8) -> (reach: [u8; 4])
        requires
            square_index < 64,
        ensures
            forall|d: int| 0 <= d < 4 ==> reach[d] == rook_reach(square_index as int, d),
    {
        let (rank, file) = Board::square_to_rank_file(square_index);

        [7 - file, 7 - rank, file, rank]
    }

    /// The number of squares between a square and the edge of the board to
    /// the north-west, north-east, south-east and south-west, in that order.
    pub fn bishop_num_to_edge(square_index: u8) -> (reach: [u8; 4])
        requires
            square_index < 64,
        ensures
            forall|d: int| 0 <= d < 4 ==> reach[d] == bishop_reach(square_index as int, d),
    {
        let (rank, file) = Board::square_to_rank_file(square_index);

        let num_east: u8 = 7 - file;
        let num_north: u8 = 7 - rank;
        let num_west: u8 = file;
        let num_south: u8 = rank;

        [
            if num_north <= num_west { num_north } else { num_west },
            if num_north <= num_east { num_north } else { num_east },
            if num_south <= num_east { num_south } else { num_east },
            if num_south <= num_west { num_south } else { num_west },
        ]
    }
}

} // verus!
