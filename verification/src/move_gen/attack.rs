//! What sliding pieces see: rays that run from a square until the edge of
//! the board or the first occupied square, which they include.

use super::num_to_edge::{bishop_reach, bishop_step, lemma_bishop_target, lemma_rook_target};
use super::num_to_edge::{rook_reach, rook_step};
use super::{entry_ok, MoveGenerator};
use crate::bitboard::{bit, group_has_bit, has_bit, is_occupied, set_bit, Bitboard};
use crate::bitboard::{lemma_member_nonzero, squares_where};
use crate::color::Color;
use crate::piece::Piece;
use super::num_to_edge::{file_of, rank_of};
use vstd::prelude::*;

verus! {

/// A list of attack sets, one for each of a list of blocker sets.
pub type AttackBoards = Vec<Bitboard>;

/// The `k`-th square from `square` in steps of `step`.
pub open spec fn line_target(square: int, step: int, k: int) -> int {
    square + k * step
}

/// The step of direction `direction` of a straight or diagonal mover.
pub open spec fn line_step(diagonal: bool, direction: int) -> int {
    if diagonal {
        bishop_step(direction)
    } else {
        rook_step(direction)
    }
}

/// How far direction `direction` runs from `square`, less `shorten` squares
/// at the far end.
pub open spec fn line_reach(diagonal: bool, square: int, direction: int, shorten: int) -> int {
    let reach = if diagonal {
        bishop_reach(square, direction)
    } else {
        rook_reach(square, direction)
    };
    if reach > shorten {
        reach - shorten
    } else {
        0
    }
}

/// `seen`, and the squares from the `k`-th to the `reach`-th along a line,
/// up to and including the first occupied one.
pub open spec fn slide(
    square: int,
    step: int,
    reach: int,
    occupancy: Bitboard,
    k: int,
    seen: Bitboard,
) -> Bitboard
    decreases reach - k + 1,
{
    if k > reach {
        seen
    } else if has_bit(occupancy, line_target(square, step, k)) {
        seen | bit(line_target(square, step, k))
    } else {
        slide(square, step, reach, occupancy, k + 1, seen | bit(line_target(square, step, k)))
    }
}

/// What is seen from `square` along the first `directions` directions of a
/// straight or diagonal mover, each line cut short by `shorten` squares.
pub open spec fn lines(
    diagonal: bool,
    square: int,
    shorten: int,
    occupancy: Bitboard,
    directions: int,
) -> Bitboard
    decreases directions,
{
    if directions <= 0 {
        0
    } else {
        slide(
            square,
            line_step(diagonal, directions - 1),
            line_reach(diagonal, square, directions - 1, shorten),
            occupancy,
            1,
            lines(diagonal, square, shorten, occupancy, directions - 1),
        )
    }
}

/// The squares a rook on `square` attacks when `occupancy` is the set of
/// occupied squares.
pub open spec fn rook_attacks(square: int, occupancy: Bitboard) -> Bitboard {
    lines(false, square, 0, occupancy, 4)
}

/// The squares a bishop on `square` attacks when `occupancy` is the set of
/// occupied squares.
pub open spec fn bishop_attacks(square: int, occupancy: Bitboard) -> Bitboard {
    lines(true, square, 0, occupancy, 4)
}

/// The squares a queen on `square` attacks.
pub open spec fn queen_attacks(square: int, occupancy: Bitboard) -> Bitboard {
    rook_attacks(square, occupancy) ^ bishop_attacks(square, occupancy)
}

/// Whether `target` is one of the up to eight squares next to `square`.
pub open spec fn is_neighbor(square: int, target: int) -> bool {
    let ranks = rank_of(target) - rank_of(square);
    let files = file_of(target) - file_of(square);
    target != square && -1 <= ranks <= 1 && -1 <= files <= 1
}

/// Whether `target` is a knight's jump away from `square`: one rank and
/// two files, or two ranks and one file.
pub open spec fn is_knight_jump(square: int, target: int) -> bool {
    let ranks = rank_of(target) - rank_of(square);
    let files = file_of(target) - file_of(square);
    ((ranks == 1 || ranks == -1) && (files == 2 || files == -2)) || ((ranks == 2 || ranks == -2)
        && (files == 1 || files == -1))
}

/// Whether a pawn of `color` on `square` attacks `target`: one rank
/// forward, one file to either side.
pub open spec fn is_pawn_capture(color: Color, square: int, target: int) -> bool {
    let files = file_of(target) - file_of(square);
    rank_of(target) == rank_of(square) + color.push() / 8 && (files == 1 || files == -1)
}

/// The squares a king on `square` attacks.
pub open spec fn king_attacks(square: int) -> Bitboard {
    squares_where(|target: int| is_neighbor(square, target))
}

/// The squares a knight on `square` attacks.
pub open spec fn knight_attacks(square: int) -> Bitboard {
    squares_where(|target: int| is_knight_jump(square, target))
}

/// The squares a pawn of `color` on `square` attacks.
pub open spec fn pawn_attacks(color: Color, square: int) -> Bitboard {
    squares_where(|target: int| is_pawn_capture(color, square, target))
}

/// The squares a sliding piece on `square` attacks; nothing for a piece
/// that does not slide.
pub open spec fn slider_attacks(piece: Piece, square: int, occupancy: Bitboard) -> Bitboard {
    match piece {
        Piece::Rook => rook_attacks(square, occupancy),
        Piece::Bishop => bishop_attacks(square, occupancy),
        Piece::Queen => queen_attacks(square, occupancy),
        _ => 0,
    }
}

/// The squares a king or a knight on `square` attacks; nothing for another
/// piece.
pub open spec fn non_slider_attacks(piece: Piece, square: int) -> Bitboard {
    match piece {
        Piece::King => king_attacks(square),
        Piece::Knight => knight_attacks(square),
        _ => 0,
    }
}

/// The squares whose occupancy can change what a rook on `square` attacks:
/// its lines without their last squares.
pub open spec fn rook_relevant(square: int) -> Bitboard {
    lines(false, square, 1, 0, 4)
}

/// The squares whose occupancy can change what a bishop on `square`
/// attacks: its lines without their last squares.
pub open spec fn bishop_relevant(square: int) -> Bitboard {
    lines(true, square, 1, 0, 4)
}

/// Every square within reach along a line is on the board.
pub proof fn lemma_line_target(diagonal: bool, square: int, direction: int, shorten: int, k: int)
    requires
        0 <= square < 64,
        0 <= direction < 4,
        0 <= shorten,
        1 <= k <= line_reach(diagonal, square, direction, shorten),
    ensures
        0 <= line_target(square, line_step(diagonal, direction), k) < 64,
{
    if diagonal {
        lemma_bishop_target(square, direction, k);
    } else {
        lemma_rook_target(square, direction, k);
    }
}

/// What was seen before a line is walked is still seen after it.
pub proof fn lemma_slide_keeps(
    square: int,
    step: int,
    reach: int,
    occupancy: Bitboard,
    k: int,
    seen: Bitboard,
    t: int,
)
    requires
        has_bit(seen, t),
    ensures
        has_bit(slide(square, step, reach, occupancy, k, seen), t),
    decreases reach - k + 1,
{
    broadcast use group_has_bit;

    if k <= reach && !has_bit(occupancy, line_target(square, step, k)) {
        lemma_slide_keeps(
            square,
            step,
            reach,
            occupancy,
            k + 1,
            seen | bit(line_target(square, step, k)),
            t,
        );
    }
}

/// The first square of a line is seen whatever is occupied.
pub proof fn lemma_slide_first(
    square: int,
    step: int,
    reach: int,
    occupancy: Bitboard,
    k: int,
    seen: Bitboard,
)
    requires
        k <= reach,
        0 <= line_target(square, step, k) < 64,
    ensures
        has_bit(slide(square, step, reach, occupancy, k, seen), line_target(square, step, k)),
{
    broadcast use group_has_bit;

    let t = line_target(square, step, k);
    if !has_bit(occupancy, t) {
        lemma_slide_keeps(square, step, reach, occupancy, k + 1, seen | bit(t), t);
    }
}

/// On an empty board every square of a line is seen.
pub proof fn lemma_slide_covers(
    square: int,
    step: int,
    reach: int,
    k: int,
    seen: Bitboard,
    j: int,
)
    requires
        k <= j <= reach,
        0 <= line_target(square, step, j) < 64,
    ensures
        has_bit(slide(square, step, reach, 0, k, seen), line_target(square, step, j)),
    decreases reach - k + 1,
{
    broadcast use group_has_bit;

    if j == k {
        lemma_slide_first(square, step, reach, 0, k, seen);
    } else {
        lemma_slide_covers(square, step, reach, k + 1, seen | bit(line_target(square, step, k)), j);
    }
}

/// What is seen along a line depends on the occupancy of its squares short
/// of the last one only.
pub proof fn lemma_slide_masked(
    square: int,
    step: int,
    reach: int,
    occupancy: Bitboard,
    mask: Bitboard,
    k: int,
    seen: Bitboard,
)
    requires
        forall|j: int| k <= j < reach ==> has_bit(mask, #[trigger] line_target(square, step, j)),
    ensures
        slide(square, step, reach, occupancy, k, seen) == slide(
            square,
            step,
            reach,
            occupancy & mask,
            k,
            seen,
        ),
    decreases reach - k + 1,
{
    broadcast use group_has_bit;

    if k < reach {
        let t = line_target(square, step, k);
        assert(has_bit(mask, t));
        lemma_slide_masked(square, step, reach, occupancy, mask, k + 1, seen | bit(t));
    } else if k == reach {
        let t = line_target(square, step, k);
        assert(slide(square, step, reach, occupancy, k + 1, seen | bit(t)) == seen | bit(t));
        assert(slide(square, step, reach, occupancy & mask, k + 1, seen | bit(t)) == seen | bit(
            t,
        ));
    }
}

/// Whether the squares of a line from the `k`-th up to, and without, the
/// `j`-th are all empty.
pub open spec fn open_between(square: int, step: int, occupancy: Bitboard, k: int, j: int) -> bool {
    forall|i: int| k <= i < j ==> !has_bit(occupancy, #[trigger] line_target(square, step, i))
}

/// Whether `target` is seen along a line from its `k`-th square on: it is
/// a square of the line within reach, and every square of the line before
/// it, from the `k`-th on, is empty.
pub open spec fn seen_along(
    square: int,
    step: int,
    reach: int,
    occupancy: Bitboard,
    k: int,
    target: int,
) -> bool {
    exists|j: int|
        k <= j <= reach && target == #[trigger] line_target(square, step, j) && open_between(
            square,
            step,
            occupancy,
            k,
            j,
        )
}

/// Whether a straight or diagonal mover on `square` sees `target` in one of
/// its directions.
pub open spec fn seen_in(
    diagonal: bool,
    square: int,
    occupancy: Bitboard,
    direction: int,
    target: int,
) -> bool {
    seen_along(
        square,
        line_step(diagonal, direction),
        line_reach(diagonal, square, direction, 0),
        occupancy,
        1,
        target,
    )
}

/// Whether a straight or diagonal mover on `square` attacks `target`: the
/// target lies on one of its four lines, and all squares between are empty.
pub open spec fn attacked_along(
    diagonal: bool,
    square: int,
    occupancy: Bitboard,
    target: int,
) -> bool {
    exists|direction: int|
        0 <= direction < 4 && #[trigger] seen_in(diagonal, square, occupancy, direction, target)
}

/// What a walk along a line adds to what was seen: the squares of the line
/// that are reached over empty squares only.
pub proof fn lemma_slide_members(
    square: int,
    step: int,
    reach: int,
    occupancy: Bitboard,
    k: int,
    seen: Bitboard,
    target: int,
)
    requires
        forall|j: int| k <= j <= reach ==> 0 <= #[trigger] line_target(square, step, j) < 64,
    ensures
        has_bit(slide(square, step, reach, occupancy, k, seen), target) == (has_bit(seen, target)
            || seen_along(square, step, reach, occupancy, k, target)),
    decreases reach - k + 1,
{
    broadcast use group_has_bit;

    if k <= reach {
        let first = line_target(square, step, k);
        assert(0 <= first < 64);
        if has_bit(occupancy, first) {
            if target == first {
                assert(open_between(square, step, occupancy, k, k));
            }
            if seen_along(square, step, reach, occupancy, k, target) {
                let j = choose|j: int|
                    k <= j <= reach && target == #[trigger] line_target(square, step, j)
                        && open_between(square, step, occupancy, k, j);
                if j > k {
                    assert(!has_bit(occupancy, line_target(square, step, k)));
                }
            }
        } else {
            lemma_slide_members(square, step, reach, occupancy, k + 1, seen | bit(first), target);
            if seen_along(square, step, reach, occupancy, k + 1, target) {
                let j = choose|j: int|
                    k + 1 <= j <= reach && target == #[trigger] line_target(square, step, j)
                        && open_between(square, step, occupancy, k + 1, j);
                assert(open_between(square, step, occupancy, k, j));
            }
            if target == first {
                assert(open_between(square, step, occupancy, k, k));
            }
            if seen_along(square, step, reach, occupancy, k, target) && target != first {
                let j = choose|j: int|
                    k <= j <= reach && target == #[trigger] line_target(square, step, j)
                        && open_between(square, step, occupancy, k, j);
                assert(open_between(square, step, occupancy, k + 1, j));
            }
        }
    }
}

/// What a mover sees along its first directions: the squares that it sees
/// in one of them.
pub proof fn lemma_lines_members(
    diagonal: bool,
    square: int,
    occupancy: Bitboard,
    directions: int,
    target: int,
)
    requires
        0 <= square < 64,
        0 <= directions <= 4,
    ensures
        has_bit(lines(diagonal, square, 0, occupancy, directions), target) == exists|
            direction: int,
        |
            0 <= direction < directions && #[trigger] seen_in(
                diagonal,
                square,
                occupancy,
                direction,
                target,
            ),
    decreases directions,
{
    broadcast use group_has_bit;

    if directions > 0 {
        let d = directions - 1;
        let step = line_step(diagonal, d);
        let reach = line_reach(diagonal, square, d, 0);
        lemma_lines_members(diagonal, square, occupancy, d, target);
        assert forall|j: int| 1 <= j <= reach implies 0 <= #[trigger] line_target(
            square,
            step,
            j,
        ) < 64 by {
            lemma_line_target(diagonal, square, d, 0, j);
        }
        lemma_slide_members(
            square,
            step,
            reach,
            occupancy,
            1,
            lines(diagonal, square, 0, occupancy, d),
            target,
        );
        if has_bit(lines(diagonal, square, 0, occupancy, directions), target) {
            if has_bit(lines(diagonal, square, 0, occupancy, d), target) {
                let direction = choose|direction: int|
                    0 <= direction < d && #[trigger] seen_in(
                        diagonal,
                        square,
                        occupancy,
                        direction,
                        target,
                    );
                assert(seen_in(diagonal, square, occupancy, direction, target));
            } else {
                assert(seen_in(diagonal, square, occupancy, d, target));
            }
        }
        if exists|direction: int|
            0 <= direction < directions && #[trigger] seen_in(
                diagonal,
                square,
                occupancy,
                direction,
                target,
            ) {
            let direction = choose|direction: int|
                0 <= direction < directions && #[trigger] seen_in(
                    diagonal,
                    square,
                    occupancy,
                    direction,
                    target,
                );
            if direction < d {
                assert(seen_in(diagonal, square, occupancy, direction, target));
            }
        }
    }
}

/// A rook attacks the squares on its rank and file that it reaches over
/// empty squares, the first occupied square in each direction included.
pub proof fn lemma_rook_attacks_members(square: int, occupancy: Bitboard, target: int)
    requires
        0 <= square < 64,
    ensures
        has_bit(rook_attacks(square, occupancy), target) == attacked_along(
            false,
            square,
            occupancy,
            target,
        ),
{
    lemma_lines_members(false, square, occupancy, 4, target);
}

/// A bishop attacks the squares on its diagonals that it reaches over
/// empty squares, the first occupied square in each direction included.
pub proof fn lemma_bishop_attacks_members(square: int, occupancy: Bitboard, target: int)
    requires
        0 <= square < 64,
    ensures
        has_bit(bishop_attacks(square, occupancy), target) == attacked_along(
            true,
            square,
            occupancy,
            target,
        ),
{
    lemma_lines_members(true, square, occupancy, 4, target);
}

/// What is seen along the first lines is still seen when more lines are
/// added.
pub proof fn lemma_lines_keep(
    diagonal: bool,
    square: int,
    shorten: int,
    occupancy: Bitboard,
    fewer: int,
    directions: int,
    t: int,
)
    requires
        fewer <= directions,
        has_bit(lines(diagonal, square, shorten, occupancy, fewer), t),
    ensures
        has_bit(lines(diagonal, square, shorten, occupancy, directions), t),
    decreases directions - fewer,
{
    broadcast use group_has_bit;

    if fewer < directions {
        lemma_lines_keep(diagonal, square, shorten, occupancy, fewer, directions - 1, t);
        lemma_slide_keeps(
            square,
            line_step(diagonal, directions - 1),
            line_reach(diagonal, square, directions - 1, shorten),
            occupancy,
            1,
            lines(diagonal, square, shorten, occupancy, directions - 1),
            t,
        );
    }
}

/// The squares of every line short of its last square are relevant.
pub proof fn lemma_relevant_covers(diagonal: bool, square: int, direction: int, j: int)
    requires
        0 <= square < 64,
        0 <= direction < 4,
        1 <= j < line_reach(diagonal, square, direction, 0),
    ensures
        has_bit(
            lines(diagonal, square, 1, 0, 4),
            line_target(square, line_step(diagonal, direction), j),
        ),
{
    let step = line_step(diagonal, direction);
    lemma_line_target(diagonal, square, direction, 1, j);
    lemma_slide_covers(
        square,
        step,
        line_reach(diagonal, square, direction, 1),
        1,
        lines(diagonal, square, 1, 0, direction),
        j,
    );
    lemma_lines_keep(diagonal, square, 1, 0, direction + 1, 4, line_target(square, step, j));
}

/// Squares outside the relevant set do not change what a slider attacks.
pub proof fn lemma_lines_masked(
    diagonal: bool,
    square: int,
    occupancy: Bitboard,
    directions: int,
)
    requires
        0 <= square < 64,
        0 <= directions <= 4,
    ensures
        lines(diagonal, square, 0, occupancy, directions) == lines(
            diagonal,
            square,
            0,
            occupancy & lines(diagonal, square, 1, 0, 4),
            directions,
        ),
    decreases directions,
{
    if directions > 0 {
        let d = directions - 1;
        let mask = lines(diagonal, square, 1, 0, 4);
        let step = line_step(diagonal, d);
        let reach = line_reach(diagonal, square, d, 0);
        lemma_lines_masked(diagonal, square, occupancy, d);
        assert forall|j: int| 1 <= j < reach implies has_bit(
            mask,
            #[trigger] line_target(square, step, j),
        ) by {
            lemma_relevant_covers(diagonal, square, d, j);
        }
        lemma_slide_masked(
            square,
            step,
            reach,
            occupancy,
            mask,
            1,
            lines(diagonal, square, 0, occupancy, d),
        );
    }
}

/// A rook's attack depends on the relevant squares only.
pub proof fn lemma_rook_attacks_relevant(square: int, occupancy: Bitboard)
    requires
        0 <= square < 64,
    ensures
        rook_attacks(square, occupancy) == rook_attacks(square, occupancy & rook_relevant(square)),
{
    lemma_lines_masked(false, square, occupancy, 4);
}

/// A bishop's attack depends on the relevant squares only.
pub proof fn lemma_bishop_attacks_relevant(square: int, occupancy: Bitboard)
    requires
        0 <= square < 64,
    ensures
        bishop_attacks(square, occupancy) == bishop_attacks(
            square,
            occupancy & bishop_relevant(square),
        ),
{
    lemma_lines_masked(true, square, occupancy, 4);
}

/// A slider attacks at least one square wherever it stands, and its
/// relevant set is not empty.
pub proof fn lemma_lines_nonzero(diagonal: bool, square: int, occupancy: Bitboard)
    requires
        0 <= square < 64,
    ensures
        lines(diagonal, square, 0, occupancy, 4) != 0,
        lines(diagonal, square, 1, 0, 4) != 0,
{
    let d: int = if diagonal {
        if rank_low(square) {
            if file_low(square) {
                1
            } else {
                0
            }
        } else {
            if file_low(square) {
                2
            } else {
                3
            }
        }
    } else {
        if file_low(square) {
            0
        } else {
            2
        }
    };
    assert(line_reach(diagonal, square, d, 0) >= 4);
    let step = line_step(diagonal, d);
    lemma_line_target(diagonal, square, d, 0, 1);
    let t = line_target(square, step, 1);
    lemma_slide_first(
        square,
        step,
        line_reach(diagonal, square, d, 0),
        occupancy,
        1,
        lines(diagonal, square, 0, occupancy, d),
    );
    lemma_lines_keep(diagonal, square, 0, occupancy, d + 1, 4, t);
    lemma_member_nonzero(lines(diagonal, square, 0, occupancy, 4), t);
    lemma_relevant_covers(diagonal, square, d, 1);
    lemma_member_nonzero(lines(diagonal, square, 1, 0, 4), t);
}

/// Whether the square lies in the lower half of the ranks.
pub open spec fn rank_low(square: int) -> bool {
    square / 8 < 4
}

/// Whether the square lies in the left half of the files.
pub open spec fn file_low(square: int) -> bool {
    square % 8 < 4
}

/// Walks the four lines of a straight or diagonal mover from a square and
/// collects what is seen, each line cut short by `shorten` squares.
pub(crate) fn sweep(diagonal: bool, square_index: u8, shorten: u8, occupancy: Bitboard) -> (seen:
    Bitboard)
    requires
        square_index < 64,
    ensures
        seen == lines(diagonal, square_index as int, shorten as int, occupancy, 4),
{
    let offsets: [i8; 4] = if diagonal {
        [7, 9, -7, -9]
    } else {
        [1, 8, -1, -8]
    };
    let num_to_edge: [u8; 4] = if diagonal {
        MoveGenerator::bishop_num_to_edge(square_index)
    } else {
        MoveGenerator::rook_num_to_edge(square_index)
    };
    let mut seen: Bitboard = 0;
    let mut direction: usize = 0;
    while direction < 4
        invariant
            direction <= 4,
            square_index < 64,
            seen == lines(diagonal, square_index as int, shorten as int, occupancy, direction as int),
            forall|d: int| 0 <= d < 4 ==> offsets[d] == line_step(diagonal, d),
            forall|d: int|
                0 <= d < 4 ==> num_to_edge[d] == line_reach(diagonal, square_index as int, d, 0),
        decreases 4 - direction,
    {
        let offset: i8 = offsets[direction];
        let reach: u8 = if num_to_edge[direction] > shorten {
            num_to_edge[direction] - shorten
        } else {
            0
        };
        let ghost before = seen;
        let mut n: u8 = 1;
        while n <= reach
            invariant_except_break
                1 <= n <= reach + 1,
                slide(square_index as int, offset as int, reach as int, occupancy, 1, before)
                    == slide(square_index as int, offset as int, reach as int, occupancy, n as int, seen),
            invariant
                square_index < 64,
                direction < 4,
                offset == line_step(diagonal, direction as int),
                reach == line_reach(diagonal, square_index as int, direction as int, shorten as int),
                reach <= 7,
            ensures
                seen == slide(
                    square_index as int,
                    offset as int,
                    reach as int,
                    occupancy,
                    1,
                    before,
                ),
            decreases reach + 1 - n,
        {
            proof {
                lemma_line_target(
                    diagonal,
                    square_index as int,
                    direction as int,
                    shorten as int,
                    n as int,
                );
            }
            let target_square: u8 = (square_index as i8 + offset * (n as i8)) as u8;
            assert(target_square == line_target(square_index as int, offset as int, n as int));
            set_bit(&mut seen, target_square);

            if is_occupied(occupancy, target_square) {
                break ;
            }
            n += 1;
        }
        direction += 1;
    }
    seen
}

/// What a slider on `square` sees behind the first of `blockers` on each of
/// its lines, and what it attacks.
pub open spec fn xray(
    piece: Piece,
    square: int,
    blockers: Bitboard,
    occupancy: Bitboard,
) -> (Bitboard, Bitboard) {
    let attack = slider_attacks(piece, square, occupancy);
    let hit = blockers & attack;
    if hit == 0 {
        (hit, attack)
    } else {
        (attack ^ slider_attacks(piece, square, occupancy ^ hit), attack)
    }
}

impl MoveGenerator {
    /// The squares a pawn of `color` on `square_index` attacks.
    pub fn get_pawn_attacks(&self, square_index: usize, color: Color) -> (attack: Bitboard)
        requires
            self.wf(),
            square_index < 64,
        ensures
            attack == pawn_attacks(color, square_index as int),
    {
        let color_index: usize = color.to_index();
        assert(self.pawn[0][square_index as int] == pawn_attacks(Color::White, square_index as int));
        assert(self.pawn[1][square_index as int] == pawn_attacks(Color::Black, square_index as int));
        self.pawn[color_index][square_index]
    }

    /// The squares a rook, bishop or queen on `square_index` attacks, read
    /// from the magic tables.
    pub fn get_slider_attacks(&self, piece: Piece, square_index: usize, occupancy: Bitboard) -> (attack:
        Bitboard)
        requires
            self.wf(),
            square_index < 64,
            piece == Piece::Rook || piece == Piece::Bishop || piece == Piece::Queen,
        ensures
            attack == slider_attacks(piece, square_index as int, occupancy),
    {
        proof {
            assert(entry_ok(self.rook_magics@[square_index as int], self.rook@, false, square_index as int));
            assert(entry_ok(
                self.bishop_magics@[square_index as int],
                self.bishop@,
                true,
                square_index as int,
            ));
        }
        match piece {
            Piece::Rook => {
                let index: usize = self.rook_magics[square_index].get_index(occupancy);
                self.rook[index]
            },
            Piece::Bishop => {
                let index: usize = self.bishop_magics[square_index].get_index(occupancy);
                self.bishop[index]
            },
            _ => {
                let r_index: usize = self.rook_magics[square_index].get_index(occupancy);
                let b_index: usize = self.bishop_magics[square_index].get_index(occupancy);
                self.rook[r_index] ^ self.bishop[b_index]
            },
        }
    }

    /// The squares a king or a knight on `square_index` attacks.
    pub fn get_non_slider_attacks(&self, piece: Piece, square_index: usize) -> (attack: Bitboard)
        requires
            self.wf(),
            square_index < 64,
            piece == Piece::King || piece == Piece::Knight,
        ensures
            attack == non_slider_attacks(piece, square_index as int),
    {
        match piece {
            Piece::King => self.king[square_index],
            _ => self.knight[square_index],
        }
    }

    /// What a slider sees behind the first of `blockers` on each of its
    /// lines, and what it attacks: the squares it attacks once the blockers
    /// it attacks are taken away and did not attack before, then its attack.
    pub fn xray_attack(
        &self,
        piece: Piece,
        square_index: usize,
        blockers: Bitboard,
        occupancy: Bitboard,
    ) -> (seen: (Bitboard, Bitboard))
        requires
            self.wf(),
            square_index < 64,
            piece == Piece::Rook || piece == Piece::Bishop || piece == Piece::Queen,
        ensures
            seen == xray(piece, square_index as int, blockers, occupancy),
    {
        let attack: Bitboard = self.get_slider_attacks(piece, square_index, occupancy);
        let blockers: Bitboard = blockers & attack;

        if blockers == 0 {
            return (blockers, attack);
        } else {
            let xray: Bitboard = attack ^ self.get_slider_attacks(
                piece,
                square_index,
                occupancy ^ blockers,
            );

            return (xray, attack);
        }
    }

    /// The squares a rook on `square_index` attacks: along each straight
    /// line up to and including the first occupied square.
    pub fn rook_attack(square_index: u8, occupancy: Bitboard) -> (attack: Bitboard)
        requires
            square_index < 64,
        ensures
            attack == rook_attacks(square_index as int, occupancy),
    {
        sweep(false, square_index, 0, occupancy)
    }

    /// The squares a bishop on `square_index` attacks: along each diagonal
    /// up to and including the first occupied square.
    pub fn bishop_attack(square_index: u8, occupancy: Bitboard) -> (attack: Bitboard)
        requires
            square_index < 64,
        ensures
            attack == bishop_attacks(square_index as int, occupancy),
    {
        sweep(true, square_index, 0, occupancy)
    }

    /// The rook attack for each of a list of blocker sets, in order.
    pub fn rook_attack_boards(square_index: u8, blockers: &[Bitboard]) -> (boards: AttackBoards)
        requires
            square_index < 64,
        ensures
            boards@.len() == blockers@.len(),
            forall|i: int|
                0 <= i < blockers@.len() ==> boards@[i] == rook_attacks(
                    square_index as int,
                    #[trigger] blockers@[i],
                ),
    {
        let mut bb_attack_boards: Vec<Bitboard> = Vec::new();
        let mut next: usize = 0;
        while next < blockers.len()
            invariant
                square_index < 64,
                next <= blockers@.len(),
                bb_attack_boards@.len() == next,
                forall|i: int|
                    0 <= i < next ==> bb_attack_boards@[i] == rook_attacks(
                        square_index as int,
                        #[trigger] blockers@[i],
                    ),
            decreases blockers@.len() - next,
        {
            bb_attack_boards.push(MoveGenerator::rook_attack(square_index, blockers[next]));
            next += 1;
        }
        bb_attack_boards
    }

    /// The bishop attack for each of a list of blocker sets, in order.
    pub fn bishop_attack_boards(square_index: u8, blockers: &[Bitboard]) -> (boards: AttackBoards)
        requires
            square_index < 64,
        ensures
            boards@.len() == blockers@.len(),
            forall|i: int|
                0 <= i < blockers@.len() ==> boards@[i] == bishop_attacks(
                    square_index as int,
                    #[trigger] blockers@[i],
                ),
    {
        let mut bb_attack_boards: Vec<Bitboard> = Vec::new();
        let mut next: usize = 0;
        while next < blockers.len()
            invariant
                square_index < 64,
                next <= blockers@.len(),
                bb_attack_boards@.len() == next,
                forall|i: int|
                    0 <= i < next ==> bb_attack_boards@[i] == bishop_attacks(
                        square_index as int,
                        #[trigger] blockers@[i],
                    ),
            decreases blockers@.len() - next,
        {
            bb_attack_boards.push(MoveGenerator::bishop_attack(square_index, blockers[next]));
            next += 1;
        }
        bb_attack_boards
    }
}

} // verus!
