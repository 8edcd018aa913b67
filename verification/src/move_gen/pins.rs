//! Lines on the board, what pins mean on them, and why a piece that is not
//! pinned may move without uncovering its king.

use super::attack::{lemma_lines_members, line_reach, line_step};
use super::attack::{line_target, lines, open_between, seen_along, seen_in};
use super::num_to_edge::{file_of, lemma_bishop_target, lemma_rook_target, rank_of};
use super::attack::{queen_attacks, slider_attacks, xray};
use super::extra::{check_state, clear_state, leaper_scan, note_check, pin_ray, pinned_by};
use super::extra::{pins_checks, slider_checks, slider_pins, CheckState};
use crate::bitboard::lemma_same_members;
use super::attack::{bishop_attacks, king_attacks, knight_attacks, pawn_attacks, rook_attacks};
use super::defs::Move;
use super::legal::{keeps_to, lemma_all_moves_admitted, lemma_moves_keep_to_check_and_pin};
use super::all_moves;
use crate::board::{lemma_square_after, Position};
use crate::color::Color;
use crate::bitboard::{bit, group_has_bit, has_bit, lemma_lsb, lemma_member_nonzero, lsb};
use crate::bitboard::Bitboard;
use crate::piece::Piece;
use vstd::prelude::*;

verus! {

/// The `k`-th square from `square` in a direction of a straight or diagonal
/// mover.
pub open spec fn along(diagonal: bool, square: int, direction: int, k: int) -> int {
    line_target(square, line_step(diagonal, direction), k)
}

/// Whether the `k`-th square from `square` in a direction is on the board.
pub open spec fn within(diagonal: bool, square: int, direction: int, k: int) -> bool {
    0 <= direction < 4 && 1 <= k <= line_reach(diagonal, square, direction, 0)
}

/// The direction that leads back.
pub open spec fn opposite(direction: int) -> int {
    if direction < 2 {
        direction + 2
    } else {
        direction - 2
    }
}

/// The change of rank over `k` steps in a direction.
pub open spec fn rank_move(diagonal: bool, direction: int, k: int) -> int {
    if diagonal {
        if direction < 2 {
            k
        } else {
            -k
        }
    } else if direction == 1 {
        k
    } else if direction == 3 {
        -k
    } else {
        0
    }
}

/// The change of file over `k` steps in a direction.
pub open spec fn file_move(diagonal: bool, direction: int, k: int) -> int {
    if diagonal {
        if direction == 1 || direction == 2 {
            k
        } else {
            -k
        }
    } else if direction == 0 {
        k
    } else if direction == 2 {
        -k
    } else {
        0
    }
}

/// The rank and file of a square on a line.
pub proof fn lemma_along(diagonal: bool, square: int, direction: int, k: int)
    requires
        0 <= square < 64,
        within(diagonal, square, direction, k),
    ensures
        0 <= along(diagonal, square, direction, k) < 64,
        along(diagonal, square, direction, k) != square,
        rank_of(along(diagonal, square, direction, k)) == rank_of(square) + rank_move(
            diagonal,
            direction,
            k,
        ),
        file_of(along(diagonal, square, direction, k)) == file_of(square) + file_move(
            diagonal,
            direction,
            k,
        ),
        1 <= k <= 7,
{
    if diagonal {
        lemma_bishop_target(square, direction, k);
    } else {
        lemma_rook_target(square, direction, k);
    }
}

/// A square on a line is on the board exactly when its rank and file are.
pub proof fn lemma_within(diagonal: bool, square: int, direction: int, k: int)
    requires
        0 <= square < 64,
        0 <= direction < 4,
        1 <= k,
    ensures
        within(diagonal, square, direction, k) == (0 <= rank_of(square) + rank_move(
            diagonal,
            direction,
            k,
        ) < 8 && 0 <= file_of(square) + file_move(diagonal, direction, k) < 8),
{
}

/// From a square on a line the same line leads back.
pub proof fn lemma_back(diagonal: bool, square: int, direction: int, j: int, i: int)
    requires
        0 <= square < 64,
        within(diagonal, square, direction, j),
        0 <= i < j,
    ensures
        within(diagonal, along(diagonal, square, direction, j), opposite(direction), j - i),
        along(diagonal, along(diagonal, square, direction, j), opposite(direction), j - i) == if i
            == 0 {
            square
        } else {
            along(diagonal, square, direction, i)
        },
        i > 0 ==> within(diagonal, square, direction, i),
{
    lemma_along(diagonal, square, direction, j);
    let far = along(diagonal, square, direction, j);
    lemma_within(diagonal, far, opposite(direction), j - i);
    if i > 0 {
        lemma_within(diagonal, square, direction, i);
        lemma_along(diagonal, square, direction, i);
    }
    lemma_along(diagonal, far, opposite(direction), j - i);
    let back = along(diagonal, far, opposite(direction), j - i);
    let goal = if i == 0 {
        square
    } else {
        along(diagonal, square, direction, i)
    };
    assert(rank_of(back) == rank_of(goal) && file_of(back) == file_of(goal));
    assert(back == 8 * rank_of(back) + file_of(back));
    assert(goal == 8 * rank_of(goal) + file_of(goal));
}

/// From a square on a line the same line leads on.
pub proof fn lemma_onward(diagonal: bool, square: int, direction: int, i: int, j: int)
    requires
        0 <= square < 64,
        within(diagonal, square, direction, j),
        0 < i < j,
    ensures
        within(diagonal, square, direction, i),
        within(diagonal, along(diagonal, square, direction, i), direction, j - i),
        along(diagonal, along(diagonal, square, direction, i), direction, j - i) == along(
            diagonal,
            square,
            direction,
            j,
        ),
{
    lemma_along(diagonal, square, direction, j);
    lemma_within(diagonal, square, direction, i);
    lemma_along(diagonal, square, direction, i);
    let near = along(diagonal, square, direction, i);
    lemma_within(diagonal, near, direction, j - i);
    lemma_along(diagonal, near, direction, j - i);
    let far = along(diagonal, near, direction, j - i);
    let goal = along(diagonal, square, direction, j);
    assert(rank_of(far) == rank_of(goal) && file_of(far) == file_of(goal));
    assert(far == 8 * rank_of(far) + file_of(far));
    assert(goal == 8 * rank_of(goal) + file_of(goal));
}

/// A square lies on one line from another square at most, at one distance.
pub proof fn lemma_one_line(
    diagonal: bool,
    other: bool,
    square: int,
    direction: int,
    k: int,
    second: int,
    l: int,
)
    requires
        0 <= square < 64,
        within(diagonal, square, direction, k),
        within(other, square, second, l),
        along(diagonal, square, direction, k) == along(other, square, second, l),
    ensures
        diagonal == other,
        direction == second,
        k == l,
{
    lemma_along(diagonal, square, direction, k);
    lemma_along(other, square, second, l);
}

/// Where the lines from two squares of one line meet: on that line. A
/// square that lies on a line from `square` and on a line from the `j`-th
/// square of a line from `square` lies between the two, or behind the one
/// or the other.
#[verifier::rlimit(40)]
pub proof fn lemma_crossing(
    diagonal: bool,
    square: int,
    direction: int,
    j: int,
    second: int,
    k: int,
    third: int,
    l: int,
)
    requires
        0 <= square < 64,
        within(diagonal, square, direction, j),
        within(diagonal, square, second, k),
        within(diagonal, along(diagonal, square, direction, j), third, l),
        along(diagonal, square, second, k) == along(
            diagonal,
            along(diagonal, square, direction, j),
            third,
            l,
        ),
    ensures
        (second == direction && third == opposite(direction) && k + l == j) || (second
            == direction && third == direction && k == j + l) || (second == opposite(direction)
            && third == opposite(direction) && l == j + k),
{
    lemma_along(diagonal, square, direction, j);
    lemma_along(diagonal, square, second, k);
    lemma_along(diagonal, along(diagonal, square, direction, j), third, l);
}

/// Whether a straight or diagonal mover on `square` sees `target`.
pub open spec fn sees(diagonal: bool, square: int, occupancy: Bitboard, target: int) -> bool {
    has_bit(lines(diagonal, square, 0, occupancy, 4), target)
}

/// A mover sees the squares of its lines that it reaches over empty
/// squares.
pub proof fn lemma_sees_intro(
    diagonal: bool,
    square: int,
    occupancy: Bitboard,
    direction: int,
    j: int,
)
    requires
        0 <= square < 64,
        within(diagonal, square, direction, j),
        forall|i: int|
            1 <= i < j ==> !has_bit(occupancy, #[trigger] along(diagonal, square, direction, i)),
    ensures
        sees(diagonal, square, occupancy, along(diagonal, square, direction, j)),
{
    let step = line_step(diagonal, direction);
    let target = along(diagonal, square, direction, j);
    lemma_lines_members(diagonal, square, occupancy, 4, target);
    assert(open_between(square, step, occupancy, 1, j)) by {
        assert forall|i: int| 1 <= i < j implies !has_bit(
            occupancy,
            #[trigger] line_target(square, step, i),
        ) by {
            assert(!has_bit(occupancy, along(diagonal, square, direction, i)));
        }
    }
    assert(target == line_target(square, step, j));
    assert(seen_along(
        square,
        step,
        line_reach(diagonal, square, direction, 0),
        occupancy,
        1,
        target,
    ));
    assert(seen_in(diagonal, square, occupancy, direction, target));
}

/// What a mover sees lies on one of its lines, behind empty squares: the
/// direction and the distance.
pub proof fn lemma_sees_elim(diagonal: bool, square: int, occupancy: Bitboard, target: int) -> (found:
    (int, int))
    requires
        0 <= square < 64,
        sees(diagonal, square, occupancy, target),
    ensures
        within(diagonal, square, found.0, found.1),
        target == along(diagonal, square, found.0, found.1),
        forall|i: int|
            1 <= i < found.1 ==> !has_bit(
                occupancy,
                #[trigger] along(diagonal, square, found.0, i),
            ),
{
    lemma_lines_members(diagonal, square, occupancy, 4, target);
    let direction = choose|direction: int|
        0 <= direction < 4 && #[trigger] seen_in(diagonal, square, occupancy, direction, target);
    let step = line_step(diagonal, direction);
    let reach = line_reach(diagonal, square, direction, 0);
    let j = choose|j: int|
        1 <= j <= reach && target == #[trigger] line_target(square, step, j) && open_between(
            square,
            step,
            occupancy,
            1,
            j,
        );
    assert forall|i: int| 1 <= i < j implies !has_bit(
        occupancy,
        #[trigger] along(diagonal, square, direction, i),
    ) by {
        assert(!has_bit(occupancy, line_target(square, step, i)));
    }
    (direction, j)
}

/// Two squares see each other or neither sees the other.
pub proof fn lemma_sees_back(diagonal: bool, square: int, occupancy: Bitboard, target: int)
    requires
        0 <= square < 64,
        sees(diagonal, square, occupancy, target),
    ensures
        0 <= target < 64,
        sees(diagonal, target, occupancy, square),
{
    let found = lemma_sees_elim(diagonal, square, occupancy, target);
    let direction = found.0;
    let j = found.1;
    lemma_along(diagonal, square, direction, j);
    lemma_back(diagonal, square, direction, j, 0);
    assert forall|i: int| 1 <= i < j implies !has_bit(
        occupancy,
        #[trigger] along(diagonal, target, opposite(direction), i),
    ) by {
        lemma_back(diagonal, square, direction, j, j - i);
        assert(!has_bit(occupancy, along(diagonal, square, direction, j - i)));
    }
    lemma_sees_intro(diagonal, target, occupancy, opposite(direction), j);
}

/// With fewer squares occupied a mover sees no less.
pub proof fn lemma_sees_more(
    diagonal: bool,
    square: int,
    occupancy: Bitboard,
    fewer: Bitboard,
    target: int,
)
    requires
        0 <= square < 64,
        forall|x: int| has_bit(fewer, x) ==> has_bit(occupancy, x),
        sees(diagonal, square, occupancy, target),
    ensures
        sees(diagonal, square, fewer, target),
{
    let found = lemma_sees_elim(diagonal, square, occupancy, target);
    lemma_sees_intro(diagonal, square, fewer, found.0, found.1);
}

/// A queen attacks what a rook or a bishop attacks from her square: no
/// square lies on a straight line and on a diagonal from one square, so
/// that the two sets have no square in common and joining them leaves none
/// out.
pub proof fn lemma_queen_attacks_join(square: int, occupancy: Bitboard)
    requires
        0 <= square < 64,
    ensures
        queen_attacks(square, occupancy) == rook_attacks(square, occupancy) | bishop_attacks(
            square,
            occupancy,
        ),
        rook_attacks(square, occupancy) & bishop_attacks(square, occupancy) == 0,
{
    broadcast use group_has_bit;

    let straight = rook_attacks(square, occupancy);
    let slanted = bishop_attacks(square, occupancy);
    assert forall|target: int| 0 <= target < 64 implies !(has_bit(straight, target) && has_bit(
        slanted,
        target,
    )) by {
        if has_bit(straight, target) && has_bit(slanted, target) {
            let along_rank = lemma_sees_elim(false, square, occupancy, target);
            let along_slope = lemma_sees_elim(true, square, occupancy, target);
            lemma_one_line(
                false,
                true,
                square,
                along_rank.0,
                along_rank.1,
                along_slope.0,
                along_slope.1,
            );
        }
    }
    lemma_same_members(straight ^ slanted, straight | slanted);
    lemma_same_members(straight & slanted, 0);
}

/// The kind of piece that moves along straight lines, or along diagonals.
pub open spec fn line_piece(diagonal: bool) -> Piece {
    if diagonal {
        Piece::Bishop
    } else {
        Piece::Rook
    }
}

/// What the search for pins starts from: the king's square, the occupied
/// squares, the squares of the king's side, among them the king's, and the
/// squares of the enemy pieces that move along the lines looked at.
pub open spec fn pin_setting(
    king: int,
    occupancy: Bitboard,
    allies: Bitboard,
    attackers: Bitboard,
) -> bool {
    &&& 0 <= king < 64
    &&& has_bit(allies, king)
    &&& forall|x: int| has_bit(allies, x) ==> has_bit(occupancy, x)
    &&& forall|x: int| has_bit(attackers, x) ==> has_bit(occupancy, x) && !has_bit(allies, x)
}

/// What the king sees along the lines looked at.
pub open spec fn king_view(diagonal: bool, king: int, occupancy: Bitboard) -> Bitboard {
    slider_attacks(line_piece(diagonal), king, occupancy)
}

/// The pieces of the king's side that the king sees.
pub open spec fn guards(diagonal: bool, king: int, occupancy: Bitboard, allies: Bitboard) -> Bitboard {
    allies & king_view(diagonal, king, occupancy)
}

/// What the king sees behind the pieces of its side that it sees.
pub open spec fn behind_guards(
    diagonal: bool,
    king: int,
    occupancy: Bitboard,
    allies: Bitboard,
) -> Bitboard {
    king_view(diagonal, king, occupancy) ^ slider_attacks(
        line_piece(diagonal),
        king,
        occupancy ^ guards(diagonal, king, occupancy, allies),
    )
}

/// Whether one piece of the king's side, on the `i`-th square of a line
/// from the king, stands alone between the king and an enemy piece on the
/// `j`-th square of that line.
pub open spec fn lone_guard(
    diagonal: bool,
    king: int,
    occupancy: Bitboard,
    allies: Bitboard,
    attackers: Bitboard,
    direction: int,
    i: int,
    j: int,
) -> bool {
    &&& within(diagonal, king, direction, j)
    &&& 0 < i < j
    &&& has_bit(allies, along(diagonal, king, direction, i))
    &&& has_bit(attackers, along(diagonal, king, direction, j))
    &&& forall|k: int|
        0 < k < j && k != i ==> !has_bit(occupancy, #[trigger] along(diagonal, king, direction, k))
}

/// A piece that stands alone between its king and an enemy slider is
/// found: the slider is among those that the king sees behind its guards,
/// and the piece is what both the king and the slider see.
#[verifier::rlimit(40)]
pub proof fn lemma_pin_found(
    diagonal: bool,
    king: int,
    occupancy: Bitboard,
    allies: Bitboard,
    attackers: Bitboard,
    direction: int,
    i: int,
    j: int,
)
    requires
        pin_setting(king, occupancy, allies, attackers),
        lone_guard(diagonal, king, occupancy, allies, attackers, direction, i, j),
    ensures
        has_bit(
            behind_guards(diagonal, king, occupancy, allies) & attackers,
            along(diagonal, king, direction, j),
        ),
        has_bit(
            pinned_by(
                line_piece(diagonal),
                king_view(diagonal, king, occupancy),
                guards(diagonal, king, occupancy, allies),
                occupancy,
                along(diagonal, king, direction, j),
            ),
            along(diagonal, king, direction, i),
        ),
{
    broadcast use group_has_bit;

    let guard = along(diagonal, king, direction, i);
    let pinner = along(diagonal, king, direction, j);
    let blockers = guards(diagonal, king, occupancy, allies);
    lemma_along(diagonal, king, direction, j);
    lemma_back(diagonal, king, direction, j, i);
    lemma_along(diagonal, king, direction, i);
    // The king sees its guard.
    assert forall|k: int| 1 <= k < i implies !has_bit(
        occupancy,
        #[trigger] along(diagonal, king, direction, k),
    ) by {}
    lemma_sees_intro(diagonal, king, occupancy, direction, i);
    assert(has_bit(blockers, guard));
    // The king does not see the slider, but sees it without its guards.
    if sees(diagonal, king, occupancy, pinner) {
        let found = lemma_sees_elim(diagonal, king, occupancy, pinner);
        lemma_one_line(diagonal, diagonal, king, direction, j, found.0, found.1);
        assert(!has_bit(occupancy, along(diagonal, king, direction, i)));
    }
    assert forall|k: int| 1 <= k < j implies !has_bit(
        occupancy ^ blockers,
        #[trigger] along(diagonal, king, direction, k),
    ) by {
        if k != i {
            assert(!has_bit(occupancy, along(diagonal, king, direction, k)));
        }
    }
    lemma_sees_intro(diagonal, king, occupancy ^ blockers, direction, j);
    // The slider sees the guard.
    assert forall|k: int| 1 <= k < j - i implies !has_bit(
        occupancy,
        #[trigger] along(diagonal, pinner, opposite(direction), k),
    ) by {
        lemma_back(diagonal, king, direction, j, j - k);
        assert(!has_bit(occupancy, along(diagonal, king, direction, j - k)));
    }
    lemma_sees_intro(diagonal, pinner, occupancy, opposite(direction), j - i);
}

/// What a pin is: where a slider that the king sees behind its guards pins
/// a piece, that piece stands alone between the king and the slider on a
/// line, and the line of the pin holds nothing but the other squares
/// between the two and the slider's own square. The direction of the line
/// and the places of the piece and of the slider on it are returned.
#[verifier::rlimit(40)]
pub proof fn lemma_pin_line(
    diagonal: bool,
    king: int,
    occupancy: Bitboard,
    allies: Bitboard,
    attackers: Bitboard,
    pinner: int,
    pinned: int,
) -> (found: (int, int, int))
    requires
        pin_setting(king, occupancy, allies, attackers),
        has_bit(behind_guards(diagonal, king, occupancy, allies) & attackers, pinner),
        has_bit(
            pinned_by(
                line_piece(diagonal),
                king_view(diagonal, king, occupancy),
                guards(diagonal, king, occupancy, allies),
                occupancy,
                pinner,
            ),
            pinned,
        ),
    ensures
        lone_guard(diagonal, king, occupancy, allies, attackers, found.0, found.1, found.2),
        pinner == along(diagonal, king, found.0, found.2),
        pinned == along(diagonal, king, found.0, found.1),
        forall|target: int|
            has_bit(
                pin_ray(
                    line_piece(diagonal),
                    behind_guards(diagonal, king, occupancy, allies),
                    king_view(diagonal, king, occupancy),
                    allies,
                    occupancy,
                    pinner,
                ),
                target,
            ) ==> target == pinner || exists|k: int|
                0 < k < found.2 && k != found.1 && target == #[trigger] along(
                    diagonal,
                    king,
                    found.0,
                    k,
                ),
{
    broadcast use group_has_bit;

    let piece = line_piece(diagonal);
    let attack = king_view(diagonal, king, occupancy);
    let blockers = guards(diagonal, king, occupancy, allies);
    let bare = occupancy ^ blockers;
    let farther = slider_attacks(piece, king, bare);
    let back = slider_attacks(piece, pinner, occupancy);
    // The slider: not seen by the king, but seen without the guards.
    assert(has_bit(farther, pinner) != has_bit(attack, pinner));
    if has_bit(attack, pinner) {
        lemma_sees_more(diagonal, king, occupancy, bare, pinner);
    }
    let line = lemma_sees_elim(diagonal, king, bare, pinner);
    let d = line.0;
    let j = line.1;
    lemma_along(diagonal, king, d, j);
    lemma_back(diagonal, king, d, j, 0);
    // The pinned piece: seen by both, on the line between them.
    let here = lemma_sees_elim(diagonal, king, occupancy, pinned);
    let there = lemma_sees_elim(diagonal, pinner, occupancy, pinned);
    lemma_crossing(diagonal, king, d, j, here.0, here.1, there.0, there.1);
    if here.0 == d && there.0 == d {
        assert(!has_bit(occupancy, along(diagonal, king, d, j)));
    }
    if here.0 == opposite(d) && there.0 == opposite(d) {
        assert(!has_bit(occupancy, along(diagonal, pinner, opposite(d), j)));
    }
    let i = here.1;
    assert(here.0 == d && there.0 == opposite(d) && i + there.1 == j);
    assert forall|k: int| 0 < k < j && k != i implies !has_bit(
        occupancy,
        #[trigger] along(diagonal, king, d, k),
    ) by {
        let x = along(diagonal, king, d, k);
        lemma_along(diagonal, king, d, k);
        lemma_back(diagonal, king, d, j, k);
        if has_bit(occupancy, x) {
            // Only a guard can be hidden from the king's farther look.
            assert(!has_bit(bare, x));
            assert(has_bit(blockers, x));
            let seen = lemma_sees_elim(diagonal, king, occupancy, x);
            lemma_one_line(diagonal, diagonal, king, d, k, seen.0, seen.1);
            if k > i {
                assert(!has_bit(occupancy, along(diagonal, king, d, i)));
            } else {
                lemma_back(diagonal, king, d, j, i);
                assert(along(diagonal, pinner, opposite(d), j - k) == x);
                assert(!has_bit(occupancy, along(diagonal, pinner, opposite(d), j - k)));
            }
        }
    }
    let ray = pin_ray(
        piece,
        behind_guards(diagonal, king, occupancy, allies),
        attack,
        allies,
        occupancy,
        pinner,
    );
    let hit = allies & back;
    assert(has_bit(hit, pinned));
    lemma_member_nonzero(hit, pinned);
    let cleared = occupancy ^ hit;
    let beyond = slider_attacks(piece, pinner, cleared);
    assert(xray(piece, pinner, allies, occupancy) == (back ^ beyond, back));
    assert forall|target: int| has_bit(ray, target) implies target == pinner || exists|k: int|
        0 < k < j && k != i && target == #[trigger] along(diagonal, king, d, k) by {
        if target != pinner {
            // Seen by the king, directly or behind its guards, and by the
            // slider, directly or behind the pieces it sees.
            let by_king = has_bit(attack, target);
            let by_slider = has_bit(back, target);
            if by_king {
                lemma_sees_more(diagonal, king, occupancy, bare, target);
            }
            if by_slider {
                lemma_sees_more(diagonal, pinner, occupancy, cleared, target);
            }
            assert(has_bit(farther, target));
            assert(has_bit(beyond, target));
            let from_king = lemma_sees_elim(diagonal, king, bare, target);
            let from_slider = lemma_sees_elim(diagonal, pinner, cleared, target);
            lemma_crossing(
                diagonal,
                king,
                d,
                j,
                from_king.0,
                from_king.1,
                from_slider.0,
                from_slider.1,
            );
            if from_king.0 == d && from_slider.0 == d {
                // Behind the slider: the king does not see through it.
                assert(has_bit(bare, along(diagonal, king, d, j)));
            }
            if from_king.0 == opposite(d) && from_slider.0 == opposite(d) {
                // Behind the king: the slider does not see through it.
                if has_bit(back, king) {
                    lemma_sees_back(diagonal, pinner, occupancy, king);
                }
                assert(has_bit(cleared, king));
                assert(along(diagonal, pinner, opposite(d), j) == king);
            }
            let k = from_king.1;
            assert(from_king.0 == d && 0 < k < j);
            if k == i {
                // The pinned piece itself is seen by both directly.
                assert(target == pinned);
                assert(has_bit(attack, pinned) && has_bit(back, pinned));
            }
            assert(target == along(diagonal, king, d, k));
        }
    }
    (d, i, j)
}

/// Whether the slider on `pinner` adds `target` to the pin line of
/// `square`: it pins the piece on `square`, and `target` lies on the line
/// of the pin.
pub open spec fn pin_adds(
    piece: Piece,
    king_xray: Bitboard,
    attack: Bitboard,
    allies: Bitboard,
    blockers: Bitboard,
    occupancy: Bitboard,
    pinner: int,
    square: int,
    target: int,
) -> bool {
    let pinned = pinned_by(piece, attack, blockers, occupancy, pinner);
    pinned != 0 && lsb(pinned) == square && has_bit(
        pin_ray(piece, king_xray, attack, allies, occupancy, pinner),
        target,
    )
}

/// The pin line of a square after the pinners are looked at: what it held
/// before, and what each pinner of the piece on the square adds.
pub proof fn lemma_slider_pins_members(
    pins: Seq<Bitboard>,
    piece: Piece,
    king_xray: Bitboard,
    attack: Bitboard,
    allies: Bitboard,
    blockers: Bitboard,
    occupancy: Bitboard,
    pinners: Bitboard,
    from: int,
    square: int,
    target: int,
)
    requires
        0 <= from,
        pins.len() == 64,
        0 <= square < 64,
    ensures
        slider_pins(pins, piece, king_xray, attack, allies, blockers, occupancy, pinners, from).len()
            == 64,
        has_bit(
            slider_pins(
                pins,
                piece,
                king_xray,
                attack,
                allies,
                blockers,
                occupancy,
                pinners,
                from,
            )[square],
            target,
        ) == (has_bit(pins[square], target) || exists|pinner: int|
            from <= pinner < 64 && has_bit(pinners, pinner) && #[trigger] pin_adds(
                piece,
                king_xray,
                attack,
                allies,
                blockers,
                occupancy,
                pinner,
                square,
                target,
            )),
    decreases 64 - from,
{
    broadcast use group_has_bit;

    if from < 64 {
        if has_bit(pinners, from) {
            let pinned = pinned_by(piece, attack, blockers, occupancy, from);
            let line = pin_ray(piece, king_xray, attack, allies, occupancy, from);
            if pinned != 0 {
                lemma_lsb(pinned);
            }
            let next = if pinned != 0 {
                pins.update(lsb(pinned), pins[lsb(pinned)] | line)
            } else {
                pins
            };
            lemma_slider_pins_members(
                next,
                piece,
                king_xray,
                attack,
                allies,
                blockers,
                occupancy,
                pinners,
                from + 1,
                square,
                target,
            );
            if has_bit(next[square], target) && !has_bit(pins[square], target) {
                assert(pin_adds(
                    piece,
                    king_xray,
                    attack,
                    allies,
                    blockers,
                    occupancy,
                    from,
                    square,
                    target,
                ));
            }
        } else {
            lemma_slider_pins_members(
                pins,
                piece,
                king_xray,
                attack,
                allies,
                blockers,
                occupancy,
                pinners,
                from + 1,
                square,
                target,
            );
        }
    }
}

proof fn lemma_slider_checks_pins(
    state: CheckState,
    piece: Piece,
    attack: Bitboard,
    occupancy: Bitboard,
    attackers: Bitboard,
    from: int,
)
    ensures
        slider_checks(state, piece, attack, occupancy, attackers, from).pin_rays == state.pin_rays,
    decreases 64 - from,
{
    if !(from < 0 || from >= 64 || state.double_check) {
        if has_bit(attackers, from) {
            lemma_slider_checks_pins(
                note_check(state, (attack & slider_attacks(piece, from, occupancy)) | bit(from)),
                piece,
                attack,
                occupancy,
                attackers,
                from + 1,
            );
        } else {
            lemma_slider_checks_pins(state, piece, attack, occupancy, attackers, from + 1);
        }
    }
}

proof fn lemma_leaper_scan_pins(
    state: CheckState,
    piece: Piece,
    color: Color,
    king: Bitboard,
    attackers: Bitboard,
    from: int,
)
    ensures
        leaper_scan(state, piece, color, king, attackers, from).pin_rays == state.pin_rays,
    decreases 64 - from,
{
    if !(from < 0 || from >= 64) {
        if has_bit(attackers, from) {
            let mask = super::extra::leaper_attacks(piece, color, from);
            let seen = CheckState { attacked: state.attacked | mask, ..state };
            if king != 0 && mask & king == king {
                lemma_leaper_scan_pins(
                    note_check(seen, bit(from)),
                    piece,
                    color,
                    king,
                    attackers,
                    from + 1,
                );
            } else {
                lemma_leaper_scan_pins(seen, piece, color, king, attackers, from + 1);
            }
        } else {
            lemma_leaper_scan_pins(state, piece, color, king, attackers, from + 1);
        }
    }
}

/// The enemy queens and pieces of the kind that moves along the lines
/// looked at.
pub open spec fn line_attackers(position: Position, diagonal: bool) -> Bitboard {
    position.bitboard(Piece::Queen, position.color.opposite()) | position.bitboard(
        line_piece(diagonal),
        position.color.opposite(),
    )
}

/// Whether, along straight lines or along diagonals, the slider on
/// `pinner` pins the piece on `square` of the side to move and puts
/// `target` on the line of its pin.
pub open spec fn pins_along(
    position: Position,
    diagonal: bool,
    pinner: int,
    square: int,
    target: int,
) -> bool {
    let king = lsb(position.bitboard(Piece::King, position.color));
    let occupancy = position.occupancy();
    let allies = position.allies(position.color);
    &&& has_bit(
        behind_guards(diagonal, king, occupancy, allies) & line_attackers(position, diagonal),
        pinner,
    )
    &&& pin_adds(
        line_piece(diagonal),
        behind_guards(diagonal, king, occupancy, allies),
        king_view(diagonal, king, occupancy),
        allies,
        guards(diagonal, king, occupancy, allies),
        occupancy,
        pinner,
        square,
        target,
    )
}

#[verifier::rlimit(40)]
proof fn lemma_pins_checks_members(
    state: CheckState,
    position: Position,
    diagonal: bool,
    square: int,
    target: int,
)
    requires
        state.pin_rays.len() == 64,
        0 <= square < 64,
    ensures
        pins_checks(state, position, line_piece(diagonal)).pin_rays.len() == 64,
        has_bit(pins_checks(state, position, line_piece(diagonal)).pin_rays[square], target) == (
        has_bit(state.pin_rays[square], target) || (position.bitboard(
            Piece::King,
            position.color,
        ) != 0 && exists|pinner: int|
            0 <= pinner < 64 && #[trigger] pins_along(
                position,
                diagonal,
                pinner,
                square,
                target,
            ))),
{
    broadcast use group_has_bit;

    let piece = line_piece(diagonal);
    let color = position.color;
    let king = position.bitboard(Piece::King, color);
    if king != 0 {
        let occupancy = position.occupancy();
        let allies = position.allies(color);
        let attackers = line_attackers(position, diagonal);
        let attack = slider_attacks(piece, lsb(king), occupancy);
        lemma_slider_checks_pins(state, piece, attack, occupancy, attack & attackers, 0);
        let blockers = allies & attack;
        let king_xray = attack ^ slider_attacks(piece, lsb(king), occupancy ^ blockers);
        let pinners = king_xray & attackers;
        lemma_slider_pins_members(
            state.pin_rays,
            piece,
            king_xray,
            attack,
            allies,
            blockers,
            occupancy,
            pinners,
            0,
            square,
            target,
        );
        if !(blockers > 0) {
            assert(blockers == 0);
            assert(occupancy ^ blockers == occupancy) by {
                lemma_same_members(occupancy ^ blockers, occupancy);
            }
            assert(king_xray == 0) by {
                lemma_same_members(king_xray, 0);
            }
            assert forall|pinner: int| !has_bit(pinners, pinner) by {}
        }
        if exists|pinner: int|
            0 <= pinner < 64 && #[trigger] pins_along(position, diagonal, pinner, square, target) {
            let pinner = choose|pinner: int|
                0 <= pinner < 64 && #[trigger] pins_along(
                    position,
                    diagonal,
                    pinner,
                    square,
                    target,
                );
            assert(has_bit(pinners, pinner) && pin_adds(
                piece,
                king_xray,
                attack,
                allies,
                blockers,
                occupancy,
                pinner,
                square,
                target,
            ));
        }
        if exists|pinner: int|
            0 <= pinner < 64 && has_bit(pinners, pinner) && #[trigger] pin_adds(
                piece,
                king_xray,
                attack,
                allies,
                blockers,
                occupancy,
                pinner,
                square,
                target,
            ) {
            let pinner = choose|pinner: int|
                0 <= pinner < 64 && has_bit(pinners, pinner) && #[trigger] pin_adds(
                    piece,
                    king_xray,
                    attack,
                    allies,
                    blockers,
                    occupancy,
                    pinner,
                    square,
                    target,
                );
            assert(pins_along(position, diagonal, pinner, square, target));
        }
    }
}

/// The pin lines of a position: a square lies on the pin line of a piece
/// exactly when a slider pins the piece, along a straight line or along a
/// diagonal, and puts the square on the line of its pin.
#[verifier::rlimit(40)]
pub proof fn lemma_pin_rays_members(position: Position, square: int, target: int)
    requires
        0 <= square < 64,
    ensures
        check_state(position).pin_rays.len() == 64,
        has_bit(check_state(position).pin_rays[square], target) == (position.bitboard(
            Piece::King,
            position.color,
        ) != 0 && exists|diagonal: bool, pinner: int|
            0 <= pinner < 64 && #[trigger] pins_along(
                position,
                diagonal,
                pinner,
                square,
                target,
            )),
{
    broadcast use group_has_bit;

    let color = position.color;
    let other = color.opposite();
    let king = position.bitboard(Piece::King, color);
    let enemy_king = position.bitboard(Piece::King, other);
    lemma_pins_checks_members(clear_state(), position, false, square, target);
    let straight = pins_checks(clear_state(), position, Piece::Rook);
    lemma_pins_checks_members(straight, position, true, square, target);
    let lined = pins_checks(straight, position, Piece::Bishop);
    lemma_leaper_scan_pins(lined, Piece::King, other, king, enemy_king, 0);
    let crowned = leaper_scan(lined, Piece::King, other, king, enemy_king, 0);
    let pawns = position.bitboard(Piece::Pawn, other);
    let knights = position.bitboard(Piece::Knight, other);
    lemma_leaper_scan_pins(crowned, Piece::Pawn, other, king, pawns, 0);
    let pawned = leaper_scan(crowned, Piece::Pawn, other, king, pawns, 0);
    lemma_leaper_scan_pins(pawned, Piece::Knight, other, king, knights, 0);
    assert(check_state(position).pin_rays == lined.pin_rays);
    if king != 0 {
        if exists|diagonal: bool, pinner: int|
            0 <= pinner < 64 && #[trigger] pins_along(position, diagonal, pinner, square, target) {
            let (diagonal, pinner) = choose|diagonal: bool, pinner: int|
                0 <= pinner < 64 && #[trigger] pins_along(
                    position,
                    diagonal,
                    pinner,
                    square,
                    target,
                );
            assert(pins_along(position, diagonal, pinner, square, target));
        }
        if exists|pinner: int|
            0 <= pinner < 64 && #[trigger] pins_along(position, false, pinner, square, target) {
            let pinner = choose|pinner: int|
                0 <= pinner < 64 && #[trigger] pins_along(position, false, pinner, square, target);
            assert(pins_along(position, false, pinner, square, target));
        }
        if exists|pinner: int|
            0 <= pinner < 64 && #[trigger] pins_along(position, true, pinner, square, target) {
            let pinner = choose|pinner: int|
                0 <= pinner < 64 && #[trigger] pins_along(position, true, pinner, square, target);
            assert(pins_along(position, true, pinner, square, target));
        }
    }
}

/// Whether the piece of `side` on `from`, if there is one, attacks
/// `target` as the pieces stand.
pub open spec fn strikes(position: Position, side: Color, from: int, target: int) -> bool {
    let occupancy = position.occupancy();
    ||| position.has(0, side, from) && has_bit(king_attacks(from), target)
    ||| position.has(1, side, from) && has_bit(pawn_attacks(side, from), target)
    ||| position.has(2, side, from) && has_bit(knight_attacks(from), target)
    ||| (position.has(4, side, from) || position.has(5, side, from)) && has_bit(
        rook_attacks(from, occupancy),
        target,
    )
    ||| (position.has(3, side, from) || position.has(5, side, from)) && has_bit(
        bishop_attacks(from, occupancy),
        target,
    )
}

/// Whether a piece of `side` attacks `target` as the pieces stand.
pub open spec fn attacked_by(position: Position, side: Color, target: int) -> bool {
    exists|from: int| 0 <= from < 64 && #[trigger] strikes(position, side, from, target)
}

/// What is occupied after a move that is neither castling nor an
/// en-passant capture: the target square, and what was occupied before
/// but for the start square. The pieces of the side that did not move stand
/// where they stood, but for one that was captured.
#[verifier::rlimit(40)]
pub proof fn lemma_occupancy_after(position: Position, m: Move, square: int)
    requires
        position.wf(),
        position.admits(m),
        m.move_type() != 1,
        m.move_type() != 4,
        0 <= square < 64,
    ensures
        has_bit(position.make(m).occupancy(), square) == (square == m.target_square() || (square
            != m.start_square() && has_bit(position.occupancy(), square))),
        forall|kind: int|
            0 <= kind < 6 && #[trigger] position.make(m).has(
                kind,
                position.color.opposite(),
                square,
            ) ==> position.has(kind, position.color.opposite(), square) && square
                != m.start_square() && square != m.target_square(),
{
    broadcast use group_has_bit;

    lemma_square_after(position, m, square);
    assert(position.square_ok(square));
    let after = position.make(m);
    let mover = position.color;
    if square != m.target_square() && square != m.start_square() {
        assert forall|side: Color| has_bit(after.colors[side.index()], square) == has_bit(
            position.colors[side.index()],
            square,
        ) by {
            assert(after.has(0, side, square) == position.has(0, side, square));
            assert(after.has(1, side, square) == position.has(1, side, square));
            assert(after.has(2, side, square) == position.has(2, side, square));
            assert(after.has(3, side, square) == position.has(3, side, square));
            assert(after.has(4, side, square) == position.has(4, side, square));
            assert(after.has(5, side, square) == position.has(5, side, square));
        }
        assert(has_bit(after.colors[0], square) == has_bit(position.colors[0], square)) by {
            assert(Color::White.index() == 0);
        }
        assert(has_bit(after.colors[1], square) == has_bit(position.colors[1], square)) by {
            assert(Color::Black.index() == 1);
        }
    }
}

/// A piece that stands alone between its king and an enemy slider has a
/// pin line.
#[verifier::rlimit(40)]
pub proof fn lemma_lone_guard_is_pinned(
    position: Position,
    diagonal: bool,
    direction: int,
    i: int,
    j: int,
)
    requires
        position.wf(),
        position.bitboard(Piece::King, position.color) != 0,
        lone_guard(
            diagonal,
            lsb(position.bitboard(Piece::King, position.color)),
            position.occupancy(),
            position.allies(position.color),
            line_attackers(position, diagonal),
            direction,
            i,
            j,
        ),
    ensures
        0 <= along(
            diagonal,
            lsb(position.bitboard(Piece::King, position.color)),
            direction,
            i,
        ) < 64,
        check_state(position).pin_rays[along(
            diagonal,
            lsb(position.bitboard(Piece::King, position.color)),
            direction,
            i,
        )] != 0,
{
    broadcast use group_has_bit;

    let kings = position.bitboard(Piece::King, position.color);
    lemma_lsb(kings);
    let king = lsb(kings);
    let occupancy = position.occupancy();
    let allies = position.allies(position.color);
    let attackers = line_attackers(position, diagonal);
    let guard = along(diagonal, king, direction, i);
    let from = along(diagonal, king, direction, j);
    lemma_along(diagonal, king, direction, j);
    lemma_back(diagonal, king, direction, j, i);
    lemma_along(diagonal, king, direction, i);
    assert(position.square_ok(king));
    assert(pin_setting(king, occupancy, allies, attackers)) by {
        assert forall|x: int| has_bit(attackers, x) implies has_bit(occupancy, x) && !has_bit(
            allies,
            x,
        ) by {
            assert(position.square_ok(x));
        }
    }
    lemma_pin_found(diagonal, king, occupancy, allies, attackers, direction, i, j);
    let piece = line_piece(diagonal);
    let attack = king_view(diagonal, king, occupancy);
    let blockers = guards(diagonal, king, occupancy, allies);
    let pinned = pinned_by(piece, attack, blockers, occupancy, from);
    lemma_member_nonzero(pinned, guard);
    lemma_lsb(pinned);
    let first = lemma_pin_line(diagonal, king, occupancy, allies, attackers, from, lsb(pinned));
    lemma_one_line(diagonal, diagonal, king, direction, j, first.0, first.2);
    assert(lsb(pinned) == guard) by {
        if first.1 != i {
            assert(!has_bit(occupancy, along(diagonal, king, direction, first.1)));
        }
    }
    assert(has_bit(
        pin_ray(
            piece,
            behind_guards(diagonal, king, occupancy, allies),
            attack,
            allies,
            occupancy,
            from,
        ),
        from,
    ));
    assert(pins_along(position, diagonal, from, guard, from));
    lemma_pin_rays_members(position, guard, from);
    lemma_member_nonzero(check_state(position).pin_rays[guard], from);
}

/// A line between an enemy slider and the king that was closed before a
/// move is closed after it: a piece that stood alone between the two is
/// pinned, and stays on the line or takes the slider.
#[verifier::rlimit(40)]
pub proof fn lemma_line_stays_closed(position: Position, m: Move, diagonal: bool, from: int)
    requires
        position.wf(),
        position.admits(m),
        keeps_to(check_state(position), position.color, m),
        m.moved_piece() != 0,
        m.move_type() != 1,
        position.bitboard(Piece::King, position.color) != 0,
        has_bit(line_attackers(position, diagonal), from),
        from != m.start_square(),
        from != m.target_square(),
        !sees(
            diagonal,
            from,
            position.occupancy(),
            lsb(position.bitboard(Piece::King, position.color)),
        ),
    ensures
        !sees(
            diagonal,
            from,
            position.make(m).occupancy(),
            lsb(position.bitboard(Piece::King, position.color)),
        ),
{
    broadcast use group_has_bit;

    let color = position.color;
    let kings = position.bitboard(Piece::King, color);
    lemma_lsb(kings);
    let king = lsb(kings);
    let occupancy = position.occupancy();
    let after = position.make(m).occupancy();
    let allies = position.allies(color);
    let attackers = line_attackers(position, diagonal);
    let start = m.start_square();
    let target = m.target_square();
    m.lemma_fields_bounded();
    assert(position.square_ok(king));
    assert(position.square_ok(start));
    assert(position.square_ok(target));
    assert(position.square_ok(from));
    assert(pin_setting(king, occupancy, allies, attackers)) by {
        assert forall|x: int| has_bit(attackers, x) implies has_bit(occupancy, x) && !has_bit(
            allies,
            x,
        ) by {
            assert(position.square_ok(x));
        }
    }
    if sees(diagonal, from, after, king) {
        lemma_sees_back(diagonal, from, after, king);
        let line = lemma_sees_elim(diagonal, king, after, from);
        let d = line.0;
        let j = line.1;
        lemma_along(diagonal, king, d, j);
        // Before the move something stood between the two.
        if forall|k: int| 1 <= k < j ==> !has_bit(occupancy, #[trigger] along(diagonal, king, d, k)) {
            lemma_sees_intro(diagonal, king, occupancy, d, j);
            lemma_sees_back(diagonal, king, occupancy, from);
        }
        let i = choose|k: int| 1 <= k < j && has_bit(occupancy, #[trigger] along(diagonal, king, d, k));
        lemma_back(diagonal, king, d, j, i);
        lemma_along(diagonal, king, d, i);
        lemma_occupancy_after(position, m, along(diagonal, king, d, i));
        assert(!has_bit(after, along(diagonal, king, d, i)));
        assert(along(diagonal, king, d, i) == start);
        assert forall|k: int| 0 < k < j && k != i implies !has_bit(
            occupancy,
            #[trigger] along(diagonal, king, d, k),
        ) by {
            lemma_back(diagonal, king, d, j, k);
            lemma_along(diagonal, king, d, k);
            lemma_occupancy_after(position, m, along(diagonal, king, d, k));
            assert(!has_bit(after, along(diagonal, king, d, k)));
            if along(diagonal, king, d, k) == start {
                lemma_one_line(diagonal, diagonal, king, d, k, d, i);
            }
        }
        assert(lone_guard(diagonal, king, occupancy, allies, attackers, d, i, j));
        // The piece is pinned by the slider.
        lemma_pin_found(diagonal, king, occupancy, allies, attackers, d, i, j);
        let piece = line_piece(diagonal);
        let attack = king_view(diagonal, king, occupancy);
        let blockers = guards(diagonal, king, occupancy, allies);
        let pinned = pinned_by(piece, attack, blockers, occupancy, from);
        lemma_member_nonzero(pinned, start);
        lemma_lsb(pinned);
        let first = lemma_pin_line(diagonal, king, occupancy, allies, attackers, from, lsb(pinned));
        lemma_one_line(diagonal, diagonal, king, d, j, first.0, first.2);
        assert(lsb(pinned) == start) by {
            if first.1 != i {
                assert(!has_bit(occupancy, along(diagonal, king, d, first.1)));
            }
        }
        assert(has_bit(
            pin_ray(
                piece,
                behind_guards(diagonal, king, occupancy, allies),
                attack,
                allies,
                occupancy,
                from,
            ),
            from,
        ));
        assert(pins_along(position, diagonal, from, start, from));
        lemma_pin_rays_members(position, start, from);
        let state = check_state(position);
        lemma_member_nonzero(state.pin_rays[start], from);
        // So the move keeps to the line of a pin.
        assert(has_bit(state.pin_rays[start], target));
        lemma_pin_rays_members(position, start, target);
        let (other, pinner) = choose|other: bool, pinner: int|
            0 <= pinner < 64 && #[trigger] pins_along(position, other, pinner, start, target);
        let other_attackers = line_attackers(position, other);
        assert(pin_setting(king, occupancy, allies, other_attackers)) by {
            assert forall|x: int| has_bit(other_attackers, x) implies has_bit(occupancy, x)
                && !has_bit(allies, x) by {
                assert(position.square_ok(x));
            }
        }
        let other_pinned = pinned_by(
            line_piece(other),
            king_view(other, king, occupancy),
            guards(other, king, occupancy, allies),
            occupancy,
            pinner,
        );
        lemma_lsb(other_pinned);
        let second = lemma_pin_line(
            other,
            king,
            occupancy,
            allies,
            other_attackers,
            pinner,
            start,
        );
        lemma_one_line(other, diagonal, king, second.0, second.1, d, i);
        // The pinner is the slider itself.
        if second.2 < j {
            assert(!has_bit(occupancy, along(diagonal, king, d, second.2)));
        }
        if second.2 > j {
            assert(!has_bit(occupancy, along(diagonal, king, second.0, j)));
        }
        assert(pinner == from);
        let k = choose|k: int|
            0 < k < j && k != i && target == #[trigger] along(diagonal, king, d, k);
        lemma_occupancy_after(position, m, target);
        assert(!has_bit(after, along(diagonal, king, d, k)));
    }
}

/// A move out of a quiet position is safe: where the king of the side to
/// move is not attacked, no move of a piece other than the king, en-passant
/// captures apart, lets a piece of the other side attack that king.
#[verifier::rlimit(40)]
pub proof fn lemma_quiet_moves_keep_the_king_safe(position: Position, i: int)
    requires
        position.wf(),
        0 <= i < all_moves(position).len(),
        all_moves(position)[i].moved_piece() != 0,
        all_moves(position)[i].move_type() != 1,
        position.bitboard(Piece::King, position.color) != 0,
        !attacked_by(
            position,
            position.color.opposite(),
            lsb(position.bitboard(Piece::King, position.color)),
        ),
    ensures
        !attacked_by(
            position.make(all_moves(position)[i]),
            position.color.opposite(),
            lsb(position.bitboard(Piece::King, position.color)),
        ),
{
    broadcast use group_has_bit;

    let m = all_moves(position)[i];
    let color = position.color;
    let other = color.opposite();
    let kings = position.bitboard(Piece::King, color);
    lemma_lsb(kings);
    let king = lsb(kings);
    let after = position.make(m);
    lemma_all_moves_admitted(position);
    lemma_moves_keep_to_check_and_pin(position, i);
    m.lemma_fields_bounded();
    if attacked_by(after, other, king) {
        let from = choose|from: int| 0 <= from < 64 && #[trigger] strikes(after, other, from, king);
        lemma_occupancy_after(position, m, from);
        lemma_square_after(position, m, from);
        assert(position.square_ok(from));
        assert(!strikes(position, other, from, king));
        if (after.has(4, other, from) || after.has(5, other, from)) && has_bit(
            rook_attacks(from, after.occupancy()),
            king,
        ) {
            assert(after.has(4, other, from) ==> position.has(4, other, from));
            assert(after.has(5, other, from) ==> position.has(5, other, from));
            lemma_line_stays_closed(position, m, false, from);
        } else if (after.has(3, other, from) || after.has(5, other, from)) && has_bit(
            bishop_attacks(from, after.occupancy()),
            king,
        ) {
            assert(after.has(3, other, from) ==> position.has(3, other, from));
            assert(after.has(5, other, from) ==> position.has(5, other, from));
            lemma_line_stays_closed(position, m, true, from);
        } else {
            assert(after.has(0, other, from) ==> position.has(0, other, from));
            assert(after.has(1, other, from) ==> position.has(1, other, from));
            assert(after.has(2, other, from) ==> position.has(2, other, from));
        }
    }
}

} // verus!
