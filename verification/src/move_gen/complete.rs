//! Nothing is left out of the move list. Every target that is left to a
//! piece gives its moves; every step of the king onto a square on which it
//! is safe, every castling that the rules allow, and every move of another
//! piece that leaves the king safe is a move of the list. En-passant
//! captures are not spoken of: some that the rules allow are left out, as
//! a pinned pawn never captures en passant. The check flags are tied to
//! the pieces that attack the king along the way.

use super::{all_moves, CASTLE_ATTACK, CASTLE_EMPTY, CASTLE_KING_INDEX, castle_moves};
use super::{castle_open, CASTLE_RIGHTS, castle_targets, enpassant_moves, lemma_masks, moves_in};
use super::{pawn_moves, pawn_targets, piece_moves, piece_targets};
use super::attack::{bishop_attacks, is_knight_jump, is_neighbor, is_pawn_capture, king_attacks};
use super::attack::{knight_attacks, pawn_attacks, rook_attacks, slider_attacks, xray};
use super::checks::{checks, covers, leaper_checkers, lemma_flags_count_checks};
use super::checks::{lemma_leaper_checkers, line_checkers};
use super::defs::{is_promotion, Move, move_kind, move_with, moves_for, moves_to};
use super::extra::{check_state, CheckState, clear_state, leaper_attacks, leaper_scan};
use super::extra::{note_check, pin_ray, pinned_by, pins_checks, slider_checks};
use super::legal::{enemy_attacks, fits, lemma_attacked_squares, lemma_move_with_fits};
use super::legal::{lemma_pawn_targets_fit, lemma_piece_targets_fit};
use super::pins::{along, attacked_by, behind_guards, guards, king_view, lemma_along};
use super::pins::{lemma_back, lemma_occupancy_after, lemma_one_line, lemma_pin_line};
use super::pins::{lemma_pin_rays_members, lemma_sees_back, lemma_sees_elim, lemma_sees_intro};
use super::pins::{line_attackers, line_piece, lone_guard, opposite, pin_setting, pins_along};
use super::pins::{sees, strikes, within};
use super::safety::{answers, check_line, is_checker, lemma_check_ray_members};
use super::safety::lemma_checker_strikes;
use super::safety::{lemma_occupancy_after_king, lemma_striker_is_checker};
use super::safety::{lemma_two_strikers_are_a_double_check, one_king_each};
use crate::bitboard::lemma_count_positive;
use crate::bitboard::{bit, Bitboard, count, group_has_bit, has_bit, lemma_counted_member};
use crate::bitboard::{lemma_counted_members, lemma_lsb, lemma_member_nonzero};
use crate::bitboard::{lemma_same_members, lemma_squares_where_member, lsb};
use crate::board::{holds_right, king_landing, lemma_square_after, Position, right_side};
use crate::color::Color;
use crate::piece::Piece;
use vstd::prelude::*;

verus! {

/// A move of a list is a move of the list with more moves behind it.
proof fn lemma_in_front(first: Seq<Move>, second: Seq<Move>, m: Move)
    requires
        first.contains(m),
    ensures
        (first + second).contains(m),
{
    let i = choose|i: int| 0 <= i < first.len() && first[i] == m;
    assert((first + second)[i] == m);
}

/// A move of a list is a move of the list with more moves before it.
proof fn lemma_behind(first: Seq<Move>, second: Seq<Move>, m: Move)
    requires
        second.contains(m),
    ensures
        (first + second).contains(m),
{
    let i = choose|i: int| 0 <= i < second.len() && second[i] == m;
    assert((first + second)[first.len() + i] == m);
}

/// The moves to a target of a set are among the moves to the set.
pub proof fn lemma_target_is_listed(
    position: Position,
    piece: Piece,
    square: int,
    targets: Bitboard,
    from: int,
    target: int,
    m: Move,
)
    requires
        0 <= from <= target < 64,
        has_bit(targets, target),
        moves_for(position, piece, square, target).contains(m),
    ensures
        moves_to(position, piece, square, targets, from).contains(m),
    decreases target - from,
{
    let rest = moves_to(position, piece, square, targets, from + 1);
    let first = moves_for(position, piece, square, from);
    if from == target {
        lemma_in_front(first, rest, m);
    } else {
        lemma_target_is_listed(position, piece, square, targets, from + 1, target, m);
        if has_bit(targets, from) {
            lemma_behind(first, rest, m);
        }
    }
}

/// The moves of a piece on one of the squares are among the moves of the
/// pieces on the squares.
pub proof fn lemma_piece_is_listed(
    state: CheckState,
    position: Position,
    piece: Piece,
    pieces: Bitboard,
    from: int,
    square: int,
    m: Move,
)
    requires
        0 <= from <= square < 64,
        has_bit(pieces, square),
        moves_to(position, piece, square, piece_targets(state, position, piece, square), 0).contains(
            m,
        ),
    ensures
        piece_moves(state, position, piece, pieces, from).contains(m),
    decreases square - from,
{
    let rest = piece_moves(state, position, piece, pieces, from + 1);
    let first = moves_to(position, piece, from, piece_targets(state, position, piece, from), 0);
    if from == square {
        lemma_in_front(first, rest, m);
    } else {
        lemma_piece_is_listed(state, position, piece, pieces, from + 1, square, m);
        if has_bit(pieces, from) {
            lemma_behind(first, rest, m);
        }
    }
}

/// The moves of a pawn on one of the squares are among the moves of the
/// pawns on the squares.
pub proof fn lemma_pawn_is_listed(
    state: CheckState,
    position: Position,
    pawns: Bitboard,
    from: int,
    square: int,
    m: Move,
)
    requires
        0 <= from <= square < 64,
        has_bit(pawns, square),
        moves_to(position, Piece::Pawn, square, pawn_targets(state, position, square), 0).contains(
            m,
        ),
    ensures
        pawn_moves(state, position, pawns, from).contains(m),
    decreases square - from,
{
    let rest = pawn_moves(state, position, pawns, from + 1);
    let first = moves_to(position, Piece::Pawn, from, pawn_targets(state, position, from), 0);
    if from == square {
        lemma_in_front(first, rest, m);
    } else {
        lemma_pawn_is_listed(state, position, pawns, from + 1, square, m);
        if has_bit(pawns, from) {
            lemma_behind(first, rest, m);
        }
    }
}

/// The squares that are left to the piece of the side to move on `square`
/// as targets in a given check and pin state.
pub open spec fn targets_left(
    state: CheckState,
    position: Position,
    piece: Piece,
    square: int,
) -> Bitboard {
    if piece == Piece::Pawn {
        pawn_targets(state, position, square)
    } else {
        piece_targets(state, position, piece, square)
    }
}

/// No target is dropped: for every piece of the side to move and every
/// square that is left to it as a target, the move there is in the list,
/// and for a pawn that reaches its last rank each of the four promotions.
/// In a double check this holds of the king alone, as only its moves are
/// generated then.
pub proof fn lemma_every_target_is_listed(
    position: Position,
    piece: Piece,
    square: int,
    target: int,
    m: Move,
)
    requires
        0 <= square < 64,
        0 <= target < 64,
        has_bit(position.bitboard(piece, position.color), square),
        piece == Piece::King || !check_state(position).double_check,
        has_bit(targets_left(check_state(position), position, piece, square), target),
        moves_for(position, piece, square, target).contains(m),
    ensures
        all_moves(position).contains(m),
{
    let state = check_state(position);
    let color = position.color;
    let own = position.bitboard(piece, color);
    let k = piece_moves(state, position, Piece::King, position.bitboard(Piece::King, color), 0);
    let c = castle_moves(state, position);
    let p = pawn_moves(state, position, position.bitboard(Piece::Pawn, color), 0);
    let e = enpassant_moves(state, position);
    let n = piece_moves(state, position, Piece::Knight, position.bitboard(Piece::Knight, color), 0);
    let b = piece_moves(state, position, Piece::Bishop, position.bitboard(Piece::Bishop, color), 0);
    let r = piece_moves(state, position, Piece::Rook, position.bitboard(Piece::Rook, color), 0);
    let q = piece_moves(state, position, Piece::Queen, position.bitboard(Piece::Queen, color), 0);
    let kings = (Seq::<Move>::empty() + k) + c;
    lemma_target_is_listed(
        position,
        piece,
        square,
        targets_left(state, position, piece, square),
        0,
        target,
        m,
    );
    if piece == Piece::Pawn {
        lemma_pawn_is_listed(state, position, own, 0, square, m);
    } else {
        lemma_piece_is_listed(state, position, piece, own, 0, square, m);
    }
    match piece {
        Piece::King => {
            lemma_behind(Seq::<Move>::empty(), k, m);
            lemma_in_front(Seq::<Move>::empty() + k, c, m);
            if !state.double_check {
                lemma_in_front(kings, p, m);
                lemma_in_front(kings + p, e, m);
                lemma_in_front((kings + p) + e, n, m);
                lemma_in_front(((kings + p) + e) + n, b, m);
                lemma_in_front((((kings + p) + e) + n) + b, r, m);
                lemma_in_front(((((kings + p) + e) + n) + b) + r, q, m);
            }
        },
        Piece::Pawn => {
            lemma_behind(kings, p, m);
            lemma_in_front(kings + p, e, m);
            lemma_in_front((kings + p) + e, n, m);
            lemma_in_front(((kings + p) + e) + n, b, m);
            lemma_in_front((((kings + p) + e) + n) + b, r, m);
            lemma_in_front(((((kings + p) + e) + n) + b) + r, q, m);
        },
        Piece::Knight => {
            lemma_behind((kings + p) + e, n, m);
            lemma_in_front(((kings + p) + e) + n, b, m);
            lemma_in_front((((kings + p) + e) + n) + b, r, m);
            lemma_in_front(((((kings + p) + e) + n) + b) + r, q, m);
        },
        Piece::Bishop => {
            lemma_behind(((kings + p) + e) + n, b, m);
            lemma_in_front((((kings + p) + e) + n) + b, r, m);
            lemma_in_front(((((kings + p) + e) + n) + b) + r, q, m);
        },
        Piece::Rook => {
            lemma_behind((((kings + p) + e) + n) + b, r, m);
            lemma_in_front(((((kings + p) + e) + n) + b) + r, q, m);
        },
        Piece::Queen => {
            lemma_behind(((((kings + p) + e) + n) + b) + r, q, m);
        },
    }
    assert(all_moves(position) == moves_in(state, position));
}

/// An enemy piece that attacks a square with the king lifted off the board
/// attacks the square once the king has stepped onto it: a slider along a
/// line that the king's step does not close.
#[verifier::rlimit(40)]
proof fn lemma_line_stays_open(position: Position, m: Move, diagonal: bool, from: int)
    requires
        position.wf(),
        position.admits(m),
        m.moved_piece() == 0,
        m.move_type() == 0,
        one_king_each(position),
        0 <= from < 64,
        sees(
            diagonal,
            from,
            position.occupancy() & !position.bitboard(Piece::King, position.color),
            m.target_square(),
        ),
    ensures
        sees(diagonal, from, position.make(m).occupancy(), m.target_square()),
{
    broadcast use group_has_bit;

    let kings = position.bitboard(Piece::King, position.color);
    let bare = position.occupancy() & !kings;
    let after = position.make(m).occupancy();
    let target = m.target_square();
    let start = m.start_square();
    m.lemma_fields_bounded();
    lemma_lsb(kings);
    assert(has_bit(kings, start));
    let line = lemma_sees_elim(diagonal, from, bare, target);
    let d = line.0;
    let j = line.1;
    lemma_along(diagonal, from, d, j);
    assert forall|k: int| 1 <= k < j implies !has_bit(
        after,
        #[trigger] along(diagonal, from, d, k),
    ) by {
        let x = along(diagonal, from, d, k);
        assert(within(diagonal, from, d, k));
        lemma_along(diagonal, from, d, k);
        lemma_occupancy_after_king(position, m, x);
        assert(!has_bit(bare, x));
        if x == target {
            lemma_one_line(diagonal, diagonal, from, d, k, d, j);
        }
        if has_bit(kings, x) {
            assert(has_bit(bit(lsb(kings)), x));
            assert(x == start);
        }
    }
    lemma_sees_intro(diagonal, from, after, d, j);
}

/// The king's step from its square to `target`.
pub open spec fn king_step(position: Position, target: int) -> Move {
    move_with(
        position,
        Piece::King,
        lsb(position.bitboard(Piece::King, position.color)),
        target,
        0,
    )
}

/// Whether the king of the side to move may step to `target` as far as
/// the board goes: the square lies next to the king and holds no piece of
/// its side.
pub open spec fn king_reaches(position: Position, target: int) -> bool {
    &&& 0 <= target < 64
    &&& is_neighbor(lsb(position.bitboard(Piece::King, position.color)), target)
    &&& !has_bit(position.allies(position.color), target)
}

/// A square that an enemy piece attacks with the king lifted off the
/// board is attacked once the king has stepped onto it.
#[verifier::rlimit(40)]
proof fn lemma_king_step_is_seen(position: Position, target: int)
    requires
        position.wf(),
        one_king_each(position),
        king_reaches(position, target),
        enemy_attacks(position, target),
    ensures
        attacked_by(position.make(king_step(position, target)), position.color.opposite(), target),
{
    broadcast use group_has_bit;

    let color = position.color;
    let other = color.opposite();
    let kings = position.bitboard(Piece::King, color);
    let start = lsb(kings);
    let m = king_step(position, target);
    let after = position.make(m);
    let bare = position.occupancy() & !kings;
    let queens = position.bitboard(Piece::Queen, other);
    lemma_lsb(kings);
    assert(has_bit(kings, start));
    assert(fits(position, Piece::King, start, target));
    lemma_move_with_fits(position, Piece::King, start, target, 0);
    Move::lemma_packed(0, start, target, move_kind(position, Piece::King, start, target), 0, 0);
    assert(m.start_square() == start && m.target_square() == target && m.move_type() == 0);
    assert(position.square_ok(start));
    assert(Color::White.index() == 0 && Color::Black.index() == 1);
    if exists|from: int|
        has_bit(position.bitboard(Piece::King, other), from) && has_bit(
            #[trigger] king_attacks(from),
            target,
        ) {
        let from = choose|from: int|
            has_bit(position.bitboard(Piece::King, other), from) && has_bit(
                #[trigger] king_attacks(from),
                target,
            );
        lemma_squares_where_member(|t: int| is_neighbor(from, t), target);
        lemma_square_after(position, m, from);
        assert(position.has(0, other, from));
        assert(after.has(0, other, from));
        assert(strikes(after, other, from, target));
    } else if exists|from: int|
        has_bit(position.bitboard(Piece::Pawn, other), from) && has_bit(
            #[trigger] pawn_attacks(other, from),
            target,
        ) {
        let from = choose|from: int|
            has_bit(position.bitboard(Piece::Pawn, other), from) && has_bit(
                #[trigger] pawn_attacks(other, from),
                target,
            );
        lemma_squares_where_member(|t: int| is_pawn_capture(other, from, t), target);
        lemma_square_after(position, m, from);
        assert(position.has(1, other, from));
        assert(after.has(1, other, from));
        assert(strikes(after, other, from, target));
    } else if exists|from: int|
        has_bit(position.bitboard(Piece::Knight, other), from) && has_bit(
            #[trigger] knight_attacks(from),
            target,
        ) {
        let from = choose|from: int|
            has_bit(position.bitboard(Piece::Knight, other), from) && has_bit(
                #[trigger] knight_attacks(from),
                target,
            );
        lemma_squares_where_member(|t: int| is_knight_jump(from, t), target);
        lemma_square_after(position, m, from);
        assert(position.has(2, other, from));
        assert(after.has(2, other, from));
        assert(strikes(after, other, from, target));
    } else if exists|from: int|
        has_bit(queens | position.bitboard(Piece::Rook, other), from) && has_bit(
            #[trigger] rook_attacks(from, bare),
            target,
        ) {
        let from = choose|from: int|
            has_bit(queens | position.bitboard(Piece::Rook, other), from) && has_bit(
                #[trigger] rook_attacks(from, bare),
                target,
            );
        let line = lemma_sees_elim(false, from, bare, target);
        lemma_along(false, from, line.0, line.1);
        lemma_line_stays_open(position, m, false, from);
        lemma_square_after(position, m, from);
        assert(position.has(4, other, from) || position.has(5, other, from));
        assert(after.has(4, other, from) || after.has(5, other, from));
        assert(has_bit(rook_attacks(from, after.occupancy()), target));
        assert(strikes(after, other, from, target));
    } else {
        let from = choose|from: int|
            has_bit(queens | position.bitboard(Piece::Bishop, other), from) && has_bit(
                #[trigger] bishop_attacks(from, bare),
                target,
            );
        let line = lemma_sees_elim(true, from, bare, target);
        lemma_along(true, from, line.0, line.1);
        lemma_line_stays_open(position, m, true, from);
        lemma_square_after(position, m, from);
        assert(position.has(3, other, from) || position.has(5, other, from));
        assert(after.has(3, other, from) || after.has(5, other, from));
        assert(has_bit(bishop_attacks(from, after.occupancy()), target));
        assert(strikes(after, other, from, target));
    }
}

/// No step of the king is left out: in a sound position in which each
/// side has one king, the king's step to a square next to it that holds no
/// piece of its side, and on which no piece of the other side attacks it
/// once it stands there, is a move of the list.
pub proof fn lemma_safe_king_steps_are_listed(position: Position, target: int)
    requires
        position.wf(),
        one_king_each(position),
        king_reaches(position, target),
        !attacked_by(position.make(king_step(position, target)), position.color.opposite(), target),
    ensures
        all_moves(position).contains(king_step(position, target)),
{
    broadcast use group_has_bit;

    let kings = position.bitboard(Piece::King, position.color);
    let start = lsb(kings);
    let m = king_step(position, target);
    lemma_lsb(kings);
    if enemy_attacks(position, target) {
        lemma_king_step_is_seen(position, target);
    }
    lemma_attacked_squares(position, target);
    lemma_squares_where_member(|t: int| is_neighbor(start, t), target);
    assert(has_bit(king_attacks(start), target));
    assert(has_bit(piece_targets(check_state(position), position, Piece::King, start), target));
    assert(moves_for(position, Piece::King, start, target)[0] == m);
    lemma_every_target_is_listed(position, Piece::King, start, target, m);
}

/// Whether `m` is a move of a piece other than the king from `square` to
/// `target` that fits the position and is no en-passant capture.
pub open spec fn plain_move(
    position: Position,
    piece: Piece,
    square: int,
    target: int,
    m: Move,
) -> bool {
    &&& piece != Piece::King
    &&& fits(position, piece, square, target)
    &&& moves_for(position, piece, square, target).contains(m)
    &&& m.move_type() != 1
}

/// What a plain move holds: it is admitted, and it goes from its square to
/// its target as the move of its piece.
proof fn lemma_plain_move(position: Position, piece: Piece, square: int, target: int, m: Move)
    requires
        position.wf(),
        plain_move(position, piece, square, target, m),
    ensures
        position.admits(m),
        m.moved_piece() == piece.index(),
        m.moved_piece() != 0,
        m.start_square() == square,
        m.target_square() == target,
        m.move_type() != 1,
        m.move_type() != 4,
{
    let list = moves_for(position, piece, square, target);
    let i = choose|i: int| 0 <= i < list.len() && list[i] == m;
    let kind = move_kind(position, piece, square, target);
    let promotion = if is_promotion(position, piece, target) {
        5 - i
    } else {
        0
    };
    assert(m == move_with(position, piece, square, target, promotion));
    lemma_move_with_fits(position, piece, square, target, promotion);
    Move::lemma_packed(piece.index(), square, target, kind, promotion, 0);
}

/// An enemy slider on a line from the king attacks the king once a piece
/// other than the king has moved, if the move neither takes the slider
/// nor ends between the two, and no square between them holds a piece but
/// the one that moved away.
#[verifier::rlimit(40)]
proof fn lemma_slider_strikes_after(
    position: Position,
    m: Move,
    diagonal: bool,
    direction: int,
    j: int,
)
    requires
        position.wf(),
        one_king_each(position),
        position.admits(m),
        m.moved_piece() != 0,
        m.move_type() != 1,
        m.move_type() != 4,
        within(
            diagonal,
            lsb(position.bitboard(Piece::King, position.color)),
            direction,
            j,
        ),
        has_bit(
            line_attackers(position, diagonal),
            along(diagonal, lsb(position.bitboard(Piece::King, position.color)), direction, j),
        ),
        along(diagonal, lsb(position.bitboard(Piece::King, position.color)), direction, j)
            != m.target_square(),
        forall|k: int|
            0 < k < j ==> #[trigger] along(
                diagonal,
                lsb(position.bitboard(Piece::King, position.color)),
                direction,
                k,
            ) != m.target_square() && (along(
                diagonal,
                lsb(position.bitboard(Piece::King, position.color)),
                direction,
                k,
            ) == m.start_square() || !has_bit(
                position.occupancy(),
                along(diagonal, lsb(position.bitboard(Piece::King, position.color)), direction, k),
            )),
    ensures
        attacked_by(
            position.make(m),
            position.color.opposite(),
            lsb(position.bitboard(Piece::King, position.color)),
        ),
{
    broadcast use group_has_bit;

    let color = position.color;
    let other = color.opposite();
    let kings = position.bitboard(Piece::King, color);
    lemma_lsb(kings);
    let king = lsb(kings);
    let after = position.make(m);
    let slider = along(diagonal, king, direction, j);
    m.lemma_fields_bounded();
    lemma_along(diagonal, king, direction, j);
    assert forall|k: int| 1 <= k < j implies !has_bit(
        after.occupancy(),
        #[trigger] along(diagonal, king, direction, k),
    ) by {
        let x = along(diagonal, king, direction, k);
        assert(within(diagonal, king, direction, k));
        lemma_along(diagonal, king, direction, k);
        lemma_occupancy_after(position, m, x);
    }
    lemma_sees_intro(diagonal, king, after.occupancy(), direction, j);
    lemma_sees_back(diagonal, king, after.occupancy(), slider);
    lemma_square_after(position, m, slider);
    assert(position.square_ok(slider));
    assert(position.square_ok(m.start_square()));
    assert(Color::White.index() == 0 && Color::Black.index() == 1);
    assert(slider != m.start_square());
    if diagonal {
        assert(position.has(3, other, slider) || position.has(5, other, slider));
        assert(after.has(3, other, slider) || after.has(5, other, slider));
        assert(has_bit(bishop_attacks(slider, after.occupancy()), king));
    } else {
        assert(position.has(4, other, slider) || position.has(5, other, slider));
        assert(after.has(4, other, slider) || after.has(5, other, slider));
        assert(has_bit(rook_attacks(slider, after.occupancy()), king));
    }
    assert(strikes(after, other, slider, king));
}

/// The line of a pin holds every square between the king and the slider
/// but that of the pinned piece.
#[verifier::rlimit(40)]
proof fn lemma_pin_ray_holds(
    diagonal: bool,
    king: int,
    occupancy: Bitboard,
    allies: Bitboard,
    attackers: Bitboard,
    direction: int,
    i: int,
    j: int,
    k: int,
)
    requires
        pin_setting(king, occupancy, allies, attackers),
        lone_guard(diagonal, king, occupancy, allies, attackers, direction, i, j),
        0 < k < j,
        k != i,
    ensures
        has_bit(
            pin_ray(
                line_piece(diagonal),
                behind_guards(diagonal, king, occupancy, allies),
                king_view(diagonal, king, occupancy),
                allies,
                occupancy,
                along(diagonal, king, direction, j),
            ),
            along(diagonal, king, direction, k),
        ),
{
    broadcast use group_has_bit;

    let piece = line_piece(diagonal);
    let pinner = along(diagonal, king, direction, j);
    let pinned = along(diagonal, king, direction, i);
    let x = along(diagonal, king, direction, k);
    let back = opposite(direction);
    let attack = king_view(diagonal, king, occupancy);
    let blockers = guards(diagonal, king, occupancy, allies);
    let bare = occupancy ^ blockers;
    let view = slider_attacks(piece, pinner, occupancy);
    lemma_along(diagonal, king, direction, j);
    lemma_back(diagonal, king, direction, j, i);
    lemma_back(diagonal, king, direction, j, k);
    lemma_back(diagonal, king, direction, j, 0);
    lemma_along(diagonal, king, direction, i);
    lemma_along(diagonal, king, direction, k);
    // The king and the slider both see the pinned piece.
    lemma_sees_intro(diagonal, king, occupancy, direction, i);
    assert forall|l: int| 1 <= l < j - i implies !has_bit(
        occupancy,
        #[trigger] along(diagonal, pinner, back, l),
    ) by {
        lemma_back(diagonal, king, direction, j, j - l);
        assert(!has_bit(occupancy, along(diagonal, king, direction, j - l)));
    }
    lemma_sees_intro(diagonal, pinner, occupancy, back, j - i);
    assert(has_bit(blockers, pinned));
    let hit = allies & view;
    assert(has_bit(hit, pinned));
    lemma_member_nonzero(hit, pinned);
    let cleared = occupancy ^ hit;
    let beyond = slider_attacks(piece, pinner, cleared);
    assert(xray(piece, pinner, allies, occupancy) == (view ^ beyond, view));
    if k < i {
        // Seen by the king, and by the slider behind the pinned piece.
        lemma_sees_intro(diagonal, king, occupancy, direction, k);
        assert forall|l: int| 1 <= l < j - k implies !has_bit(
            cleared,
            #[trigger] along(diagonal, pinner, back, l),
        ) by {
            lemma_back(diagonal, king, direction, j, j - l);
            assert(!has_bit(occupancy, along(diagonal, king, direction, j - l)) || j - l == i);
        }
        lemma_sees_intro(diagonal, pinner, cleared, back, j - k);
        assert(has_bit(beyond, x));
        if has_bit(view, x) {
            let seen = lemma_sees_elim(diagonal, pinner, occupancy, x);
            lemma_one_line(diagonal, diagonal, pinner, back, j - k, seen.0, seen.1);
            assert(!has_bit(occupancy, along(diagonal, pinner, back, j - i)));
        }
    } else {
        // Seen by the slider, and by the king behind the pinned piece.
        assert forall|l: int| 1 <= l < j - k implies !has_bit(
            occupancy,
            #[trigger] along(diagonal, pinner, back, l),
        ) by {
            lemma_back(diagonal, king, direction, j, j - l);
            assert(!has_bit(occupancy, along(diagonal, king, direction, j - l)));
        }
        lemma_sees_intro(diagonal, pinner, occupancy, back, j - k);
        assert(has_bit(view, x));
        assert forall|l: int| 1 <= l < k implies !has_bit(
            bare,
            #[trigger] along(diagonal, king, direction, l),
        ) by {
            assert(!has_bit(occupancy, along(diagonal, king, direction, l)) || l == i);
        }
        lemma_sees_intro(diagonal, king, bare, direction, k);
        if has_bit(attack, x) {
            let seen = lemma_sees_elim(diagonal, king, occupancy, x);
            lemma_one_line(diagonal, diagonal, king, direction, k, seen.0, seen.1);
            assert(!has_bit(occupancy, along(diagonal, king, direction, i)));
        }
    }
}

/// A pinned piece that leaves the line of its pin uncovers its king: once
/// it has moved, the slider that pinned it attacks the king.
#[verifier::rlimit(40)]
pub proof fn lemma_leaving_the_pin_line_uncovers(
    position: Position,
    piece: Piece,
    square: int,
    target: int,
    m: Move,
)
    requires
        position.wf(),
        one_king_each(position),
        plain_move(position, piece, square, target, m),
        check_state(position).pin_rays[square] != 0,
        !has_bit(check_state(position).pin_rays[square], target),
    ensures
        attacked_by(
            position.make(m),
            position.color.opposite(),
            lsb(position.bitboard(Piece::King, position.color)),
        ),
{
    broadcast use group_has_bit;

    let color = position.color;
    let kings = position.bitboard(Piece::King, color);
    lemma_lsb(kings);
    let king = lsb(kings);
    let occupancy = position.occupancy();
    let allies = position.allies(color);
    lemma_plain_move(position, piece, square, target, m);
    let rays = check_state(position).pin_rays[square];
    lemma_lsb(rays);
    let known = lsb(rays);
    lemma_pin_rays_members(position, square, known);
    let (diagonal, pinner) = choose|diagonal: bool, pinner: int|
        0 <= pinner < 64 && #[trigger] pins_along(position, diagonal, pinner, square, known);
    let attackers = line_attackers(position, diagonal);
    assert(position.square_ok(king));
    assert(pin_setting(king, occupancy, allies, attackers)) by {
        assert forall|x: int| has_bit(attackers, x) implies has_bit(occupancy, x) && !has_bit(
            allies,
            x,
        ) by {
            assert(position.square_ok(x));
        }
    }
    let line = line_piece(diagonal);
    let pinned = pinned_by(
        line,
        king_view(diagonal, king, occupancy),
        guards(diagonal, king, occupancy, allies),
        occupancy,
        pinner,
    );
    lemma_lsb(pinned);
    let found = lemma_pin_line(diagonal, king, occupancy, allies, attackers, pinner, square);
    let direction = found.0;
    let i = found.1;
    let j = found.2;
    let ray = pin_ray(
        line,
        behind_guards(diagonal, king, occupancy, allies),
        king_view(diagonal, king, occupancy),
        allies,
        occupancy,
        pinner,
    );
    if target == pinner {
        assert(has_bit(ray, pinner));
        assert(pins_along(position, diagonal, pinner, square, target));
        lemma_pin_rays_members(position, square, target);
    }
    assert forall|k: int| 0 < k < j implies #[trigger] along(diagonal, king, direction, k)
        != target && (along(diagonal, king, direction, k) == square || !has_bit(
        occupancy,
        along(diagonal, king, direction, k),
    )) by {
        if k != i && along(diagonal, king, direction, k) == target {
            lemma_pin_ray_holds(diagonal, king, occupancy, allies, attackers, direction, i, j, k);
            assert(has_bit(ray, target));
            assert(pins_along(position, diagonal, pinner, square, target));
            lemma_pin_rays_members(position, square, target);
        }
    }
    lemma_slider_strikes_after(position, m, diagonal, direction, j);
}

/// What counting sliders as checks keeps and adds: a check stays a check,
/// the check ray keeps its squares, and unless a double check is found,
/// the ray of every slider that is looked at is on it.
proof fn lemma_slider_checks_hold(
    state: CheckState,
    piece: Piece,
    attack: Bitboard,
    occupancy: Bitboard,
    attackers: Bitboard,
    from: int,
    checker: int,
    target: int,
)
    requires
        0 <= from,
        state.double_check ==> state.check,
    ensures
        ({
            let result = slider_checks(state, piece, attack, occupancy, attackers, from);
            &&& (result.double_check ==> result.check)
            &&& (state.check ==> result.check)
            &&& (state.double_check ==> result.double_check)
            &&& (has_bit(state.check_ray, target) ==> has_bit(result.check_ray, target))
            &&& (!result.double_check && from <= checker < 64 && has_bit(attackers, checker)
                && has_bit(
                (attack & slider_attacks(piece, checker, occupancy)) | bit(checker),
                target,
            ) ==> has_bit(result.check_ray, target))
        }),
    decreases 64 - from,
{
    broadcast use group_has_bit;

    if !(from >= 64 || state.double_check) {
        if has_bit(attackers, from) {
            let ray = (attack & slider_attacks(piece, from, occupancy)) | bit(from);
            lemma_slider_checks_hold(
                note_check(state, ray),
                piece,
                attack,
                occupancy,
                attackers,
                from + 1,
                checker,
                target,
            );
        } else {
            lemma_slider_checks_hold(
                state,
                piece,
                attack,
                occupancy,
                attackers,
                from + 1,
                checker,
                target,
            );
        }
    }
}

/// What a scan of kings, pawns or knights keeps and adds: a check stays a
/// check, the check ray keeps its squares, and the square of every piece
/// that attacks the king is on it.
proof fn lemma_leaper_scan_hold(
    state: CheckState,
    piece: Piece,
    color: Color,
    king: Bitboard,
    attackers: Bitboard,
    from: int,
    checker: int,
    target: int,
)
    requires
        0 <= from,
        state.double_check ==> state.check,
    ensures
        ({
            let result = leaper_scan(state, piece, color, king, attackers, from);
            &&& (result.double_check ==> result.check)
            &&& (state.check ==> result.check)
            &&& (state.double_check ==> result.double_check)
            &&& (has_bit(state.check_ray, target) ==> has_bit(result.check_ray, target))
            &&& (from <= checker < 64 && has_bit(attackers, checker) && covers(
                piece,
                color,
                king,
                checker,
            ) ==> has_bit(result.check_ray, checker))
        }),
    decreases 64 - from,
{
    broadcast use group_has_bit;

    if from < 64 {
        if has_bit(attackers, from) {
            let mask = leaper_attacks(piece, color, from);
            let seen = CheckState { attacked: state.attacked | mask, ..state };
            if king != 0 && mask & king == king {
                let noted = note_check(seen, bit(from));
                lemma_leaper_scan_hold(noted, piece, color, king, attackers, from + 1, checker, target);
                lemma_leaper_scan_hold(noted, piece, color, king, attackers, from + 1, checker, from);
            } else {
                lemma_leaper_scan_hold(seen, piece, color, king, attackers, from + 1, checker, target);
            }
        } else {
            lemma_leaper_scan_hold(state, piece, color, king, attackers, from + 1, checker, target);
        }
    }
}

/// What the search along the lines of one kind keeps and adds: a check
/// stays a check, the check ray keeps its squares, and unless a double
/// check is found, the line of every slider that the king sees is on it.
proof fn lemma_pins_checks_hold(
    state: CheckState,
    position: Position,
    diagonal: bool,
    checker: int,
    target: int,
)
    requires
        state.double_check ==> state.check,
    ensures
        ({
            let result = pins_checks(state, position, line_piece(diagonal));
            &&& (result.double_check ==> result.check)
            &&& (state.check ==> result.check)
            &&& (state.double_check ==> result.double_check)
            &&& (has_bit(state.check_ray, target) ==> has_bit(result.check_ray, target))
            &&& (!result.double_check && 0 <= checker < 64 && has_bit(
                line_checkers(position, line_piece(diagonal)),
                checker,
            ) && has_bit(
                check_line(
                    diagonal,
                    lsb(position.bitboard(Piece::King, position.color)),
                    position.occupancy(),
                    checker,
                ),
                target,
            ) ==> has_bit(result.check_ray, target))
        }),
{
    broadcast use group_has_bit;

    let piece = line_piece(diagonal);
    let king = position.bitboard(Piece::King, position.color);
    if king != 0 {
        let occupancy = position.occupancy();
        let attackers = line_attackers(position, diagonal);
        let attack = slider_attacks(piece, lsb(king), occupancy);
        lemma_slider_checks_hold(
            state,
            piece,
            attack,
            occupancy,
            attack & attackers,
            0,
            checker,
            target,
        );
        if !(attackers > 0) {
            assert(attackers == 0);
            assert(!has_bit(attack & attackers, checker));
        }
    }
}

/// Every square that answers a check is on the check ray: unless the king
/// is in double check, the square of each piece that gives check, and for
/// a slider the squares between it and the king.
#[verifier::rlimit(40)]
pub proof fn lemma_answers_are_on_the_check_ray(position: Position, checker: int, target: int)
    requires
        position.bitboard(Piece::King, position.color) != 0,
        !check_state(position).double_check,
        0 <= checker < 64,
        answers(position, checker, target),
    ensures
        has_bit(check_state(position).check_ray, target),
{
    broadcast use group_has_bit;

    let color = position.color;
    let other = color.opposite();
    let king = position.bitboard(Piece::King, color);
    let enemy_king = position.bitboard(Piece::King, other);
    let pawns = position.bitboard(Piece::Pawn, other);
    let knights = position.bitboard(Piece::Knight, other);
    let straight = pins_checks(clear_state(), position, Piece::Rook);
    let lined = pins_checks(straight, position, Piece::Bishop);
    let crowned = leaper_scan(lined, Piece::King, other, king, enemy_king, 0);
    let pawned = leaper_scan(crowned, Piece::Pawn, other, king, pawns, 0);
    let knighted = leaper_scan(pawned, Piece::Knight, other, king, knights, 0);
    lemma_pins_checks_hold(clear_state(), position, false, checker, target);
    lemma_pins_checks_hold(straight, position, true, checker, target);
    lemma_leaper_scan_hold(lined, Piece::King, other, king, enemy_king, 0, checker, target);
    lemma_leaper_scan_hold(crowned, Piece::Pawn, other, king, pawns, 0, checker, target);
    lemma_leaper_scan_hold(pawned, Piece::Knight, other, king, knights, 0, checker, target);
    assert(check_state(position).check_ray == knighted.check_ray);
    assert(check_state(position).double_check == knighted.double_check);
}

/// The check ray holds the answers to a check, and nothing else: unless
/// the king is in double check, a square is on the ray exactly when it
/// answers the check of some piece, as the square of that piece or, for a
/// slider, as a square between it and the king.
pub proof fn lemma_check_ray_holds_the_answers(position: Position, target: int)
    requires
        position.bitboard(Piece::King, position.color) != 0,
        !check_state(position).double_check,
    ensures
        has_bit(check_state(position).check_ray, target) == exists|checker: int|
            0 <= checker < 64 && #[trigger] answers(position, checker, target),
{
    if has_bit(check_state(position).check_ray, target) {
        lemma_check_ray_members(position, target);
    }
    if exists|checker: int| 0 <= checker < 64 && #[trigger] answers(position, checker, target) {
        let checker = choose|checker: int|
            0 <= checker < 64 && #[trigger] answers(position, checker, target);
        lemma_answers_are_on_the_check_ray(position, checker, target);
    }
}

/// Whether `x` lies between `from` and `to` on a straight line, or on a
/// diagonal.
pub open spec fn between(diagonal: bool, from: int, to: int, x: int) -> bool {
    exists|direction: int, j: int, k: int|
        #![trigger within(diagonal, from, direction, j), along(diagonal, from, direction, k)]
        within(diagonal, from, direction, j) && to == along(diagonal, from, direction, j) && 0 < k
            < j && x == along(diagonal, from, direction, k)
}

/// Whether a piece that moves to `target` stops the check by the piece on
/// `checker`: it takes the piece, or it steps between the king and a
/// slider.
pub open spec fn stops(position: Position, checker: int, target: int) -> bool {
    let king = lsb(position.bitboard(Piece::King, position.color));
    ||| target == checker
    ||| has_bit(line_checkers(position, Piece::Rook), checker) && between(
        false,
        king,
        checker,
        target,
    )
    ||| has_bit(line_checkers(position, Piece::Bishop), checker) && between(
        true,
        king,
        checker,
        target,
    )
}

/// A slider that gives check stands on a line from the king with nothing
/// between the two: the direction and the distance.
proof fn lemma_line_checker(position: Position, diagonal: bool, checker: int) -> (found: (int, int))
    requires
        position.wf(),
        one_king_each(position),
        has_bit(line_checkers(position, line_piece(diagonal)), checker),
    ensures
        0 <= checker < 64,
        within(
            diagonal,
            lsb(position.bitboard(Piece::King, position.color)),
            found.0,
            found.1,
        ),
        checker == along(
            diagonal,
            lsb(position.bitboard(Piece::King, position.color)),
            found.0,
            found.1,
        ),
        forall|k: int|
            0 < k < found.1 ==> !has_bit(
                position.occupancy(),
                #[trigger] along(
                    diagonal,
                    lsb(position.bitboard(Piece::King, position.color)),
                    found.0,
                    k,
                ),
            ),
        has_bit(line_attackers(position, diagonal), checker),
        has_bit(position.occupancy(), checker),
{
    broadcast use group_has_bit;

    let kings = position.bitboard(Piece::King, position.color);
    lemma_lsb(kings);
    let king = lsb(kings);
    assert(sees(diagonal, king, position.occupancy(), checker));
    let found = lemma_sees_elim(diagonal, king, position.occupancy(), checker);
    lemma_along(diagonal, king, found.0, found.1);
    assert(position.square_ok(checker));
    found
}

/// A square between two squares of a line lies on that line.
proof fn lemma_between_is_on_line(
    diagonal: bool,
    from: int,
    to: int,
    x: int,
    direction: int,
    j: int,
) -> (k: int)
    requires
        0 <= from < 64,
        between(diagonal, from, to, x),
        within(diagonal, from, direction, j),
        to == along(diagonal, from, direction, j),
    ensures
        0 < k < j,
        x == along(diagonal, from, direction, k),
{
    let (d, l, k) = choose|d: int, l: int, k: int|
        #![trigger within(diagonal, from, d, l), along(diagonal, from, d, k)]
        within(diagonal, from, d, l) && to == along(diagonal, from, d, l) && 0 < k < l && x
            == along(diagonal, from, d, k);
    lemma_one_line(diagonal, diagonal, from, d, l, direction, j);
    k
}

/// A piece that gives check stands on its square, and it is a piece of
/// one kind.
proof fn lemma_checker_is_there(position: Position, checker: int)
    requires
        position.wf(),
        one_king_each(position),
        0 <= checker < 64,
        is_checker(position, checker),
    ensures
        has_bit(position.occupancy(), checker),
        !(has_bit(line_checkers(position, Piece::Rook), checker) && has_bit(
            line_checkers(position, Piece::Bishop),
            checker,
        )),
        has_bit(line_checkers(position, Piece::Rook), checker) || has_bit(
            line_checkers(position, Piece::Bishop),
            checker,
        ) ==> !has_bit(leaper_checkers(position, Piece::King), checker) && !has_bit(
            leaper_checkers(position, Piece::Pawn),
            checker,
        ) && !has_bit(leaper_checkers(position, Piece::Knight), checker),
        !(has_bit(leaper_checkers(position, Piece::King), checker) && has_bit(
            leaper_checkers(position, Piece::Pawn),
            checker,
        )),
        !(has_bit(leaper_checkers(position, Piece::King), checker) && has_bit(
            leaper_checkers(position, Piece::Knight),
            checker,
        )),
        !(has_bit(leaper_checkers(position, Piece::Pawn), checker) && has_bit(
            leaper_checkers(position, Piece::Knight),
            checker,
        )),
{
    broadcast use group_has_bit;

    let kings = position.bitboard(Piece::King, position.color);
    lemma_lsb(kings);
    let king = lsb(kings);
    assert(position.square_ok(checker));
    lemma_leaper_checkers(position, Piece::King, checker);
    lemma_leaper_checkers(position, Piece::Pawn, checker);
    lemma_leaper_checkers(position, Piece::Knight, checker);
    if has_bit(line_checkers(position, Piece::Rook), checker) && has_bit(
        line_checkers(position, Piece::Bishop),
        checker,
    ) {
        let straight = lemma_line_checker(position, false, checker);
        let slanted = lemma_line_checker(position, true, checker);
        lemma_one_line(false, true, king, straight.0, straight.1, slanted.0, slanted.1);
    }
}

/// Where a move stops a check, its target answers the check.
#[verifier::rlimit(40)]
proof fn lemma_stop_is_answer(position: Position, checker: int, target: int)
    requires
        position.wf(),
        one_king_each(position),
        0 <= checker < 64,
        is_checker(position, checker),
        stops(position, checker, target),
    ensures
        answers(position, checker, target),
{
    broadcast use group_has_bit;

    let kings = position.bitboard(Piece::King, position.color);
    lemma_lsb(kings);
    let king = lsb(kings);
    let occupancy = position.occupancy();
    lemma_leaper_checkers(position, Piece::King, checker);
    lemma_leaper_checkers(position, Piece::Pawn, checker);
    lemma_leaper_checkers(position, Piece::Knight, checker);
    if target != checker {
        let diagonal = !(has_bit(line_checkers(position, Piece::Rook), checker) && between(
            false,
            king,
            checker,
            target,
        ));
        let line = lemma_line_checker(position, diagonal, checker);
        let d = line.0;
        let j = line.1;
        let k = lemma_between_is_on_line(diagonal, king, checker, target, d, j);
        lemma_along(diagonal, king, d, j);
        lemma_sees_intro(diagonal, king, occupancy, d, k);
        lemma_back(diagonal, king, d, j, k);
        assert forall|l: int| 1 <= l < j - k implies !has_bit(
            occupancy,
            #[trigger] along(diagonal, checker, opposite(d), l),
        ) by {
            lemma_back(diagonal, king, d, j, j - l);
            assert(!has_bit(occupancy, along(diagonal, king, d, j - l)));
        }
        lemma_sees_intro(diagonal, checker, occupancy, opposite(d), j - k);
        assert(has_bit(check_line(diagonal, king, occupancy, checker), target));
    }
}

/// A check that a move does not stop stays: once a piece other than the
/// king has moved without taking the piece that gives check or stepping
/// between it and the king, that piece attacks the king.
#[verifier::rlimit(40)]
proof fn lemma_checker_stays(
    position: Position,
    piece: Piece,
    square: int,
    target: int,
    m: Move,
    checker: int,
)
    requires
        position.wf(),
        one_king_each(position),
        plain_move(position, piece, square, target, m),
        0 <= checker < 64,
        is_checker(position, checker),
        !stops(position, checker, target),
    ensures
        attacked_by(
            position.make(m),
            position.color.opposite(),
            lsb(position.bitboard(Piece::King, position.color)),
        ),
{
    broadcast use group_has_bit;

    let color = position.color;
    let other = color.opposite();
    let kings = position.bitboard(Piece::King, color);
    lemma_lsb(kings);
    let king = lsb(kings);
    let after = position.make(m);
    lemma_plain_move(position, piece, square, target, m);
    if has_bit(line_checkers(position, Piece::Rook), checker) || has_bit(
        line_checkers(position, Piece::Bishop),
        checker,
    ) {
        let diagonal = !has_bit(line_checkers(position, Piece::Rook), checker);
        let line = lemma_line_checker(position, diagonal, checker);
        let d = line.0;
        let j = line.1;
        assert forall|k: int| 0 < k < j implies #[trigger] along(diagonal, king, d, k) != target by {
            if along(diagonal, king, d, k) == target {
                assert(within(diagonal, king, d, j) && checker == along(diagonal, king, d, j) && 0
                    < k < j && target == along(diagonal, king, d, k));
                assert(between(diagonal, king, checker, target));
            }
        }
        lemma_slider_strikes_after(position, m, diagonal, d, j);
    } else {
        lemma_leaper_checkers(position, Piece::King, checker);
        lemma_leaper_checkers(position, Piece::Pawn, checker);
        lemma_leaper_checkers(position, Piece::Knight, checker);
        lemma_square_after(position, m, checker);
        assert(position.square_ok(checker));
        assert(position.square_ok(square));
        assert(Color::White.index() == 0 && Color::Black.index() == 1);
        assert(checker != square);
        assert(has_bit(kings, king));
        if has_bit(leaper_checkers(position, Piece::King), checker) {
            assert(position.has(0, other, checker));
            assert(after.has(0, other, checker));
            assert(has_bit(king_attacks(checker) & kings, king));
        } else if has_bit(leaper_checkers(position, Piece::Pawn), checker) {
            assert(position.has(1, other, checker));
            assert(after.has(1, other, checker));
            assert(has_bit(pawn_attacks(other, checker) & kings, king));
        } else {
            assert(position.has(2, other, checker));
            assert(after.has(2, other, checker));
            assert(has_bit(knight_attacks(checker) & kings, king));
        }
        assert(strikes(after, other, checker, king));
    }
}

/// A check that is not answered stays: in a check by one piece, once a
/// piece other than the king has moved to a square off the check ray, the
/// piece that gave check attacks the king.
#[verifier::rlimit(40)]
pub proof fn lemma_unanswered_check_stays(
    position: Position,
    piece: Piece,
    square: int,
    target: int,
    m: Move,
)
    requires
        position.wf(),
        one_king_each(position),
        plain_move(position, piece, square, target, m),
        check_state(position).check,
        !check_state(position).double_check,
        !has_bit(check_state(position).check_ray, target),
    ensures
        attacked_by(
            position.make(m),
            position.color.opposite(),
            lsb(position.bitboard(Piece::King, position.color)),
        ),
{
    lemma_flags_count_checks(position);
    let straight = line_checkers(position, Piece::Rook);
    let slanted = line_checkers(position, Piece::Bishop);
    let kings = leaper_checkers(position, Piece::King);
    let pawns = leaper_checkers(position, Piece::Pawn);
    let knights = leaper_checkers(position, Piece::Knight);
    let set = if count(straight) >= 1 {
        straight
    } else if count(slanted) >= 1 {
        slanted
    } else if count(kings) >= 1 {
        kings
    } else if count(pawns) >= 1 {
        pawns
    } else {
        knights
    };
    let checker = lemma_counted_member(set, 64);
    assert(is_checker(position, checker));
    if stops(position, checker, target) {
        lemma_stop_is_answer(position, checker, target);
        lemma_answers_are_on_the_check_ray(position, checker, target);
    }
    lemma_checker_stays(position, piece, square, target, m, checker);
}

/// One move stops one check at most: two pieces that give check and whose
/// checks are stopped on one square are one piece.
#[verifier::rlimit(40)]
proof fn lemma_one_stop(position: Position, first: int, second: int, target: int)
    requires
        position.wf(),
        one_king_each(position),
        0 <= first < 64,
        0 <= second < 64,
        is_checker(position, first),
        is_checker(position, second),
        stops(position, first, target),
        stops(position, second, target),
    ensures
        first == second,
{
    broadcast use group_has_bit;

    let kings = position.bitboard(Piece::King, position.color);
    lemma_lsb(kings);
    let king = lsb(kings);
    let occupancy = position.occupancy();
    lemma_checker_is_there(position, first);
    lemma_checker_is_there(position, second);
    if first != second {
        if target == first || target == second {
            // The one that is taken would stand between the king and the
            // other.
            let far = if target == first {
                second
            } else {
                first
            };
            let diagonal = !(has_bit(line_checkers(position, Piece::Rook), far) && between(
                false,
                king,
                far,
                target,
            ));
            let line = lemma_line_checker(position, diagonal, far);
            let k = lemma_between_is_on_line(diagonal, king, far, target, line.0, line.1);
            assert(!has_bit(occupancy, along(diagonal, king, line.0, k)));
        } else {
            let here = !(has_bit(line_checkers(position, Piece::Rook), first) && between(
                false,
                king,
                first,
                target,
            ));
            let there = !(has_bit(line_checkers(position, Piece::Rook), second) && between(
                false,
                king,
                second,
                target,
            ));
            let near = lemma_line_checker(position, here, first);
            let far = lemma_line_checker(position, there, second);
            let k = lemma_between_is_on_line(here, king, first, target, near.0, near.1);
            let l = lemma_between_is_on_line(there, king, second, target, far.0, far.1);
            lemma_one_line(here, there, king, near.0, k, far.0, l);
            // Both stand on one line from the king: the nearer one hides
            // the king from the other.
            if near.1 < far.1 {
                assert(!has_bit(occupancy, along(here, king, near.0, near.1)));
            } else if far.1 < near.1 {
                assert(!has_bit(occupancy, along(here, king, near.0, far.1)));
            }
        }
    }
}

/// In a double check two different pieces give check.
#[verifier::rlimit(40)]
proof fn lemma_two_checkers(position: Position) -> (found: (int, int))
    requires
        position.wf(),
        one_king_each(position),
        check_state(position).double_check,
    ensures
        0 <= found.0 < 64,
        0 <= found.1 < 64,
        found.0 != found.1,
        is_checker(position, found.0),
        is_checker(position, found.1),
{
    lemma_flags_count_checks(position);
    let straight = line_checkers(position, Piece::Rook);
    let slanted = line_checkers(position, Piece::Bishop);
    let kings = leaper_checkers(position, Piece::King);
    let pawns = leaper_checkers(position, Piece::Pawn);
    let knights = leaper_checkers(position, Piece::Knight);
    let crowded = if count(straight) >= 2 {
        straight
    } else if count(slanted) >= 2 {
        slanted
    } else if count(kings) >= 2 {
        kings
    } else if count(pawns) >= 2 {
        pawns
    } else {
        knights
    };
    if count(crowded) >= 2 {
        let members = lemma_counted_members(crowded, 64);
        members
    } else {
        let one = if count(straight) >= 1 {
            straight
        } else if count(slanted) >= 1 {
            slanted
        } else if count(kings) >= 1 {
            kings
        } else {
            pawns
        };
        let other = if count(knights) >= 1 {
            knights
        } else if count(pawns) >= 1 {
            pawns
        } else if count(kings) >= 1 {
            kings
        } else {
            slanted
        };
        let first = lemma_counted_member(one, 64);
        let second = lemma_counted_member(other, 64);
        assert(is_checker(position, first));
        assert(is_checker(position, second));
        lemma_checker_is_there(position, first);
        (first, second)
    }
}

/// A double check is answered by the king alone: once a piece other than
/// the king has moved, one of the two pieces that gave check attacks the
/// king.
pub proof fn lemma_double_check_stays(
    position: Position,
    piece: Piece,
    square: int,
    target: int,
    m: Move,
)
    requires
        position.wf(),
        one_king_each(position),
        plain_move(position, piece, square, target, m),
        check_state(position).double_check,
    ensures
        attacked_by(
            position.make(m),
            position.color.opposite(),
            lsb(position.bitboard(Piece::King, position.color)),
        ),
{
    let found = lemma_two_checkers(position);
    if !stops(position, found.0, target) {
        lemma_checker_stays(position, piece, square, target, m, found.0);
    } else {
        if stops(position, found.1, target) {
            lemma_one_stop(position, found.0, found.1, target);
        }
        lemma_checker_stays(position, piece, square, target, m, found.1);
    }
}

/// The squares that the piece of the side to move on `square` may go to
/// as the pieces stand, with no regard to checks and pins: for a pawn, the
/// square ahead if it is empty, the square behind that from its first rank
/// if both are empty, and the squares it attacks that hold an enemy piece;
/// for another piece, the squares it attacks that hold no piece of its
/// side.
pub open spec fn reach(position: Position, piece: Piece, square: int) -> Bitboard {
    targets_left(clear_state(), position, piece, square)
}

/// No move of a piece other than the king is left out: in a sound
/// position in which each side has one king, every move of such a piece to
/// a square that it may go to as the pieces stand, after which no piece of
/// the other side attacks the king, is a move of the list; for a pawn that
/// reaches its last rank, each of the four promotions. En-passant captures
/// are not spoken of.
#[verifier::rlimit(40)]
pub proof fn lemma_safe_moves_are_listed(
    position: Position,
    piece: Piece,
    square: int,
    target: int,
    m: Move,
)
    requires
        position.wf(),
        one_king_each(position),
        piece != Piece::King,
        0 <= square < 64,
        has_bit(position.bitboard(piece, position.color), square),
        has_bit(reach(position, piece, square), target),
        moves_for(position, piece, square, target).contains(m),
        m.move_type() != 1,
        !attacked_by(
            position.make(m),
            position.color.opposite(),
            lsb(position.bitboard(Piece::King, position.color)),
        ),
    ensures
        all_moves(position).contains(m),
{
    broadcast use group_has_bit;

    let state = check_state(position);
    if piece == Piece::Pawn {
        lemma_pawn_targets_fit(clear_state(), position, square, target);
    } else {
        lemma_piece_targets_fit(clear_state(), position, piece, square, target);
    }
    assert(plain_move(position, piece, square, target, m));
    lemma_pin_rays_members(position, square, target);
    if state.double_check {
        lemma_double_check_stays(position, piece, square, target, m);
    }
    if state.check && !has_bit(state.check_ray, target) {
        lemma_unanswered_check_stays(position, piece, square, target, m);
    }
    if state.pin_rays[square] != 0 && !has_bit(state.pin_rays[square], target) {
        lemma_leaving_the_pin_line_uncovers(position, piece, square, target, m);
    }
    assert(clear_state().pin_rays[square] == 0);
    assert(has_bit(targets_left(state, position, piece, square), target));
    lemma_every_target_is_listed(position, piece, square, target, m);
}

/// What the search for castling targets keeps and adds: the targets it
/// starts from, and the king's landing square for every right that is
/// looked at, held and open.
proof fn lemma_castle_targets_hold(
    state: CheckState,
    position: Position,
    rights: Bitboard,
    from: int,
    targets: Bitboard,
    index: int,
    target: int,
)
    requires
        0 <= from,
    ensures
        has_bit(targets, target) ==> has_bit(
            castle_targets(state, position, rights, from, targets),
            target,
        ),
        from <= index < 4 && has_bit(rights, index) && castle_open(state, position, index)
            ==> has_bit(
            castle_targets(state, position, rights, from, targets),
            king_landing(index),
        ),
    decreases 64 - from,
{
    broadcast use group_has_bit;

    if from < 64 {
        if has_bit(rights, from) && castle_open(state, position, from) {
            let more = targets | bit(CASTLE_KING_INDEX[from] as int);
            assert(CASTLE_KING_INDEX[0] == 2 && CASTLE_KING_INDEX[1] == 6 && CASTLE_KING_INDEX[2]
                == 58 && CASTLE_KING_INDEX[3] == 62);
            lemma_castle_targets_hold(state, position, rights, from + 1, more, index, target);
            lemma_castle_targets_hold(
                state,
                position,
                rights,
                from + 1,
                more,
                index,
                king_landing(from),
            );
        } else {
            lemma_castle_targets_hold(state, position, rights, from + 1, targets, index, target);
        }
    }
}

/// Whether the side to move may castle with right `index`: the right is
/// its own and it holds it, the squares between king and rook are empty,
/// the king is not in check, and no piece of the other side attacks the
/// square that the king crosses or the square on which it lands, a slider
/// along a line that is open with the king taken off the board.
pub open spec fn may_castle(position: Position, index: int) -> bool {
    &&& 0 <= index < 4
    &&& right_side(index) == position.color
    &&& holds_right(position.castle_rights, index)
    &&& forall|x: int| #[trigger] has_bit(CASTLE_EMPTY[index], x) ==> position.vacant(x)
    &&& checks(position) == 0
    &&& forall|x: int| #[trigger] has_bit(CASTLE_ATTACK[index], x) ==> !enemy_attacks(position, x)
}

/// Castling is not left out: in a sound position in which each side has
/// one king, the king's move to its landing square is a move of the list
/// for every right with which the side to move may castle.
#[verifier::rlimit(40)]
pub proof fn lemma_castling_is_listed(position: Position, index: int)
    requires
        position.wf(),
        one_king_each(position),
        may_castle(position, index),
    ensures
        all_moves(position).contains(king_step(position, king_landing(index))),
{
    broadcast use group_has_bit;

    let state = check_state(position);
    let color = position.color;
    let kings = position.bitboard(Piece::King, color);
    lemma_lsb(kings);
    let king = lsb(kings);
    let landing = king_landing(index);
    let m = king_step(position, landing);
    let rights = CASTLE_RIGHTS[color.index()] & (position.castle_rights as u64);
    let targets = castle_targets(state, position, rights, 0, 0);
    lemma_flags_count_checks(position);
    lemma_masks(index);
    assert(CASTLE_RIGHTS[0] == 0b0011 && CASTLE_RIGHTS[1] == 0b1100);
    assert(Color::White.index() == 0 && Color::Black.index() == 1);
    assert(has_bit(rights, index));
    assert(castle_open(state, position, index)) by {
        let empty = CASTLE_EMPTY[index];
        let safe = CASTLE_ATTACK[index];
        assert forall|x: int| has_bit(!position.occupancy() & empty, x) == has_bit(empty, x) by {
            if has_bit(empty, x) {
                assert(position.vacant(x));
            }
        }
        lemma_same_members(!position.occupancy() & empty, empty);
        assert forall|x: int| has_bit(safe & !state.attacked, x) == has_bit(safe, x) by {
            if has_bit(safe, x) {
                lemma_attacked_squares(position, x);
            }
        }
        lemma_same_members(safe & !state.attacked, safe);
    }
    lemma_castle_targets_hold(state, position, rights, 0, 0, index, landing);
    lemma_member_nonzero(targets, landing);
    let castles = castle_moves(state, position);
    assert(castles == moves_to(position, Piece::King, king, targets, 0));
    assert(moves_for(position, Piece::King, king, landing)[0] == m);
    lemma_target_is_listed(position, Piece::King, king, targets, 0, landing, m);
    let k = piece_moves(state, position, Piece::King, kings, 0);
    let p = pawn_moves(state, position, position.bitboard(Piece::Pawn, color), 0);
    let e = enpassant_moves(state, position);
    let n = piece_moves(state, position, Piece::Knight, position.bitboard(Piece::Knight, color), 0);
    let b = piece_moves(state, position, Piece::Bishop, position.bitboard(Piece::Bishop, color), 0);
    let r = piece_moves(state, position, Piece::Rook, position.bitboard(Piece::Rook, color), 0);
    let q = piece_moves(state, position, Piece::Queen, position.bitboard(Piece::Queen, color), 0);
    let first = (Seq::<Move>::empty() + k) + castles;
    lemma_behind(Seq::<Move>::empty() + k, castles, m);
    lemma_in_front(first, p, m);
    lemma_in_front(first + p, e, m);
    lemma_in_front((first + p) + e, n, m);
    lemma_in_front(((first + p) + e) + n, b, m);
    lemma_in_front((((first + p) + e) + n) + b, r, m);
    lemma_in_front(((((first + p) + e) + n) + b) + r, q, m);
    assert(all_moves(position) == moves_in(state, position));
}

/// Whether two different pieces of the side not to move attack the king
/// of the side to move.
pub open spec fn two_attack_the_king(position: Position) -> bool {
    let other = position.color.opposite();
    let king = lsb(position.bitboard(Piece::King, position.color));
    exists|first: int, second: int|
        0 <= first < 64 && 0 <= second < 64 && first != second && #[trigger] strikes(
            position,
            other,
            first,
            king,
        ) && #[trigger] strikes(position, other, second, king)
}

/// The check flags say who attacks the king: in a sound position in which
/// each side has one king, the side to move is in check exactly when a
/// piece of the other side attacks its king, and in double check exactly
/// when two different pieces do, of whatever kinds.
#[verifier::rlimit(40)]
pub proof fn lemma_check_flags_are_attackers(position: Position)
    requires
        position.wf(),
        one_king_each(position),
    ensures
        check_state(position).check == attacked_by(
            position,
            position.color.opposite(),
            lsb(position.bitboard(Piece::King, position.color)),
        ),
        check_state(position).double_check == two_attack_the_king(position),
{
    let other = position.color.opposite();
    let king = lsb(position.bitboard(Piece::King, position.color));
    let state = check_state(position);
    lemma_flags_count_checks(position);
    let straight = line_checkers(position, Piece::Rook);
    let slanted = line_checkers(position, Piece::Bishop);
    let kings = leaper_checkers(position, Piece::King);
    let pawns = leaper_checkers(position, Piece::Pawn);
    let knights = leaper_checkers(position, Piece::Knight);
    if state.check {
        let set = if count(straight) >= 1 {
            straight
        } else if count(slanted) >= 1 {
            slanted
        } else if count(kings) >= 1 {
            kings
        } else if count(pawns) >= 1 {
            pawns
        } else {
            knights
        };
        let checker = lemma_counted_member(set, 64);
        assert(is_checker(position, checker));
        assert(stops(position, checker, checker));
        lemma_stop_is_answer(position, checker, checker);
        lemma_checker_strikes(position, checker, checker);
        assert(strikes(position, other, checker, king));
    }
    if attacked_by(position, other, king) {
        let from = choose|from: int| 0 <= from < 64 && #[trigger] strikes(position, other, from, king);
        lemma_striker_is_checker(position, from);
        if has_bit(straight, from) {
            lemma_count_positive(straight, from, 64);
        } else if has_bit(slanted, from) {
            lemma_count_positive(slanted, from, 64);
        } else if has_bit(kings, from) {
            lemma_count_positive(kings, from, 64);
        } else if has_bit(pawns, from) {
            lemma_count_positive(pawns, from, 64);
        } else {
            lemma_count_positive(knights, from, 64);
        }
    }
    if state.double_check {
        let found = lemma_two_checkers(position);
        assert(stops(position, found.0, found.0));
        assert(stops(position, found.1, found.1));
        lemma_stop_is_answer(position, found.0, found.0);
        lemma_stop_is_answer(position, found.1, found.1);
        lemma_checker_strikes(position, found.0, found.0);
        lemma_checker_strikes(position, found.1, found.1);
        assert(strikes(position, other, found.0, king) && strikes(position, other, found.1, king));
    }
    if two_attack_the_king(position) {
        let (first, second) = choose|first: int, second: int|
            0 <= first < 64 && 0 <= second < 64 && first != second && #[trigger] strikes(
                position,
                other,
                first,
                king,
            ) && #[trigger] strikes(position, other, second, king);
        lemma_two_strikers_are_a_double_check(position, first, second);
    }
}

} // verus!
