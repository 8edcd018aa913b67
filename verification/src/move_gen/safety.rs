//! No generated move gives up the king: once a move is played, no piece of
//! the other side attacks the king of the side that moved. This is shown
//! for the king's own moves, for the moves of other pieces with and without
//! a check to answer, and for en-passant captures.

use super::all_moves;
use super::attack::{bishop_attacks, king_attacks, knight_attacks, pawn_attacks, rook_attacks};
use super::attack::slider_attacks;
use super::checks::{checks, leaper_checkers, lemma_flags_count_checks, lemma_leaper_checkers};
use super::checks::line_checkers;
use super::defs::Move;
use super::extra::{check_state, clear_state, leaper_attacks, leaper_scan, note_check};
use super::extra::{pins_checks, slider_checks, CheckState};
use super::legal::{enemy_attacks, lemma_all_moves_admitted};
use super::legal::{lemma_double_check_king_only, lemma_king_never_steps_into_attack};
use super::legal::{lemma_moves_keep_to_check_and_pin, none_castles};
use super::pins::{along, attacked_by, king_view, lemma_along, lemma_back, lemma_crossing};
use super::pins::{lemma_line_stays_closed, lemma_occupancy_after, lemma_one_line};
use super::pins::{lemma_quiet_moves_keep_the_king_safe, lemma_sees_back, lemma_sees_elim};
use super::pins::{lemma_sees_intro, line_attackers, line_piece, opposite, sees, strikes, within};
use super::attack::{is_pawn_capture, xray};
use super::legal::lemma_enpassant_is_offered;
use super::pins::{lemma_lone_guard_is_pinned, lemma_onward};
use super::{enpassant_exposes, enpassant_pawns, enpassant_uncovers, lemma_masks};
use super::PAWN_DOUBLE_PUSH_RANK;
use crate::bitboard::{count, lemma_count_positive, lemma_count_single, lemma_count_two};
use crate::bitboard::lemma_member_nonzero;
use crate::bitboard::lemma_squares_where_member;
use crate::bitboard::{bit, group_has_bit, has_bit, lemma_lsb, lemma_same_members, lsb, Bitboard};
use crate::board::{lemma_square_after, right_index, rook_landing, rook_start};
use crate::board::Position;
use crate::color::Color;
use crate::piece::Piece;
use vstd::prelude::*;

verus! {

/// Whether each side has one king at most, and the side to move has one.
pub open spec fn one_king_each(position: Position) -> bool {
    let own = position.bitboard(Piece::King, position.color);
    let enemy = position.bitboard(Piece::King, position.color.opposite());
    &&& own != 0
    &&& own == bit(lsb(own))
    &&& (enemy == 0 || enemy == bit(lsb(enemy)))
}

/// What is occupied after a king's move: its target square, after castling
/// the landing square of the rook too, and what was occupied before but
/// for the king's start square and, after castling, that of the rook. The
/// pieces of the other side stand where they stood, but for one that was
/// captured.
pub proof fn lemma_occupancy_after_king(position: Position, m: Move, square: int)
    requires
        position.wf(),
        position.admits(m),
        m.moved_piece() == 0,
        0 <= square < 64,
    ensures
        ({
            let castles = m.move_type() == 4;
            let index = right_index(m.castle_right());
            has_bit(position.make(m).occupancy(), square) == (square == m.target_square() || (
            castles && square == rook_landing(index)) || (square != m.start_square() && !(castles
                && square == rook_start(index)) && has_bit(position.occupancy(), square)))
        }),
        forall|kind: int|
            0 <= kind < 6 && #[trigger] position.make(m).has(
                kind,
                position.color.opposite(),
                square,
            ) ==> position.has(kind, position.color.opposite(), square) && square
                != m.start_square() && square != m.target_square(),
{
    broadcast use group_has_bit;

    lemma_square_after(position, m, square);
    assert(position.square_ok(square));
    let after = position.make(m);
    let castles = m.move_type() == 4;
    let index = right_index(m.castle_right());
    if square != m.target_square() && square != m.start_square() && !(castles && (square
        == rook_start(index) || square == rook_landing(index))) {
        assert forall|side: Color| has_bit(after.colors[side.index()], square) == has_bit(
            position.colors[side.index()],
            square,
        ) by {
            assert(after.has(0, side, square) == position.has(0, side, square));
            assert(after.has(1, side, square) == position.has(1, side, square));
            assert(after.has(2, side, square) == position.has(2, side, square));
            assert(after.has(3, side, square) == position.has(3, side, square));
            assert(after.has(4, side, square) == position.has(4, side, square));
            assert(after.has(5, side, square) == position.has(5, side, square));
        }
        assert(has_bit(after.colors[0], square) == has_bit(position.colors[0], square)) by {
            assert(Color::White.index() == 0);
        }
        assert(has_bit(after.colors[1], square) == has_bit(position.colors[1], square)) by {
            assert(Color::Black.index() == 1);
        }
    }
    if castles {
        assert(position.right_ok(index));
        assert(position.square_ok(rook_start(index)));
        assert(position.square_ok(rook_landing(index)));
    }
}

/// A slider that attacks the king's new square once the king has moved
/// attacks it with the king lifted off the board.
#[verifier::rlimit(40)]
proof fn lemma_line_to_king(position: Position, m: Move, diagonal: bool, from: int)
    requires
        position.wf(),
        position.admits(m),
        m.moved_piece() == 0,
        one_king_each(position),
        0 <= from < 64,
        from != m.start_square(),
        from != m.target_square(),
        sees(diagonal, from, position.make(m).occupancy(), m.target_square()),
    ensures
        sees(
            diagonal,
            from,
            position.occupancy() & !position.bitboard(Piece::King, position.color),
            m.target_square(),
        ),
{
    broadcast use group_has_bit;

    let kings = position.bitboard(Piece::King, position.color);
    let bare = position.occupancy() & !kings;
    let after = position.make(m).occupancy();
    let target = m.target_square();
    let start = m.start_square();
    m.lemma_fields_bounded();
    lemma_lsb(kings);
    assert(has_bit(kings, start));
    let line = lemma_sees_elim(diagonal, from, after, target);
    let d = line.0;
    let j = line.1;
    lemma_along(diagonal, from, d, j);
    assert forall|k: int| 1 <= k < j implies !has_bit(
        bare,
        #[trigger] along(diagonal, from, d, k),
    ) by {
        let x = along(diagonal, from, d, k);
        assert(within(diagonal, from, d, k));
        lemma_along(diagonal, from, d, k);
        lemma_occupancy_after_king(position, m, x);
        assert(!has_bit(after, x));
        if m.move_type() == 4 && x == rook_start(right_index(m.castle_right())) {
            // A corner does not lie between two squares of a line.
            assert(false);
        }
    }
    lemma_sees_intro(diagonal, from, bare, d, j);
}

/// The king is safe where it lands: no king's move that is generated for a
/// sound position in which each side has one king, castling included, lets
/// a piece of the other side attack the square that the king moves to.
#[verifier::rlimit(40)]
pub proof fn lemma_king_lands_safely(position: Position, i: int)
    requires
        position.wf(),
        one_king_each(position),
        0 <= i < all_moves(position).len(),
        all_moves(position)[i].moved_piece() == 0,
    ensures
        !attacked_by(
            position.make(all_moves(position)[i]),
            position.color.opposite(),
            all_moves(position)[i].target_square(),
        ),
{
    broadcast use group_has_bit;

    let m = all_moves(position)[i];
    let color = position.color;
    let other = color.opposite();
    let after = position.make(m);
    let target = m.target_square();
    let enemy_king = position.bitboard(Piece::King, other);
    lemma_all_moves_admitted(position);
    lemma_king_never_steps_into_attack(position, i);
    m.lemma_fields_bounded();
    if attacked_by(after, other, target) {
        let from = choose|from: int| 0 <= from < 64 && #[trigger] strikes(after, other, from, target);
        lemma_occupancy_after_king(position, m, from);
        assert(position.square_ok(from));
        let bare = position.occupancy() & !position.bitboard(Piece::King, color);
        if (after.has(4, other, from) || after.has(5, other, from)) && has_bit(
            rook_attacks(from, after.occupancy()),
            target,
        ) {
            assert(after.has(4, other, from) ==> position.has(4, other, from));
            assert(after.has(5, other, from) ==> position.has(5, other, from));
            lemma_line_to_king(position, m, false, from);
            assert(has_bit(rook_attacks(from, bare), target));
        } else if (after.has(3, other, from) || after.has(5, other, from)) && has_bit(
            bishop_attacks(from, after.occupancy()),
            target,
        ) {
            assert(after.has(3, other, from) ==> position.has(3, other, from));
            assert(after.has(5, other, from) ==> position.has(5, other, from));
            lemma_line_to_king(position, m, true, from);
            assert(has_bit(bishop_attacks(from, bare), target));
        } else if after.has(0, other, from) {
            assert(position.has(0, other, from));
            assert(has_bit(enemy_king, from));
            assert(has_bit(king_attacks(from), target));
        } else if after.has(1, other, from) {
            assert(position.has(1, other, from));
            assert(has_bit(pawn_attacks(other, from), target));
        } else {
            assert(after.has(2, other, from));
            assert(position.has(2, other, from));
            assert(has_bit(knight_attacks(from), target));
        }
        assert(enemy_attacks(position, target));
    }
}

/// The squares on which a check by the slider on `checker` is answered:
/// those that both the king and the slider see, and the slider's own.
pub open spec fn check_line(diagonal: bool, king: int, occupancy: Bitboard, checker: int) -> Bitboard {
    (king_view(diagonal, king, occupancy) & slider_attacks(
        line_piece(diagonal),
        checker,
        occupancy,
    )) | bit(checker)
}

/// Where a slider gives check, the check is answered between the king and
/// the slider, or on the slider's square.
pub proof fn lemma_check_line(
    diagonal: bool,
    king: int,
    occupancy: Bitboard,
    checker: int,
    target: int,
) -> (found: (int, int))
    requires
        0 <= king < 64,
        has_bit(occupancy, king),
        has_bit(occupancy, checker),
        sees(diagonal, king, occupancy, checker),
        has_bit(check_line(diagonal, king, occupancy, checker), target),
    ensures
        within(diagonal, king, found.0, found.1),
        checker == along(diagonal, king, found.0, found.1),
        target == checker || exists|k: int|
            0 < k < found.1 && target == #[trigger] along(diagonal, king, found.0, k),
{
    broadcast use group_has_bit;

    let line = lemma_sees_elim(diagonal, king, occupancy, checker);
    let d = line.0;
    let j = line.1;
    lemma_along(diagonal, king, d, j);
    lemma_back(diagonal, king, d, j, 0);
    if target != checker {
        let here = lemma_sees_elim(diagonal, king, occupancy, target);
        let there = lemma_sees_elim(diagonal, checker, occupancy, target);
        lemma_crossing(diagonal, king, d, j, here.0, here.1, there.0, there.1);
        if here.0 == d && there.0 == d {
            assert(!has_bit(occupancy, along(diagonal, king, d, j)));
        }
        if here.0 == opposite(d) && there.0 == opposite(d) {
            assert(!has_bit(occupancy, along(diagonal, checker, opposite(d), j)));
        }
        assert(target == along(diagonal, king, d, here.1));
    }
    (d, j)
}

/// Whether a check that is recorded for the piece on `checker` is answered
/// on `target`.
pub open spec fn answers(position: Position, checker: int, target: int) -> bool {
    let color = position.color;
    let other = color.opposite();
    let kings = position.bitboard(Piece::King, color);
    let occupancy = position.occupancy();
    ||| has_bit(line_checkers(position, Piece::Rook), checker) && has_bit(
        check_line(false, lsb(kings), occupancy, checker),
        target,
    )
    ||| has_bit(line_checkers(position, Piece::Bishop), checker) && has_bit(
        check_line(true, lsb(kings), occupancy, checker),
        target,
    )
    ||| has_bit(position.bitboard(Piece::King, other), checker) && king_attacks(checker) & kings
        == kings && target == checker
    ||| has_bit(position.bitboard(Piece::Pawn, other), checker) && pawn_attacks(other, checker)
        & kings == kings && target == checker
    ||| has_bit(position.bitboard(Piece::Knight, other), checker) && knight_attacks(checker)
        & kings == kings && target == checker
}

proof fn lemma_slider_checks_ray(
    state: CheckState,
    piece: Piece,
    attack: Bitboard,
    occupancy: Bitboard,
    attackers: Bitboard,
    from: int,
    target: int,
)
    requires
        0 <= from,
        has_bit(
            slider_checks(state, piece, attack, occupancy, attackers, from).check_ray,
            target,
        ),
    ensures
        has_bit(state.check_ray, target) || exists|checker: int|
            from <= checker < 64 && has_bit(attackers, checker) && has_bit(
                (attack & #[trigger] slider_attacks(piece, checker, occupancy)) | bit(checker),
                target,
            ),
    decreases 64 - from,
{
    broadcast use group_has_bit;

    if !(from >= 64 || state.double_check) {
        if has_bit(attackers, from) {
            let ray = (attack & slider_attacks(piece, from, occupancy)) | bit(from);
            lemma_slider_checks_ray(
                note_check(state, ray),
                piece,
                attack,
                occupancy,
                attackers,
                from + 1,
                target,
            );
            if has_bit(ray, target) {
                assert(has_bit(
                    (attack & slider_attacks(piece, from, occupancy)) | bit(from),
                    target,
                ));
            }
        } else {
            lemma_slider_checks_ray(state, piece, attack, occupancy, attackers, from + 1, target);
        }
    }
}

proof fn lemma_leaper_scan_ray(
    state: CheckState,
    piece: Piece,
    color: Color,
    king: Bitboard,
    attackers: Bitboard,
    from: int,
    target: int,
)
    requires
        0 <= from,
        has_bit(leaper_scan(state, piece, color, king, attackers, from).check_ray, target),
    ensures
        has_bit(state.check_ray, target) || (0 <= target < 64 && has_bit(attackers, target)
            && leaper_attacks(piece, color, target) & king == king),
    decreases 64 - from,
{
    broadcast use group_has_bit;

    if from < 64 {
        if has_bit(attackers, from) {
            let mask = leaper_attacks(piece, color, from);
            let seen = CheckState { attacked: state.attacked | mask, ..state };
            if king != 0 && mask & king == king {
                lemma_leaper_scan_ray(
                    note_check(seen, bit(from)),
                    piece,
                    color,
                    king,
                    attackers,
                    from + 1,
                    target,
                );
            } else {
                lemma_leaper_scan_ray(seen, piece, color, king, attackers, from + 1, target);
            }
        } else {
            lemma_leaper_scan_ray(state, piece, color, king, attackers, from + 1, target);
        }
    }
}

proof fn lemma_pins_checks_ray(
    state: CheckState,
    position: Position,
    diagonal: bool,
    target: int,
)
    requires
        has_bit(pins_checks(state, position, line_piece(diagonal)).check_ray, target),
    ensures
        has_bit(state.check_ray, target) || exists|checker: int|
            0 <= checker < 64 && has_bit(
                line_checkers(position, line_piece(diagonal)),
                checker,
            ) && has_bit(
                #[trigger] check_line(
                    diagonal,
                    lsb(position.bitboard(Piece::King, position.color)),
                    position.occupancy(),
                    checker,
                ),
                target,
            ),
{
    broadcast use group_has_bit;

    let piece = line_piece(diagonal);
    let color = position.color;
    let king = position.bitboard(Piece::King, color);
    if king != 0 {
        let occupancy = position.occupancy();
        let attackers = line_attackers(position, diagonal);
        let attack = slider_attacks(piece, lsb(king), occupancy);
        if attackers > 0 {
            lemma_slider_checks_ray(
                state,
                piece,
                attack,
                occupancy,
                attack & attackers,
                0,
                target,
            );
            if !has_bit(state.check_ray, target) {
                let checker = choose|checker: int|
                    0 <= checker < 64 && has_bit(attack & attackers, checker) && has_bit(
                        (attack & #[trigger] slider_attacks(piece, checker, occupancy)) | bit(
                            checker,
                        ),
                        target,
                    );
                assert(has_bit(check_line(diagonal, lsb(king), occupancy, checker), target));
            }
        }
    }
}

/// Every square of the check ray answers a check that is recorded for
/// some piece.
#[verifier::rlimit(40)]
pub proof fn lemma_check_ray_members(position: Position, target: int)
    requires
        has_bit(check_state(position).check_ray, target),
    ensures
        exists|checker: int| 0 <= checker < 64 && #[trigger] answers(position, checker, target),
{
    broadcast use group_has_bit;

    let color = position.color;
    let other = color.opposite();
    let king = position.bitboard(Piece::King, color);
    let enemy_king = position.bitboard(Piece::King, other);
    let straight = pins_checks(clear_state(), position, Piece::Rook);
    let lined = pins_checks(straight, position, Piece::Bishop);
    let crowned = leaper_scan(lined, Piece::King, other, king, enemy_king, 0);
    let pawns = position.bitboard(Piece::Pawn, other);
    let knights = position.bitboard(Piece::Knight, other);
    let pawned = leaper_scan(crowned, Piece::Pawn, other, king, pawns, 0);
    lemma_leaper_scan_ray(pawned, Piece::Knight, other, king, knights, 0, target);
    if has_bit(pawned.check_ray, target) {
        lemma_leaper_scan_ray(crowned, Piece::Pawn, other, king, pawns, 0, target);
        if has_bit(crowned.check_ray, target) {
            lemma_leaper_scan_ray(lined, Piece::King, other, king, enemy_king, 0, target);
        }
        if has_bit(crowned.check_ray, target) && !has_bit(lined.check_ray, target) {
            assert(answers(position, target, target));
        } else if has_bit(crowned.check_ray, target) {
            lemma_pins_checks_ray(straight, position, true, target);
            if has_bit(straight.check_ray, target) {
                lemma_pins_checks_ray(clear_state(), position, false, target);
                let checker = choose|checker: int|
                    0 <= checker < 64 && has_bit(line_checkers(position, Piece::Rook), checker)
                        && has_bit(
                        #[trigger] check_line(false, lsb(king), position.occupancy(), checker),
                        target,
                    );
                assert(answers(position, checker, target));
            } else {
                let checker = choose|checker: int|
                    0 <= checker < 64 && has_bit(line_checkers(position, Piece::Bishop), checker)
                        && has_bit(
                        #[trigger] check_line(true, lsb(king), position.occupancy(), checker),
                        target,
                    );
                assert(answers(position, checker, target));
            }
        } else {
            assert(answers(position, target, target));
        }
    } else {
        assert(answers(position, target, target));
    }
}

/// Whether at most one piece of the other side attacks the king of the
/// side to move.
pub open spec fn one_checker_at_most(position: Position) -> bool {
    let other = position.color.opposite();
    let king = lsb(position.bitboard(Piece::King, position.color));
    forall|first: int, second: int|
        0 <= first < 64 && 0 <= second < 64 && #[trigger] strikes(position, other, first, king)
            && #[trigger] strikes(position, other, second, king) ==> first == second
}

/// A piece for which a check is recorded attacks the king.
pub proof fn lemma_checker_strikes(position: Position, checker: int, target: int)
    requires
        position.wf(),
        one_king_each(position),
        0 <= checker < 64,
        answers(position, checker, target),
    ensures
        strikes(
            position,
            position.color.opposite(),
            checker,
            lsb(position.bitboard(Piece::King, position.color)),
        ),
{
    broadcast use group_has_bit;

    let kings = position.bitboard(Piece::King, position.color);
    lemma_lsb(kings);
    let king = lsb(kings);
    let occupancy = position.occupancy();
    let other = position.color.opposite();
    assert(has_bit(kings, king));
    if has_bit(line_checkers(position, Piece::Rook), checker) {
        assert(sees(false, king, occupancy, checker));
        lemma_sees_back(false, king, occupancy, checker);
    } else if has_bit(line_checkers(position, Piece::Bishop), checker) {
        assert(sees(true, king, occupancy, checker));
        lemma_sees_back(true, king, occupancy, checker);
    } else if has_bit(position.bitboard(Piece::King, other), checker) && king_attacks(checker)
        & kings == kings {
        assert(has_bit(king_attacks(checker) & kings, king));
    } else if has_bit(position.bitboard(Piece::Pawn, other), checker) && pawn_attacks(
        other,
        checker,
    ) & kings == kings {
        assert(has_bit(pawn_attacks(other, checker) & kings, king));
    } else {
        assert(has_bit(knight_attacks(checker) & kings, king));
    }
}

/// A set that holds the one square of the king covers the king.
proof fn lemma_covers_king(mask: Bitboard, kings: Bitboard, king: int)
    requires
        0 <= king < 64,
        kings == bit(king),
        has_bit(mask, king),
    ensures
        mask & kings == kings,
{
    broadcast use group_has_bit;

    assert forall|j: int| 0 <= j < 64 implies has_bit(mask & kings, j) == has_bit(kings, j) by {
        assert(has_bit(kings, j) == (j == king));
    }
    lemma_same_members(mask & kings, kings);
}

/// Whether the piece on `from` is among the pieces that give check: the
/// sliders that the king sees, and the kings, pawns and knights that attack
/// the king.
pub open spec fn is_checker(position: Position, from: int) -> bool {
    ||| has_bit(line_checkers(position, Piece::Rook), from)
    ||| has_bit(line_checkers(position, Piece::Bishop), from)
    ||| has_bit(leaper_checkers(position, Piece::King), from)
    ||| has_bit(leaper_checkers(position, Piece::Pawn), from)
    ||| has_bit(leaper_checkers(position, Piece::Knight), from)
}

/// A piece that attacks the king is among the pieces that give check.
#[verifier::rlimit(40)]
pub proof fn lemma_striker_is_checker(position: Position, from: int)
    requires
        position.wf(),
        one_king_each(position),
        0 <= from < 64,
        strikes(
            position,
            position.color.opposite(),
            from,
            lsb(position.bitboard(Piece::King, position.color)),
        ),
    ensures
        is_checker(position, from),
{
    broadcast use group_has_bit;

    let kings = position.bitboard(Piece::King, position.color);
    lemma_lsb(kings);
    let king = lsb(kings);
    let occupancy = position.occupancy();
    let other = position.color.opposite();
    assert(position.square_ok(from));
    if (position.has(4, other, from) || position.has(5, other, from)) && has_bit(
        rook_attacks(from, occupancy),
        king,
    ) {
        assert(sees(false, from, occupancy, king));
        lemma_sees_back(false, from, occupancy, king);
        assert(has_bit(line_checkers(position, Piece::Rook), from));
    } else if (position.has(3, other, from) || position.has(5, other, from)) && has_bit(
        bishop_attacks(from, occupancy),
        king,
    ) {
        assert(sees(true, from, occupancy, king));
        lemma_sees_back(true, from, occupancy, king);
        assert(has_bit(line_checkers(position, Piece::Bishop), from));
    } else if position.has(0, other, from) {
        lemma_covers_king(king_attacks(from), kings, king);
        assert(leaper_attacks(Piece::King, other, from) & kings == kings);
        lemma_leaper_checkers(position, Piece::King, from);
    } else if position.has(1, other, from) {
        lemma_covers_king(pawn_attacks(other, from), kings, king);
        assert(leaper_attacks(Piece::Pawn, other, from) & kings == kings);
        lemma_leaper_checkers(position, Piece::Pawn, from);
    } else {
        assert(position.has(2, other, from) && has_bit(knight_attacks(from), king));
        lemma_covers_king(knight_attacks(from), kings, king);
        assert(leaper_attacks(Piece::Knight, other, from) & kings == kings);
        lemma_leaper_checkers(position, Piece::Knight, from);
    }
}

/// What one piece, or two, among the members of a set say of their number.
proof fn lemma_members_counted(set: Bitboard, first: int, second: int)
    requires
        first != second,
    ensures
        has_bit(set, first) || has_bit(set, second) ==> count(set) >= 1,
        has_bit(set, first) && has_bit(set, second) ==> count(set) >= 2,
{
    if has_bit(set, first) {
        lemma_count_positive(set, first, 64);
    }
    if has_bit(set, second) {
        lemma_count_positive(set, second, 64);
    }
    if has_bit(set, first) && has_bit(set, second) {
        if first < second {
            lemma_count_two(set, first, second, 64);
        } else {
            lemma_count_two(set, second, first, 64);
        }
    }
}

/// A piece that attacks the king is counted as a check.
proof fn lemma_striker_is_counted(position: Position, from: int)
    requires
        position.wf(),
        one_king_each(position),
        0 <= from < 64,
        strikes(
            position,
            position.color.opposite(),
            from,
            lsb(position.bitboard(Piece::King, position.color)),
        ),
    ensures
        check_state(position).check,
{
    lemma_striker_is_checker(position, from);
    lemma_flags_count_checks(position);
    lemma_members_counted(line_checkers(position, Piece::Rook), from, from + 1);
    lemma_members_counted(line_checkers(position, Piece::Bishop), from, from + 1);
    lemma_members_counted(leaper_checkers(position, Piece::King), from, from + 1);
    lemma_members_counted(leaper_checkers(position, Piece::Pawn), from, from + 1);
    lemma_members_counted(leaper_checkers(position, Piece::Knight), from, from + 1);
}

/// Two pieces that attack the king are a double check, of whatever kinds
/// they are.
pub proof fn lemma_two_strikers_are_a_double_check(position: Position, first: int, second: int)
    requires
        position.wf(),
        one_king_each(position),
        0 <= first < 64,
        0 <= second < 64,
        first != second,
        strikes(
            position,
            position.color.opposite(),
            first,
            lsb(position.bitboard(Piece::King, position.color)),
        ),
        strikes(
            position,
            position.color.opposite(),
            second,
            lsb(position.bitboard(Piece::King, position.color)),
        ),
    ensures
        checks(position) >= 2,
        check_state(position).double_check,
{
    lemma_striker_is_checker(position, first);
    lemma_striker_is_checker(position, second);
    lemma_flags_count_checks(position);
    lemma_members_counted(line_checkers(position, Piece::Rook), first, second);
    lemma_members_counted(line_checkers(position, Piece::Bishop), first, second);
    lemma_members_counted(leaper_checkers(position, Piece::King), first, second);
    lemma_members_counted(leaper_checkers(position, Piece::Pawn), first, second);
    lemma_members_counted(leaper_checkers(position, Piece::Knight), first, second);
}

/// Without a double check at most one piece attacks the king.
pub proof fn lemma_single_check_has_one_checker(position: Position)
    requires
        position.wf(),
        one_king_each(position),
        !check_state(position).double_check,
    ensures
        one_checker_at_most(position),
{
    let other = position.color.opposite();
    let king = lsb(position.bitboard(Piece::King, position.color));
    assert forall|first: int, second: int|
        0 <= first < 64 && 0 <= second < 64 && #[trigger] strikes(position, other, first, king)
            && #[trigger] strikes(position, other, second, king) implies first == second by {
        if first != second {
            lemma_two_strikers_are_a_double_check(position, first, second);
        }
    }
}

/// A check by one piece is answered for good: without a double check, no
/// move of a piece other than the king, en-passant captures apart, leaves
/// the king of the side that moved attacked.
#[verifier::rlimit(40)]
pub proof fn lemma_answers_keep_the_king_safe(position: Position, i: int)
    requires
        position.wf(),
        one_king_each(position),
        !check_state(position).double_check,
        0 <= i < all_moves(position).len(),
        all_moves(position)[i].moved_piece() != 0,
        all_moves(position)[i].move_type() != 1,
    ensures
        !attacked_by(
            position.make(all_moves(position)[i]),
            position.color.opposite(),
            lsb(position.bitboard(Piece::King, position.color)),
        ),
{
    broadcast use group_has_bit;

    let m = all_moves(position)[i];
    let color = position.color;
    let other = color.opposite();
    let kings = position.bitboard(Piece::King, color);
    lemma_lsb(kings);
    let king = lsb(kings);
    let after = position.make(m);
    let occupancy = position.occupancy();
    let target = m.target_square();
    lemma_single_check_has_one_checker(position);
    if !attacked_by(position, other, king) {
        lemma_quiet_moves_keep_the_king_safe(position, i);
    } else {
        let checker = choose|from: int| 0 <= from < 64 && #[trigger] strikes(position, other, from, king);
        lemma_all_moves_admitted(position);
        lemma_moves_keep_to_check_and_pin(position, i);
        m.lemma_fields_bounded();
        assert(position.square_ok(checker));
        assert(position.square_ok(king));
        lemma_striker_is_counted(position, checker);
        let state = check_state(position);
        assert(has_bit(state.check_ray, target));
        lemma_check_ray_members(position, target);
        let recorded = choose|from: int| 0 <= from < 64 && #[trigger] answers(position, from, target);
        lemma_checker_strikes(position, recorded, target);
        assert(recorded == checker);
        if attacked_by(after, other, king) {
            let from = choose|from: int| 0 <= from < 64 && #[trigger] strikes(after, other, from, king);
            lemma_occupancy_after(position, m, from);
            lemma_occupancy_after(position, m, target);
            assert(position.square_ok(from));
            let straight = (after.has(4, other, from) || after.has(5, other, from)) && has_bit(
                rook_attacks(from, after.occupancy()),
                king,
            );
            let slanted = (after.has(3, other, from) || after.has(5, other, from)) && has_bit(
                bishop_attacks(from, after.occupancy()),
                king,
            );
            assert(after.has(0, other, from) ==> position.has(0, other, from));
            assert(after.has(1, other, from) ==> position.has(1, other, from));
            assert(after.has(2, other, from) ==> position.has(2, other, from));
            assert(after.has(3, other, from) ==> position.has(3, other, from));
            assert(after.has(4, other, from) ==> position.has(4, other, from));
            assert(after.has(5, other, from) ==> position.has(5, other, from));
            if from != checker {
                assert(!strikes(position, other, from, king));
                if straight {
                    lemma_line_stays_closed(position, m, false, from);
                } else if slanted {
                    lemma_line_stays_closed(position, m, true, from);
                }
            } else {
                // The checker still stands: the move went between it and
                // the king.
                let diagonal = has_bit(line_checkers(position, Piece::Bishop), checker) && has_bit(
                    check_line(true, king, occupancy, checker),
                    target,
                );
                assert(has_bit(line_checkers(position, line_piece(diagonal)), checker));
                assert(has_bit(check_line(diagonal, king, occupancy, checker), target));
                assert(sees(diagonal, king, occupancy, checker));
                let line = lemma_check_line(diagonal, king, occupancy, checker, target);
                let k = choose|k: int|
                    0 < k < line.1 && target == #[trigger] along(diagonal, king, line.0, k);
                assert(straight || slanted);
                let second = !straight;
                assert(sees(second, checker, after.occupancy(), king));
                lemma_sees_back(second, checker, after.occupancy(), king);
                let open = lemma_sees_elim(second, king, after.occupancy(), checker);
                lemma_one_line(second, diagonal, king, open.0, open.1, line.0, line.1);
                assert(!has_bit(after.occupancy(), along(diagonal, king, line.0, k)));
            }
        }
    }
}

/// The square of the pawn that an en-passant capture takes.
pub open spec fn captured_square(position: Position) -> int {
    position.enpassant->0 - position.color.push()
}

/// Whether the pawn that an en-passant capture takes stands alone between
/// the king of the side to move, on the `i`-th square of a diagonal from
/// it, and an enemy bishop or queen on the `j`-th.
pub open spec fn shields_along(position: Position, direction: int, i: int, j: int) -> bool {
    let king = lsb(position.bitboard(Piece::King, position.color));
    &&& within(true, king, direction, j)
    &&& 0 < i < j
    &&& along(true, king, direction, i) == captured_square(position)
    &&& has_bit(line_attackers(position, true), along(true, king, direction, j))
    &&& forall|k: int|
        0 < k < j && k != i ==> !has_bit(
            position.occupancy(),
            #[trigger] along(true, king, direction, k),
        )
}

/// Whether the pawn that an en-passant capture takes is all that shields
/// the king of the side to move from an enemy bishop or queen.
pub open spec fn captured_pawn_shields(position: Position) -> bool {
    exists|direction: int, i: int, j: int| #[trigger] shields_along(position, direction, i, j)
}

/// What is occupied after an en-passant capture: the target square, and
/// what was occupied before but for the squares of the two pawns. The
/// pieces of the other side stand where they stood, but for the pawn that
/// was captured.
pub proof fn lemma_occupancy_after_enpassant(position: Position, m: Move, square: int)
    requires
        position.wf(),
        position.admits(m),
        m.move_type() == 1,
        0 <= square < 64,
    ensures
        has_bit(position.make(m).occupancy(), square) == (square == m.target_square() || (square
            != m.start_square() && square != captured_square(position) && has_bit(
            position.occupancy(),
            square,
        ))),
        forall|kind: int|
            0 <= kind < 6 && #[trigger] position.make(m).has(
                kind,
                position.color.opposite(),
                square,
            ) ==> position.has(kind, position.color.opposite(), square) && square
                != m.start_square() && square != m.target_square() && square != captured_square(
                position,
            ),
{
    broadcast use group_has_bit;

    m.lemma_fields_bounded();
    lemma_square_after(position, m, square);
    assert(position.square_ok(square));
    assert(position.enpassant_ok());
    assert(position.enpassant == Some(m.target_square() as usize));
    assert(captured_square(position) == m.target_square() - position.color.push());
    assert(position.square_ok(captured_square(position)));
    let after = position.make(m);
    if square != m.target_square() && square != m.start_square() && square != captured_square(
        position,
    ) {
        assert forall|side: Color| has_bit(after.colors[side.index()], square) == has_bit(
            position.colors[side.index()],
            square,
        ) by {
            assert(after.has(0, side, square) == position.has(0, side, square));
            assert(after.has(1, side, square) == position.has(1, side, square));
            assert(after.has(2, side, square) == position.has(2, side, square));
            assert(after.has(3, side, square) == position.has(3, side, square));
            assert(after.has(4, side, square) == position.has(4, side, square));
            assert(after.has(5, side, square) == position.has(5, side, square));
        }
        assert(has_bit(after.colors[0], square) == has_bit(position.colors[0], square)) by {
            assert(Color::White.index() == 0);
        }
        assert(has_bit(after.colors[1], square) == has_bit(position.colors[1], square)) by {
            assert(Color::Black.index() == 1);
        }
    }
}

/// What a rook on `square` would see along its rank when a piece stands
/// next to it on one side: the first piece on the other side, and, behind
/// its neighbour, the piece that comes next.
#[verifier::rlimit(40)]
proof fn lemma_rank_exposure(occupancy: Bitboard, square: int, side: int, near: int, far: int)
    requires
        0 <= square < 64,
        side == 0 || side == 2,
        within(false, square, opposite(side), near),
        has_bit(occupancy, along(false, square, opposite(side), near)),
        forall|k: int|
            1 <= k < near ==> !has_bit(
                occupancy,
                #[trigger] along(false, square, opposite(side), k),
            ),
        within(false, square, side, far),
        far >= 2,
        has_bit(occupancy, along(false, square, side, 1)),
        has_bit(occupancy, along(false, square, side, far)),
        forall|k: int| 2 <= k < far ==> !has_bit(occupancy, #[trigger] along(false, square, side, k)),
    ensures
        has_bit(
            xray(Piece::Rook, square, occupancy, occupancy).1,
            along(false, square, opposite(side), near),
        ),
        has_bit(
            xray(Piece::Rook, square, occupancy, occupancy).0,
            along(false, square, side, far),
        ),
{
    broadcast use group_has_bit;

    let attack = slider_attacks(Piece::Rook, square, occupancy);
    let first = along(false, square, opposite(side), near);
    let next = along(false, square, side, 1);
    let second = along(false, square, side, far);
    lemma_sees_intro(false, square, occupancy, opposite(side), near);
    assert(within(false, square, side, 1));
    lemma_sees_intro(false, square, occupancy, side, 1);
    let hit = occupancy & attack;
    assert(has_bit(hit, next));
    lemma_member_nonzero(hit, next);
    if sees(false, square, occupancy, second) {
        let line = lemma_sees_elim(false, square, occupancy, second);
        lemma_one_line(false, false, square, side, far, line.0, line.1);
        assert(!has_bit(occupancy, along(false, square, side, 1)));
    }
    assert forall|k: int| 1 <= k < far implies !has_bit(
        occupancy ^ hit,
        #[trigger] along(false, square, side, k),
    ) by {
        if k >= 2 {
            assert(!has_bit(occupancy, along(false, square, side, k)));
        }
    }
    lemma_sees_intro(false, square, occupancy ^ hit, side, far);
}

/// What an en-passant capture that is generated rests on: the position
/// offers it and admits it, the capturing pawn stands next to the pawn it
/// takes and is not pinned, the capture does not uncover the king along
/// the rank, and in check the pawn it takes stands where the check is
/// answered.
#[verifier::rlimit(40)]
proof fn lemma_enpassant_setting(position: Position, i: int)
    requires
        position.wf(),
        0 <= i < all_moves(position).len(),
        all_moves(position)[i].move_type() == 1,
    ensures
        ({
            let m = all_moves(position)[i];
            let state = check_state(position);
            let offered = position.bitboard(Piece::Pawn, position.color) & pawn_attacks(
                position.color.opposite(),
                m.target_square(),
            );
            let taken = captured_square(position);
            &&& position.admits(m)
            &&& position.enpassant == Some(m.target_square() as usize)
            &&& has_bit(offered, m.start_square())
            &&& !enpassant_exposes(position, offered)
            &&& !enpassant_uncovers(position)
            &&& state.pin_rays[m.start_square()] == 0
            &&& (state.check ==> has_bit(state.check_ray, taken))
            &&& (m.start_square() == taken + 1 || m.start_square() == taken - 1)
            &&& m.start_square() / 8 == taken / 8
            &&& 0 <= taken < 64
            &&& (m.target_square() == taken + 8 || m.target_square() == taken - 8)
            &&& position.has(1, position.color, m.start_square())
            &&& position.has(1, position.color.opposite(), taken)
            &&& position.vacant(m.target_square())
        }),
{
    broadcast use group_has_bit;

    let m = all_moves(position)[i];
    let other = position.color.opposite();
    let state = check_state(position);
    lemma_all_moves_admitted(position);
    lemma_moves_keep_to_check_and_pin(position, i);
    lemma_enpassant_is_offered(position, i);
    m.lemma_fields_bounded();
    let start = m.start_square();
    let target = m.target_square();
    assert(position.enpassant_ok());
    lemma_member_nonzero(enpassant_pawns(state, position), start);
    lemma_squares_where_member(|t: int| is_pawn_capture(other, target, t), start);
}

/// In check an en-passant capture takes the piece that gives check: no
/// piece that attacked the king before the capture stands after it.
#[verifier::rlimit(40)]
proof fn lemma_enpassant_takes_the_checker(position: Position, i: int, from: int)
    requires
        position.wf(),
        one_king_each(position),
        !check_state(position).double_check,
        0 <= i < all_moves(position).len(),
        all_moves(position)[i].move_type() == 1,
        0 <= from < 64,
        strikes(
            position,
            position.color.opposite(),
            from,
            lsb(position.bitboard(Piece::King, position.color)),
        ),
    ensures
        from == captured_square(position),
{
    broadcast use group_has_bit;

    let color = position.color;
    let other = color.opposite();
    let kings = position.bitboard(Piece::King, color);
    lemma_lsb(kings);
    let king = lsb(kings);
    let occupancy = position.occupancy();
    let state = check_state(position);
    let taken = captured_square(position);
    lemma_single_check_has_one_checker(position);
    lemma_enpassant_setting(position, i);
    assert(position.square_ok(from));
    assert(position.square_ok(king));
    lemma_striker_is_counted(position, from);
    assert(has_bit(state.check_ray, taken));
    lemma_check_ray_members(position, taken);
    let recorded = choose|checker: int|
        0 <= checker < 64 && #[trigger] answers(position, checker, taken);
    lemma_checker_strikes(position, recorded, taken);
    assert(recorded == from);
    if from != taken {
        if has_bit(line_checkers(position, Piece::Rook), from) && has_bit(
            check_line(false, king, occupancy, from),
            taken,
        ) {
            assert(sees(false, king, occupancy, from));
            let line = lemma_check_line(false, king, occupancy, from, taken);
            let k = choose|k: int|
                0 < k < line.1 && taken == #[trigger] along(false, king, line.0, k);
            let open = lemma_sees_elim(false, king, occupancy, from);
            lemma_one_line(false, false, king, open.0, open.1, line.0, line.1);
            assert(!has_bit(occupancy, along(false, king, line.0, k)));
        } else {
            assert(has_bit(line_checkers(position, Piece::Bishop), from) && has_bit(
                check_line(true, king, occupancy, from),
                taken,
            ));
            assert(sees(true, king, occupancy, from));
            let line = lemma_check_line(true, king, occupancy, from, taken);
            let k = choose|k: int|
                0 < k < line.1 && taken == #[trigger] along(true, king, line.0, k);
            let open = lemma_sees_elim(true, king, occupancy, from);
            lemma_one_line(true, true, king, open.0, open.1, line.0, line.1);
            assert(!has_bit(occupancy, along(true, king, line.0, k)));
        }
    }
}

/// A line between an enemy slider and the king that was closed before an
/// en-passant capture is closed after it, unless the pawn that is captured
/// was all that shielded the king from a bishop or queen.
#[verifier::rlimit(40)]
proof fn lemma_enpassant_line_stays_closed(
    position: Position,
    i: int,
    diagonal: bool,
    from: int,
)
    requires
        position.wf(),
        one_king_each(position),
        0 <= i < all_moves(position).len(),
        all_moves(position)[i].move_type() == 1,
        !captured_pawn_shields(position),
        0 <= from < 64,
        has_bit(line_attackers(position, diagonal), from),
        from != all_moves(position)[i].start_square(),
        from != all_moves(position)[i].target_square(),
        from != captured_square(position),
        !sees(
            diagonal,
            from,
            position.occupancy(),
            lsb(position.bitboard(Piece::King, position.color)),
        ),
    ensures
        !sees(
            diagonal,
            from,
            position.make(all_moves(position)[i]).occupancy(),
            lsb(position.bitboard(Piece::King, position.color)),
        ),
{
    broadcast use group_has_bit;

    let m = all_moves(position)[i];
    let color = position.color;
    let kings = position.bitboard(Piece::King, color);
    lemma_lsb(kings);
    let king = lsb(kings);
    let after = position.make(m).occupancy();
    let occupancy = position.occupancy();
    lemma_enpassant_setting(position, i);
    m.lemma_fields_bounded();
    let start = m.start_square();
    let target = m.target_square();
    let taken = captured_square(position);
    let offered = position.bitboard(Piece::Pawn, color) & pawn_attacks(color.opposite(), target);
    assert(position.square_ok(king));
    if sees(diagonal, from, after, king) {
        lemma_sees_back(diagonal, from, after, king);
        let line = lemma_sees_elim(diagonal, king, after, from);
        let d = line.0;
        let j = line.1;
        lemma_along(diagonal, king, d, j);
        if forall|k: int| 1 <= k < j ==> !has_bit(occupancy, #[trigger] along(diagonal, king, d, k)) {
            lemma_sees_intro(diagonal, king, occupancy, d, j);
            lemma_sees_back(diagonal, king, occupancy, from);
        }
        // What stood between the two is gone: one of the two pawns, or both.
        assert forall|k: int|
            0 < k < j && has_bit(occupancy, #[trigger] along(diagonal, king, d, k)) implies along(
            diagonal,
            king,
            d,
            k,
        ) == start || along(diagonal, king, d, k) == taken by {
            lemma_onward(diagonal, king, d, k, j);
            lemma_along(diagonal, king, d, k);
            lemma_occupancy_after_enpassant(position, m, along(diagonal, king, d, k));
            assert(!has_bit(after, along(diagonal, king, d, k)));
        }
        lemma_occupancy_after_enpassant(position, m, target);
        assert forall|k: int| 0 < k < j implies #[trigger] along(diagonal, king, d, k)
            != target by {
            assert(!has_bit(after, along(diagonal, king, d, k)));
        }
        let guarded = exists|k: int| 0 < k < j && #[trigger] along(diagonal, king, d, k) == start;
        let shielded = exists|k: int| 0 < k < j && #[trigger] along(diagonal, king, d, k) == taken;
        if guarded && !shielded {
            let a = choose|k: int| 0 < k < j && #[trigger] along(diagonal, king, d, k) == start;
            lemma_lone_pawn(position, diagonal, d, a, j);
        } else if shielded && !guarded {
            let c = choose|k: int| 0 < k < j && #[trigger] along(diagonal, king, d, k) == taken;
            lemma_lone_shield(position, i, diagonal, d, c, j);
        } else {
            let a = choose|k: int| 0 < k < j && #[trigger] along(diagonal, king, d, k) == start;
            let c = choose|k: int| 0 < k < j && #[trigger] along(diagonal, king, d, k) == taken;
            lemma_onward(diagonal, king, d, a, j);
            lemma_onward(diagonal, king, d, c, j);
            lemma_along(diagonal, king, d, a);
            lemma_along(diagonal, king, d, c);
            // Two pawns side by side: the line is their rank.
            assert(!diagonal && (d == 0 || d == 2));
            assert(a == c + 1 || c == a + 1);
            assert forall|k: int| 0 < k < j && k != a && k != c implies !has_bit(
                occupancy,
                #[trigger] along(false, king, d, k),
            ) by {
                lemma_onward(false, king, d, k, j);
                if along(false, king, d, k) == start {
                    lemma_one_line(false, false, king, d, k, d, a);
                }
                if along(false, king, d, k) == taken {
                    lemma_one_line(false, false, king, d, k, d, c);
                }
            }
            assert(side_by_side(position, offered, d, a, c, j));
            lemma_exposed_on_rank(position, offered, d, a, c, j);
        }
    }
}

/// A piece of the side to move that stands alone between its king and an
/// enemy slider, where some square between them is occupied by nothing
/// else, is pinned.
proof fn lemma_lone_pawn(position: Position, diagonal: bool, direction: int, a: int, j: int)
    requires
        position.wf(),
        position.bitboard(Piece::King, position.color) != 0,
        within(diagonal, lsb(position.bitboard(Piece::King, position.color)), direction, j),
        0 < a < j,
        has_bit(
            position.allies(position.color),
            along(diagonal, lsb(position.bitboard(Piece::King, position.color)), direction, a),
        ),
        has_bit(
            line_attackers(position, diagonal),
            along(diagonal, lsb(position.bitboard(Piece::King, position.color)), direction, j),
        ),
        forall|k: int|
            0 < k < j && has_bit(
                position.occupancy(),
                #[trigger] along(
                    diagonal,
                    lsb(position.bitboard(Piece::King, position.color)),
                    direction,
                    k,
                ),
            ) ==> along(
                diagonal,
                lsb(position.bitboard(Piece::King, position.color)),
                direction,
                k,
            ) == along(
                diagonal,
                lsb(position.bitboard(Piece::King, position.color)),
                direction,
                a,
            ),
    ensures
        check_state(position).pin_rays[along(
            diagonal,
            lsb(position.bitboard(Piece::King, position.color)),
            direction,
            a,
        )] != 0,
{
    let kings = position.bitboard(Piece::King, position.color);
    lemma_lsb(kings);
    let king = lsb(kings);
    assert forall|k: int| 0 < k < j && k != a implies !has_bit(
        position.occupancy(),
        #[trigger] along(diagonal, king, direction, k),
    ) by {
        lemma_onward(diagonal, king, direction, k, j);
        lemma_onward(diagonal, king, direction, a, j);
        if along(diagonal, king, direction, k) == along(diagonal, king, direction, a) {
            lemma_one_line(diagonal, diagonal, king, direction, k, direction, a);
        }
    }
    lemma_lone_guard_is_pinned(position, diagonal, direction, a, j);
}

/// Where the pawn that an en-passant capture takes stands alone between
/// the king and an enemy slider, and the capturing pawn does not land
/// between the two, the line is a diagonal and the pawn shields the king:
/// on a file the capturing pawn lands between the two, and on a rank it
/// stands between them.
#[verifier::rlimit(40)]
proof fn lemma_lone_shield(
    position: Position,
    i: int,
    diagonal: bool,
    direction: int,
    c: int,
    j: int,
)
    requires
        position.wf(),
        one_king_each(position),
        0 <= i < all_moves(position).len(),
        all_moves(position)[i].move_type() == 1,
        within(diagonal, lsb(position.bitboard(Piece::King, position.color)), direction, j),
        0 < c < j,
        along(diagonal, lsb(position.bitboard(Piece::King, position.color)), direction, c)
            == captured_square(position),
        has_bit(
            line_attackers(position, diagonal),
            along(diagonal, lsb(position.bitboard(Piece::King, position.color)), direction, j),
        ),
        forall|k: int|
            0 < k < j && has_bit(
                position.occupancy(),
                #[trigger] along(
                    diagonal,
                    lsb(position.bitboard(Piece::King, position.color)),
                    direction,
                    k,
                ),
            ) ==> along(
                diagonal,
                lsb(position.bitboard(Piece::King, position.color)),
                direction,
                k,
            ) == captured_square(position),
        forall|k: int|
            0 < k < j ==> #[trigger] along(
                diagonal,
                lsb(position.bitboard(Piece::King, position.color)),
                direction,
                k,
            ) != all_moves(position)[i].target_square(),
    ensures
        captured_pawn_shields(position),
{
    broadcast use group_has_bit;

    let m = all_moves(position)[i];
    let kings = position.bitboard(Piece::King, position.color);
    lemma_lsb(kings);
    let king = lsb(kings);
    let occupancy = position.occupancy();
    let start = m.start_square();
    let target = m.target_square();
    let taken = captured_square(position);
    let from = along(diagonal, king, direction, j);
    lemma_enpassant_setting(position, i);
    m.lemma_fields_bounded();
    lemma_along(diagonal, king, direction, j);
    lemma_onward(diagonal, king, direction, c, j);
    lemma_along(diagonal, king, direction, c);
    assert(position.square_ok(king));
    assert(position.square_ok(from));
    assert(position.square_ok(start));
    assert(position.square_ok(target));
    assert forall|k: int| 0 < k < j && k != c implies !has_bit(
        occupancy,
        #[trigger] along(diagonal, king, direction, k),
    ) by {
        lemma_onward(diagonal, king, direction, k, j);
        if along(diagonal, king, direction, k) == taken {
            lemma_one_line(diagonal, diagonal, king, direction, k, direction, c);
        }
    }
    if diagonal {
        assert(shields_along(position, direction, c, j));
    } else {
        if c + 1 < j {
            lemma_onward(false, king, direction, c + 1, j);
            lemma_along(false, king, direction, c + 1);
            assert(along(false, king, direction, c + 1) != target);
            assert(!has_bit(occupancy, along(false, king, direction, c + 1)));
        }
        if c > 1 {
            lemma_onward(false, king, direction, c - 1, j);
            lemma_along(false, king, direction, c - 1);
            assert(along(false, king, direction, c - 1) != target);
            assert(!has_bit(occupancy, along(false, king, direction, c - 1)));
        }
    }
}

/// A pawn that is all that shields the king from a bishop or queen is
/// known to do so: with the pawn off the board the king sees the bishop or
/// queen, and with it on the board it does not.
pub proof fn lemma_shield_is_known(position: Position)
    requires
        position.wf(),
        position.enpassant is Some,
        position.bitboard(Piece::King, position.color) != 0,
        captured_pawn_shields(position),
    ensures
        enpassant_uncovers(position),
{
    broadcast use group_has_bit;

    let color = position.color;
    let other = color.opposite();
    let kings = position.bitboard(Piece::King, color);
    lemma_lsb(kings);
    let king = lsb(kings);
    let occupancy = position.occupancy();
    let taken = captured_square(position);
    let sliders = position.bitboard(Piece::Queen, other) | position.bitboard(Piece::Bishop, other);
    let (d, i, j) = choose|d: int, i: int, j: int| #[trigger] shields_along(position, d, i, j);
    let from = along(true, king, d, j);
    assert(position.enpassant_ok());
    lemma_along(true, king, d, j);
    lemma_onward(true, king, d, i, j);
    lemma_along(true, king, d, i);
    assert(position.square_ok(taken));
    assert(has_bit(occupancy, taken));
    let bare = occupancy & !bit(taken);
    assert forall|k: int| 1 <= k < j implies !has_bit(bare, #[trigger] along(true, king, d, k)) by {
        if k != i {
            assert(!has_bit(occupancy, along(true, king, d, k)));
        }
    }
    lemma_sees_intro(true, king, bare, d, j);
    if sees(true, king, occupancy, from) {
        let line = lemma_sees_elim(true, king, occupancy, from);
        lemma_one_line(true, true, king, d, j, line.0, line.1);
        assert(!has_bit(occupancy, along(true, king, d, i)));
    }
    let uncovered = slider_attacks(Piece::Bishop, king, bare) & !slider_attacks(
        Piece::Bishop,
        king,
        occupancy,
    );
    assert(has_bit(uncovered & sliders, from));
    lemma_member_nonzero(uncovered & sliders, from);
}

/// An en-passant capture does not give up the king. In a sound position in
/// which each side has one king, no en-passant capture that is generated
/// without a double check leaves the king of the side that moved attacked.
#[verifier::rlimit(40)]
pub proof fn lemma_enpassant_keeps_the_king_safe(position: Position, i: int)
    requires
        position.wf(),
        one_king_each(position),
        !check_state(position).double_check,
        0 <= i < all_moves(position).len(),
        all_moves(position)[i].move_type() == 1,
    ensures
        !attacked_by(
            position.make(all_moves(position)[i]),
            position.color.opposite(),
            lsb(position.bitboard(Piece::King, position.color)),
        ),
{
    broadcast use group_has_bit;

    let m = all_moves(position)[i];
    let color = position.color;
    let other = color.opposite();
    let kings = position.bitboard(Piece::King, color);
    lemma_lsb(kings);
    let king = lsb(kings);
    let after = position.make(m);
    lemma_single_check_has_one_checker(position);
    lemma_enpassant_setting(position, i);
    if captured_pawn_shields(position) {
        lemma_shield_is_known(position);
    }
    if attacked_by(after, other, king) {
        let from = choose|from: int| 0 <= from < 64 && #[trigger] strikes(after, other, from, king);
        lemma_occupancy_after_enpassant(position, m, from);
        assert(position.square_ok(from));
        assert(after.has(0, other, from) ==> position.has(0, other, from));
        assert(after.has(1, other, from) ==> position.has(1, other, from));
        assert(after.has(2, other, from) ==> position.has(2, other, from));
        assert(after.has(3, other, from) ==> position.has(3, other, from));
        assert(after.has(4, other, from) ==> position.has(4, other, from));
        assert(after.has(5, other, from) ==> position.has(5, other, from));
        if strikes(position, other, from, king) {
            lemma_enpassant_takes_the_checker(position, i, from);
        } else {
            let straight = (after.has(4, other, from) || after.has(5, other, from)) && has_bit(
                rook_attacks(from, after.occupancy()),
                king,
            );
            if straight {
                lemma_enpassant_line_stays_closed(position, i, false, from);
            } else {
                lemma_enpassant_line_stays_closed(position, i, true, from);
            }
        }
    }
}

/// What holds where the two pawns of an en-passant capture stand side by
/// side between the king and an enemy rook or queen on their rank, with
/// nothing else between: the capturing pawn on the `a`-th square of the
/// line from the king, the pawn to be captured on the `c`-th, the rook or
/// queen on the `j`-th.
pub open spec fn side_by_side(
    position: Position,
    offered: Bitboard,
    direction: int,
    a: int,
    c: int,
    j: int,
) -> bool {
    let king = lsb(position.bitboard(Piece::King, position.color));
    &&& position.enpassant is Some
    &&& offered == position.bitboard(Piece::Pawn, position.color) & pawn_attacks(
        position.color.opposite(),
        position.enpassant->0 as int,
    )
    &&& (direction == 0 || direction == 2)
    &&& within(false, king, direction, j)
    &&& 0 < a < j
    &&& 0 < c < j
    &&& (a == c + 1 || c == a + 1)
    &&& has_bit(offered, along(false, king, direction, a))
    &&& along(false, king, direction, c) == captured_square(position)
    &&& has_bit(line_attackers(position, false), along(false, king, direction, j))
    &&& forall|k: int|
        0 < k < j && k != a && k != c ==> !has_bit(
            position.occupancy(),
            #[trigger] along(false, king, direction, k),
        )
}

/// Where the two pawns stand side by side between the king and a rook or
/// queen, no other pawn can capture en passant.
#[verifier::rlimit(40)]
proof fn lemma_one_capturer(
    position: Position,
    offered: Bitboard,
    direction: int,
    a: int,
    c: int,
    j: int,
)
    requires
        position.wf(),
        one_king_each(position),
        side_by_side(position, offered, direction, a, c, j),
    ensures
        count(offered) == 1,
        lsb(offered) == along(
            false,
            lsb(position.bitboard(Piece::King, position.color)),
            direction,
            a,
        ),
{
    broadcast use group_has_bit;

    let other = position.color.opposite();
    let kings = position.bitboard(Piece::King, position.color);
    lemma_lsb(kings);
    let king = lsb(kings);
    let occupancy = position.occupancy();
    let target = position.enpassant->0 as int;
    let start = along(false, king, direction, a);
    assert(position.enpassant_ok());
    lemma_along(false, king, direction, j);
    lemma_onward(false, king, direction, a, j);
    lemma_onward(false, king, direction, c, j);
    lemma_along(false, king, direction, a);
    lemma_along(false, king, direction, c);
    assert(position.square_ok(king));
    assert(position.square_ok(along(false, king, direction, j)));
    assert forall|x: int| 0 <= x < 64 && has_bit(offered, x) implies x == start by {
        lemma_squares_where_member(|t: int| is_pawn_capture(other, target, t), x);
        assert(position.square_ok(x));
        if x != start {
            let b = if a == c + 1 {
                c - 1
            } else {
                c + 1
            };
            if 0 < b < j {
                lemma_onward(false, king, direction, b, j);
                lemma_along(false, king, direction, b);
                assert(along(false, king, direction, b) == x);
                assert(!has_bit(occupancy, along(false, king, direction, b)));
            }
        }
    }
    assert(offered == bit(start)) by {
        lemma_same_members(offered, bit(start));
    }
    lemma_count_single(start, 64);
    lemma_lsb(offered);
}

/// Where the two pawns stand side by side between the king and a rook or
/// queen, a rook on the capturing pawn's square would see the one directly
/// and the other behind the pawn to be captured.
#[verifier::rlimit(40)]
proof fn lemma_both_seen(
    position: Position,
    offered: Bitboard,
    direction: int,
    a: int,
    c: int,
    j: int,
)
    requires
        position.wf(),
        one_king_each(position),
        side_by_side(position, offered, direction, a, c, j),
    ensures
        ({
            let king = lsb(position.bitboard(Piece::King, position.color));
            let start = along(false, king, direction, a);
            let from = along(false, king, direction, j);
            let seen = xray(Piece::Rook, start, position.occupancy(), position.occupancy());
            if a == c + 1 {
                has_bit(seen.1, from) && has_bit(seen.0, king)
            } else {
                has_bit(seen.1, king) && has_bit(seen.0, from)
            }
        }),
{
    let kings = position.bitboard(Piece::King, position.color);
    lemma_lsb(kings);
    let king = lsb(kings);
    let occupancy = position.occupancy();
    let taken = captured_square(position);
    let start = along(false, king, direction, a);
    let from = along(false, king, direction, j);
    assert(position.enpassant_ok());
    lemma_along(false, king, direction, j);
    lemma_onward(false, king, direction, a, j);
    lemma_onward(false, king, direction, c, j);
    lemma_along(false, king, direction, a);
    lemma_along(false, king, direction, c);
    assert(has_bit(occupancy, king) && has_bit(occupancy, from) && has_bit(occupancy, taken)) by {
        broadcast use group_has_bit;

        assert(position.square_ok(king));
    }
    lemma_back(false, king, direction, a, 0);
    if a == c + 1 {
        lemma_back(false, king, direction, a, c);
        assert forall|k: int| 2 <= k < a implies !has_bit(
            occupancy,
            #[trigger] along(false, start, opposite(direction), k),
        ) by {
            lemma_back(false, king, direction, a, a - k);
            assert(!has_bit(occupancy, along(false, king, direction, a - k)));
        }
        assert forall|k: int| 1 <= k < j - a implies !has_bit(
            occupancy,
            #[trigger] along(false, start, direction, k),
        ) by {
            lemma_onward(false, king, direction, a, a + k);
            assert(!has_bit(occupancy, along(false, king, direction, a + k)));
        }
        assert(opposite(opposite(direction)) == direction);
        lemma_rank_exposure(occupancy, start, opposite(direction), j - a, a);
    } else {
        assert forall|k: int| 1 <= k < a implies !has_bit(
            occupancy,
            #[trigger] along(false, start, opposite(direction), k),
        ) by {
            lemma_back(false, king, direction, a, a - k);
            assert(!has_bit(occupancy, along(false, king, direction, a - k)));
        }
        assert forall|k: int| 2 <= k < j - a implies !has_bit(
            occupancy,
            #[trigger] along(false, start, direction, k),
        ) by {
            lemma_onward(false, king, direction, a, a + k);
            assert(!has_bit(occupancy, along(false, king, direction, a + k)));
        }
        lemma_onward(false, king, direction, a, c);
        lemma_rank_exposure(occupancy, start, direction, a, j - a);
    }
}

/// Where the two pawns of an en-passant capture stand side by side between
/// the king and an enemy rook or queen on their rank, with nothing else
/// between, the capture is known to uncover the king.
#[verifier::rlimit(40)]
proof fn lemma_exposed_on_rank(
    position: Position,
    offered: Bitboard,
    direction: int,
    a: int,
    c: int,
    j: int,
)
    requires
        position.wf(),
        one_king_each(position),
        side_by_side(position, offered, direction, a, c, j),
    ensures
        enpassant_exposes(position, offered),
{
    broadcast use group_has_bit;

    let other = position.color.opposite();
    let kings = position.bitboard(Piece::King, position.color);
    lemma_lsb(kings);
    let king = lsb(kings);
    let occupancy = position.occupancy();
    let taken = captured_square(position);
    let start = along(false, king, direction, a);
    let from = along(false, king, direction, j);
    let pin_rank = PAWN_DOUBLE_PUSH_RANK[other.index()];
    let pieces = (kings | position.bitboard(Piece::Rook, other)) | position.bitboard(
        Piece::Queen,
        other,
    );
    lemma_one_capturer(position, offered, direction, a, c, j);
    lemma_both_seen(position, offered, direction, a, c, j);
    assert(position.enpassant_ok());
    assert(position.square_ok(king));
    assert(position.square_ok(taken));
    lemma_along(false, king, direction, j);
    lemma_onward(false, king, direction, c, j);
    lemma_along(false, king, direction, c);
    assert(PAWN_DOUBLE_PUSH_RANK[0] == 0x00000000ff000000 && PAWN_DOUBLE_PUSH_RANK[1]
        == 0x000000ff00000000);
    lemma_masks(king);
    lemma_masks(from);
    assert(has_bit(pin_rank, king) && has_bit(pin_rank, from));
    assert(has_bit(pieces, king) && has_bit(pieces, from));
    lemma_member_nonzero(pin_rank & kings, king);
    let seen = xray(Piece::Rook, start, occupancy, occupancy);
    if a == c + 1 {
        lemma_member_nonzero((seen.1 & pin_rank) & pieces, from);
        lemma_member_nonzero((seen.0 & pin_rank) & pieces, king);
    } else {
        lemma_member_nonzero((seen.1 & pin_rank) & pieces, king);
        lemma_member_nonzero((seen.0 & pin_rank) & pieces, from);
    }
}

/// No move gives up the king. In a sound position in which each side has
/// one king, no generated move leaves the king of the side that moved
/// attacked: not where the king stands after its own move, and not where it
/// stays when another piece moves.
pub proof fn lemma_no_move_gives_up_the_king(position: Position, i: int)
    requires
        position.wf(),
        one_king_each(position),
        0 <= i < all_moves(position).len(),
    ensures
        !attacked_by(
            position.make(all_moves(position)[i]),
            position.color.opposite(),
            if all_moves(position)[i].moved_piece() == 0 {
                all_moves(position)[i].target_square()
            } else {
                lsb(position.bitboard(Piece::King, position.color))
            },
        ),
{
    let m = all_moves(position)[i];
    if m.moved_piece() == 0 {
        lemma_king_lands_safely(position, i);
    } else if check_state(position).double_check {
        lemma_double_check_king_only(position);
        assert(all_moves(position)[i].moved_piece() == Piece::King.index());
    } else if m.move_type() == 1 {
        lemma_enpassant_keeps_the_king_safe(position, i);
    } else {
        lemma_answers_keep_the_king_safe(position, i);
    }
}

/// Whether none of the moves of a list gives up the king of the side to
/// move: once any of them is played, no piece of the other side attacks
/// that king, where it stands after its own move or where it stays when
/// another piece moves.
pub open spec fn all_safe(position: Position, list: Seq<Move>) -> bool {
    forall|i: int|
        0 <= i < list.len() ==> !attacked_by(
            position.make(#[trigger] list[i]),
            position.color.opposite(),
            if list[i].moved_piece() == 0 {
                list[i].target_square()
            } else {
                lsb(position.bitboard(Piece::King, position.color))
            },
        )
}

/// None of the legal moves of a sound position in which each side has one
/// king gives up the king.
pub proof fn lemma_all_moves_safe(position: Position)
    requires
        position.wf(),
        one_king_each(position),
    ensures
        all_safe(position, all_moves(position)),
{
    let list = all_moves(position);
    assert forall|i: int| 0 <= i < list.len() implies !attacked_by(
        position.make(#[trigger] list[i]),
        position.color.opposite(),
        if list[i].moved_piece() == 0 {
            list[i].target_square()
        } else {
            lsb(position.bitboard(Piece::King, position.color))
        },
    ) by {
        lemma_no_move_gives_up_the_king(position, i);
    }
}

/// In check the king does not castle.
pub proof fn lemma_no_castling_in_check(position: Position)
    requires
        position.wf(),
        checks(position) >= 1,
    ensures
        none_castles(all_moves(position)),
{
    let list = all_moves(position);
    lemma_flags_count_checks(position);
    lemma_all_moves_admitted(position);
    assert forall|i: int| 0 <= i < list.len() implies (#[trigger] list[i]).move_type() != 4 by {
        lemma_moves_keep_to_check_and_pin(position, i);
        assert(position.admits(list[i]));
    }
}

} // verus!
