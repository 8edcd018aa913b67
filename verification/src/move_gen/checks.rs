//! How the check flags count the pieces that give check.

use super::attack::slider_attacks;
use super::extra::{check_state, clear_state, leaper_attacks, leaper_scan, note_check};
use super::extra::{pins_checks, slider_checks, CheckState};
use super::legal::{all_of_kind, flags_ok, lemma_double_check_king_only};
use super::all_moves;
use crate::bitboard::{bit, count, count_below, group_has_bit, has_bit, lsb, Bitboard};
use crate::bitboard::{lemma_squares_where_member, squares_where};
use crate::board::Position;
use crate::color::Color;
use crate::piece::Piece;
use vstd::prelude::*;

verus! {

/// How many of the squares from `from` up are members of the set.
pub open spec fn count_from(bitboard: Bitboard, from: int) -> nat
    decreases 64 - from,
{
    if from < 0 || from >= 64 {
        0
    } else {
        count_from(bitboard, from + 1) + if has_bit(bitboard, from) {
            1nat
        } else {
            0nat
        }
    }
}

/// The members below a square and the members from it up are all the
/// members.
pub proof fn lemma_count_split(bitboard: Bitboard, from: int)
    requires
        0 <= from <= 64,
    ensures
        count_below(bitboard, from) + count_from(bitboard, from) == count(bitboard),
    decreases 64 - from,
{
    if from < 64 {
        lemma_count_split(bitboard, from + 1);
    }
}

/// The number of checks that the flags record: two stands for two or
/// more.
pub open spec fn recorded(state: CheckState) -> int {
    if state.double_check {
        2
    } else if state.check {
        1
    } else {
        0
    }
}

/// The smaller of a number and two.
pub open spec fn at_most_two(n: int) -> int {
    if n >= 2 {
        2
    } else {
        n
    }
}

/// The enemy queens and pieces of kind `piece`, a rook or a bishop, that
/// the king of the side to move sees along the lines of that kind.
pub open spec fn line_checkers(position: Position, piece: Piece) -> Bitboard {
    let color = position.color;
    let king = position.bitboard(Piece::King, color);
    let attackers = position.bitboard(Piece::Queen, color.opposite()) | position.bitboard(
        piece,
        color.opposite(),
    );
    if king == 0 {
        0
    } else {
        slider_attacks(piece, lsb(king), position.occupancy()) & attackers
    }
}

/// The enemy pieces of kind `piece`, a king, a pawn or a knight, that
/// attack the king of the side to move.
pub open spec fn leaper_checkers(position: Position, piece: Piece) -> Bitboard {
    let other = position.color.opposite();
    let king = position.bitboard(Piece::King, position.color);
    squares_where(
        |square: int|
            king != 0 && has_bit(position.bitboard(piece, other), square) && leaper_attacks(
                piece,
                other,
                square,
            ) & king == king,
    )
}

/// The number of checks on the side to move: the number of enemy pieces
/// that attack its king, each counted by itself, of whatever kind.
pub open spec fn checks(position: Position) -> int {
    (count(line_checkers(position, Piece::Rook)) + count(line_checkers(position, Piece::Bishop))
        + count(leaper_checkers(position, Piece::King)) + count(
        leaper_checkers(position, Piece::Pawn),
    ) + count(leaper_checkers(position, Piece::Knight))) as int
}

/// Each slider that gives check is recorded, up to two checks.
proof fn lemma_slider_checks_recorded(
    state: CheckState,
    piece: Piece,
    attack: Bitboard,
    occupancy: Bitboard,
    attackers: Bitboard,
    from: int,
)
    requires
        flags_ok(state),
        0 <= from,
    ensures
        recorded(slider_checks(state, piece, attack, occupancy, attackers, from)) == at_most_two(
            recorded(state) + count_from(attackers, from),
        ),
        flags_ok(slider_checks(state, piece, attack, occupancy, attackers, from)),
    decreases 64 - from,
{
    if !(from >= 64 || state.double_check) {
        if has_bit(attackers, from) {
            lemma_slider_checks_recorded(
                note_check(state, (attack & slider_attacks(piece, from, occupancy)) | bit(from)),
                piece,
                attack,
                occupancy,
                attackers,
                from + 1,
            );
        } else {
            lemma_slider_checks_recorded(state, piece, attack, occupancy, attackers, from + 1);
        }
    }
}

/// The empty set has no members from any square up.
proof fn lemma_count_from_empty(from: int)
    ensures
        count_from(0, from) == 0,
    decreases 64 - from,
{
    broadcast use group_has_bit;

    if 0 <= from < 64 {
        lemma_count_from_empty(from + 1);
    }
}

/// The sliders that the king sees along its lines are recorded as checks, up
/// to two.
proof fn lemma_pins_checks_recorded(state: CheckState, position: Position, piece: Piece)
    requires
        flags_ok(state),
    ensures
        recorded(pins_checks(state, position, piece)) == at_most_two(
            recorded(state) + count(line_checkers(position, piece)),
        ),
        flags_ok(pins_checks(state, position, piece)),
{
    broadcast use group_has_bit;

    let color = position.color;
    let king = position.bitboard(Piece::King, color);
    if king != 0 {
        let occupancy = position.occupancy();
        let attackers = position.bitboard(Piece::Queen, color.opposite()) | position.bitboard(
            piece,
            color.opposite(),
        );
        let attack = slider_attacks(piece, lsb(king), occupancy);
        lemma_slider_checks_recorded(state, piece, attack, occupancy, attack & attackers, 0);
        lemma_count_split(attack & attackers, 0);
        if !(attackers > 0) {
            assert(attack & attackers == 0) by {
                crate::bitboard::lemma_same_members(attack & attackers, 0);
            }
            lemma_count_from_empty(0);
        }
    } else {
        lemma_count_from_empty(0);
        lemma_count_split(0, 0);
    }
}

/// Whether a king, pawn or knight on `square` attacks every square of
/// `king`, and there is such a square.
pub open spec fn covers(piece: Piece, color: Color, king: Bitboard, square: int) -> bool {
    king != 0 && leaper_attacks(piece, color, square) & king == king
}

/// Each king, pawn or knight that attacks the king is recorded as a check,
/// up to two checks.
proof fn lemma_leaper_scan_recorded(
    state: CheckState,
    piece: Piece,
    color: Color,
    king: Bitboard,
    attackers: Bitboard,
    hits: Bitboard,
    from: int,
)
    requires
        flags_ok(state),
        0 <= from,
        forall|square: int|
            0 <= square < 64 ==> #[trigger] has_bit(hits, square) == (has_bit(attackers, square)
                && covers(piece, color, king, square)),
    ensures
        recorded(leaper_scan(state, piece, color, king, attackers, from)) == at_most_two(
            recorded(state) + count_from(hits, from),
        ),
        flags_ok(leaper_scan(state, piece, color, king, attackers, from)),
    decreases 64 - from,
{
    if from < 64 {
        let mask = leaper_attacks(piece, color, from);
        assert(has_bit(hits, from) == (has_bit(attackers, from) && covers(
            piece,
            color,
            king,
            from,
        )));
        if has_bit(attackers, from) {
            let seen = CheckState { attacked: state.attacked | mask, ..state };
            if king != 0 && mask & king == king {
                lemma_leaper_scan_recorded(
                    note_check(seen, bit(from)),
                    piece,
                    color,
                    king,
                    attackers,
                    hits,
                    from + 1,
                );
            } else {
                lemma_leaper_scan_recorded(seen, piece, color, king, attackers, hits, from + 1);
            }
        } else {
            lemma_leaper_scan_recorded(state, piece, color, king, attackers, hits, from + 1);
        }
    }
}

/// What the set of the kings, pawns or knights that attack the king holds.
pub proof fn lemma_leaper_checkers(position: Position, piece: Piece, square: int)
    ensures
        has_bit(leaper_checkers(position, piece), square) == (0 <= square < 64 && position.bitboard(
            Piece::King,
            position.color,
        ) != 0 && has_bit(position.bitboard(piece, position.color.opposite()), square)
            && leaper_attacks(piece, position.color.opposite(), square) & position.bitboard(
            Piece::King,
            position.color,
        ) == position.bitboard(Piece::King, position.color)),
{
    let other = position.color.opposite();
    let king = position.bitboard(Piece::King, position.color);
    lemma_squares_where_member(
        |square: int|
            king != 0 && has_bit(position.bitboard(piece, other), square) && leaper_attacks(
                piece,
                other,
                square,
            ) & king == king,
        square,
    );
}

/// The check flags count the checks: the side to move is in check exactly
/// when at least one enemy piece attacks its king, and in double check
/// exactly when at least two do, each piece counted by itself.
pub proof fn lemma_flags_count_checks(position: Position)
    ensures
        check_state(position).check == (checks(position) >= 1),
        check_state(position).double_check == (checks(position) >= 2),
{
    let color = position.color;
    let other = color.opposite();
    let king = position.bitboard(Piece::King, color);
    lemma_pins_checks_recorded(clear_state(), position, Piece::Rook);
    let straight = pins_checks(clear_state(), position, Piece::Rook);
    lemma_pins_checks_recorded(straight, position, Piece::Bishop);
    let lined = pins_checks(straight, position, Piece::Bishop);
    let kings = position.bitboard(Piece::King, other);
    let pawns = position.bitboard(Piece::Pawn, other);
    let knights = position.bitboard(Piece::Knight, other);
    assert forall|piece: Piece, square: int| 0 <= square < 64 implies #[trigger] has_bit(
        leaper_checkers(position, piece),
        square,
    ) == (has_bit(position.bitboard(piece, other), square) && covers(piece, other, king, square)) by {
        lemma_leaper_checkers(position, piece, square);
    }
    lemma_leaper_scan_recorded(
        lined,
        Piece::King,
        other,
        king,
        kings,
        leaper_checkers(position, Piece::King),
        0,
    );
    let crowned = leaper_scan(lined, Piece::King, other, king, kings, 0);
    lemma_leaper_scan_recorded(
        crowned,
        Piece::Pawn,
        other,
        king,
        pawns,
        leaper_checkers(position, Piece::Pawn),
        0,
    );
    let pawned = leaper_scan(crowned, Piece::Pawn, other, king, pawns, 0);
    lemma_leaper_scan_recorded(
        pawned,
        Piece::Knight,
        other,
        king,
        knights,
        leaper_checkers(position, Piece::Knight),
        0,
    );
    lemma_count_split(leaper_checkers(position, Piece::King), 0);
    lemma_count_split(leaper_checkers(position, Piece::Pawn), 0);
    lemma_count_split(leaper_checkers(position, Piece::Knight), 0);
}

/// Two checks leave the king alone to move: where at least two enemy
/// pieces attack the king of the side to move, of whatever kinds, every
/// move that is generated for a sound position is a king's move.
pub proof fn lemma_two_checks_king_only(position: Position)
    requires
        position.wf(),
        checks(position) >= 2,
    ensures
        all_of_kind(all_moves(position), Piece::King),
{
    lemma_flags_count_checks(position);
    lemma_double_check_king_only(position);
}

} // verus!
