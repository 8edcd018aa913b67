//! What holds of every generated move: a sound position admits it, so that
//! it can be played and taken back exactly; the king never moves onto an
//! attacked square; and in double check only the king moves.

use super::attack::{bishop_attacks, is_neighbor, is_pawn_capture, king_attacks, knight_attacks};
use super::attack::{pawn_attacks, rook_attacks, slider_attacks};
use super::defs::{castle_right_for, is_castle, is_promotion, lemma_moves_to_member, move_kind};
use super::defs::{move_with, moves_for, moves_to, Move, PAWN_PROMOTION_RANK};
use super::extra::{check_state, clear_state, leaper_attacks, leaper_scan, note_check};
use super::extra::{pins_checks, slider_checks, slider_scan, CheckState};
use super::{all_moves, castle_moves, castle_open, castle_targets, enpassant_from, enpassant_moves};
use super::{enpassant_pawns, lemma_masks, moves_in, pawn_moves, pawn_targets, piece_moves};
use super::{piece_targets, CASTLE_ATTACK, CASTLE_EMPTY, CASTLE_KING_INDEX, CASTLE_RIGHTS};
use super::PAWN_DOUBLE_PUSH_RANK;
use crate::bitboard::{bit, group_has_bit, has_bit, lemma_has_bit_shift8, lemma_lsb, lsb, Bitboard};
use crate::bitboard::lemma_squares_where_member;
use crate::board::{holds_right, king_home, king_landing, on_second_rank, right_index};
use crate::board::{right_side, rook_landing, Position};
use crate::color::Color;
use crate::piece::Piece;
use vstd::prelude::*;

verus! {

/// Whether a king's move of two squares is castling as the position allows
/// it: from the king's home square to the landing square of a right that
/// the side to move holds, with the squares between king and rook vacant.
pub open spec fn castle_fits(position: Position, square: int, target: int) -> bool {
    let index = right_index(castle_right_for(position.color, square, target));
    &&& holds_right(position.castle_rights, index)
    &&& square == king_home(position.color)
    &&& target == king_landing(index)
    &&& position.vacant(king_landing(index))
    &&& position.vacant(rook_landing(index))
    &&& (index == 0 ==> position.vacant(1))
    &&& (index == 2 ==> position.vacant(57))
}

/// Whether a pawn's move of sixteen squares is a double step as the
/// position allows it.
pub open spec fn double_step_fits(position: Position, square: int, target: int) -> bool {
    &&& target == square + 2 * position.color.push()
    &&& on_second_rank(position.color, square)
    &&& position.vacant(square + position.color.push())
    &&& position.vacant(target)
}

/// Whether the move of `piece` from `square` to `target` fits the position:
/// a piece of that kind of the side to move stands on `square`, no piece of
/// that side stands on `target`, a king's move of two squares is castling,
/// and a pawn's move of sixteen squares is a double step.
pub open spec fn fits(position: Position, piece: Piece, square: int, target: int) -> bool {
    &&& 0 <= square < 64
    &&& 0 <= target < 64
    &&& position.has(piece.index(), position.color, square)
    &&& !has_bit(position.colors[position.color.index()], target)
    &&& (is_castle(piece, square, target) ==> castle_fits(position, square, target))
    &&& (piece == Piece::Pawn && (target - square == 16 || square - target == 16)
        ==> double_step_fits(position, square, target))
}

/// Whether a sound position admits every move of a list, and every move of
/// the list moves a piece of the given kind.
pub open spec fn all_admitted(position: Position, list: Seq<Move>) -> bool {
    forall|i: int| 0 <= i < list.len() ==> position.admits(#[trigger] list[i])
}

/// Whether every move of a list moves a piece of one kind.
pub open spec fn all_of_kind(list: Seq<Move>, piece: Piece) -> bool {
    forall|i: int| 0 <= i < list.len() ==> (#[trigger] list[i]).moved_piece() == piece.index()
}

/// A move that fits a sound position is admitted by it.
#[verifier::rlimit(40)]
pub proof fn lemma_move_with_fits(
    position: Position,
    piece: Piece,
    square: int,
    target: int,
    promotion: int,
)
    requires
        position.wf(),
        fits(position, piece, square, target),
        is_promotion(position, piece, target) ==> 2 <= promotion < 6,
        !is_promotion(position, piece, target) ==> promotion == 0,
    ensures
        position.admits(move_with(position, piece, square, target, promotion)),
        move_with(position, piece, square, target, promotion).moved_piece() == piece.index(),
{
    broadcast use group_has_bit;

    lemma_masks(target);
    let right = if is_castle(piece, square, target) {
        castle_right_for(position.color, square, target)
    } else {
        0
    };
    assert(PAWN_PROMOTION_RANK[0] == 0xff00000000000000 && PAWN_PROMOTION_RANK[1]
        == 0x00000000000000ff);
    assert(position.enpassant_ok());
    Move::lemma_packed(
        piece.index(),
        square,
        target,
        move_kind(position, piece, square, target),
        promotion,
        right,
    );
    assert(position.square_ok(square));
    assert(position.square_ok(target));
}

/// The moves generated for a target that fits are admitted.
pub proof fn lemma_moves_for_fit(position: Position, piece: Piece, square: int, target: int)
    requires
        position.wf(),
        fits(position, piece, square, target),
    ensures
        all_admitted(position, moves_for(position, piece, square, target)),
        all_of_kind(moves_for(position, piece, square, target), piece),
{
    if is_promotion(position, piece, target) {
        lemma_move_with_fits(position, piece, square, target, 5);
        lemma_move_with_fits(position, piece, square, target, 4);
        lemma_move_with_fits(position, piece, square, target, 3);
        lemma_move_with_fits(position, piece, square, target, 2);
    } else {
        lemma_move_with_fits(position, piece, square, target, 0);
    }
}

/// The moves generated for targets that all fit are admitted.
pub proof fn lemma_moves_to_fit(position: Position, piece: Piece, square: int, targets: Bitboard)
    requires
        position.wf(),
        forall|target: int| has_bit(targets, target) ==> fits(position, piece, square, target),
    ensures
        all_admitted(position, moves_to(position, piece, square, targets, 0)),
        all_of_kind(moves_to(position, piece, square, targets, 0), piece),
{
    let list = moves_to(position, piece, square, targets, 0);
    assert forall|i: int| 0 <= i < list.len() implies position.admits(#[trigger] list[i])
        && list[i].moved_piece() == piece.index() by {
        let found = lemma_moves_to_member(position, piece, square, targets, 0, i);
        lemma_moves_for_fit(position, piece, square, found.0);
        assert(position.admits(moves_for(position, piece, square, found.0)[found.1]));
    }
}

/// Two lists of admitted moves make a list of admitted moves.
pub proof fn lemma_joined(position: Position, first: Seq<Move>, second: Seq<Move>)
    requires
        all_admitted(position, first),
        all_admitted(position, second),
    ensures
        all_admitted(position, first + second),
{
    assert forall|i: int| 0 <= i < (first + second).len() implies position.admits(
        #[trigger] (first + second)[i],
    ) by {
        if i < first.len() {
            assert((first + second)[i] == first[i]);
        } else {
            assert((first + second)[i] == second[i - first.len()]);
        }
    }
}

/// Two lists of moves of one kind make a list of moves of that kind.
pub proof fn lemma_joined_kind(first: Seq<Move>, second: Seq<Move>, piece: Piece)
    requires
        all_of_kind(first, piece),
        all_of_kind(second, piece),
    ensures
        all_of_kind(first + second, piece),
{
    assert forall|i: int| 0 <= i < (first + second).len() implies (#[trigger] (first
        + second)[i]).moved_piece() == piece.index() by {
        if i < first.len() {
            assert((first + second)[i] == first[i]);
        } else {
            assert((first + second)[i] == second[i - first.len()]);
        }
    }
}

/// Every target of a piece other than a pawn fits.
pub proof fn lemma_piece_targets_fit(
    state: CheckState,
    position: Position,
    piece: Piece,
    square: int,
    target: int,
)
    requires
        position.wf(),
        piece != Piece::Pawn,
        0 <= square < 64,
        state.pin_rays.len() == 64,
        has_bit(position.bitboard(piece, position.color), square),
        has_bit(piece_targets(state, position, piece, square), target),
    ensures
        fits(position, piece, square, target),
{
    broadcast use group_has_bit;

    if piece == Piece::King {
        lemma_squares_where_member(|t: int| is_neighbor(square, t), target);
    }
}

/// The moves of the pieces of one kind other than pawns are admitted.
pub proof fn lemma_piece_moves_fit(
    state: CheckState,
    position: Position,
    piece: Piece,
    pieces: Bitboard,
    from: int,
)
    requires
        position.wf(),
        piece != Piece::Pawn,
        state.pin_rays.len() == 64,
        0 <= from,
        pieces == position.bitboard(piece, position.color),
    ensures
        all_admitted(position, piece_moves(state, position, piece, pieces, from)),
        all_of_kind(piece_moves(state, position, piece, pieces, from), piece),
    decreases 64 - from,
{
    if from < 64 {
        lemma_piece_moves_fit(state, position, piece, pieces, from + 1);
        if has_bit(pieces, from) {
            let targets = piece_targets(state, position, piece, from);
            assert forall|target: int| has_bit(targets, target) implies fits(
                position,
                piece,
                from,
                target,
            ) by {
                lemma_piece_targets_fit(state, position, piece, from, target);
            }
            lemma_moves_to_fit(position, piece, from, targets);
            lemma_joined(
                position,
                moves_to(position, piece, from, targets, 0),
                piece_moves(state, position, piece, pieces, from + 1),
            );
            lemma_joined_kind(
                moves_to(position, piece, from, targets, 0),
                piece_moves(state, position, piece, pieces, from + 1),
                piece,
            );
        }
    }
}

/// Every target of a pawn fits.
#[verifier::rlimit(40)]
pub proof fn lemma_pawn_targets_fit(
    state: CheckState,
    position: Position,
    square: int,
    target: int,
)
    requires
        position.wf(),
        0 <= square < 64,
        state.pin_rays.len() == 64,
        has_bit(position.bitboard(Piece::Pawn, position.color), square),
        has_bit(pawn_targets(state, position, square), target),
    ensures
        fits(position, Piece::Pawn, square, target),
{
    broadcast use group_has_bit;

    let color = position.color;
    let empty = !position.occupancy();
    let one_step = bit(square + color.push()) & empty;
    assert(position.square_ok(square));
    assert(position.square_ok(target));
    assert(PAWN_DOUBLE_PUSH_RANK[0] == 0x00000000ff000000 && PAWN_DOUBLE_PUSH_RANK[1]
        == 0x000000ff00000000);
    lemma_masks(target);
    lemma_has_bit_shift8(one_step, target);
    lemma_squares_where_member(|t: int| is_pawn_capture(color, square, t), target);
}

/// The moves of the pawns are admitted.
pub proof fn lemma_pawn_moves_fit(
    state: CheckState,
    position: Position,
    pawns: Bitboard,
    from: int,
)
    requires
        position.wf(),
        state.pin_rays.len() == 64,
        0 <= from,
        pawns == position.bitboard(Piece::Pawn, position.color),
    ensures
        all_admitted(position, pawn_moves(state, position, pawns, from)),
        all_of_kind(pawn_moves(state, position, pawns, from), Piece::Pawn),
    decreases 64 - from,
{
    if from < 64 {
        lemma_pawn_moves_fit(state, position, pawns, from + 1);
        if has_bit(pawns, from) {
            let targets = pawn_targets(state, position, from);
            assert forall|target: int| has_bit(targets, target) implies fits(
                position,
                Piece::Pawn,
                from,
                target,
            ) by {
                lemma_pawn_targets_fit(state, position, from, target);
            }
            lemma_moves_to_fit(position, Piece::Pawn, from, targets);
            lemma_joined(
                position,
                moves_to(position, Piece::Pawn, from, targets, 0),
                pawn_moves(state, position, pawns, from + 1),
            );
            lemma_joined_kind(
                moves_to(position, Piece::Pawn, from, targets, 0),
                pawn_moves(state, position, pawns, from + 1),
                Piece::Pawn,
            );
        }
    }
}

/// The en-passant captures of the pawns that attack the en-passant square
/// are admitted.
pub proof fn lemma_enpassant_from_fit(
    state: CheckState,
    position: Position,
    pawns: Bitboard,
    from: int,
)
    requires
        position.wf(),
        position.enpassant is Some,
        0 <= from,
        forall|j: int|
            has_bit(pawns, j) ==> has_bit(
                position.bitboard(Piece::Pawn, position.color) & pawn_attacks(
                    position.color.opposite(),
                    position.enpassant->0 as int,
                ),
                j,
            ),
    ensures
        all_admitted(position, enpassant_from(state, position, pawns, from)),
        all_of_kind(enpassant_from(state, position, pawns, from), Piece::Pawn),
    decreases 64 - from,
{
    broadcast use group_has_bit;

    if from < 64 {
        lemma_enpassant_from_fit(state, position, pawns, from + 1);
        if has_bit(pawns, from) && state.pin_rays[from] == 0 {
            let goal = position.enpassant->0 as int;
            let targets = bit(goal);
            assert(position.enpassant_ok());
            assert forall|target: int| has_bit(targets, target) implies fits(
                position,
                Piece::Pawn,
                from,
                target,
            ) by {
                lemma_squares_where_member(
                    |t: int| is_pawn_capture(position.color.opposite(), goal, t),
                    from,
                );
            }
            lemma_moves_to_fit(position, Piece::Pawn, from, targets);
            lemma_joined(
                position,
                moves_to(position, Piece::Pawn, from, targets, 0),
                enpassant_from(state, position, pawns, from + 1),
            );
            lemma_joined_kind(
                moves_to(position, Piece::Pawn, from, targets, 0),
                enpassant_from(state, position, pawns, from + 1),
                Piece::Pawn,
            );
        }
    }
}

/// Every landing square that is found for castling belongs to a right of
/// the side to move that it holds and may exercise.
pub proof fn lemma_castle_targets(
    state: CheckState,
    position: Position,
    rights: Bitboard,
    from: int,
    targets: Bitboard,
    target: int,
)
    requires
        0 <= from,
        has_bit(castle_targets(state, position, rights, from, targets), target),
    ensures
        has_bit(targets, target) || exists|index: int|
            from <= index < 4 && has_bit(rights, index) && castle_open(state, position, index)
                && target == #[trigger] king_landing(index),
    decreases 64 - from,
{
    broadcast use group_has_bit;

    if from < 64 {
        if has_bit(rights, from) && castle_open(state, position, from) {
            assert(CASTLE_KING_INDEX[0] == 2 && CASTLE_KING_INDEX[1] == 6 && CASTLE_KING_INDEX[2]
                == 58 && CASTLE_KING_INDEX[3] == 62);
            lemma_castle_targets(
                state,
                position,
                rights,
                from + 1,
                targets | bit(CASTLE_KING_INDEX[from] as int),
                target,
            );
            if !has_bit(targets, target) && target != king_landing(from) {
                let index = choose|index: int|
                    from + 1 <= index < 4 && has_bit(rights, index) && castle_open(
                        state,
                        position,
                        index,
                    ) && target == #[trigger] king_landing(index);
                assert(target == king_landing(index));
            } else if !has_bit(targets, target) {
                assert(target == king_landing(from));
            }
        } else {
            lemma_castle_targets(state, position, rights, from + 1, targets, target);
            if !has_bit(targets, target) {
                let index = choose|index: int|
                    from + 1 <= index < 4 && has_bit(rights, index) && castle_open(
                        state,
                        position,
                        index,
                    ) && target == #[trigger] king_landing(index);
                assert(target == king_landing(index));
            }
        }
    }
}

/// The castling moves are admitted.
#[verifier::rlimit(40)]
pub proof fn lemma_castle_moves_fit(state: CheckState, position: Position)
    requires
        position.wf(),
    ensures
        all_admitted(position, castle_moves(state, position)),
        all_of_kind(castle_moves(state, position), Piece::King),
{
    broadcast use group_has_bit;

    let color = position.color;
    let king = position.bitboard(Piece::King, color);
    let rights = CASTLE_RIGHTS[color.index()] & (position.castle_rights as u64);
    let targets = castle_targets(state, position, rights, 0, 0);
    if !(state.check || targets == 0 || king == 0) {
        lemma_lsb(king);
        let square = lsb(king);
        assert(position.square_ok(square));
        assert(CASTLE_RIGHTS[0] == 0b0011 && CASTLE_RIGHTS[1] == 0b1100);
        assert(CASTLE_EMPTY[0] == 0x000000000000000e && CASTLE_EMPTY[1] == 0x0000000000000060
            && CASTLE_EMPTY[2] == 0x0e00000000000000 && CASTLE_EMPTY[3] == 0x6000000000000000);
        assert forall|target: int| has_bit(targets, target) implies fits(
            position,
            Piece::King,
            square,
            target,
        ) by {
            lemma_castle_targets(state, position, rights, 0, 0, target);
            let index = choose|index: int|
                0 <= index < 4 && has_bit(rights, index) && castle_open(state, position, index)
                    && target == #[trigger] king_landing(index);
            lemma_masks(index);
            lemma_masks(1);
            lemma_masks(2);
            lemma_masks(3);
            lemma_masks(5);
            lemma_masks(6);
            lemma_masks(57);
            lemma_masks(58);
            lemma_masks(59);
            lemma_masks(61);
            lemma_masks(62);
            let open = !position.occupancy() & CASTLE_EMPTY[index];
            assert(open == CASTLE_EMPTY[index]);
            assert(holds_right(position.castle_rights, index));
            assert(right_side(index) == color);
            assert(square == king_home(color));
            assert(has_bit(open, king_landing(index)));
            assert(has_bit(open, rook_landing(index)));
            if index == 0 {
                assert(has_bit(open, 1));
            }
            if index == 2 {
                assert(has_bit(open, 57));
            }
        }
        lemma_moves_to_fit(position, Piece::King, square, targets);
    }
}

/// A check that follows a check is a double check, and there is no double
/// check without a check.
pub open spec fn flags_ok(state: CheckState) -> bool {
    state.double_check ==> state.check
}

/// Counting sliders as checks keeps the flags in order.
proof fn lemma_slider_checks_flags(
    state: CheckState,
    piece: Piece,
    attack: Bitboard,
    occupancy: Bitboard,
    attackers: Bitboard,
    from: int,
)
    requires
        flags_ok(state),
        state.pin_rays.len() == 64,
    ensures
        flags_ok(slider_checks(state, piece, attack, occupancy, attackers, from)),
        slider_checks(state, piece, attack, occupancy, attackers, from).pin_rays.len() == 64,
    decreases 64 - from,
{
    if !(from < 0 || from >= 64 || state.double_check) {
        if has_bit(attackers, from) {
            lemma_slider_checks_flags(
                note_check(
                    state,
                    (attack & slider_attacks(piece, from, occupancy)) | bit(from),
                ),
                piece,
                attack,
                occupancy,
                attackers,
                from + 1,
            );
        } else {
            lemma_slider_checks_flags(state, piece, attack, occupancy, attackers, from + 1);
        }
    }
}

/// Pinning keeps one pin line for each square.
proof fn lemma_slider_pins_len(
    pins: Seq<Bitboard>,
    piece: Piece,
    king_xray: Bitboard,
    attack: Bitboard,
    allies: Bitboard,
    blockers: Bitboard,
    occupancy: Bitboard,
    pinners: Bitboard,
    from: int,
)
    requires
        pins.len() == 64,
    ensures
        super::extra::slider_pins(
            pins,
            piece,
            king_xray,
            attack,
            allies,
            blockers,
            occupancy,
            pinners,
            from,
        ).len() == 64,
    decreases 64 - from,
{
    if !(from < 0 || from >= 64) {
        if has_bit(pinners, from) {
            let pinned = super::extra::pinned_by(piece, attack, blockers, occupancy, from);
            let line = super::extra::pin_ray(piece, king_xray, attack, allies, occupancy, from);
            let next = if pinned != 0 {
                pins.update(lsb(pinned), pins[lsb(pinned)] | line)
            } else {
                pins
            };
            lemma_slider_pins_len(
                next,
                piece,
                king_xray,
                attack,
                allies,
                blockers,
                occupancy,
                pinners,
                from + 1,
            );
        } else {
            lemma_slider_pins_len(
                pins,
                piece,
                king_xray,
                attack,
                allies,
                blockers,
                occupancy,
                pinners,
                from + 1,
            );
        }
    }
}

/// Finding checks and pins along lines keeps the flags in order.
proof fn lemma_pins_checks_flags(state: CheckState, position: Position, piece: Piece)
    requires
        flags_ok(state),
        state.pin_rays.len() == 64,
    ensures
        flags_ok(pins_checks(state, position, piece)),
        pins_checks(state, position, piece).pin_rays.len() == 64,
{
    let color = position.color;
    let king = position.bitboard(Piece::King, color);
    if king != 0 {
        let occupancy = position.occupancy();
        let allies = position.allies(color);
        let attackers = position.bitboard(Piece::Queen, color.opposite()) | position.bitboard(
            piece,
            color.opposite(),
        );
        let attack = slider_attacks(piece, lsb(king), occupancy);
        lemma_slider_checks_flags(state, piece, attack, occupancy, attack & attackers, 0);
        let checked = if attackers > 0 {
            slider_checks(state, piece, attack, occupancy, attack & attackers, 0)
        } else {
            state
        };
        let blockers = allies & attack;
        let king_xray = attack ^ slider_attacks(
            piece,
            lsb(king),
            occupancy ^ blockers,
        );
        lemma_slider_pins_len(
            checked.pin_rays,
            piece,
            king_xray,
            attack,
            allies,
            blockers,
            occupancy,
            king_xray & attackers,
            0,
        );
    }
}

/// Looking at pawns or knights keeps the flags in order.
proof fn lemma_leaper_scan_flags(
    state: CheckState,
    piece: Piece,
    color: Color,
    king: Bitboard,
    attackers: Bitboard,
    from: int,
)
    requires
        flags_ok(state),
        state.pin_rays.len() == 64,
    ensures
        flags_ok(leaper_scan(state, piece, color, king, attackers, from)),
        leaper_scan(state, piece, color, king, attackers, from).pin_rays.len() == 64,
    decreases 64 - from,
{
    if !(from < 0 || from >= 64) {
        if has_bit(attackers, from) {
            let mask = leaper_attacks(piece, color, from);
            let seen = CheckState { attacked: state.attacked | mask, ..state };
            if king != 0 && mask & king == king {
                lemma_leaper_scan_flags(
                    note_check(seen, bit(from)),
                    piece,
                    color,
                    king,
                    attackers,
                    from + 1,
                );
            } else {
                lemma_leaper_scan_flags(seen, piece, color, king, attackers, from + 1);
            }
        } else {
            lemma_leaper_scan_flags(state, piece, color, king, attackers, from + 1);
        }
    }
}

/// In the check and pin state of a position there is no double check
/// without a check, and every square has its pin line.
pub proof fn lemma_check_state_flags(position: Position)
    ensures
        flags_ok(check_state(position)),
        check_state(position).pin_rays.len() == 64,
{
    let color = position.color;
    let other = color.opposite();
    let king = position.bitboard(Piece::King, color);
    let enemy_king = position.bitboard(Piece::King, other);
    lemma_pins_checks_flags(clear_state(), position, Piece::Rook);
    let straight = pins_checks(clear_state(), position, Piece::Rook);
    lemma_pins_checks_flags(straight, position, Piece::Bishop);
    let lined = pins_checks(straight, position, Piece::Bishop);
    lemma_leaper_scan_flags(lined, Piece::King, other, king, enemy_king, 0);
    let crowned = leaper_scan(lined, Piece::King, other, king, enemy_king, 0);
    lemma_leaper_scan_flags(
        crowned,
        Piece::Pawn,
        other,
        king,
        position.bitboard(Piece::Pawn, other),
        0,
    );
    let pawned = leaper_scan(
        crowned,
        Piece::Pawn,
        other,
        king,
        position.bitboard(Piece::Pawn, other),
        0,
    );
    lemma_leaper_scan_flags(
        pawned,
        Piece::Knight,
        other,
        king,
        position.bitboard(Piece::Knight, other),
        0,
    );
}

/// A sound position admits every move that is generated for it in any
/// check and pin state.
pub proof fn lemma_moves_in_admitted(state: CheckState, position: Position)
    requires
        position.wf(),
        state.pin_rays.len() == 64,
    ensures
        all_admitted(position, moves_in(state, position)),
{
    let color = position.color;
    let k = piece_moves(state, position, Piece::King, position.bitboard(Piece::King, color), 0);
    let c = castle_moves(state, position);
    let p = pawn_moves(state, position, position.bitboard(Piece::Pawn, color), 0);
    let e = enpassant_moves(state, position);
    let n = piece_moves(
        state,
        position,
        Piece::Knight,
        position.bitboard(Piece::Knight, color),
        0,
    );
    let b = piece_moves(
        state,
        position,
        Piece::Bishop,
        position.bitboard(Piece::Bishop, color),
        0,
    );
    let r = piece_moves(state, position, Piece::Rook, position.bitboard(Piece::Rook, color), 0);
    let q = piece_moves(state, position, Piece::Queen, position.bitboard(Piece::Queen, color), 0);
    lemma_piece_moves_fit(state, position, Piece::King, position.bitboard(Piece::King, color), 0);
    lemma_castle_moves_fit(state, position);
    lemma_pawn_moves_fit(state, position, position.bitboard(Piece::Pawn, color), 0);
    if position.enpassant is Some {
        broadcast use group_has_bit;

        lemma_enpassant_from_fit(state, position, enpassant_pawns(state, position), 0);
    }
    lemma_piece_moves_fit(
        state,
        position,
        Piece::Knight,
        position.bitboard(Piece::Knight, color),
        0,
    );
    lemma_piece_moves_fit(
        state,
        position,
        Piece::Bishop,
        position.bitboard(Piece::Bishop, color),
        0,
    );
    lemma_piece_moves_fit(state, position, Piece::Rook, position.bitboard(Piece::Rook, color), 0);
    lemma_piece_moves_fit(state, position, Piece::Queen, position.bitboard(Piece::Queen, color), 0);
    let none = Seq::<Move>::empty();
    lemma_joined(position, none, k);
    lemma_joined(position, none + k, c);
    let kings = (none + k) + c;
    lemma_joined(position, kings, p);
    lemma_joined(position, kings + p, e);
    lemma_joined(position, (kings + p) + e, n);
    lemma_joined(position, ((kings + p) + e) + n, b);
    lemma_joined(position, (((kings + p) + e) + n) + b, r);
    lemma_joined(position, ((((kings + p) + e) + n) + b) + r, q);
}

/// A sound position admits each of its legal moves: each can be played,
/// and taken back again.
pub proof fn lemma_all_moves_admitted(position: Position)
    requires
        position.wf(),
    ensures
        all_admitted(position, all_moves(position)),
{
    lemma_check_state_flags(position);
    lemma_moves_in_admitted(check_state(position), position);
}

/// Every legal move of a sound position can be played and taken back, and
/// taking it back restores the position exactly: the piece sets and side
/// sets, the side to move, the castling rights, the en-passant square and
/// the history.
pub proof fn lemma_generated_move_is_taken_back(position: Position, i: int)
    requires
        position.wf(),
        0 <= i < all_moves(position).len(),
    ensures
        position.admits(all_moves(position)[i]),
        position.make(all_moves(position)[i]).wf(),
        position.make(all_moves(position)[i]).undo() == position,
{
    lemma_all_moves_admitted(position);
    crate::board::lemma_make_sound(position, all_moves(position)[i]);
    crate::board::lemma_undo_restores(position, all_moves(position)[i]);
}

/// In double check only the king moves: every move that is generated for a
/// position whose check and pin state holds a double check is a king's move.
pub proof fn lemma_double_check_king_only(position: Position)
    requires
        position.wf(),
        check_state(position).double_check,
    ensures
        all_of_kind(all_moves(position), Piece::King),
{
    let state = check_state(position);
    let color = position.color;
    lemma_check_state_flags(position);
    let k = piece_moves(state, position, Piece::King, position.bitboard(Piece::King, color), 0);
    lemma_piece_moves_fit(state, position, Piece::King, position.bitboard(Piece::King, color), 0);
    assert(castle_moves(state, position) =~= Seq::<Move>::empty());
    assert(all_moves(position) =~= k);
}

/// Whether a piece of the side not to move attacks `target`: its king, a
/// pawn or a knight, or a rook, bishop or queen along a line that is open
/// when the king of the side to move is taken off the board.
pub open spec fn enemy_attacks(position: Position, target: int) -> bool {
    let other = position.color.opposite();
    let bare = position.occupancy() & !position.bitboard(Piece::King, position.color);
    let queens = position.bitboard(Piece::Queen, other);
    let enemy_king = position.bitboard(Piece::King, other);
    ||| exists|from: int|
        has_bit(enemy_king, from) && has_bit(#[trigger] king_attacks(from), target)
    ||| exists|from: int|
        has_bit(position.bitboard(Piece::Pawn, other), from) && has_bit(
            #[trigger] pawn_attacks(other, from),
            target,
        )
    ||| exists|from: int|
        has_bit(position.bitboard(Piece::Knight, other), from) && has_bit(
            #[trigger] knight_attacks(from),
            target,
        )
    ||| exists|from: int|
        has_bit(queens | position.bitboard(Piece::Rook, other), from) && has_bit(
            #[trigger] rook_attacks(from, bare),
            target,
        )
    ||| exists|from: int|
        has_bit(queens | position.bitboard(Piece::Bishop, other), from) && has_bit(
            #[trigger] bishop_attacks(from, bare),
            target,
        )
}

/// Counting sliders as checks leaves the attacked squares alone.
proof fn lemma_slider_checks_attacked(
    state: CheckState,
    piece: Piece,
    attack: Bitboard,
    occupancy: Bitboard,
    attackers: Bitboard,
    from: int,
)
    ensures
        slider_checks(state, piece, attack, occupancy, attackers, from).attacked == state.attacked,
    decreases 64 - from,
{
    if !(from < 0 || from >= 64 || state.double_check) {
        if has_bit(attackers, from) {
            lemma_slider_checks_attacked(
                note_check(state, (attack & slider_attacks(piece, from, occupancy)) | bit(from)),
                piece,
                attack,
                occupancy,
                attackers,
                from + 1,
            );
        } else {
            lemma_slider_checks_attacked(state, piece, attack, occupancy, attackers, from + 1);
        }
    }
}

/// Looking at pawns or knights adds the squares that they attack.
proof fn lemma_leaper_scan_attacked(
    state: CheckState,
    piece: Piece,
    color: Color,
    king: Bitboard,
    attackers: Bitboard,
    from: int,
    target: int,
)
    requires
        0 <= from,
    ensures
        has_bit(leaper_scan(state, piece, color, king, attackers, from).attacked, target)
            == (has_bit(state.attacked, target) || exists|square: int|
            from <= square && has_bit(attackers, square) && has_bit(
                #[trigger] leaper_attacks(piece, color, square),
                target,
            )),
    decreases 64 - from,
{
    broadcast use group_has_bit;

    if from < 64 {
        if has_bit(attackers, from) {
            let mask = leaper_attacks(piece, color, from);
            let seen = CheckState { attacked: state.attacked | mask, ..state };
            if king != 0 && mask & king == king {
                lemma_leaper_scan_attacked(
                    note_check(seen, bit(from)),
                    piece,
                    color,
                    king,
                    attackers,
                    from + 1,
                    target,
                );
            } else {
                lemma_leaper_scan_attacked(
                    seen,
                    piece,
                    color,
                    king,
                    attackers,
                    from + 1,
                    target,
                );
            }
            if has_bit(mask, target) {
                assert(has_bit(leaper_attacks(piece, color, from), target));
            }
        } else {
            lemma_leaper_scan_attacked(state, piece, color, king, attackers, from + 1, target);
        }
    }
}

/// Looking at sliders adds the squares that they attack.
proof fn lemma_slider_scan_attacked(
    attacked: Bitboard,
    piece: Piece,
    occupancy: Bitboard,
    attackers: Bitboard,
    from: int,
    target: int,
)
    requires
        0 <= from,
    ensures
        has_bit(slider_scan(attacked, piece, occupancy, attackers, from), target) == (has_bit(
            attacked,
            target,
        ) || exists|square: int|
            from <= square && has_bit(attackers, square) && has_bit(
                #[trigger] slider_attacks(piece, square, occupancy),
                target,
            )),
    decreases 64 - from,
{
    broadcast use group_has_bit;

    if from < 64 {
        lemma_slider_scan_attacked(
            if has_bit(attackers, from) {
                attacked | slider_attacks(piece, from, occupancy)
            } else {
                attacked
            },
            piece,
            occupancy,
            attackers,
            from + 1,
            target,
        );
        if has_bit(attackers, from) && has_bit(slider_attacks(piece, from, occupancy), target) {
            assert(has_bit(slider_attacks(piece, from, occupancy), target));
        }
    }
}

/// The attacked squares of the check and pin state are the squares that a
/// piece of the side not to move attacks.
#[verifier::rlimit(40)]
pub proof fn lemma_attacked_squares(position: Position, target: int)
    ensures
        has_bit(check_state(position).attacked, target) == enemy_attacks(position, target),
{
    broadcast use group_has_bit;

    let color = position.color;
    let other = color.opposite();
    let king = position.bitboard(Piece::King, color);
    let enemy_king = position.bitboard(Piece::King, other);
    let straight = pins_checks(clear_state(), position, Piece::Rook);
    let lined = pins_checks(straight, position, Piece::Bishop);
    assert(lined.attacked == 0) by {
        lemma_pins_checks_attacked(clear_state(), position, Piece::Rook);
        lemma_pins_checks_attacked(straight, position, Piece::Bishop);
    }
    let crowned = leaper_scan(lined, Piece::King, other, king, enemy_king, 0);
    lemma_leaper_scan_attacked(lined, Piece::King, other, king, enemy_king, 0, target);
    let by_king = exists|from: int|
        has_bit(enemy_king, from) && has_bit(#[trigger] king_attacks(from), target);
    assert(by_king == exists|square: int|
        0 <= square && has_bit(enemy_king, square) && has_bit(
            #[trigger] leaper_attacks(Piece::King, other, square),
            target,
        )) by {
        if by_king {
            let from = choose|from: int|
                has_bit(enemy_king, from) && has_bit(#[trigger] king_attacks(from), target);
            assert(has_bit(leaper_attacks(Piece::King, other, from), target));
        }
        if exists|square: int|
            0 <= square && has_bit(enemy_king, square) && has_bit(
                #[trigger] leaper_attacks(Piece::King, other, square),
                target,
            ) {
            let from = choose|square: int|
                0 <= square && has_bit(enemy_king, square) && has_bit(
                    #[trigger] leaper_attacks(Piece::King, other, square),
                    target,
                );
            assert(has_bit(king_attacks(from), target));
        }
    }
    let pawns = position.bitboard(Piece::Pawn, other);
    let knights = position.bitboard(Piece::Knight, other);
    let pawned = leaper_scan(crowned, Piece::Pawn, other, king, pawns, 0);
    let knighted = leaper_scan(pawned, Piece::Knight, other, king, knights, 0);
    let bare = position.occupancy() & !king;
    let queens = position.bitboard(Piece::Queen, other);
    let rooks = queens | position.bitboard(Piece::Rook, other);
    let bishops = queens | position.bitboard(Piece::Bishop, other);
    let level = slider_scan(knighted.attacked, Piece::Rook, bare, rooks, 0);
    let all = slider_scan(level, Piece::Bishop, bare, bishops, 0);
    lemma_leaper_scan_attacked(crowned, Piece::Pawn, other, king, pawns, 0, target);
    lemma_leaper_scan_attacked(pawned, Piece::Knight, other, king, knights, 0, target);
    lemma_slider_scan_attacked(knighted.attacked, Piece::Rook, bare, rooks, 0, target);
    lemma_slider_scan_attacked(level, Piece::Bishop, bare, bishops, 0, target);
    let by_pawn = exists|from: int|
        has_bit(pawns, from) && has_bit(#[trigger] pawn_attacks(other, from), target);
    let by_knight = exists|from: int|
        has_bit(knights, from) && has_bit(#[trigger] knight_attacks(from), target);
    let by_rook = exists|from: int|
        has_bit(rooks, from) && has_bit(#[trigger] rook_attacks(from, bare), target);
    let by_bishop = exists|from: int|
        has_bit(bishops, from) && has_bit(#[trigger] bishop_attacks(from, bare), target);
    assert(by_pawn == exists|square: int|
        0 <= square && has_bit(pawns, square) && has_bit(
            #[trigger] leaper_attacks(Piece::Pawn, other, square),
            target,
        )) by {
        if by_pawn {
            let from = choose|from: int|
                has_bit(pawns, from) && has_bit(#[trigger] pawn_attacks(other, from), target);
            assert(has_bit(leaper_attacks(Piece::Pawn, other, from), target));
        }
        if exists|square: int|
            0 <= square && has_bit(pawns, square) && has_bit(
                #[trigger] leaper_attacks(Piece::Pawn, other, square),
                target,
            ) {
            let from = choose|square: int|
                0 <= square && has_bit(pawns, square) && has_bit(
                    #[trigger] leaper_attacks(Piece::Pawn, other, square),
                    target,
                );
            assert(has_bit(pawn_attacks(other, from), target));
        }
    }
    assert(by_knight == exists|square: int|
        0 <= square && has_bit(knights, square) && has_bit(
            #[trigger] leaper_attacks(Piece::Knight, other, square),
            target,
        )) by {
        if by_knight {
            let from = choose|from: int|
                has_bit(knights, from) && has_bit(#[trigger] knight_attacks(from), target);
            assert(has_bit(leaper_attacks(Piece::Knight, other, from), target));
        }
        if exists|square: int|
            0 <= square && has_bit(knights, square) && has_bit(
                #[trigger] leaper_attacks(Piece::Knight, other, square),
                target,
            ) {
            let from = choose|square: int|
                0 <= square && has_bit(knights, square) && has_bit(
                    #[trigger] leaper_attacks(Piece::Knight, other, square),
                    target,
                );
            assert(has_bit(knight_attacks(from), target));
        }
    }
    assert(by_rook == exists|square: int|
        0 <= square && has_bit(rooks, square) && has_bit(
            #[trigger] slider_attacks(Piece::Rook, square, bare),
            target,
        )) by {
        if by_rook {
            let from = choose|from: int|
                has_bit(rooks, from) && has_bit(#[trigger] rook_attacks(from, bare), target);
            assert(has_bit(slider_attacks(Piece::Rook, from, bare), target));
        }
        if exists|square: int|
            0 <= square && has_bit(rooks, square) && has_bit(
                #[trigger] slider_attacks(Piece::Rook, square, bare),
                target,
            ) {
            let from = choose|square: int|
                0 <= square && has_bit(rooks, square) && has_bit(
                    #[trigger] slider_attacks(Piece::Rook, square, bare),
                    target,
                );
            assert(has_bit(rook_attacks(from, bare), target));
        }
    }
    assert(by_bishop == exists|square: int|
        0 <= square && has_bit(bishops, square) && has_bit(
            #[trigger] slider_attacks(Piece::Bishop, square, bare),
            target,
        )) by {
        if by_bishop {
            let from = choose|from: int|
                has_bit(bishops, from) && has_bit(#[trigger] bishop_attacks(from, bare), target);
            assert(has_bit(slider_attacks(Piece::Bishop, from, bare), target));
        }
        if exists|square: int|
            0 <= square && has_bit(bishops, square) && has_bit(
                #[trigger] slider_attacks(Piece::Bishop, square, bare),
                target,
            ) {
            let from = choose|square: int|
                0 <= square && has_bit(bishops, square) && has_bit(
                    #[trigger] slider_attacks(Piece::Bishop, square, bare),
                    target,
                );
            assert(has_bit(bishop_attacks(from, bare), target));
        }
    }
}

/// Finding checks and pins along lines leaves the attacked squares alone.
proof fn lemma_pins_checks_attacked(state: CheckState, position: Position, piece: Piece)
    ensures
        pins_checks(state, position, piece).attacked == state.attacked,
{
    let color = position.color;
    let king = position.bitboard(Piece::King, color);
    if king != 0 {
        let occupancy = position.occupancy();
        let attackers = position.bitboard(Piece::Queen, color.opposite()) | position.bitboard(
            piece,
            color.opposite(),
        );
        let attack = slider_attacks(piece, lsb(king), occupancy);
        lemma_slider_checks_attacked(state, piece, attack, occupancy, attack & attackers, 0);
    }
}

/// Whether a move, if it is the king's, lands on a square that is not
/// among `attacked`.
pub open spec fn king_safe(m: Move, attacked: Bitboard) -> bool {
    m.moved_piece() == 0 ==> !has_bit(attacked, m.target_square())
}

/// Whether every king's move of a list lands on a square that is not among
/// `attacked`.
pub open spec fn all_king_safe(list: Seq<Move>, attacked: Bitboard) -> bool {
    forall|i: int| 0 <= i < list.len() ==> king_safe(#[trigger] list[i], attacked)
}

/// Two lists of safe king moves make a list of safe king moves.
proof fn lemma_joined_safe(first: Seq<Move>, second: Seq<Move>, attacked: Bitboard)
    requires
        all_king_safe(first, attacked),
        all_king_safe(second, attacked),
    ensures
        all_king_safe(first + second, attacked),
{
    assert forall|i: int| 0 <= i < (first + second).len() implies king_safe(
        #[trigger] (first + second)[i],
        attacked,
    ) by {
        if i < first.len() {
            assert((first + second)[i] == first[i]);
        } else {
            assert((first + second)[i] == second[i - first.len()]);
        }
    }
}

/// A list without king moves has no unsafe king move.
proof fn lemma_other_kind_safe(list: Seq<Move>, piece: Piece, attacked: Bitboard)
    requires
        all_of_kind(list, piece),
        piece != Piece::King,
    ensures
        all_king_safe(list, attacked),
{
    assert forall|i: int| 0 <= i < list.len() implies king_safe(#[trigger] list[i], attacked) by {
        assert(list[i].moved_piece() == piece.index());
    }
}

/// King moves to squares that are not attacked are safe.
proof fn lemma_moves_to_safe(
    position: Position,
    square: int,
    targets: Bitboard,
    attacked: Bitboard,
)
    requires
        0 <= square < 64,
        forall|target: int| has_bit(targets, target) ==> !has_bit(attacked, target),
    ensures
        all_king_safe(moves_to(position, Piece::King, square, targets, 0), attacked),
{
    let list = moves_to(position, Piece::King, square, targets, 0);
    assert forall|i: int| 0 <= i < list.len() implies king_safe(#[trigger] list[i], attacked) by {
        let found = lemma_moves_to_member(position, Piece::King, square, targets, 0, i);
        let target = found.0;
        Move::lemma_packed(
            0,
            square,
            target,
            move_kind(position, Piece::King, square, target),
            0,
            if is_castle(Piece::King, square, target) {
                castle_right_for(position.color, square, target)
            } else {
                0
            },
        );
        assert(list[i] == move_with(position, Piece::King, square, target, 0));
    }
}

/// The king's ordinary moves avoid the attacked squares.
proof fn lemma_king_moves_safe(state: CheckState, position: Position, kings: Bitboard, from: int)
    requires
        0 <= from,
    ensures
        all_king_safe(piece_moves(state, position, Piece::King, kings, from), state.attacked),
    decreases 64 - from,
{
    broadcast use group_has_bit;

    if from < 64 {
        lemma_king_moves_safe(state, position, kings, from + 1);
        if has_bit(kings, from) {
            let targets = piece_targets(state, position, Piece::King, from);
            lemma_moves_to_safe(position, from, targets, state.attacked);
            lemma_joined_safe(
                moves_to(position, Piece::King, from, targets, 0),
                piece_moves(state, position, Piece::King, kings, from + 1),
                state.attacked,
            );
        }
    }
}

/// Castling lands on a square that is not attacked.
proof fn lemma_castle_moves_safe(state: CheckState, position: Position)
    ensures
        all_king_safe(castle_moves(state, position), state.attacked),
{
    broadcast use group_has_bit;

    let color = position.color;
    let king = position.bitboard(Piece::King, color);
    let rights = CASTLE_RIGHTS[color.index()] & (position.castle_rights as u64);
    let targets = castle_targets(state, position, rights, 0, 0);
    if !(state.check || targets == 0 || king == 0) {
        lemma_lsb(king);
        assert(CASTLE_ATTACK[0] == 0x000000000000000c && CASTLE_ATTACK[1] == 0x0000000000000060
            && CASTLE_ATTACK[2] == 0x0c00000000000000 && CASTLE_ATTACK[3] == 0x6000000000000000);
        assert forall|target: int| has_bit(targets, target) implies !has_bit(
            state.attacked,
            target,
        ) by {
            lemma_castle_targets(state, position, rights, 0, 0, target);
            let index = choose|index: int|
                0 <= index < 4 && has_bit(rights, index) && castle_open(state, position, index)
                    && target == #[trigger] king_landing(index);
            lemma_masks(target);
            let safe = CASTLE_ATTACK[index] & !state.attacked;
            assert(safe == CASTLE_ATTACK[index]);
            assert(has_bit(safe, target));
        }
        lemma_moves_to_safe(position, lsb(king), targets, state.attacked);
    }
}

/// The king never moves onto an attacked square: no king's move that is
/// generated for a sound position, castling included, lands on a square
/// that a piece of the other side attacks.
pub proof fn lemma_king_never_steps_into_attack(position: Position, i: int)
    requires
        position.wf(),
        0 <= i < all_moves(position).len(),
        all_moves(position)[i].moved_piece() == 0,
    ensures
        !enemy_attacks(position, all_moves(position)[i].target_square()),
{
    let state = check_state(position);
    let color = position.color;
    let attacked = state.attacked;
    lemma_check_state_flags(position);
    let k = piece_moves(state, position, Piece::King, position.bitboard(Piece::King, color), 0);
    let c = castle_moves(state, position);
    let p = pawn_moves(state, position, position.bitboard(Piece::Pawn, color), 0);
    let e = enpassant_moves(state, position);
    let n = piece_moves(
        state,
        position,
        Piece::Knight,
        position.bitboard(Piece::Knight, color),
        0,
    );
    let b = piece_moves(
        state,
        position,
        Piece::Bishop,
        position.bitboard(Piece::Bishop, color),
        0,
    );
    let r = piece_moves(state, position, Piece::Rook, position.bitboard(Piece::Rook, color), 0);
    let q = piece_moves(state, position, Piece::Queen, position.bitboard(Piece::Queen, color), 0);
    lemma_king_moves_safe(state, position, position.bitboard(Piece::King, color), 0);
    lemma_castle_moves_safe(state, position);
    lemma_pawn_moves_fit(state, position, position.bitboard(Piece::Pawn, color), 0);
    lemma_other_kind_safe(p, Piece::Pawn, attacked);
    if position.enpassant is Some {
        broadcast use group_has_bit;

        lemma_enpassant_from_fit(state, position, enpassant_pawns(state, position), 0);
    }
    lemma_other_kind_safe(e, Piece::Pawn, attacked);
    lemma_piece_moves_fit(
        state,
        position,
        Piece::Knight,
        position.bitboard(Piece::Knight, color),
        0,
    );
    lemma_other_kind_safe(n, Piece::Knight, attacked);
    lemma_piece_moves_fit(
        state,
        position,
        Piece::Bishop,
        position.bitboard(Piece::Bishop, color),
        0,
    );
    lemma_other_kind_safe(b, Piece::Bishop, attacked);
    lemma_piece_moves_fit(state, position, Piece::Rook, position.bitboard(Piece::Rook, color), 0);
    lemma_other_kind_safe(r, Piece::Rook, attacked);
    lemma_piece_moves_fit(state, position, Piece::Queen, position.bitboard(Piece::Queen, color), 0);
    lemma_other_kind_safe(q, Piece::Queen, attacked);
    let none = Seq::<Move>::empty();
    lemma_joined_safe(none, k, attacked);
    lemma_joined_safe(none + k, c, attacked);
    let kings = (none + k) + c;
    lemma_joined_safe(kings, p, attacked);
    lemma_joined_safe(kings + p, e, attacked);
    lemma_joined_safe((kings + p) + e, n, attacked);
    lemma_joined_safe(((kings + p) + e) + n, b, attacked);
    lemma_joined_safe((((kings + p) + e) + n) + b, r, attacked);
    lemma_joined_safe(((((kings + p) + e) + n) + b) + r, q, attacked);
    assert(king_safe(all_moves(position)[i], attacked));
    lemma_attacked_squares(position, all_moves(position)[i].target_square());
}

/// Whether a move keeps to what a check and a pin allow. The king's moves
/// are not bound by them. An en-passant capture is made by a pawn that is
/// not pinned, and in check the pawn that it captures stands where the
/// check is answered. Any other move lands, in check, where the check is
/// answered, and, for a pinned piece, on the line of its pin.
pub open spec fn keeps_to(state: CheckState, color: Color, m: Move) -> bool {
    let start = m.start_square();
    let target = m.target_square();
    m.moved_piece() != 0 ==> if m.move_type() == 1 {
        &&& state.pin_rays[start] == 0
        &&& (state.check ==> has_bit(state.check_ray, target - color.push()))
    } else {
        &&& (state.check ==> has_bit(state.check_ray, target))
        &&& (state.pin_rays[start] != 0 ==> has_bit(state.pin_rays[start], target))
    }
}

/// Whether every move of a list keeps to what a check and a pin allow.
pub open spec fn all_keep_to(list: Seq<Move>, state: CheckState, color: Color) -> bool {
    forall|i: int| 0 <= i < list.len() ==> keeps_to(state, color, #[trigger] list[i])
}

proof fn lemma_joined_keep(first: Seq<Move>, second: Seq<Move>, state: CheckState, color: Color)
    requires
        all_keep_to(first, state, color),
        all_keep_to(second, state, color),
    ensures
        all_keep_to(first + second, state, color),
{
    assert forall|i: int| 0 <= i < (first + second).len() implies keeps_to(
        state,
        color,
        #[trigger] (first + second)[i],
    ) by {
        if i < first.len() {
            assert((first + second)[i] == first[i]);
        } else {
            assert((first + second)[i] == second[i - first.len()]);
        }
    }
}

proof fn lemma_king_kind_keeps(list: Seq<Move>, state: CheckState, color: Color)
    requires
        all_of_kind(list, Piece::King),
    ensures
        all_keep_to(list, state, color),
{
    assert forall|i: int| 0 <= i < list.len() implies keeps_to(state, color, #[trigger] list[i]) by {
        assert(list[i].moved_piece() == Piece::King.index());
    }
}

/// What a generated move holds: its piece, its squares and its move type.
pub proof fn lemma_moves_for_fields(
    position: Position,
    piece: Piece,
    square: int,
    target: int,
    k: int,
)
    requires
        0 <= square < 64,
        0 <= target < 64,
        0 <= k < moves_for(position, piece, square, target).len(),
    ensures
        ({
            let m = moves_for(position, piece, square, target)[k];
            &&& m.moved_piece() == piece.index()
            &&& m.start_square() == square
            &&& m.target_square() == target
            &&& m.move_type() == move_kind(position, piece, square, target)
        }),
{
    let right = if is_castle(piece, square, target) {
        castle_right_for(position.color, square, target)
    } else {
        0
    };
    let kind = move_kind(position, piece, square, target);
    Move::lemma_packed(piece.index(), square, target, kind, 0, right);
    Move::lemma_packed(piece.index(), square, target, kind, 2, right);
    Move::lemma_packed(piece.index(), square, target, kind, 3, right);
    Move::lemma_packed(piece.index(), square, target, kind, 4, right);
    Move::lemma_packed(piece.index(), square, target, kind, 5, right);
}

proof fn lemma_moves_to_keep(
    state: CheckState,
    position: Position,
    piece: Piece,
    square: int,
    targets: Bitboard,
)
    requires
        0 <= square < 64,
        piece != Piece::King,
        forall|target: int|
            has_bit(targets, target) ==> if move_kind(position, piece, square, target) == 1 {
                state.pin_rays[square] == 0 && (state.check ==> has_bit(
                    state.check_ray,
                    target - position.color.push(),
                ))
            } else {
                (state.check ==> has_bit(state.check_ray, target)) && (state.pin_rays[square] != 0
                    ==> has_bit(state.pin_rays[square], target))
            },
    ensures
        all_keep_to(moves_to(position, piece, square, targets, 0), state, position.color),
{
    let list = moves_to(position, piece, square, targets, 0);
    assert forall|i: int| 0 <= i < list.len() implies keeps_to(
        state,
        position.color,
        #[trigger] list[i],
    ) by {
        let found = lemma_moves_to_member(position, piece, square, targets, 0, i);
        lemma_moves_for_fields(position, piece, square, found.0, found.1);
    }
}

proof fn lemma_piece_moves_keep(
    state: CheckState,
    position: Position,
    piece: Piece,
    pieces: Bitboard,
    from: int,
)
    requires
        piece != Piece::Pawn,
        piece != Piece::King,
        state.pin_rays.len() == 64,
        0 <= from,
    ensures
        all_keep_to(piece_moves(state, position, piece, pieces, from), state, position.color),
    decreases 64 - from,
{
    broadcast use group_has_bit;

    if from < 64 {
        lemma_piece_moves_keep(state, position, piece, pieces, from + 1);
        if has_bit(pieces, from) {
            let targets = piece_targets(state, position, piece, from);
            lemma_moves_to_keep(state, position, piece, from, targets);
            lemma_joined_keep(
                moves_to(position, piece, from, targets, 0),
                piece_moves(state, position, piece, pieces, from + 1),
                state,
                position.color,
            );
        }
    }
}

/// No pawn's push or capture lands on the en-passant square of a sound
/// position.
#[verifier::rlimit(40)]
pub proof fn lemma_pawn_targets_miss_enpassant(
    state: CheckState,
    position: Position,
    square: int,
    target: int,
)
    requires
        position.wf(),
        0 <= square < 64,
        state.pin_rays.len() == 64,
        has_bit(position.bitboard(Piece::Pawn, position.color), square),
        has_bit(pawn_targets(state, position, square), target),
    ensures
        position.enpassant != Some(target as usize),
        move_kind(position, Piece::Pawn, square, target) != 1,
{
    broadcast use group_has_bit;

    let color = position.color;
    let empty = !position.occupancy();
    let one_step = bit(square + color.push()) & empty;
    assert(position.square_ok(square));
    assert(position.square_ok(target));
    assert(position.enpassant_ok());
    assert(PAWN_DOUBLE_PUSH_RANK[0] == 0x00000000ff000000 && PAWN_DOUBLE_PUSH_RANK[1]
        == 0x000000ff00000000);
    assert(PAWN_PROMOTION_RANK[0] == 0xff00000000000000 && PAWN_PROMOTION_RANK[1]
        == 0x00000000000000ff);
    lemma_masks(target);
    lemma_has_bit_shift8(one_step, target);
    lemma_squares_where_member(|t: int| is_pawn_capture(color, square, t), target);
    if position.enpassant is Some {
        assert(position.square_ok(position.enpassant->0 - color.push()));
    }
}

proof fn lemma_pawn_moves_keep(
    state: CheckState,
    position: Position,
    pawns: Bitboard,
    from: int,
)
    requires
        position.wf(),
        state.pin_rays.len() == 64,
        0 <= from,
        pawns == position.bitboard(Piece::Pawn, position.color),
    ensures
        all_keep_to(pawn_moves(state, position, pawns, from), state, position.color),
    decreases 64 - from,
{
    broadcast use group_has_bit;

    if from < 64 {
        lemma_pawn_moves_keep(state, position, pawns, from + 1);
        if has_bit(pawns, from) {
            let targets = pawn_targets(state, position, from);
            assert forall|target: int| has_bit(targets, target) implies move_kind(
                position,
                Piece::Pawn,
                from,
                target,
            ) != 1 by {
                lemma_pawn_targets_miss_enpassant(state, position, from, target);
            }
            lemma_moves_to_keep(state, position, Piece::Pawn, from, targets);
            lemma_joined_keep(
                moves_to(position, Piece::Pawn, from, targets, 0),
                pawn_moves(state, position, pawns, from + 1),
                state,
                position.color,
            );
        }
    }
}

proof fn lemma_enpassant_from_keep(
    state: CheckState,
    position: Position,
    pawns: Bitboard,
    from: int,
)
    requires
        position.wf(),
        position.enpassant is Some,
        state.pin_rays.len() == 64,
        0 <= from,
        state.check ==> has_bit(
            state.check_ray,
            position.enpassant->0 - position.color.push(),
        ),
    ensures
        all_keep_to(enpassant_from(state, position, pawns, from), state, position.color),
    decreases 64 - from,
{
    broadcast use group_has_bit;

    if from < 64 {
        lemma_enpassant_from_keep(state, position, pawns, from + 1);
        if has_bit(pawns, from) && state.pin_rays[from] == 0 {
            let goal = position.enpassant->0 as int;
            let targets = bit(goal);
            assert(position.enpassant_ok());
            assert(PAWN_PROMOTION_RANK[0] == 0xff00000000000000 && PAWN_PROMOTION_RANK[1]
                == 0x00000000000000ff);
            lemma_masks(goal);
            lemma_moves_to_keep(state, position, Piece::Pawn, from, targets);
            lemma_joined_keep(
                moves_to(position, Piece::Pawn, from, targets, 0),
                enpassant_from(state, position, pawns, from + 1),
                state,
                position.color,
            );
        }
    }
}

/// Every move keeps to what the check and the pins allow: no piece but the
/// king moves off the line of its pin, or, in check, to a square that does
/// not answer the check; castling is not played out of check; and a pinned
/// pawn does not capture en passant.
#[verifier::rlimit(40)]
pub proof fn lemma_moves_keep_to_check_and_pin(position: Position, i: int)
    requires
        position.wf(),
        0 <= i < all_moves(position).len(),
    ensures
        keeps_to(check_state(position), position.color, all_moves(position)[i]),
        check_state(position).check && all_moves(position)[i].moved_piece() == 0
            ==> all_moves(position)[i].move_type() != 4,
{
    broadcast use group_has_bit;

    let state = check_state(position);
    let color = position.color;
    lemma_check_state_flags(position);
    let k = piece_moves(state, position, Piece::King, position.bitboard(Piece::King, color), 0);
    let c = castle_moves(state, position);
    let p = pawn_moves(state, position, position.bitboard(Piece::Pawn, color), 0);
    let e = enpassant_moves(state, position);
    let n = piece_moves(
        state,
        position,
        Piece::Knight,
        position.bitboard(Piece::Knight, color),
        0,
    );
    let b = piece_moves(
        state,
        position,
        Piece::Bishop,
        position.bitboard(Piece::Bishop, color),
        0,
    );
    let r = piece_moves(state, position, Piece::Rook, position.bitboard(Piece::Rook, color), 0);
    let q = piece_moves(state, position, Piece::Queen, position.bitboard(Piece::Queen, color), 0);
    lemma_piece_moves_fit(state, position, Piece::King, position.bitboard(Piece::King, color), 0);
    lemma_king_kind_keeps(k, state, color);
    lemma_castle_moves_fit(state, position);
    lemma_king_kind_keeps(c, state, color);
    lemma_pawn_moves_keep(state, position, position.bitboard(Piece::Pawn, color), 0);
    if position.enpassant is Some {
        let pawns = enpassant_pawns(state, position);
        let behind = position.enpassant->0 - color.push();
        assert(position.enpassant_ok());
        if pawns == 0 {
            assert forall|j: int| !has_bit(pawns, j) by {}
            lemma_enpassant_none(state, position, pawns, 0);
        } else {
            if state.check {
                let both = bit(behind) & state.check_ray;
                assert(both != 0);
                lemma_lsb(both);
                assert(has_bit(both, lsb(both)));
            }
            lemma_enpassant_from_keep(state, position, pawns, 0);
        }
    }
    lemma_piece_moves_keep(
        state,
        position,
        Piece::Knight,
        position.bitboard(Piece::Knight, color),
        0,
    );
    lemma_piece_moves_keep(
        state,
        position,
        Piece::Bishop,
        position.bitboard(Piece::Bishop, color),
        0,
    );
    lemma_piece_moves_keep(state, position, Piece::Rook, position.bitboard(Piece::Rook, color), 0);
    lemma_piece_moves_keep(
        state,
        position,
        Piece::Queen,
        position.bitboard(Piece::Queen, color),
        0,
    );
    let none = Seq::<Move>::empty();
    lemma_joined_keep(none, k, state, color);
    lemma_joined_keep(none + k, c, state, color);
    let kings = (none + k) + c;
    lemma_joined_keep(kings, p, state, color);
    lemma_joined_keep(kings + p, e, state, color);
    lemma_joined_keep((kings + p) + e, n, state, color);
    lemma_joined_keep(((kings + p) + e) + n, b, state, color);
    lemma_joined_keep((((kings + p) + e) + n) + b, r, state, color);
    lemma_joined_keep(((((kings + p) + e) + n) + b) + r, q, state, color);
    assert(keeps_to(state, color, all_moves(position)[i]));
    if state.check && all_moves(position)[i].moved_piece() == 0 {
        assert(c =~= none);
        lemma_king_steps_are_not_castling(state, position, position.bitboard(Piece::King, color), 0);
        if state.double_check {
            assert(all_moves(position) =~= k);
        } else {
            lemma_piece_moves_fit(
                state,
                position,
                Piece::Knight,
                position.bitboard(Piece::Knight, color),
                0,
            );
            lemma_piece_moves_fit(
                state,
                position,
                Piece::Bishop,
                position.bitboard(Piece::Bishop, color),
                0,
            );
            lemma_piece_moves_fit(
                state,
                position,
                Piece::Rook,
                position.bitboard(Piece::Rook, color),
                0,
            );
            lemma_piece_moves_fit(
                state,
                position,
                Piece::Queen,
                position.bitboard(Piece::Queen, color),
                0,
            );
            lemma_pawn_moves_fit(state, position, position.bitboard(Piece::Pawn, color), 0);
            if position.enpassant is Some {
                lemma_enpassant_from_fit(state, position, enpassant_pawns(state, position), 0);
            }
            let all = all_moves(position);
            let head = kings + p;
            if i < k.len() {
                assert(all[i] == k[i]);
            } else {
                assert(all[i].moved_piece() != 0) by {
                    lemma_tail_has_no_king_move(k, p, e, n, b, r, q, i);
                }
            }
        }
    }
}

/// A list without en-passant captures from no pawn at all.
proof fn lemma_enpassant_none(state: CheckState, position: Position, pawns: Bitboard, from: int)
    requires
        0 <= from,
        forall|j: int| !has_bit(pawns, j),
    ensures
        enpassant_from(state, position, pawns, from) == Seq::<Move>::empty(),
    decreases 64 - from,
{
    if from < 64 {
        lemma_enpassant_none(state, position, pawns, from + 1);
    }
}

/// Behind the king's moves, no move of the list is the king's.
proof fn lemma_tail_has_no_king_move(
    k: Seq<Move>,
    p: Seq<Move>,
    e: Seq<Move>,
    n: Seq<Move>,
    b: Seq<Move>,
    r: Seq<Move>,
    q: Seq<Move>,
    i: int,
)
    requires
        all_of_kind(p, Piece::Pawn),
        all_of_kind(e, Piece::Pawn),
        all_of_kind(n, Piece::Knight),
        all_of_kind(b, Piece::Bishop),
        all_of_kind(r, Piece::Rook),
        all_of_kind(q, Piece::Queen),
        k.len() <= i < ((((((Seq::<Move>::empty() + k) + Seq::<Move>::empty()) + p) + e) + n) + b
            + r + q).len(),
    ensures
        (((((((Seq::<Move>::empty() + k) + Seq::<Move>::empty()) + p) + e) + n) + b) + r
            + q)[i].moved_piece() != 0,
{
    let all = ((((((Seq::<Move>::empty() + k) + Seq::<Move>::empty()) + p) + e) + n) + b) + r + q;
    let j = i - k.len();
    if j < p.len() {
        assert(all[i] == p[j]);
    } else if j < p.len() + e.len() {
        assert(all[i] == e[j - p.len()]);
    } else if j < p.len() + e.len() + n.len() {
        assert(all[i] == n[j - p.len() - e.len()]);
    } else if j < p.len() + e.len() + n.len() + b.len() {
        assert(all[i] == b[j - p.len() - e.len() - n.len()]);
    } else if j < p.len() + e.len() + n.len() + b.len() + r.len() {
        assert(all[i] == r[j - p.len() - e.len() - n.len() - b.len()]);
    } else {
        assert(all[i] == q[j - p.len() - e.len() - n.len() - b.len() - r.len()]);
    }
}

/// Whether no move of a list is castling.
pub open spec fn none_castles(list: Seq<Move>) -> bool {
    forall|i: int| 0 <= i < list.len() ==> (#[trigger] list[i]).move_type() != 4
}

/// None of the king's ordinary moves is castling: the king steps to a
/// neighbouring square.
proof fn lemma_king_steps_are_not_castling(
    state: CheckState,
    position: Position,
    kings: Bitboard,
    from: int,
)
    requires
        0 <= from,
    ensures
        none_castles(piece_moves(state, position, Piece::King, kings, from)),
    decreases 64 - from,
{
    broadcast use group_has_bit;

    if from < 64 {
        lemma_king_steps_are_not_castling(state, position, kings, from + 1);
        if has_bit(kings, from) {
            let targets = piece_targets(state, position, Piece::King, from);
            let first = moves_to(position, Piece::King, from, targets, 0);
            let rest = piece_moves(state, position, Piece::King, kings, from + 1);
            let list = first + rest;
            assert forall|i: int| 0 <= i < list.len() implies (#[trigger] list[i]).move_type()
                != 4 by {
                if i < first.len() {
                    let found = lemma_moves_to_member(position, Piece::King, from, targets, 0, i);
                    lemma_moves_for_fields(position, Piece::King, from, found.0, found.1);
                    lemma_squares_where_member(|t: int| is_neighbor(from, t), found.0);
                    assert(list[i] == first[i]);
                } else {
                    assert(list[i] == rest[i - first.len()]);
                }
            }
        }
    }
}

/// Whether a move, if it is an en-passant capture, is one that the
/// position offers: a pawn's move to the en-passant square from a square
/// among `pawns`.
pub open spec fn is_offered(position: Position, pawns: Bitboard, m: Move) -> bool {
    m.move_type() == 1 ==> {
        &&& position.enpassant is Some
        &&& m.target_square() == position.enpassant->0
        &&& m.moved_piece() == 1
        &&& has_bit(pawns, m.start_square())
    }
}

/// Whether every en-passant capture of a list is one that the position
/// offers.
pub open spec fn all_offered(list: Seq<Move>, position: Position, pawns: Bitboard) -> bool {
    forall|i: int| 0 <= i < list.len() ==> is_offered(position, pawns, #[trigger] list[i])
}

proof fn lemma_joined_offered(
    first: Seq<Move>,
    second: Seq<Move>,
    position: Position,
    pawns: Bitboard,
)
    requires
        all_offered(first, position, pawns),
        all_offered(second, position, pawns),
    ensures
        all_offered(first + second, position, pawns),
{
    assert forall|i: int| 0 <= i < (first + second).len() implies is_offered(
        position,
        pawns,
        #[trigger] (first + second)[i],
    ) by {
        if i < first.len() {
            assert((first + second)[i] == first[i]);
        } else {
            assert((first + second)[i] == second[i - first.len()]);
        }
    }
}

proof fn lemma_moves_to_offered(
    position: Position,
    piece: Piece,
    square: int,
    targets: Bitboard,
    pawns: Bitboard,
)
    requires
        0 <= square < 64,
        forall|target: int|
            has_bit(targets, target) && move_kind(position, piece, square, target) == 1 ==> {
                &&& position.enpassant == Some(target as usize)
                &&& piece == Piece::Pawn
                &&& has_bit(pawns, square)
            },
    ensures
        all_offered(moves_to(position, piece, square, targets, 0), position, pawns),
{
    let list = moves_to(position, piece, square, targets, 0);
    assert forall|i: int| 0 <= i < list.len() implies is_offered(
        position,
        pawns,
        #[trigger] list[i],
    ) by {
        let found = lemma_moves_to_member(position, piece, square, targets, 0, i);
        lemma_moves_for_fields(position, piece, square, found.0, found.1);
    }
}

proof fn lemma_piece_moves_offered(
    state: CheckState,
    position: Position,
    piece: Piece,
    pieces: Bitboard,
    from: int,
    pawns: Bitboard,
)
    requires
        piece != Piece::Pawn,
        0 <= from,
    ensures
        all_offered(piece_moves(state, position, piece, pieces, from), position, pawns),
    decreases 64 - from,
{
    if from < 64 {
        lemma_piece_moves_offered(state, position, piece, pieces, from + 1, pawns);
        if has_bit(pieces, from) {
            let targets = piece_targets(state, position, piece, from);
            lemma_moves_to_offered(position, piece, from, targets, pawns);
            lemma_joined_offered(
                moves_to(position, piece, from, targets, 0),
                piece_moves(state, position, piece, pieces, from + 1),
                position,
                pawns,
            );
        }
    }
}

proof fn lemma_pawn_moves_offered(
    state: CheckState,
    position: Position,
    from: int,
    pawns: Bitboard,
)
    requires
        position.wf(),
        state.pin_rays.len() == 64,
        0 <= from,
    ensures
        all_offered(
            pawn_moves(state, position, position.bitboard(Piece::Pawn, position.color), from),
            position,
            pawns,
        ),
    decreases 64 - from,
{
    let own = position.bitboard(Piece::Pawn, position.color);
    if from < 64 {
        lemma_pawn_moves_offered(state, position, from + 1, pawns);
        if has_bit(own, from) {
            let targets = pawn_targets(state, position, from);
            assert forall|target: int| has_bit(targets, target) implies move_kind(
                position,
                Piece::Pawn,
                from,
                target,
            ) != 1 by {
                lemma_pawn_targets_miss_enpassant(state, position, from, target);
            }
            lemma_moves_to_offered(position, Piece::Pawn, from, targets, pawns);
            lemma_joined_offered(
                moves_to(position, Piece::Pawn, from, targets, 0),
                pawn_moves(state, position, own, from + 1),
                position,
                pawns,
            );
        }
    }
}

proof fn lemma_enpassant_from_offered(
    state: CheckState,
    position: Position,
    pawns: Bitboard,
    from: int,
)
    requires
        position.enpassant is Some,
        position.enpassant->0 < 64,
        0 <= from,
    ensures
        all_offered(enpassant_from(state, position, pawns, from), position, pawns),
    decreases 64 - from,
{
    broadcast use group_has_bit;

    if from < 64 {
        lemma_enpassant_from_offered(state, position, pawns, from + 1);
        if has_bit(pawns, from) && state.pin_rays[from] == 0 {
            let targets = bit(position.enpassant->0 as int);
            lemma_moves_to_offered(position, Piece::Pawn, from, targets, pawns);
            lemma_joined_offered(
                moves_to(position, Piece::Pawn, from, targets, 0),
                enpassant_from(state, position, pawns, from + 1),
                position,
                pawns,
            );
        }
    }
}

/// An en-passant capture that is generated is one that the position
/// offers: a pawn's move to the en-passant square, from a square among the
/// pawns that may capture.
#[verifier::rlimit(40)]
pub proof fn lemma_enpassant_is_offered(position: Position, i: int)
    requires
        position.wf(),
        0 <= i < all_moves(position).len(),
        all_moves(position)[i].move_type() == 1,
    ensures
        position.enpassant is Some,
        all_moves(position)[i].target_square() == position.enpassant->0,
        all_moves(position)[i].moved_piece() == 1,
        has_bit(
            enpassant_pawns(check_state(position), position),
            all_moves(position)[i].start_square(),
        ),
{
    broadcast use group_has_bit;

    let state = check_state(position);
    let color = position.color;
    lemma_check_state_flags(position);
    let pawns = if position.enpassant is Some {
        enpassant_pawns(state, position)
    } else {
        0
    };
    let k = piece_moves(state, position, Piece::King, position.bitboard(Piece::King, color), 0);
    let c = castle_moves(state, position);
    let p = pawn_moves(state, position, position.bitboard(Piece::Pawn, color), 0);
    let e = enpassant_moves(state, position);
    let n = piece_moves(
        state,
        position,
        Piece::Knight,
        position.bitboard(Piece::Knight, color),
        0,
    );
    let b = piece_moves(
        state,
        position,
        Piece::Bishop,
        position.bitboard(Piece::Bishop, color),
        0,
    );
    let r = piece_moves(state, position, Piece::Rook, position.bitboard(Piece::Rook, color), 0);
    let q = piece_moves(state, position, Piece::Queen, position.bitboard(Piece::Queen, color), 0);
    lemma_piece_moves_offered(
        state,
        position,
        Piece::King,
        position.bitboard(Piece::King, color),
        0,
        pawns,
    );
    assert(all_offered(c, position, pawns)) by {
        let kings = position.bitboard(Piece::King, color);
        let rights = CASTLE_RIGHTS[color.index()] & (position.castle_rights as u64);
        let targets = castle_targets(state, position, rights, 0, 0);
        if !(state.check || targets == 0 || kings == 0) {
            lemma_lsb(kings);
            lemma_moves_to_offered(position, Piece::King, lsb(kings), targets, pawns);
        }
    }
    lemma_pawn_moves_offered(state, position, 0, pawns);
    if position.enpassant is Some {
        assert(position.enpassant_ok());
        lemma_enpassant_from_offered(state, position, pawns, 0);
    }
    lemma_piece_moves_offered(
        state,
        position,
        Piece::Knight,
        position.bitboard(Piece::Knight, color),
        0,
        pawns,
    );
    lemma_piece_moves_offered(
        state,
        position,
        Piece::Bishop,
        position.bitboard(Piece::Bishop, color),
        0,
        pawns,
    );
    lemma_piece_moves_offered(
        state,
        position,
        Piece::Rook,
        position.bitboard(Piece::Rook, color),
        0,
        pawns,
    );
    lemma_piece_moves_offered(
        state,
        position,
        Piece::Queen,
        position.bitboard(Piece::Queen, color),
        0,
        pawns,
    );
    let none = Seq::<Move>::empty();
    lemma_joined_offered(none, k, position, pawns);
    lemma_joined_offered(none + k, c, position, pawns);
    let kings = (none + k) + c;
    lemma_joined_offered(kings, p, position, pawns);
    lemma_joined_offered(kings + p, e, position, pawns);
    lemma_joined_offered((kings + p) + e, n, position, pawns);
    lemma_joined_offered(((kings + p) + e) + n, b, position, pawns);
    lemma_joined_offered((((kings + p) + e) + n) + b, r, position, pawns);
    lemma_joined_offered(((((kings + p) + e) + n) + b) + r, q, position, pawns);
    assert(is_offered(position, pawns, all_moves(position)[i]));
}

} // verus!
