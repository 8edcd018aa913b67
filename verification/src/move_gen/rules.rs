//! The move list against the rules of the game. En-passant captures
//! apart, a move is in the list exactly when the rules allow it: it is a
//! step of the king, castling, or a move of another piece within its reach,
//! and it leaves the king of the side that moved attacked by no piece.

use super::attack::{is_neighbor, is_pawn_capture, king_attacks, pawn_attacks};
use super::checks::lemma_flags_count_checks;
use super::complete::{king_reaches, king_step, lemma_castling_is_listed};
use super::complete::{lemma_safe_king_steps_are_listed, lemma_safe_moves_are_listed, may_castle};
use super::complete::{reach, targets_left};
use super::defs::{lemma_moves_to_member, moves_for, moves_to, Move, PAWN_PROMOTION_RANK};
use super::extra::{check_state, clear_state, CheckState};
use super::legal::{lemma_all_moves_admitted, lemma_attacked_squares, lemma_castle_targets};
use super::legal::{lemma_check_state_flags, lemma_moves_for_fields};
use super::pins::attacked_by;
use super::safety::{all_safe, lemma_no_move_gives_up_the_king, one_king_each};
use super::{all_moves, castle_moves, castle_open, castle_targets, enpassant_from};
use super::{enpassant_moves, enpassant_pawns, lemma_masks, moves_in, pawn_moves, piece_moves};
use super::{CASTLE_ATTACK, CASTLE_EMPTY, CASTLE_RIGHTS};
use crate::bitboard::{bit, group_has_bit, has_bit, lemma_lsb, lemma_squares_where_member, lsb};
use crate::bitboard::Bitboard;
use crate::board::{king_landing, Position};
use crate::color::Color;
use crate::piece::Piece;
use vstd::prelude::*;

verus! {

/// Whether `m` is a move of the piece of the side to move on `square`,
/// other than the king, to a square that it may go to as the pieces stand.
pub open spec fn moves_within_reach(
    position: Position,
    piece: Piece,
    square: int,
    target: int,
    m: Move,
) -> bool {
    &&& piece != Piece::King
    &&& 0 <= square < 64
    &&& has_bit(position.bitboard(piece, position.color), square)
    &&& has_bit(reach(position, piece, square), target)
    &&& moves_for(position, piece, square, target).contains(m)
}

/// Whether `m` moves a piece as its kind moves, en-passant captures
/// apart: it is a step of the king to a square next to it that holds no
/// piece of its side, castling with a right with which the side may
/// castle, or a move of another piece within its reach.
pub open spec fn follows_rules(position: Position, m: Move) -> bool {
    ||| exists|target: int|
        king_reaches(position, target) && m == #[trigger] king_step(position, target)
    ||| exists|index: int|
        may_castle(position, index) && m == king_step(position, #[trigger] king_landing(index))
    ||| exists|piece: Piece, square: int, target: int| #[trigger]
        moves_within_reach(position, piece, square, target, m)
}

/// Whether the rules allow `m`, en-passant captures apart: it moves a
/// piece as its kind moves, and once it is played no piece of the other
/// side attacks the king of the side that moved.
pub open spec fn is_legal(position: Position, m: Move) -> bool {
    &&& follows_rules(position, m)
    &&& !attacked_by(
        position.make(m),
        position.color.opposite(),
        if m.moved_piece() == 0 {
            m.target_square()
        } else {
            lsb(position.bitboard(Piece::King, position.color))
        },
    )
}

/// Whether every move of a list is an en-passant capture or moves a piece
/// as its kind moves.
pub open spec fn all_follow(position: Position, list: Seq<Move>) -> bool {
    forall|i: int|
        0 <= i < list.len() ==> (#[trigger] list[i]).move_type() == 1 || follows_rules(
            position,
            list[i],
        )
}

/// Two lists of moves that follow the rules make one.
proof fn lemma_joined_follow(position: Position, first: Seq<Move>, second: Seq<Move>)
    requires
        all_follow(position, first),
        all_follow(position, second),
    ensures
        all_follow(position, first + second),
{
    assert forall|i: int| 0 <= i < (first + second).len() implies (#[trigger] (first
        + second)[i]).move_type() == 1 || follows_rules(position, (first + second)[i]) by {
        if i < first.len() {
            assert((first + second)[i] == first[i]);
        } else {
            assert((first + second)[i] == second[i - first.len()]);
        }
    }
}

/// The moves of a piece other than the king to the targets that are left
/// to it are moves within its reach.
proof fn lemma_moves_to_follow(
    state: CheckState,
    position: Position,
    piece: Piece,
    square: int,
)
    requires
        piece != Piece::King,
        0 <= square < 64,
        state.pin_rays.len() == 64,
        has_bit(position.bitboard(piece, position.color), square),
    ensures
        all_follow(
            position,
            moves_to(position, piece, square, targets_left(state, position, piece, square), 0),
        ),
{
    broadcast use group_has_bit;

    let targets = targets_left(state, position, piece, square);
    let list = moves_to(position, piece, square, targets, 0);
    assert forall|i: int| 0 <= i < list.len() implies follows_rules(position, #[trigger] list[i]) by {
        let found = lemma_moves_to_member(position, piece, square, targets, 0, i);
        assert(clear_state().pin_rays[square] == 0);
        assert(has_bit(reach(position, piece, square), found.0));
        assert(moves_for(position, piece, square, found.0)[found.1] == list[i]);
        assert(moves_within_reach(position, piece, square, found.0, list[i]));
    }
}

/// The moves of the pieces of one kind other than king and pawn are moves
/// within their reach.
proof fn lemma_piece_moves_follow(
    state: CheckState,
    position: Position,
    piece: Piece,
    from: int,
)
    requires
        piece != Piece::King,
        piece != Piece::Pawn,
        0 <= from,
        state.pin_rays.len() == 64,
    ensures
        all_follow(
            position,
            piece_moves(state, position, piece, position.bitboard(piece, position.color), from),
        ),
    decreases 64 - from,
{
    let pieces = position.bitboard(piece, position.color);
    if from < 64 {
        lemma_piece_moves_follow(state, position, piece, from + 1);
        if has_bit(pieces, from) {
            lemma_moves_to_follow(state, position, piece, from);
            lemma_joined_follow(
                position,
                moves_to(position, piece, from, targets_left(state, position, piece, from), 0),
                piece_moves(state, position, piece, pieces, from + 1),
            );
        }
    }
}

/// The pawns' pushes and captures are moves within their reach.
proof fn lemma_pawn_moves_follow(state: CheckState, position: Position, from: int)
    requires
        0 <= from,
        state.pin_rays.len() == 64,
    ensures
        all_follow(
            position,
            pawn_moves(state, position, position.bitboard(Piece::Pawn, position.color), from),
        ),
    decreases 64 - from,
{
    let pawns = position.bitboard(Piece::Pawn, position.color);
    if from < 64 {
        lemma_pawn_moves_follow(state, position, from + 1);
        if has_bit(pawns, from) {
            lemma_moves_to_follow(state, position, Piece::Pawn, from);
            lemma_joined_follow(
                position,
                moves_to(
                    position,
                    Piece::Pawn,
                    from,
                    targets_left(state, position, Piece::Pawn, from),
                    0,
                ),
                pawn_moves(state, position, pawns, from + 1),
            );
        }
    }
}

/// The moves to the en-passant square are en-passant captures.
proof fn lemma_enpassant_from_follow(
    state: CheckState,
    position: Position,
    pawns: Bitboard,
    from: int,
)
    requires
        position.wf(),
        position.enpassant is Some,
        0 <= from,
    ensures
        all_follow(position, enpassant_from(state, position, pawns, from)),
    decreases 64 - from,
{
    broadcast use group_has_bit;

    if from < 64 {
        lemma_enpassant_from_follow(state, position, pawns, from + 1);
        if has_bit(pawns, from) && state.pin_rays[from] == 0 {
            let target = position.enpassant->0 as int;
            let list = moves_to(position, Piece::Pawn, from, bit(target), 0);
            assert(position.enpassant_ok());
            assert(PAWN_PROMOTION_RANK[0] == 0xff00000000000000 && PAWN_PROMOTION_RANK[1]
                == 0x00000000000000ff);
            assert(Color::White.index() == 0 && Color::Black.index() == 1);
            lemma_masks(target);
            assert forall|i: int| 0 <= i < list.len() implies (#[trigger] list[i]).move_type()
                == 1 by {
                let found = lemma_moves_to_member(position, Piece::Pawn, from, bit(target), 0, i);
                lemma_moves_for_fields(position, Piece::Pawn, from, found.0, found.1);
            }
            lemma_joined_follow(position, list, enpassant_from(state, position, pawns, from + 1));
        }
    }
}

/// The king's steps are steps to squares next to it that hold no piece of
/// its side.
proof fn lemma_king_moves_follow(position: Position, from: int)
    requires
        one_king_each(position),
        0 <= from,
    ensures
        all_follow(
            position,
            piece_moves(
                check_state(position),
                position,
                Piece::King,
                position.bitboard(Piece::King, position.color),
                from,
            ),
        ),
    decreases 64 - from,
{
    broadcast use group_has_bit;

    let state = check_state(position);
    let kings = position.bitboard(Piece::King, position.color);
    if from < 64 {
        lemma_king_moves_follow(position, from + 1);
        if has_bit(kings, from) {
            lemma_lsb(kings);
            assert(has_bit(bit(lsb(kings)), from));
            assert(from == lsb(kings));
            let targets = targets_left(state, position, Piece::King, from);
            let list = moves_to(position, Piece::King, from, targets, 0);
            assert forall|i: int| 0 <= i < list.len() implies follows_rules(
                position,
                #[trigger] list[i],
            ) by {
                let found = lemma_moves_to_member(position, Piece::King, from, targets, 0, i);
                lemma_squares_where_member(|t: int| is_neighbor(from, t), found.0);
                assert(has_bit(king_attacks(from), found.0));
                assert(king_reaches(position, found.0));
                assert(list[i] == king_step(position, found.0));
            }
            lemma_joined_follow(
                position,
                list,
                piece_moves(state, position, Piece::King, kings, from + 1),
            );
        }
    }
}

/// Castling is in the list only for a right with which the side to move
/// may castle.
#[verifier::rlimit(40)]
proof fn lemma_castle_moves_follow(position: Position)
    requires
        position.wf(),
        one_king_each(position),
    ensures
        all_follow(position, castle_moves(check_state(position), position)),
{
    broadcast use group_has_bit;

    let state = check_state(position);
    let color = position.color;
    let kings = position.bitboard(Piece::King, color);
    let rights = CASTLE_RIGHTS[color.index()] & (position.castle_rights as u64);
    let targets = castle_targets(state, position, rights, 0, 0);
    let list = castle_moves(state, position);
    lemma_flags_count_checks(position);
    assert(CASTLE_RIGHTS[0] == 0b0011 && CASTLE_RIGHTS[1] == 0b1100);
    assert(Color::White.index() == 0 && Color::Black.index() == 1);
    assert forall|i: int| 0 <= i < list.len() implies follows_rules(position, #[trigger] list[i]) by {
        let king = lsb(kings);
        let found = lemma_moves_to_member(position, Piece::King, king, targets, 0, i);
        lemma_castle_targets(state, position, rights, 0, 0, found.0);
        let index = choose|index: int|
            0 <= index < 4 && has_bit(rights, index) && castle_open(state, position, index)
                && found.0 == #[trigger] king_landing(index);
        lemma_masks(index);
        assert forall|x: int| #[trigger] has_bit(CASTLE_EMPTY[index], x) implies position.vacant(
            x,
        ) by {
            assert(has_bit(!position.occupancy() & CASTLE_EMPTY[index], x));
        }
        assert forall|x: int| #[trigger]
            has_bit(CASTLE_ATTACK[index], x) implies !super::legal::enemy_attacks(position, x) by {
            assert(has_bit(CASTLE_ATTACK[index] & !state.attacked, x));
            lemma_attacked_squares(position, x);
        }
        assert(may_castle(position, index));
        assert(list[i] == king_step(position, king_landing(index)));
    }
}

/// Every move of the list moves a piece as its kind moves: in a sound
/// position in which each side has one king, each is an en-passant
/// capture, a step of the king to a square next to it that holds no piece
/// of its side, castling with a right with which the side may castle, or a
/// move of another piece within its reach.
pub proof fn lemma_listed_moves_follow_the_rules(position: Position)
    requires
        position.wf(),
        one_king_each(position),
    ensures
        all_follow(position, all_moves(position)),
{
    let state = check_state(position);
    let color = position.color;
    lemma_check_state_flags(position);
    let k = piece_moves(state, position, Piece::King, position.bitboard(Piece::King, color), 0);
    let c = castle_moves(state, position);
    let p = pawn_moves(state, position, position.bitboard(Piece::Pawn, color), 0);
    let e = enpassant_moves(state, position);
    let n = piece_moves(
        state,
        position,
        Piece::Knight,
        position.bitboard(Piece::Knight, color),
        0,
    );
    let b = piece_moves(
        state,
        position,
        Piece::Bishop,
        position.bitboard(Piece::Bishop, color),
        0,
    );
    let r = piece_moves(state, position, Piece::Rook, position.bitboard(Piece::Rook, color), 0);
    let q = piece_moves(state, position, Piece::Queen, position.bitboard(Piece::Queen, color), 0);
    lemma_king_moves_follow(position, 0);
    lemma_castle_moves_follow(position);
    lemma_pawn_moves_follow(state, position, 0);
    if position.enpassant is Some {
        lemma_enpassant_from_follow(state, position, enpassant_pawns(state, position), 0);
    }
    lemma_piece_moves_follow(state, position, Piece::Knight, 0);
    lemma_piece_moves_follow(state, position, Piece::Bishop, 0);
    lemma_piece_moves_follow(state, position, Piece::Rook, 0);
    lemma_piece_moves_follow(state, position, Piece::Queen, 0);
    let none = Seq::<Move>::empty();
    lemma_joined_follow(position, none, k);
    lemma_joined_follow(position, none + k, c);
    let kings = (none + k) + c;
    lemma_joined_follow(position, kings, p);
    lemma_joined_follow(position, kings + p, e);
    lemma_joined_follow(position, (kings + p) + e, n);
    lemma_joined_follow(position, ((kings + p) + e) + n, b);
    lemma_joined_follow(position, (((kings + p) + e) + n) + b, r);
    lemma_joined_follow(position, ((((kings + p) + e) + n) + b) + r, q);
    assert(all_moves(position) == moves_in(state, position));
}

/// A move that follows the rules holds its piece and its squares; it is
/// an en-passant capture only where the position has an en-passant square.
proof fn lemma_rule_fields(position: Position, m: Move)
    requires
        position.wf(),
        one_king_each(position),
        follows_rules(position, m),
    ensures
        m.move_type() == 1 ==> position.enpassant is Some,
        (m.moved_piece() == 0) == (!exists|piece: Piece, square: int, target: int| #[trigger]
            moves_within_reach(position, piece, square, target, m)),
        forall|target: int|
            king_reaches(position, target) && m == #[trigger] king_step(position, target)
                ==> m.target_square() == target,
{
    broadcast use group_has_bit;

    let kings = position.bitboard(Piece::King, position.color);
    lemma_lsb(kings);
    let king = lsb(kings);
    assert forall|target: int| 0 <= target < 64 implies ({
        let step = #[trigger] king_step(position, target);
        step.moved_piece() == 0 && step.target_square() == target && step.move_type() != 1
    }) by {
        lemma_moves_for_fields(position, Piece::King, king, target, 0);
    }
    assert forall|index: int| may_castle(position, index) implies 0 <= #[trigger] king_landing(
        index,
    ) < 64 by {}
    assert forall|piece: Piece, square: int, target: int| #[trigger]
        moves_within_reach(position, piece, square, target, m) implies m.moved_piece()
        == piece.index() && m.moved_piece() != 0 && (m.move_type() == 1
        ==> position.enpassant is Some) by {
        let list = moves_for(position, piece, square, target);
        let i = choose|i: int| 0 <= i < list.len() && list[i] == m;
        assert(clear_state().pin_rays[square] == 0);
        if piece == Piece::Pawn {
            super::legal::lemma_pawn_targets_fit(clear_state(), position, square, target);
        } else {
            lemma_piece_targets_fit_any(position, piece, square, target);
        }
        lemma_moves_for_fields(position, piece, square, target, i);
    }
}

/// Every target within the reach of a piece other than king and pawn is a
/// square of the board.
proof fn lemma_piece_targets_fit_any(position: Position, piece: Piece, square: int, target: int)
    requires
        position.wf(),
        piece != Piece::Pawn,
        0 <= square < 64,
        has_bit(position.bitboard(piece, position.color), square),
        has_bit(reach(position, piece, square), target),
    ensures
        0 <= target < 64,
{
}

/// The list holds the moves that the rules allow, and no others: in a
/// sound position in which each side has one king, a move that is no
/// en-passant capture is in the list exactly when the rules allow it.
pub proof fn lemma_listed_means_legal(position: Position, m: Move)
    requires
        position.wf(),
        one_king_each(position),
        m.move_type() != 1,
    ensures
        all_moves(position).contains(m) == is_legal(position, m),
{
    let kings = position.bitboard(Piece::King, position.color);
    let king = lsb(kings);
    if all_moves(position).contains(m) {
        let i = choose|i: int| 0 <= i < all_moves(position).len() && all_moves(position)[i] == m;
        lemma_listed_moves_follow_the_rules(position);
        lemma_no_move_gives_up_the_king(position, i);
    }
    if is_legal(position, m) {
        lemma_rule_fields(position, m);
        if exists|piece: Piece, square: int, target: int| #[trigger]
            moves_within_reach(position, piece, square, target, m) {
            let (piece, square, target) = choose|piece: Piece, square: int, target: int| #[trigger]
                moves_within_reach(position, piece, square, target, m);
            lemma_safe_moves_are_listed(position, piece, square, target, m);
        } else if exists|index: int|
            may_castle(position, index) && m == king_step(position, #[trigger] king_landing(index)) {
            let index = choose|index: int|
                may_castle(position, index) && m == king_step(
                    position,
                    #[trigger] king_landing(index),
                );
            lemma_castling_is_listed(position, index);
        } else {
            let target = choose|target: int|
                king_reaches(position, target) && m == #[trigger] king_step(position, target);
            lemma_safe_king_steps_are_listed(position, target);
        }
    }
}

/// An empty list means mate or stalemate, and nothing else does: in a
/// sound position without an en-passant square in which each side has one
/// king, the list is empty exactly when the rules allow no move.
pub proof fn lemma_no_move_is_mate_or_stalemate(position: Position)
    requires
        position.wf(),
        one_king_each(position),
        position.enpassant is None,
    ensures
        (all_moves(position).len() == 0) == (forall|m: Move| !#[trigger] is_legal(position, m)),
{
    if all_moves(position).len() > 0 {
        let m = all_moves(position)[0];
        lemma_all_moves_admitted(position);
        assert(position.admits(m));
        lemma_listed_means_legal(position, m);
        assert(is_legal(position, m));
    }
    if exists|m: Move| #[trigger] is_legal(position, m) {
        let m = choose|m: Move| #[trigger] is_legal(position, m);
        lemma_rule_fields(position, m);
        lemma_listed_means_legal(position, m);
    }
}

/// A pawn attacks a square exactly when a pawn of the other side would
/// attack the pawn's square from there.
proof fn lemma_pawn_attacks_mirror(color: Color, square: int, target: int)
    requires
        0 <= square < 64,
        0 <= target < 64,
    ensures
        has_bit(pawn_attacks(color, square), target) == has_bit(
            pawn_attacks(color.opposite(), target),
            square,
        ),
{
    lemma_squares_where_member(|t: int| is_pawn_capture(color, square, t), target);
    lemma_squares_where_member(|t: int| is_pawn_capture(color.opposite(), target, t), square);
}

/// Whether `m` is an en-passant capture as the generator makes them in a
/// check and pin state: a pawn's move to the en-passant square, of type
/// en passant, from the square of a pawn of the side to move that attacks
/// the en-passant square and is not pinned; in check, the pawn that is
/// captured stands where the check is answered.
pub open spec fn is_capture_in_passing(state: CheckState, position: Position, m: Move) -> bool {
    let color = position.color;
    let target = position.enpassant->0 as int;
    &&& position.enpassant is Some
    &&& m.moved_piece() == 1
    &&& m.move_type() == 1
    &&& m.target_square() == target
    &&& has_bit(position.bitboard(Piece::Pawn, color), m.start_square())
    &&& has_bit(pawn_attacks(color, m.start_square()), target)
    &&& state.pin_rays[m.start_square()] == 0
    &&& (state.check ==> has_bit(state.check_ray, target - color.push()))
}

/// Whether every move of a list is an en-passant capture as the generator
/// makes them.
pub open spec fn all_capture_in_passing(
    state: CheckState,
    position: Position,
    list: Seq<Move>,
) -> bool {
    forall|i: int| 0 <= i < list.len() ==> is_capture_in_passing(state, position, #[trigger] list[i])
}

/// The captures of the pawns on `pawns` from a square up are en-passant
/// captures as the generator makes them.
proof fn lemma_enpassant_from_captures(state: CheckState, position: Position, from: int)
    requires
        position.wf(),
        position.enpassant is Some,
        0 <= from,
    ensures
        all_capture_in_passing(
            state,
            position,
            enpassant_from(state, position, enpassant_pawns(state, position), from),
        ),
    decreases 64 - from,
{
    broadcast use group_has_bit;

    let pawns = enpassant_pawns(state, position);
    let color = position.color;
    if from < 64 {
        lemma_enpassant_from_captures(state, position, from + 1);
        let rest = enpassant_from(state, position, pawns, from + 1);
        if has_bit(pawns, from) && state.pin_rays[from] == 0 {
            let target = position.enpassant->0 as int;
            let first = moves_to(position, Piece::Pawn, from, bit(target), 0);
            let all = first + rest;
            assert(position.enpassant_ok());
            assert(PAWN_PROMOTION_RANK[0] == 0xff00000000000000 && PAWN_PROMOTION_RANK[1]
                == 0x00000000000000ff);
            assert(Color::White.index() == 0 && Color::Black.index() == 1);
            lemma_masks(target);
            lemma_pawn_attacks_mirror(color, from, target);
            assert(color.opposite().opposite() == color);
            if state.check {
                assert(bit(target - color.push()) & state.check_ray != 0);
                lemma_lsb(bit(target - color.push()) & state.check_ray);
            }
            assert forall|i: int| 0 <= i < all.len() implies is_capture_in_passing(
                state,
                position,
                #[trigger] all[i],
            ) by {
                if i < first.len() {
                    let found = lemma_moves_to_member(
                        position,
                        Piece::Pawn,
                        from,
                        bit(target),
                        0,
                        i,
                    );
                    lemma_moves_for_fields(position, Piece::Pawn, from, found.0, found.1);
                    assert(all[i] == first[i]);
                } else {
                    assert(all[i] == rest[i - first.len()]);
                }
            }
        }
    }
}

/// Every en-passant capture that is generated in a check and pin state is
/// one as the generator makes them: none without an en-passant square,
/// none by a pinned pawn, none by a pawn that does not attack the
/// en-passant square, and in check none that leaves the checking piece
/// where it is.
pub proof fn lemma_enpassant_moves_capture(state: CheckState, position: Position)
    requires
        position.wf(),
    ensures
        all_capture_in_passing(state, position, enpassant_moves(state, position)),
        position.enpassant is None ==> enpassant_moves(state, position).len() == 0,
{
    if position.enpassant is Some {
        lemma_enpassant_from_captures(state, position, 0);
    }
}

/// No en-passant capture gives up the king: in a sound position in which
/// each side has one king and the side to move is not in double check,
/// once an en-passant capture that is generated for the position's own
/// check and pin state is played, no piece of the other side attacks the
/// king of the side that moved. In a double check the generator asks for
/// no en-passant captures.
pub proof fn lemma_captures_in_passing_are_safe(position: Position)
    requires
        position.wf(),
        one_king_each(position),
        !check_state(position).double_check,
    ensures
        all_safe(position, enpassant_moves(check_state(position), position)),
{
    let state = check_state(position);
    let color = position.color;
    let k = piece_moves(state, position, Piece::King, position.bitboard(Piece::King, color), 0);
    let c = castle_moves(state, position);
    let p = pawn_moves(state, position, position.bitboard(Piece::Pawn, color), 0);
    let e = enpassant_moves(state, position);
    let n = piece_moves(
        state,
        position,
        Piece::Knight,
        position.bitboard(Piece::Knight, color),
        0,
    );
    let b = piece_moves(
        state,
        position,
        Piece::Bishop,
        position.bitboard(Piece::Bishop, color),
        0,
    );
    let r = piece_moves(state, position, Piece::Rook, position.bitboard(Piece::Rook, color), 0);
    let q = piece_moves(state, position, Piece::Queen, position.bitboard(Piece::Queen, color), 0);
    let before = ((Seq::<Move>::empty() + k) + c) + p;
    let all = all_moves(position);
    assert(all == ((((before + e) + n) + b) + r) + q);
    assert forall|i: int| 0 <= i < e.len() implies !attacked_by(
        position.make(#[trigger] e[i]),
        color.opposite(),
        if e[i].moved_piece() == 0 {
            e[i].target_square()
        } else {
            lsb(position.bitboard(Piece::King, color))
        },
    ) by {
        let j = before.len() + i;
        assert((before + e)[j] == e[i]);
        assert(((before + e) + n)[j] == e[i]);
        assert((((before + e) + n) + b)[j] == e[i]);
        assert(((((before + e) + n) + b) + r)[j] == e[i]);
        assert(all[j] == e[i]);
        lemma_no_move_gives_up_the_king(position, j);
    }
}

} // verus!
