//! No move is listed twice: no two moves of the list agree in start
//! square, target square and promotion piece.

use super::attack::{is_neighbor, king_attacks};
use super::defs::{castle_right_for, is_castle, move_kind, moves_for, moves_to};
use super::defs::Move;
use super::extra::{check_state, CheckState};
use super::legal::{all_admitted, lemma_castle_targets, lemma_check_state_flags};
use super::legal::lemma_pawn_targets_miss_enpassant;
use super::{all_moves, castle_moves, castle_open, castle_targets, enpassant_from};
use super::{enpassant_moves, enpassant_pawns, lemma_masks, moves_in, pawn_moves, pawn_targets};
use super::{piece_moves, piece_targets, CASTLE_RIGHTS};
use crate::bitboard::{bit, group_has_bit, has_bit, lemma_lsb, lemma_squares_where_member, lsb};
use crate::bitboard::Bitboard;
use crate::board::{king_landing, Position};
use crate::color::Color;
use crate::piece::Piece;
use vstd::prelude::*;

verus! {

/// Whether two moves differ in start square, target square or promotion
/// piece.
pub open spec fn keys_differ(a: Move, b: Move) -> bool {
    a.start_square() != b.start_square() || a.target_square() != b.target_square()
        || a.promotion() != b.promotion()
}

/// Whether no two moves of a list agree in start square, target square
/// and promotion piece.
pub open spec fn distinct(list: Seq<Move>) -> bool {
    forall|i: int, j: int| 0 <= i < j < list.len() ==> keys_differ(list[i], list[j])
}

/// Whether no move of one list agrees with a move of another in start
/// square, target square and promotion piece.
pub open spec fn apart(first: Seq<Move>, second: Seq<Move>) -> bool {
    forall|i: int, j: int|
        0 <= i < first.len() && 0 <= j < second.len() ==> keys_differ(first[i], second[j])
}

/// Whether every move of a list goes from `square` to one of `targets`
/// from `from` up.
pub open spec fn all_go(list: Seq<Move>, square: int, targets: Bitboard, from: int) -> bool {
    forall|i: int|
        0 <= i < list.len() ==> (#[trigger] list[i]).start_square() == square && from
            <= list[i].target_square() && has_bit(targets, list[i].target_square())
}

/// Whether every move of a list starts on a square from `from` up.
pub open spec fn all_start(list: Seq<Move>, from: int) -> bool {
    forall|i: int| 0 <= i < list.len() ==> from <= (#[trigger] list[i]).start_square()
}

/// Whether every move of a list moves a piece whose index lies from `low`
/// up and below `high`.
pub open spec fn kinds_within(list: Seq<Move>, low: int, high: int) -> bool {
    forall|i: int| 0 <= i < list.len() ==> low <= (#[trigger] list[i]).moved_piece() < high
}

/// Two lists without a move twice, and apart from each other, make one.
proof fn lemma_joined_distinct(first: Seq<Move>, second: Seq<Move>)
    requires
        distinct(first),
        distinct(second),
        apart(first, second),
    ensures
        distinct(first + second),
{
    let all = first + second;
    assert forall|i: int, j: int| 0 <= i < j < all.len() implies keys_differ(all[i], all[j]) by {
        if j < first.len() {
            assert(all[i] == first[i] && all[j] == first[j]);
        } else if i < first.len() {
            assert(all[i] == first[i] && all[j] == second[j - first.len()]);
        } else {
            assert(all[i] == second[i - first.len()] && all[j] == second[j - first.len()]);
        }
    }
}

/// Two lists that are each apart from a third are so together.
proof fn lemma_apart_joined(first: Seq<Move>, second: Seq<Move>, third: Seq<Move>)
    requires
        apart(first, third),
        apart(second, third),
    ensures
        apart(first + second, third),
{
    let both = first + second;
    assert forall|i: int, j: int| 0 <= i < both.len() && 0 <= j < third.len() implies keys_differ(
        both[i],
        third[j],
    ) by {
        if i < first.len() {
            assert(both[i] == first[i]);
        } else {
            assert(both[i] == second[i - first.len()]);
        }
    }
}

/// Two lists of moves of pieces of kinds within bounds make one.
proof fn lemma_kinds_joined(first: Seq<Move>, second: Seq<Move>, low: int, high: int)
    requires
        kinds_within(first, low, high),
        kinds_within(second, low, high),
    ensures
        kinds_within(first + second, low, high),
{
    let both = first + second;
    assert forall|i: int| 0 <= i < both.len() implies low <= (#[trigger] both[i]).moved_piece()
        < high by {
        if i < first.len() {
            assert(both[i] == first[i]);
        } else {
            assert(both[i] == second[i - first.len()]);
        }
    }
}

/// Moves of pieces of different kinds start on different squares.
proof fn lemma_kinds_apart(position: Position, first: Seq<Move>, second: Seq<Move>, limit: int)
    requires
        position.wf(),
        all_admitted(position, first),
        all_admitted(position, second),
        kinds_within(first, 0, limit),
        kinds_within(second, limit, 6),
    ensures
        apart(first, second),
{
    assert forall|i: int, j: int|
        0 <= i < first.len() && 0 <= j < second.len() implies keys_differ(first[i], second[j]) by {
        let a = first[i];
        let b = second[j];
        a.lemma_fields_bounded();
        assert(position.admits(a) && position.admits(b));
        if a.start_square() == b.start_square() {
            assert(position.square_ok(a.start_square()));
            assert(position.has(a.moved_piece(), position.color, a.start_square()));
            assert(position.has(b.moved_piece(), position.color, a.start_square()));
        }
    }
}

/// The moves to one target differ in their promotion pieces, and go from
/// their square to their target as moves of their piece.
proof fn lemma_moves_for_distinct(position: Position, piece: Piece, square: int, target: int)
    requires
        0 <= square < 64,
        0 <= target < 64,
    ensures
        distinct(moves_for(position, piece, square, target)),
        all_go(moves_for(position, piece, square, target), square, bit(target), target),
        all_go(moves_for(position, piece, square, target), square, bit(target), 0),
        forall|i: int|
            0 <= i < moves_for(position, piece, square, target).len() ==> (#[trigger] moves_for(
                position,
                piece,
                square,
                target,
            )[i]).target_square() == target && moves_for(position, piece, square, target)[i]
                .moved_piece() == piece.index(),
{
    broadcast use group_has_bit;

    let right = if is_castle(piece, square, target) {
        castle_right_for(position.color, square, target)
    } else {
        0
    };
    let kind = move_kind(position, piece, square, target);
    Move::lemma_packed(piece.index(), square, target, kind, 0, right);
    Move::lemma_packed(piece.index(), square, target, kind, 2, right);
    Move::lemma_packed(piece.index(), square, target, kind, 3, right);
    Move::lemma_packed(piece.index(), square, target, kind, 4, right);
    Move::lemma_packed(piece.index(), square, target, kind, 5, right);
}

/// The moves from one square to a set of targets hold no move twice, and
/// each goes from the square to a target of the set.
proof fn lemma_moves_to_distinct(
    position: Position,
    piece: Piece,
    square: int,
    targets: Bitboard,
    from: int,
)
    requires
        0 <= square < 64,
        0 <= from,
    ensures
        distinct(moves_to(position, piece, square, targets, from)),
        all_go(moves_to(position, piece, square, targets, from), square, targets, from),
        kinds_within(
            moves_to(position, piece, square, targets, from),
            piece.index(),
            piece.index() + 1,
        ),
    decreases 64 - from,
{
    broadcast use group_has_bit;

    if from < 64 {
        let rest = moves_to(position, piece, square, targets, from + 1);
        lemma_moves_to_distinct(position, piece, square, targets, from + 1);
        if has_bit(targets, from) {
            let first = moves_for(position, piece, square, from);
            let all = first + rest;
            lemma_moves_for_distinct(position, piece, square, from);
            assert(apart(first, rest)) by {
                assert forall|i: int, j: int|
                    0 <= i < first.len() && 0 <= j < rest.len() implies keys_differ(
                    first[i],
                    rest[j],
                ) by {
                    assert(first[i].target_square() == from);
                    assert(from + 1 <= rest[j].target_square());
                }
            }
            lemma_joined_distinct(first, rest);
            assert forall|i: int| 0 <= i < all.len() implies (#[trigger] all[i]).start_square()
                == square && from <= all[i].target_square() && has_bit(
                targets,
                all[i].target_square(),
            ) && all[i].moved_piece() == piece.index() by {
                if i < first.len() {
                    assert(all[i] == first[i]);
                } else {
                    assert(all[i] == rest[i - first.len()]);
                }
            }
        } else {
            assert forall|i: int| 0 <= i < rest.len() implies from <= (#[trigger] rest[i])
                .target_square() by {}
        }
    }
}

/// Whether every move of a list goes from a square from `from` up to one
/// of the targets that are left to the piece on that square.
pub open spec fn all_from(
    list: Seq<Move>,
    state: CheckState,
    position: Position,
    piece: Piece,
    from: int,
) -> bool {
    forall|i: int|
        0 <= i < list.len() ==> from <= (#[trigger] list[i]).start_square() < 64 && has_bit(
            if piece == Piece::Pawn {
                pawn_targets(state, position, list[i].start_square())
            } else {
                piece_targets(state, position, piece, list[i].start_square())
            },
            list[i].target_square(),
        ) && has_bit(position.bitboard(piece, position.color), list[i].start_square())
}

/// The moves of the pieces of one kind hold no move twice, and each goes
/// from the square of such a piece to a target that is left to it.
proof fn lemma_piece_moves_distinct(
    state: CheckState,
    position: Position,
    piece: Piece,
    from: int,
)
    requires
        0 <= from,
    ensures
        ({
            let pieces = position.bitboard(piece, position.color);
            let list = if piece == Piece::Pawn {
                pawn_moves(state, position, pieces, from)
            } else {
                piece_moves(state, position, piece, pieces, from)
            };
            &&& distinct(list)
            &&& all_from(list, state, position, piece, from)
            &&& kinds_within(list, piece.index(), piece.index() + 1)
        }),
    decreases 64 - from,
{
    let pieces = position.bitboard(piece, position.color);
    if from < 64 {
        lemma_piece_moves_distinct(state, position, piece, from + 1);
        let rest = if piece == Piece::Pawn {
            pawn_moves(state, position, pieces, from + 1)
        } else {
            piece_moves(state, position, piece, pieces, from + 1)
        };
        if has_bit(pieces, from) {
            let targets = if piece == Piece::Pawn {
                pawn_targets(state, position, from)
            } else {
                piece_targets(state, position, piece, from)
            };
            let first = moves_to(position, piece, from, targets, 0);
            let all = first + rest;
            lemma_moves_to_distinct(position, piece, from, targets, 0);
            assert(apart(first, rest)) by {
                assert forall|i: int, j: int|
                    0 <= i < first.len() && 0 <= j < rest.len() implies keys_differ(
                    first[i],
                    rest[j],
                ) by {
                    assert(first[i].start_square() == from);
                    assert(from + 1 <= rest[j].start_square());
                }
            }
            lemma_joined_distinct(first, rest);
            lemma_kinds_joined(first, rest, piece.index(), piece.index() + 1);
            assert forall|i: int| 0 <= i < all.len() implies from <= (#[trigger] all[i])
                .start_square() < 64 && has_bit(
                if piece == Piece::Pawn {
                    pawn_targets(state, position, all[i].start_square())
                } else {
                    piece_targets(state, position, piece, all[i].start_square())
                },
                all[i].target_square(),
            ) && has_bit(pieces, all[i].start_square()) by {
                if i < first.len() {
                    assert(all[i] == first[i]);
                } else {
                    assert(all[i] == rest[i - first.len()]);
                }
            }
        } else {
            assert forall|i: int| 0 <= i < rest.len() implies from <= (#[trigger] rest[i])
                .start_square() by {}
        }
    }
}

/// The en-passant captures hold no move twice, and each goes to the
/// en-passant square.
proof fn lemma_enpassant_from_distinct(
    state: CheckState,
    position: Position,
    pawns: Bitboard,
    from: int,
)
    requires
        position.enpassant is Some,
        position.enpassant->0 < 64,
        0 <= from,
    ensures
        distinct(enpassant_from(state, position, pawns, from)),
        all_start(enpassant_from(state, position, pawns, from), from),
        forall|i: int|
            0 <= i < enpassant_from(state, position, pawns, from).len() ==> (
            #[trigger] enpassant_from(state, position, pawns, from)[i]).target_square()
                == position.enpassant->0,
        kinds_within(enpassant_from(state, position, pawns, from), 1, 2),
    decreases 64 - from,
{
    broadcast use group_has_bit;

    if from < 64 {
        let rest = enpassant_from(state, position, pawns, from + 1);
        lemma_enpassant_from_distinct(state, position, pawns, from + 1);
        if has_bit(pawns, from) && state.pin_rays[from] == 0 {
            let target = position.enpassant->0 as int;
            let first = moves_to(position, Piece::Pawn, from, bit(target), 0);
            let all = first + rest;
            lemma_moves_to_distinct(position, Piece::Pawn, from, bit(target), 0);
            assert(apart(first, rest)) by {
                assert forall|i: int, j: int|
                    0 <= i < first.len() && 0 <= j < rest.len() implies keys_differ(
                    first[i],
                    rest[j],
                ) by {
                    assert(first[i].start_square() == from);
                    assert(from + 1 <= rest[j].start_square());
                }
            }
            lemma_joined_distinct(first, rest);
            lemma_kinds_joined(first, rest, 1, 2);
            assert forall|i: int| 0 <= i < all.len() implies from <= (#[trigger] all[i])
                .start_square() && all[i].target_square() == target by {
                if i < first.len() {
                    assert(all[i] == first[i]);
                    assert(has_bit(bit(target), first[i].target_square()));
                } else {
                    assert(all[i] == rest[i - first.len()]);
                }
            }
        } else {
            assert forall|i: int| 0 <= i < rest.len() implies from <= (#[trigger] rest[i])
                .start_square() by {}
        }
    }
}

/// The king's steps and castling are apart: castling takes the king two
/// squares along its rank, a step takes it to a square next to it.
#[verifier::rlimit(40)]
proof fn lemma_castling_apart(position: Position)
    requires
        position.wf(),
    ensures
        apart(
            piece_moves(
                check_state(position),
                position,
                Piece::King,
                position.bitboard(Piece::King, position.color),
                0,
            ),
            castle_moves(check_state(position), position),
        ),
        distinct(castle_moves(check_state(position), position)),
        kinds_within(castle_moves(check_state(position), position), 0, 1),
{
    broadcast use group_has_bit;

    let state = check_state(position);
    let color = position.color;
    let kings = position.bitboard(Piece::King, color);
    let steps = piece_moves(state, position, Piece::King, kings, 0);
    let castles = castle_moves(state, position);
    let rights = CASTLE_RIGHTS[color.index()] & (position.castle_rights as u64);
    let targets = castle_targets(state, position, rights, 0, 0);
    lemma_piece_moves_distinct(state, position, Piece::King, 0);
    if castles.len() > 0 {
        lemma_lsb(kings);
        let king = lsb(kings);
        lemma_moves_to_distinct(position, Piece::King, king, targets, 0);
        assert(CASTLE_RIGHTS[0] == 0b0011 && CASTLE_RIGHTS[1] == 0b1100);
        assert(Color::White.index() == 0 && Color::Black.index() == 1);
        assert(position.square_ok(king));
        assert forall|i: int, j: int|
            0 <= i < steps.len() && 0 <= j < castles.len() implies keys_differ(
            steps[i],
            castles[j],
        ) by {
            let step = steps[i];
            let castle = castles[j];
            if step.start_square() == castle.start_square() {
                let target = castle.target_square();
                lemma_castle_targets(state, position, rights, 0, 0, target);
                let index = choose|index: int|
                    0 <= index < 4 && has_bit(rights, index) && castle_open(state, position, index)
                        && target == #[trigger] king_landing(index);
                lemma_masks(index);
                lemma_squares_where_member(|t: int| is_neighbor(king, t), step.target_square());
                assert(has_bit(king_attacks(king), step.target_square()));
                assert(!is_neighbor(king, target));
            }
        }
    }
}

/// No move is listed twice: no two moves of the list of a sound position
/// agree in start square, target square and promotion piece.
#[verifier::rlimit(40)]
pub proof fn lemma_no_move_is_listed_twice(position: Position)
    requires
        position.wf(),
    ensures
        distinct(all_moves(position)),
{
    broadcast use group_has_bit;

    let state = check_state(position);
    let color = position.color;
    lemma_check_state_flags(position);
    let k = piece_moves(state, position, Piece::King, position.bitboard(Piece::King, color), 0);
    let c = castle_moves(state, position);
    let p = pawn_moves(state, position, position.bitboard(Piece::Pawn, color), 0);
    let e = enpassant_moves(state, position);
    let n = piece_moves(
        state,
        position,
        Piece::Knight,
        position.bitboard(Piece::Knight, color),
        0,
    );
    let b = piece_moves(
        state,
        position,
        Piece::Bishop,
        position.bitboard(Piece::Bishop, color),
        0,
    );
    let r = piece_moves(state, position, Piece::Rook, position.bitboard(Piece::Rook, color), 0);
    let q = piece_moves(state, position, Piece::Queen, position.bitboard(Piece::Queen, color), 0);
    lemma_piece_moves_distinct(state, position, Piece::King, 0);
    lemma_castling_apart(position);
    lemma_piece_moves_distinct(state, position, Piece::Pawn, 0);
    lemma_piece_moves_distinct(state, position, Piece::Knight, 0);
    lemma_piece_moves_distinct(state, position, Piece::Bishop, 0);
    lemma_piece_moves_distinct(state, position, Piece::Rook, 0);
    lemma_piece_moves_distinct(state, position, Piece::Queen, 0);
    if position.enpassant is Some {
        assert(position.enpassant_ok());
        lemma_enpassant_from_distinct(state, position, enpassant_pawns(state, position), 0);
        assert(apart(p, e)) by {
            assert forall|i: int, j: int|
                0 <= i < p.len() && 0 <= j < e.len() implies keys_differ(p[i], e[j]) by {
                lemma_pawn_targets_miss_enpassant(
                    state,
                    position,
                    p[i].start_square(),
                    p[i].target_square(),
                );
            }
        }
    } else {
        assert(e.len() == 0);
    }
    // Every part admits its moves, so that pieces of different kinds start
    // on different squares.
    lemma_parts_admitted(state, position);
    let none = Seq::<Move>::empty();
    assert(none + k =~= k);
    let kings = (none + k) + c;
    lemma_joined_distinct(k, c);
    lemma_kinds_joined(k, c, 0, 1);
    super::legal::lemma_joined(position, k, c);
    // The pawns.
    lemma_kinds_apart(position, kings, p, 1);
    lemma_joined_distinct(kings, p);
    lemma_kinds_apart(position, kings, e, 1);
    lemma_apart_joined(kings, p, e);
    lemma_joined_distinct(kings + p, e);
    lemma_kinds_joined(kings, p, 0, 2);
    lemma_kinds_joined(kings + p, e, 0, 2);
    super::legal::lemma_joined(position, kings, p);
    super::legal::lemma_joined(position, kings + p, e);
    let pawned = (kings + p) + e;
    // The knights.
    lemma_kinds_apart(position, pawned, n, 2);
    lemma_joined_distinct(pawned, n);
    lemma_kinds_joined(pawned, n, 0, 3);
    super::legal::lemma_joined(position, pawned, n);
    // The bishops.
    lemma_kinds_apart(position, pawned + n, b, 3);
    lemma_joined_distinct(pawned + n, b);
    lemma_kinds_joined(pawned + n, b, 0, 4);
    super::legal::lemma_joined(position, pawned + n, b);
    // The rooks.
    lemma_kinds_apart(position, (pawned + n) + b, r, 4);
    lemma_joined_distinct((pawned + n) + b, r);
    lemma_kinds_joined((pawned + n) + b, r, 0, 5);
    super::legal::lemma_joined(position, (pawned + n) + b, r);
    // The queens.
    lemma_kinds_apart(position, ((pawned + n) + b) + r, q, 5);
    lemma_joined_distinct(((pawned + n) + b) + r, q);
    assert(all_moves(position) == moves_in(state, position));
}

/// A sound position admits the moves of every part of its list.
proof fn lemma_parts_admitted(state: CheckState, position: Position)
    requires
        position.wf(),
        state.pin_rays.len() == 64,
    ensures
        ({
            let color = position.color;
            &&& all_admitted(
                position,
                piece_moves(state, position, Piece::King, position.bitboard(Piece::King, color), 0),
            )
            &&& all_admitted(position, castle_moves(state, position))
            &&& all_admitted(
                position,
                pawn_moves(state, position, position.bitboard(Piece::Pawn, color), 0),
            )
            &&& all_admitted(position, enpassant_moves(state, position))
            &&& all_admitted(
                position,
                piece_moves(
                    state,
                    position,
                    Piece::Knight,
                    position.bitboard(Piece::Knight, color),
                    0,
                ),
            )
            &&& all_admitted(
                position,
                piece_moves(
                    state,
                    position,
                    Piece::Bishop,
                    position.bitboard(Piece::Bishop, color),
                    0,
                ),
            )
            &&& all_admitted(
                position,
                piece_moves(state, position, Piece::Rook, position.bitboard(Piece::Rook, color), 0),
            )
            &&& all_admitted(
                position,
                piece_moves(
                    state,
                    position,
                    Piece::Queen,
                    position.bitboard(Piece::Queen, color),
                    0,
                ),
            )
        }),
{
    broadcast use group_has_bit;

    let color = position.color;
    super::legal::lemma_piece_moves_fit(
        state,
        position,
        Piece::King,
        position.bitboard(Piece::King, color),
        0,
    );
    super::legal::lemma_castle_moves_fit(state, position);
    super::legal::lemma_pawn_moves_fit(state, position, position.bitboard(Piece::Pawn, color), 0);
    if position.enpassant is Some {
        super::legal::lemma_enpassant_from_fit(
            state,
            position,
            enpassant_pawns(state, position),
            0,
        );
    }
    super::legal::lemma_piece_moves_fit(
        state,
        position,
        Piece::Knight,
        position.bitboard(Piece::Knight, color),
        0,
    );
    super::legal::lemma_piece_moves_fit(
        state,
        position,
        Piece::Bishop,
        position.bitboard(Piece::Bishop, color),
        0,
    );
    super::legal::lemma_piece_moves_fit(
        state,
        position,
        Piece::Rook,
        position.bitboard(Piece::Rook, color),
        0,
    );
    super::legal::lemma_piece_moves_fit(
        state,
        position,
        Piece::Queen,
        position.bitboard(Piece::Queen, color),
        0,
    );
}

} // verus!
