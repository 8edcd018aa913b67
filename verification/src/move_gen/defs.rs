//! The packed move: what is played, and what the position was before it.

use super::MoveGenerator;
use crate::bitboard::{group_has_bit, has_bit, is_occupied, lemma_lsb, lsb, pop_lsb, Bitboard};
use crate::board::{Board, Position};
use crate::color::Color;
use crate::notation::{push_char, square_name, square_to_string};
use crate::piece::{Piece, PROMOTION_PIECES};
use vstd::string::StringExecFns;
use vstd::prelude::*;

verus! {

/// The last rank of each side's pawns.
pub const PAWN_PROMOTION_RANK: [Bitboard; 2] = [0xff00000000000000, 0x00000000000000ff];

/// Where each field of a packed move begins, counted in bits from the
/// lowest.
pub struct Shift;

impl Shift {
    /// The piece moved.
    pub const PIECE_MOVED: u64 = 0;

    /// The start square.
    pub const START_SQUARE: u64 = 3;

    /// The target square.
    pub const TARGET_SQUARE: u64 = 9;

    /// The move type.
    pub const MOVE_TYPE: u64 = 15;

    /// The promotion piece.
    pub const PROMOTION: u64 = 18;

    /// The castling right exercised.
    pub const CASTLE_RIGHT: u64 = 21;

    /// The en-passant square before the move.
    pub const PREV_ENPASSANT: u64 = 25;

    /// The castling rights before the move.
    pub const PREV_CASTLE_RIGHTS: u64 = 31;

    /// The piece captured.
    pub const PIECE_CAPTURED: u64 = 35;
}

/// The move type of an ordinary move.
pub const MOVE_NORMAL: usize = 0;

/// The move type of an en-passant capture.
pub const MOVE_ENPASSANT: usize = 1;

/// The move type of a promotion.
pub const MOVE_PROMOTION: usize = 2;

/// The move type of castling.
pub const MOVE_CASTLE: usize = 4;

/// A move in one word. From the lowest bit: the piece moved (3 bits), the
/// start square (6), the target square (6), the move type (3), the
/// promotion piece (3), the castling right exercised (4), and, filled in when
/// the move is played, the en-passant square before the move (6, zero for
/// none), the castling rights before it (4) and the piece captured (3, zero
/// for none, else the piece's index plus one).
#[derive(Clone, Copy, PartialEq, Eq, Structural, Debug)]
pub struct Move {
    pub data: u64,
}

/// Fields that are packed into a word are read back from it.
proof fn lemma_pack(
    piece: u64,
    start: u64,
    target: u64,
    kind: u64,
    promotion: u64,
    right: u64,
    enpassant: u64,
    rights: u64,
    captured: u64,
)
    by (bit_vector)
    requires
        piece < 8,
        start < 64,
        target < 64,
        kind < 8,
        promotion < 8,
        right < 16,
        enpassant < 64,
        rights < 16,
        captured < 8,
    ensures
        ({
            let fresh = piece << 0u64 | start << 3u64 | target << 9u64 | kind << 15u64 | right
                << 21u64 | promotion << 18u64;
            let done = ((fresh | enpassant << 25u64) | rights << 31u64) | captured << 35u64;
            &&& fresh < 0x200_0000
            &&& (fresh & 0x7) >> 0u64 == piece
            &&& (fresh & 0x1f8) >> 3u64 == start
            &&& (fresh & 0x7e00) >> 9u64 == target
            &&& (fresh & 0x38000) >> 15u64 == kind
            &&& (fresh & 0x1c0000) >> 18u64 == promotion
            &&& (fresh & 0x1e00000) >> 21u64 == right
            &&& (fresh & 0x7e000000) >> 25u64 == 0
            &&& (fresh & 0x780000000) >> 31u64 == 0
            &&& (fresh & 0x3800000000) >> 35u64 == 0
            &&& (done & 0x7) >> 0u64 == piece
            &&& (done & 0x1f8) >> 3u64 == start
            &&& (done & 0x7e00) >> 9u64 == target
            &&& (done & 0x38000) >> 15u64 == kind
            &&& (done & 0x1c0000) >> 18u64 == promotion
            &&& (done & 0x1e00000) >> 21u64 == right
            &&& (done & 0x7e000000) >> 25u64 == enpassant
            &&& (done & 0x780000000) >> 31u64 == rights
            &&& (done & 0x3800000000) >> 35u64 == captured
        }),
{
}

/// Filling in the fields of the position before a move leaves the other fields
/// alone.
proof fn lemma_unpack(data: u64, enpassant: u64, rights: u64, captured: u64)
    by (bit_vector)
    requires
        data < 0x200_0000,
        enpassant < 64,
        rights < 16,
        captured < 8,
    ensures
        ({
            let mid = (data | enpassant << 25u64) | rights << 31u64;
            let done = mid | captured << 35u64;
            &&& (mid & 0x7) >> 0u64 == (data & 0x7) >> 0u64
            &&& (mid & 0x1f8) >> 3u64 == (data & 0x1f8) >> 3u64
            &&& (mid & 0x7e00) >> 9u64 == (data & 0x7e00) >> 9u64
            &&& (mid & 0x38000) >> 15u64 == (data & 0x38000) >> 15u64
            &&& (mid & 0x1c0000) >> 18u64 == (data & 0x1c0000) >> 18u64
            &&& (mid & 0x1e00000) >> 21u64 == (data & 0x1e00000) >> 21u64
            &&& (mid & 0x7e000000) >> 25u64 == enpassant
            &&& (mid & 0x780000000) >> 31u64 == rights
            &&& (mid & 0x3800000000) >> 35u64 == 0
            &&& (data & 0x7) >> 0u64 < 8
            &&& (data & 0x1f8) >> 3u64 < 64
            &&& (data & 0x7e00) >> 9u64 < 64
            &&& (data & 0x38000) >> 15u64 < 8
            &&& (data & 0x1c0000) >> 18u64 < 8
            &&& (data & 0x1e00000) >> 21u64 < 16
            &&& (done & 0x7) >> 0u64 == (data & 0x7) >> 0u64
            &&& (done & 0x1f8) >> 3u64 == (data & 0x1f8) >> 3u64
            &&& (done & 0x7e00) >> 9u64 == (data & 0x7e00) >> 9u64
            &&& (done & 0x38000) >> 15u64 == (data & 0x38000) >> 15u64
            &&& (done & 0x1c0000) >> 18u64 == (data & 0x1c0000) >> 18u64
            &&& (done & 0x1e00000) >> 21u64 == (data & 0x1e00000) >> 21u64
            &&& (done & 0x7e000000) >> 25u64 == enpassant
            &&& (done & 0x780000000) >> 31u64 == rights
            &&& (done & 0x3800000000) >> 35u64 == captured
        }),
{
}

/// Every field lies within its width.
proof fn lemma_field_bounds(data: u64)
    by (bit_vector)
    ensures
        (data & 0x7) >> 0u64 < 8,
        (data & 0x1f8) >> 3u64 < 64,
        (data & 0x7e00) >> 9u64 < 64,
        (data & 0x38000) >> 15u64 < 8,
        (data & 0x1c0000) >> 18u64 < 8,
        (data & 0x1e00000) >> 21u64 < 16,
        (data & 0x7e000000) >> 25u64 < 64,
        (data & 0x780000000) >> 31u64 < 16,
        (data & 0x3800000000) >> 35u64 < 8,
{
}

impl Move {
    /// The bits of the piece moved.
    pub const PIECE_MOVED_MASK: u64 = 0x0000000007;

    /// The bits of the start square.
    pub const START_SQUARE_MASK: u64 = 0x00000001f8;

    /// The bits of the target square.
    pub const TARGET_SQUARE_MASK: u64 = 0x0000007e00;

    /// The bits of the move type.
    pub const MOVE_TYPE_MASK: u64 = 0x0000038000;

    /// The bits of the promotion piece.
    pub const PROMOTION_MASK: u64 = 0x00001c0000;

    /// The bits of the castling right exercised.
    pub const CASTLE_RIGHT_MASK: u64 = 0x0001e00000;

    /// The bits of the en-passant square before the move.
    pub const PREV_ENPASSANT_MASK: u64 = 0x007e000000;

    /// The bits of the castling rights before the move.
    pub const PREV_CASTLE_RIGHTS_MASK: u64 = 0x0780000000;

    /// The bits of the piece captured.
    pub const PIECE_CAPTURED_MASK: u64 = 0x3800000000;

    /// The index of the piece that moves.
    pub open spec fn moved_piece(self) -> int {
        ((self.data & 0x7) >> 0u64) as int
    }

    /// The square the piece leaves.
    pub open spec fn start_square(self) -> int {
        ((self.data & 0x1f8) >> 3u64) as int
    }

    /// The square the piece arrives on.
    pub open spec fn target_square(self) -> int {
        ((self.data & 0x7e00) >> 9u64) as int
    }

    /// The move type: 0 ordinary, 1 en passant, 2 promotion, 4 castling.
    pub open spec fn move_type(self) -> int {
        ((self.data & 0x38000) >> 15u64) as int
    }

    /// The index of the piece a pawn promotes to.
    pub open spec fn promotion(self) -> int {
        ((self.data & 0x1c0000) >> 18u64) as int
    }

    /// The castling right that the move exercises, as a one-bit mask.
    pub open spec fn castle_right(self) -> int {
        ((self.data & 0x1e00000) >> 21u64) as int
    }

    /// The en-passant field: the square before the move, zero for none.
    pub open spec fn enpassant_field(self) -> int {
        ((self.data & 0x7e000000) >> 25u64) as int
    }

    /// The en-passant square before the move.
    pub open spec fn prev_enpassant(self) -> Option<usize> {
        if self.enpassant_field() != 0 {
            Some(self.enpassant_field() as usize)
        } else {
            None
        }
    }

    /// The castling rights before the move.
    pub open spec fn prev_castle_rights(self) -> int {
        ((self.data & 0x780000000) >> 31u64) as int
    }

    /// The capture field: zero for no capture, else the index of the
    /// captured piece plus one.
    pub open spec fn captured_field(self) -> int {
        ((self.data & 0x3800000000) >> 35u64) as int
    }

    /// The index of the piece that the move captured on its target square.
    pub open spec fn piece_captured(self) -> Option<usize> {
        if self.captured_field() != 0 {
            Some((self.captured_field() - 1) as usize)
        } else {
            None
        }
    }

    /// Whether the move has not been played: the fields that record the
    /// position before the move are still empty.
    pub open spec fn fresh(self) -> bool {
        self.data < 0x200_0000
    }

    /// The move that is generated for a piece, its start and target squares,
    /// a move type, a promotion piece and a castling right.
    pub open spec fn pack(
        piece: int,
        start: int,
        target: int,
        kind: int,
        promotion: int,
        right: int,
    ) -> Move {
        Move {
            data: (piece as u64) << 0u64 | (start as u64) << 3u64 | (target as u64) << 9u64 | (
            kind as u64) << 15u64 | (right as u64) << 21u64 | (promotion as u64) << 18u64,
        }
    }

    /// The value that the en-passant field takes for a square.
    pub open spec fn enpassant_code(enpassant: Option<usize>) -> u64 {
        match enpassant {
            Some(square) => square as u64,
            None => 0,
        }
    }

    /// The value that the capture field takes for a captured piece.
    pub open spec fn captured_code(captured: Option<int>) -> u64 {
        match captured {
            Some(piece) => (piece + 1) as u64,
            None => 0,
        }
    }

    /// The move with the position before it filled in.
    pub open spec fn completed(
        self,
        enpassant: Option<usize>,
        rights: usize,
        captured: Option<int>,
    ) -> Move {
        let prior = (self.data | Move::enpassant_code(enpassant) << 25u64) | (rights as u64)
            << 31u64;
        match captured {
            Some(piece) => Move { data: prior | Move::captured_code(captured) << 35u64 },
            None => Move { data: prior },
        }
    }

    /// Every field of every move lies within its width.
    pub proof fn lemma_fields_bounded(self)
        ensures
            0 <= self.moved_piece() < 8,
            0 <= self.start_square() < 64,
            0 <= self.target_square() < 64,
            0 <= self.move_type() < 8,
            0 <= self.promotion() < 8,
            0 <= self.castle_right() < 16,
            0 <= self.enpassant_field() < 64,
            0 <= self.prev_castle_rights() < 16,
            0 <= self.captured_field() < 8,
    {
        lemma_field_bounds(self.data);
    }

    /// A generated move holds what it was generated from and is fresh.
    pub proof fn lemma_packed(
        piece: int,
        start: int,
        target: int,
        kind: int,
        promotion: int,
        right: int,
    )
        requires
            0 <= piece < 8,
            0 <= start < 64,
            0 <= target < 64,
            0 <= kind < 8,
            0 <= promotion < 8,
            0 <= right < 16,
        ensures
            ({
                let m = Move::pack(piece, start, target, kind, promotion, right);
                &&& m.fresh()
                &&& m.moved_piece() == piece
                &&& m.start_square() == start
                &&& m.target_square() == target
                &&& m.move_type() == kind
                &&& m.promotion() == promotion
                &&& m.castle_right() == right
                &&& m.enpassant_field() == 0
                &&& m.prev_castle_rights() == 0
                &&& m.captured_field() == 0
            }),
    {
        lemma_pack(
            piece as u64,
            start as u64,
            target as u64,
            kind as u64,
            promotion as u64,
            right as u64,
            0,
            0,
            0,
        );
    }

    /// Completing a fresh move keeps what was generated and records the
    /// position before the move without loss.
    pub proof fn lemma_completed(
        self,
        enpassant: Option<usize>,
        rights: usize,
        captured: Option<int>,
    )
        requires
            self.fresh(),
            enpassant is Some ==> 0 < enpassant->0 < 64,
            rights < 16,
            captured is Some ==> 0 <= captured->0 < 6,
        ensures
            ({
                let m = self.completed(enpassant, rights, captured);
                &&& m.moved_piece() == self.moved_piece()
                &&& m.start_square() == self.start_square()
                &&& m.target_square() == self.target_square()
                &&& m.move_type() == self.move_type()
                &&& m.promotion() == self.promotion()
                &&& m.castle_right() == self.castle_right()
                &&& m.prev_enpassant() == enpassant
                &&& m.prev_castle_rights() == rights
                &&& m.piece_captured() == (match captured {
                    Some(piece) => Some(piece as usize),
                    None => None,
                })
            }),
    {
        lemma_unpack(
            self.data,
            Move::enpassant_code(enpassant),
            rights as u64,
            Move::captured_code(captured),
        );
    }

    /// The move in coordinate notation: the name of the start square, the
    /// name of the target square, and the letter of the promotion piece
    /// where the promotion field names a piece other than the king.
    pub open spec fn text(self) -> Seq<char> {
        let squares = square_name(self.start_square()) + square_name(self.target_square());
        if self.promotion() != 0 {
            squares.push(Piece::of_index(self.promotion()).letter())
        } else {
            squares
        }
    }

    /// The move in coordinate notation, such as `e2e4` or `a7a8q`.
    pub fn to_string(&self) -> (text: String)
        requires
            self.promotion() < 6,
        ensures
            text@ == self.text(),
    {
        let promotion_piece: Piece = Piece::new(self.get_promotion());
        let mut text: String = square_to_string(self.get_start_square() as usize);
        let target: String = square_to_string(self.get_target_square() as usize);
        text.append(target.as_str());

        if promotion_piece != Piece::King {
            push_char(&mut text, promotion_piece.to_char());
        }
        text
    }

    /// A move from its packed word.
    pub fn new(data: u64) -> (m: Move)
        ensures
            m.data == data,
    {
        Move { data }
    }

    /// Records the en-passant square before the move. The field must still
    /// be empty for the square to be read back.
    pub fn set_prev_enpassant(&mut self, enpassant: Option<usize>)
        requires
            enpassant is Some ==> enpassant->0 < 64,
        ensures
            final(self).data == old(self).data | Move::enpassant_code(enpassant) << 25u64,
    {
        if let Some(ep) = enpassant {
            self.data |= (ep as u64) << Shift::PREV_ENPASSANT;
        } else {
            assert(self.data | 0u64 << 25u64 == self.data) by (bit_vector);
        }
    }

    /// Records the castling rights before the move.
    pub fn set_prev_castle_rights(&mut self, castle_rights: usize)
        requires
            castle_rights < 16,
        ensures
            final(self).data == old(self).data | (castle_rights as u64) << 31u64,
    {
        self.data |= (castle_rights as u64) << Shift::PREV_CASTLE_RIGHTS;
    }

    /// Records the piece that the move captures on its target square.
    pub fn set_piece_captured(&mut self, piece: usize)
        requires
            piece < 6,
        ensures
            final(self).data == old(self).data | Move::captured_code(Some(piece as int)) << 35u64,
    {
        self.data |= ((piece + 1) as u64) << Shift::PIECE_CAPTURED;
    }

    /// The index of the piece that moves.
    pub fn get_moved_piece(&self) -> (piece: usize)
        ensures
            piece == self.moved_piece(),
            piece < 8,
    {
        proof {
            lemma_field_bounds(self.data);
        }
        ((self.data & Move::PIECE_MOVED_MASK) >> Shift::PIECE_MOVED) as usize
    }

    /// The square the piece leaves.
    pub fn get_start_square(&self) -> (square: u8)
        ensures
            square == self.start_square(),
            square < 64,
    {
        proof {
            lemma_field_bounds(self.data);
        }
        ((self.data & Move::START_SQUARE_MASK) >> Shift::START_SQUARE) as u8
    }

    /// The square the piece arrives on.
    pub fn get_target_square(&self) -> (square: u8)
        ensures
            square == self.target_square(),
            square < 64,
    {
        proof {
            lemma_field_bounds(self.data);
        }
        ((self.data & Move::TARGET_SQUARE_MASK) >> Shift::TARGET_SQUARE) as u8
    }

    /// The move type: 0 ordinary, 1 en passant, 2 promotion, 4 castling.
    pub fn get_move_type(&self) -> (kind: usize)
        ensures
            kind == self.move_type(),
            kind < 8,
    {
        proof {
            lemma_field_bounds(self.data);
        }
        ((self.data & Move::MOVE_TYPE_MASK) >> Shift::MOVE_TYPE) as usize
    }

    /// The index of the piece a pawn promotes to.
    pub fn get_promotion(&self) -> (piece: usize)
        ensures
            piece == self.promotion(),
            piece < 8,
    {
        proof {
            lemma_field_bounds(self.data);
        }
        ((self.data & Move::PROMOTION_MASK) >> Shift::PROMOTION) as usize
    }

    /// The castling right that the move exercises, as a one-bit mask.
    pub fn get_castle_right(&self) -> (right: usize)
        ensures
            right == self.castle_right(),
            right < 16,
    {
        proof {
            lemma_field_bounds(self.data);
        }
        ((self.data & Move::CASTLE_RIGHT_MASK) >> Shift::CASTLE_RIGHT) as usize
    }

    /// The en-passant square before the move, if there was one.
    pub fn get_prev_enpassant(&self) -> (enpassant: Option<usize>)
        ensures
            enpassant == self.prev_enpassant(),
            enpassant is Some ==> enpassant->0 < 64,
    {
        proof {
            lemma_field_bounds(self.data);
        }
        let ep: usize = ((self.data & Move::PREV_ENPASSANT_MASK) >> Shift::PREV_ENPASSANT) as usize;

        if ep != 0 {
            return Some(ep);
        }
        return None;
    }

    /// The castling rights before the move.
    pub fn get_prev_castle_rights(&self) -> (rights: usize)
        ensures
            rights == self.prev_castle_rights(),
            rights < 16,
    {
        proof {
            lemma_field_bounds(self.data);
        }
        ((self.data & Move::PREV_CASTLE_RIGHTS_MASK) >> Shift::PREV_CASTLE_RIGHTS) as usize
    }

    /// The index of the piece that the move captured on its target square,
    /// if it captured one.
    pub fn get_piece_captured(&self) -> (piece: Option<usize>)
        ensures
            piece == self.piece_captured(),
            piece is Some ==> piece->0 < 7,
    {
        proof {
            lemma_field_bounds(self.data);
        }
        let piece: usize = ((self.data & Move::PIECE_CAPTURED_MASK) >> Shift::PIECE_CAPTURED) as usize;

        if piece != 0 {
            return Some(piece - 1);
        }
        return None;
    }
}

/// The move type of the move of `piece` from `square` to `target`: 1 for a
/// pawn that moves to the en-passant square, 2 for a pawn that reaches its
/// last rank, 4 for a king that moves two squares along its rank; the sum
/// where more than one holds, 0 where none does.
pub open spec fn move_kind(position: Position, piece: Piece, square: int, target: int) -> int {
    (if piece == Piece::Pawn && position.enpassant == Some(target as usize) {
        1int
    } else {
        0
    }) + (if is_promotion(position, piece, target) {
        2int
    } else {
        0
    }) + (if is_castle(piece, square, target) {
        4int
    } else {
        0
    })
}

/// Whether a move of `piece` to `target` promotes: it is a pawn's and
/// reaches the last rank of the side to move.
pub open spec fn is_promotion(position: Position, piece: Piece, target: int) -> bool {
    piece == Piece::Pawn && has_bit(PAWN_PROMOTION_RANK[position.color.index()], target)
}

/// Whether a move of `piece` from `square` to `target` castles: it is a
/// king's and spans two squares.
pub open spec fn is_castle(piece: Piece, square: int, target: int) -> bool {
    piece == Piece::King && (square - target == 2 || target - square == 2)
}

/// The castling right that a king's move from `square` to `target`
/// exercises: the queenside right when the king moves towards the a-file.
pub open spec fn castle_right_for(color: Color, square: int, target: int) -> int {
    match color {
        Color::White => if square > target {
            1
        } else {
            2
        },
        Color::Black => if square > target {
            4
        } else {
            8
        },
    }
}

/// The move of `piece` from `square` to `target` with a promotion piece.
pub open spec fn move_with(
    position: Position,
    piece: Piece,
    square: int,
    target: int,
    promotion: int,
) -> Move {
    Move::pack(
        piece.index(),
        square,
        target,
        move_kind(position, piece, square, target),
        promotion,
        if is_castle(piece, square, target) {
            castle_right_for(position.color, square, target)
        } else {
            0
        },
    )
}

/// The moves generated for `piece` going from `square` to `target`: one
/// move, or, for a promotion, one for each of queen, rook, bishop and
/// knight, in that order.
pub open spec fn moves_for(position: Position, piece: Piece, square: int, target: int) -> Seq<
    Move,
> {
    if is_promotion(position, piece, target) {
        seq![
            move_with(position, piece, square, target, 5),
            move_with(position, piece, square, target, 4),
            move_with(position, piece, square, target, 3),
            move_with(position, piece, square, target, 2),
        ]
    } else {
        seq![move_with(position, piece, square, target, 0)]
    }
}

/// The moves generated for `piece` going from `square` to each of
/// `targets` from square `from` up, lowest target first.
pub open spec fn moves_to(
    position: Position,
    piece: Piece,
    square: int,
    targets: Bitboard,
    from: int,
) -> Seq<Move>
    decreases 64 - from,
{
    if from < 0 || from >= 64 {
        Seq::empty()
    } else if has_bit(targets, from) {
        moves_for(position, piece, square, from) + moves_to(
            position,
            piece,
            square,
            targets,
            from + 1,
        )
    } else {
        moves_to(position, piece, square, targets, from + 1)
    }
}

/// Squares that are no targets add no moves.
pub proof fn lemma_moves_to_skip(
    position: Position,
    piece: Piece,
    square: int,
    targets: Bitboard,
    from: int,
    to: int,
)
    requires
        0 <= from <= to <= 64,
        forall|j: int| from <= j < to ==> !has_bit(targets, j),
    ensures
        moves_to(position, piece, square, targets, from) == moves_to(
            position,
            piece,
            square,
            targets,
            to,
        ),
    decreases to - from,
{
    if from < to {
        lemma_moves_to_skip(position, piece, square, targets, from + 1, to);
    }
}

/// Every move generated for a set of targets is one generated for a
/// target in the set.
pub proof fn lemma_moves_to_member(
    position: Position,
    piece: Piece,
    square: int,
    targets: Bitboard,
    from: int,
    i: int,
) -> (found: (int, int))
    requires
        0 <= from,
        0 <= i < moves_to(position, piece, square, targets, from).len(),
    ensures
        from <= found.0 < 64,
        has_bit(targets, found.0),
        0 <= found.1 < moves_for(position, piece, square, found.0).len(),
        moves_to(position, piece, square, targets, from)[i] == moves_for(
            position,
            piece,
            square,
            found.0,
        )[found.1],
    decreases 64 - from,
{
    if has_bit(targets, from) {
        let first = moves_for(position, piece, square, from);
        if i < first.len() {
            (from, i)
        } else {
            lemma_moves_to_member(position, piece, square, targets, from + 1, i - first.len())
        }
    } else {
        lemma_moves_to_member(position, piece, square, targets, from + 1, i)
    }
}

impl MoveGenerator {
    /// Appends the moves of `piece` from `square_index` to each square of
    /// `bb_moves`, lowest target first. A move to the en-passant square by a
    /// pawn, a pawn's move to its last rank and a king's move of two squares
    /// get their move types; a promotion becomes four moves, and castling
    /// records the right it exercises.
    pub fn add_move(
        &self,
        board: &Board,
        piece: Piece,
        square_index: u8,
        bb_moves: Bitboard,
        list: &mut Vec<Move>,
    )
        requires
            square_index < 64,
        ensures
            final(list)@ == old(list)@ + moves_to(
                board@,
                piece,
                square_index as int,
                bb_moves,
                0,
            ),
    {
        let targets: Bitboard = bb_moves;
        let mut bb_moves: Bitboard = bb_moves;

        let color: Color = board.get_color();
        let promotion_rank: Bitboard = PAWN_PROMOTION_RANK[color.to_index()];
        let is_pawn: bool = piece == Piece::Pawn;
        let is_king: bool = piece == Piece::King;
        let ghost mut from: int = 0;
        assert(list@ + moves_to(board@, piece, square_index as int, targets, 0) == old(list)@
            + moves_to(board@, piece, square_index as int, targets, 0));

        while bb_moves > 0
            invariant
                square_index < 64,
                0 <= from <= 64,
                color == board@.color,
                promotion_rank == PAWN_PROMOTION_RANK[color.index()],
                is_pawn == (piece == Piece::Pawn),
                is_king == (piece == Piece::King),
                forall|j: int| has_bit(bb_moves, j) == (has_bit(targets, j) && j >= from),
                list@ + moves_to(board@, piece, square_index as int, targets, from) == old(list)@
                    + moves_to(board@, piece, square_index as int, targets, 0),
            decreases 64 - from,
        {
            proof {
                lemma_lsb(bb_moves);
                lemma_moves_to_skip(
                    board@,
                    piece,
                    square_index as int,
                    targets,
                    from,
                    lsb(bb_moves),
                );
            }
            let target_square: usize = pop_lsb(&mut bb_moves) as usize;
            let ghost before = list@;

            let enpassant: u64 = match board.enpassant {
                Some(ep) => {
                    if is_pawn && (ep == target_square) {
                        1
                    } else {
                        0
                    }
                },
                None => 0,
            };
            let promotion: bool = is_pawn && is_occupied(promotion_rank, target_square as u8);
            let castle: bool = is_king && (square_index as usize == target_square + 2
                || target_square == square_index as usize + 2);

            let move_type: u64 = enpassant + (if promotion {
                2
            } else {
                0
            }) + (if castle {
                4
            } else {
                0
            });
            let castle_right: u64 = if castle {
                if color == Color::White {
                    if square_index as usize > target_square {
                        0b0001
                    } else {
                        0b0010
                    }
                } else {
                    if square_index as usize > target_square {
                        0b0100
                    } else {
                        0b1000
                    }
                }
            } else {
                0
            };
            let data: u64 = (piece.to_index() as u64) << Shift::PIECE_MOVED | (square_index as u64)
                << Shift::START_SQUARE | (target_square as u64) << Shift::TARGET_SQUARE | move_type
                << Shift::MOVE_TYPE | castle_right << Shift::CASTLE_RIGHT;

            if !promotion {
                list.push(Move::new(data | 0u64 << Shift::PROMOTION));
            } else {
                let mut next: usize = 0;
                while next < 4
                    invariant
                        next <= 4,
                        list@.len() == before.len() + next,
                        forall|i: int| 0 <= i < before.len() ==> list@[i] == before[i],
                        forall|i: int|
                            0 <= i < next ==> (#[trigger] list@[before.len() + i]).data == data | (
                            PROMOTION_PIECES[i].index() as u64) << 18u64,
                    decreases 4 - next,
                {
                    let promotion_piece: u64 = PROMOTION_PIECES[next].to_index() as u64;

                    list.push(Move::new(data | promotion_piece << Shift::PROMOTION));
                    next += 1;
                }
            }
            proof {
                let made = moves_for(board@, piece, square_index as int, target_square as int);
                assert(list@ =~= before + made) by {
                    if promotion {
                        assert(list@[before.len() as int + 0].data == data | (
                        PROMOTION_PIECES[0].index() as u64) << 18u64);
                        assert(list@[before.len() as int + 1].data == data | (
                        PROMOTION_PIECES[1].index() as u64) << 18u64);
                        assert(list@[before.len() as int + 2].data == data | (
                        PROMOTION_PIECES[2].index() as u64) << 18u64);
                        assert(list@[before.len() as int + 3].data == data | (
                        PROMOTION_PIECES[3].index() as u64) << 18u64);
                    }
                }
                assert((before + made) + moves_to(
                    board@,
                    piece,
                    square_index as int,
                    targets,
                    target_square + 1,
                ) =~= before + (made + moves_to(
                    board@,
                    piece,
                    square_index as int,
                    targets,
                    target_square + 1,
                )));
                from = target_square + 1;
            }
        }
        proof {
            broadcast use group_has_bit;

            lemma_moves_to_skip(board@, piece, square_index as int, targets, from, 64);
            assert(list@ + Seq::<Move>::empty() =~= list@);
        }
    }
}

} // verus!
