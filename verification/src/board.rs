//! The position: where the pieces stand, whose turn it is, and what has
//! been played. A position changes by playing one move or taking the last
//! one back, and taking a move back undoes playing it exactly.

use crate::bitboard::{bit, clear_bit, group_has_bit, has_bit, is_occupied, set_bit, Bitboard};
use crate::bitboard::{lemma_same_members};
use crate::color::Color;
use crate::move_gen::defs::Move;
use crate::move_gen::PAWN_PUSH_DIRECTION;
use crate::notation::{push_char, rank_digit, rank_to_char};
use crate::piece::Piece;
use core::ops::Not;
use vstd::string::StringExecFns;
use vstd::prelude::*;

verus! {

/// Where the rook of each castling right starts: a1, h1, a8, h8.
pub const CASTLE_ROOK_START: [u8; 4] = [0, 7, 56, 63];

/// Where the rook of each castling right lands: d1, f1, d8, f8.
pub const CASTLE_ROOK_TARGET: [u8; 4] = [3, 5, 59, 61];

/// A chess position with the moves that led to it.
pub struct Board {
    /// The squares of each kind of piece, of either side.
    pub pieces: [Bitboard; 6],
    /// The squares of each side's pieces.
    pub colors: [Bitboard; 2],
    /// The side to move.
    pub color: Color,
    /// The castling rights still held, one bit each: White queenside,
    /// White kingside, Black queenside, Black kingside.
    pub castle_rights: usize,
    /// The square on which a pawn may be captured en passant.
    pub enpassant: Option<usize>,
    /// The moves played, oldest first.
    pub move_history: Vec<Move>,
}

/// What a board holds, as mathematical values.
pub struct Position {
    pub pieces: Seq<Bitboard>,
    pub colors: Seq<Bitboard>,
    pub color: Color,
    pub castle_rights: usize,
    pub enpassant: Option<usize>,
    pub history: Seq<Move>,
}

/// Whether castling right `index` is among `rights`.
pub open spec fn holds_right(rights: usize, index: int) -> bool {
    has_bit(rights as u64, index)
}

/// The rights that remain when right `index` is given up.
pub open spec fn without_right(rights: usize, index: int) -> usize {
    rights & !(1usize << (index as usize))
}

/// The rights that remain when a side's king has moved.
pub open spec fn without_side(rights: usize, color: Color) -> usize {
    match color {
        Color::White => rights & 0b1100,
        Color::Black => rights & 0b0011,
    }
}

/// The castling right whose rook starts on `square`, if there is one.
pub open spec fn rook_corner(square: int) -> Option<int> {
    if square == 0 {
        Some(0)
    } else if square == 7 {
        Some(1)
    } else if square == 56 {
        Some(2)
    } else if square == 63 {
        Some(3)
    } else {
        None
    }
}

/// The start square of the rook of castling right `index`.
pub open spec fn rook_start(index: int) -> int {
    if index == 0 {
        0
    } else if index == 1 {
        7
    } else if index == 2 {
        56
    } else {
        63
    }
}

/// The square on which the rook of castling right `index` lands.
pub open spec fn rook_landing(index: int) -> int {
    if index == 0 {
        3
    } else if index == 1 {
        5
    } else if index == 2 {
        59
    } else {
        61
    }
}

/// The square on which the king lands when it exercises right `index`.
pub open spec fn king_landing(index: int) -> int {
    if index == 0 {
        2
    } else if index == 1 {
        6
    } else if index == 2 {
        58
    } else {
        62
    }
}

/// The side that castling right `index` belongs to.
pub open spec fn right_side(index: int) -> Color {
    if index < 2 {
        Color::White
    } else {
        Color::Black
    }
}

/// The square on which a side's king starts: e1 or e8.
pub open spec fn king_home(color: Color) -> int {
    match color {
        Color::White => 4,
        Color::Black => 60,
    }
}

/// The index of the right that a one-bit mask names.
pub open spec fn right_index(right: int) -> int {
    if right == 1 {
        0
    } else if right == 2 {
        1
    } else if right == 4 {
        2
    } else {
        3
    }
}

/// Whether `square` lies on the rank on which a side's pawns promote.
pub open spec fn on_last_rank(color: Color, square: int) -> bool {
    match color {
        Color::White => 56 <= square < 64,
        Color::Black => 0 <= square < 8,
    }
}

/// Whether `square` lies on the rank from which a side's pawns may advance
/// two squares.
pub open spec fn on_second_rank(color: Color, square: int) -> bool {
    match color {
        Color::White => 8 <= square < 16,
        Color::Black => 48 <= square < 56,
    }
}

/// Whether a move that was played by `mover` can be taken back: its fields
/// name pieces and squares of the board.
pub open spec fn shaped(m: Move, mover: Color) -> bool {
    &&& m.moved_piece() < 6
    &&& (m.move_type() == 2 ==> m.promotion() < 6)
    &&& (m.move_type() == 4 ==> m.castle_right() == 1 || m.castle_right() == 2 || m.castle_right()
        == 4 || m.castle_right() == 8)
    &&& (m.move_type() == 1 ==> 0 <= m.target_square() - mover.push() < 64)
    &&& (m.piece_captured() is Some ==> m.piece_captured()->0 < 6)
}

/// How giving up rights acts on single rights.
proof fn lemma_rights(rights: usize, index: usize, j: usize)
    by (bit_vector)
    requires
        index < 4,
        j < 64,
    ensures
        (((rights & !(1usize << index)) as u64 >> (j as u64)) & 1 == 1) <==> (((rights as u64 >> (
        j as u64)) & 1 == 1) && j != index),
        (((rights & 0b1100) as u64 >> (j as u64)) & 1 == 1) <==> (((rights as u64 >> (j as u64))
            & 1 == 1) && (j == 2 || j == 3)),
        (((rights & 0b0011) as u64 >> (j as u64)) & 1 == 1) <==> (((rights as u64 >> (j as u64))
            & 1 == 1) && (j == 0 || j == 1)),
        rights & !(1usize << index) <= rights,
        rights & 0b1100 <= rights,
        rights & 0b0011 <= rights,
{
}

/// Giving up a right removes that right and no other.
pub proof fn lemma_without_right(rights: usize, index: int)
    requires
        0 <= index < 4,
    ensures
        without_right(rights, index) <= rights,
        forall|j: int| #[trigger]
            holds_right(without_right(rights, index), j) == (holds_right(rights, j) && j != index),
{
    lemma_rights(rights, index as usize, 0);
    assert forall|j: int| #[trigger]
        holds_right(without_right(rights, index), j) == (holds_right(rights, j) && j
            != index) by {
        if 0 <= j < 64 {
            lemma_rights(rights, index as usize, j as usize);
        }
    }
}

/// A king's move removes the rights of its side and no other.
pub proof fn lemma_without_side(rights: usize, color: Color)
    ensures
        without_side(rights, color) <= rights,
        forall|j: int| #[trigger]
            holds_right(without_side(rights, color), j) == (holds_right(rights, j) && 0 <= j < 4
                && right_side(j) != color),
{
    lemma_rights(rights, 0, 0);
    assert forall|j: int| #[trigger]
        holds_right(without_side(rights, color), j) == (holds_right(rights, j) && 0 <= j < 4
            && right_side(j) != color) by {
        if 0 <= j < 64 {
            lemma_rights(rights, 0, j as usize);
        }
    }
}

impl Position {
    /// How many kinds of piece claim the square: 0 or 1 on a sound board.
    pub open spec fn piece_count(self, square: int) -> int {
        (if has_bit(self.pieces[0], square) {
            1int
        } else {
            0
        }) + (if has_bit(self.pieces[1], square) {
            1int
        } else {
            0
        }) + (if has_bit(self.pieces[2], square) {
            1int
        } else {
            0
        }) + (if has_bit(self.pieces[3], square) {
            1int
        } else {
            0
        }) + (if has_bit(self.pieces[4], square) {
            1int
        } else {
            0
        }) + (if has_bit(self.pieces[5], square) {
            1int
        } else {
            0
        })
    }

    /// How many sides claim the square: 0 or 1 on a sound board.
    pub open spec fn color_count(self, square: int) -> int {
        (if has_bit(self.colors[0], square) {
            1int
        } else {
            0
        }) + (if has_bit(self.colors[1], square) {
            1int
        } else {
            0
        })
    }

    /// The first kind of piece, in table order, that claims the square.
    pub open spec fn piece_on(self, square: int) -> Option<int> {
        if has_bit(self.pieces[0], square) {
            Some(0)
        } else if has_bit(self.pieces[1], square) {
            Some(1)
        } else if has_bit(self.pieces[2], square) {
            Some(2)
        } else if has_bit(self.pieces[3], square) {
            Some(3)
        } else if has_bit(self.pieces[4], square) {
            Some(4)
        } else if has_bit(self.pieces[5], square) {
            Some(5)
        } else {
            None
        }
    }

    /// Whether a side has a piece of a kind on the square.
    pub open spec fn has(self, piece: int, color: Color, square: int) -> bool {
        has_bit(self.pieces[piece], square) && has_bit(self.colors[color.index()], square)
    }

    /// Whether no side has a piece on the square.
    pub open spec fn vacant(self, square: int) -> bool {
        !has_bit(self.colors[0], square) && !has_bit(self.colors[1], square)
    }

    /// The squares of a side's pieces of one kind.
    pub open spec fn bitboard(self, piece: Piece, color: Color) -> Bitboard {
        self.pieces[piece.index()] & self.colors[color.index()]
    }

    /// The squares that hold a piece.
    pub open spec fn occupancy(self) -> Bitboard {
        self.colors[0] | self.colors[1]
    }

    /// The squares of a side's pieces.
    pub open spec fn allies(self, color: Color) -> Bitboard {
        self.colors[color.index()]
    }

    /// What holds of each square of a sound position: at most one kind of
    /// piece and at most one side claim it, and a kind claims it exactly when
    /// a side does; no pawn stands on its last rank; and a king off its home
    /// square has no castling right.
    pub open spec fn square_ok(self, square: int) -> bool {
        &&& self.piece_count(square) == self.color_count(square)
        &&& self.color_count(square) <= 1
        &&& !(self.has(1, Color::White, square) && on_last_rank(Color::White, square))
        &&& !(self.has(1, Color::Black, square) && on_last_rank(Color::Black, square))
        &&& (self.has(0, Color::White, square) && square != 4 ==> !holds_right(
            self.castle_rights,
            0,
        ) && !holds_right(self.castle_rights, 1))
        &&& (self.has(0, Color::Black, square) && square != 60 ==> !holds_right(
            self.castle_rights,
            2,
        ) && !holds_right(self.castle_rights, 3))
    }

    /// Whether castling right `index`, if held, has its rook on its start
    /// square.
    pub open spec fn right_ok(self, index: int) -> bool {
        holds_right(self.castle_rights, index) ==> self.has(
            4,
            right_side(index),
            rook_start(index),
        )
    }

    /// Whether the en-passant square, if there is one, lies behind a pawn of
    /// the side that has just moved, on the rank that a double step passes,
    /// and is vacant.
    pub open spec fn enpassant_ok(self) -> bool {
        self.enpassant is Some ==> {
            let target = self.enpassant->0 as int;
            &&& match self.color {
                Color::White => 40 <= target < 48,
                Color::Black => 16 <= target < 24,
            }
            &&& self.vacant(target)
            &&& self.has(1, self.color.opposite(), target - self.color.push())
        }
    }

    /// The side that played the move at place `i` of the history.
    pub open spec fn mover(self, i: int) -> Color {
        if (self.history.len() - i) % 2 == 1 {
            self.color.opposite()
        } else {
            self.color
        }
    }

    /// Whether the position is sound: the piece sets and side sets agree on
    /// every square, the castling rights and the en-passant square fit the
    /// pieces, and every move of the history can be taken back.
    pub open spec fn wf(self) -> bool {
        &&& self.pieces.len() == 6
        &&& self.colors.len() == 2
        &&& self.castle_rights < 16
        &&& forall|square: int| 0 <= square < 64 ==> #[trigger] self.square_ok(square)
        &&& forall|index: int| 0 <= index < 4 ==> #[trigger] self.right_ok(index)
        &&& self.enpassant_ok()
        &&& forall|i: int|
            0 <= i < self.history.len() ==> shaped(#[trigger] self.history[i], self.mover(i))
    }

    /// The position with a piece taken off a square.
    pub open spec fn lift(self, piece: int, side: int, square: int) -> Position {
        Position {
            pieces: self.pieces.update(piece, self.pieces[piece] & !bit(square)),
            colors: self.colors.update(side, self.colors[side] & !bit(square)),
            ..self
        }
    }

    /// The position with a piece put on a square.
    pub open spec fn put(self, piece: int, side: int, square: int) -> Position {
        Position {
            pieces: self.pieces.update(piece, self.pieces[piece] | bit(square)),
            colors: self.colors.update(side, self.colors[side] | bit(square)),
            ..self
        }
    }

    /// The position with a piece moved from one square to another.
    pub open spec fn shift(self, piece: int, side: int, from: int, to: int) -> Position {
        Position {
            pieces: self.pieces.update(piece, (self.pieces[piece] & !bit(from)) | bit(to)),
            colors: self.colors.update(side, (self.colors[side] & !bit(from)) | bit(to)),
            ..self
        }
    }

    /// The position with the pawn on a square replaced by another kind of
    /// piece of the same side.
    pub open spec fn promote(self, piece: int, square: int) -> Position {
        let cleared = self.pieces.update(1, self.pieces[1] & !bit(square));
        Position { pieces: cleared.update(piece, cleared[piece] | bit(square)), ..self }
    }

    /// The position with a kind of piece no longer claiming a square.
    pub open spec fn unpromote(self, piece: int, square: int) -> Position {
        Position { pieces: self.pieces.update(piece, self.pieces[piece] & !bit(square)), ..self }
    }

    /// Whether a castling move may be played: it is the king's, from its
    /// home square to the landing square of a right that the side to move
    /// holds, and the squares between king and rook are vacant.
    pub open spec fn admits_castle(self, m: Move) -> bool {
        let right = m.castle_right();
        let index = right_index(right);
        &&& (right == 1 || right == 2 || right == 4 || right == 8)
        &&& m.moved_piece() == 0
        &&& right_side(index) == self.color
        &&& holds_right(self.castle_rights, index)
        &&& m.start_square() == king_home(self.color)
        &&& m.target_square() == king_landing(index)
        &&& self.vacant(king_landing(index))
        &&& self.vacant(rook_landing(index))
        &&& (index == 0 ==> self.vacant(1))
        &&& (index == 2 ==> self.vacant(57))
    }

    /// Whether a pawn's move of sixteen squares is a double step: from the
    /// second rank, forward, over a vacant square to a vacant square.
    pub open spec fn admits_double_step(self, m: Move) -> bool {
        let start = m.start_square();
        &&& m.target_square() == start + 2 * self.color.push()
        &&& on_second_rank(self.color, start)
        &&& self.vacant(start + self.color.push())
        &&& self.vacant(m.target_square())
        &&& m.move_type() == 0
    }

    /// Whether a move may be played in the position: it is fresh, it moves
    /// a piece of the side to move that stands on its start square to a
    /// square that holds no piece of that side, and its move type fits: en
    /// passant for a pawn that moves to the en-passant square, promotion
    /// exactly for a pawn that reaches its last rank, castling as
    /// `admits_castle` says. Every generated move of a sound position is
    /// one.
    pub open spec fn admits(self, m: Move) -> bool {
        let piece = m.moved_piece();
        let start = m.start_square();
        let target = m.target_square();
        let kind = m.move_type();
        &&& m.fresh()
        &&& piece < 6
        &&& start != target
        &&& self.has(piece, self.color, start)
        &&& !has_bit(self.colors[self.color.index()], target)
        &&& (kind == 0 || kind == 1 || kind == 2 || kind == 4)
        &&& (kind == 1 ==> piece == 1 && self.enpassant == Some(target as usize))
        &&& (kind == 2 <==> piece == 1 && on_last_rank(self.color, target))
        &&& (kind == 2 ==> 2 <= m.promotion() < 6)
        &&& (kind == 4 ==> self.admits_castle(m))
        &&& (piece == 1 && (target - start == 16 || start - target == 16)
            ==> self.admits_double_step(m))
    }

    /// The castling rights after a move of `piece` from `start` to `target`
    /// that captures `captured`: a rook that is captured on, or leaves, its
    /// start square takes its right with it, and a king's move takes both
    /// rights of its side.
    pub open spec fn rights_after(self, piece: int, start: int, target: int, captured: Option<int>)
        -> usize {
        let kept = if captured == Some(4int) && rook_corner(target) is Some {
            without_right(self.castle_rights, rook_corner(target)->0)
        } else {
            self.castle_rights
        };
        if piece == 0 {
            without_side(kept, self.color)
        } else if piece == 4 && rook_corner(start) is Some {
            without_right(kept, rook_corner(start)->0)
        } else {
            kept
        }
    }

    /// The en-passant square after a move: the square that a pawn's double
    /// step passes over, and none after any other move.
    pub open spec fn enpassant_after(self, piece: int, start: int, target: int) -> Option<usize> {
        if piece == 1 && (target - start == 16 || start - target == 16) {
            Some((target - self.color.push()) as usize)
        } else {
            None
        }
    }

    /// The side whose piece stands on an occupied square.
    pub open spec fn side_on(self, square: int) -> Color {
        if has_bit(self.colors[0], square) {
            Color::White
        } else {
            Color::Black
        }
    }

    /// One square of the diagram: a bar, then the letter of the piece
    /// between two spaces, or three spaces for an empty square.
    pub open spec fn cell_text(self, square: int) -> Seq<char> {
        match self.piece_on(square) {
            Some(piece) => ("| "@).push(Piece::of_index(piece).symbol(self.side_on(square))) + " "@,
            None => "|   "@,
        }
    }

    /// The squares of one rank of the diagram from file `file` on, closed
    /// by a bar.
    pub open spec fn cells_text(self, rank: int, file: int) -> Seq<char>
        decreases 8 - file,
    {
        if file < 0 || file >= 8 {
            "|"@
        } else {
            self.cell_text(rank * 8 + file) + self.cells_text(rank, file + 1)
        }
    }

    /// One rank of the diagram: its number, its squares, and the line
    /// below it.
    pub open spec fn rank_text(self, rank: int) -> Seq<char> {
        ((" "@).push(rank_digit(rank)) + " "@) + self.cells_text(rank, 0)
            + "\n   +———+———+———+———+———+———+———+———+\n"@
    }

    /// The ranks of the diagram from rank `rank` down to the first.
    pub open spec fn ranks_text(self, rank: int) -> Seq<char>
        decreases rank + 1,
    {
        if rank < 0 {
            Seq::empty()
        } else {
            self.rank_text(rank) + self.ranks_text(rank - 1)
        }
    }

    /// The diagram of the position: a top line, the ranks from the eighth
    /// down, each with its number and a line below it, and the letters of
    /// the files.
    pub open spec fn diagram(self) -> Seq<char> {
        ("   +———+———+———+———+———+———+———+———+\n"@ + self.ranks_text(7))
            + "     a   b   c   d   e   f   g   h\n"@
    }

    /// The position after a move is played: a piece on the target square
    /// is captured, the piece moves, an en-passant capture removes the pawn
    /// behind the target, a promotion replaces the pawn, castling moves the
    /// rook too; the other side is to move, and the move, completed with the
    /// en-passant square, the castling rights and the capture, joins the
    /// history.
    pub open spec fn make(self, m: Move) -> Position {
        let side = self.color.index();
        let other = self.color.opposite().index();
        let piece = m.moved_piece();
        let start = m.start_square();
        let target = m.target_square();
        let captured = self.piece_on(target);
        let taken = match captured {
            Some(victim) => self.lift(victim, other, target),
            None => self,
        };
        let moved = taken.shift(piece, side, start, target);
        let settled = if m.move_type() == 1 {
            moved.lift(piece, other, target - self.color.push())
        } else if m.move_type() == 2 {
            moved.promote(m.promotion(), target)
        } else if m.move_type() == 4 {
            moved.shift(
                4,
                side,
                rook_start(right_index(m.castle_right())),
                rook_landing(right_index(m.castle_right())),
            )
        } else {
            moved
        };
        Position {
            pieces: settled.pieces,
            colors: settled.colors,
            color: self.color.opposite(),
            castle_rights: self.rights_after(piece, start, target, captured),
            enpassant: self.enpassant_after(piece, start, target),
            history: self.history.push(m.completed(self.enpassant, self.castle_rights, captured)),
        }
    }

    /// The position after the last move is taken back; the position itself
    /// when no move was played.
    pub open spec fn undo(self) -> Position {
        if self.history.len() == 0 {
            self
        } else {
            let m = self.history.last();
            let mover = self.color.opposite();
            let side = mover.index();
            let other = self.color.index();
            let piece = m.moved_piece();
            let start = m.start_square();
            let target = m.target_square();
            let back = self.shift(piece, side, target, start);
            let settled = if m.move_type() == 1 {
                back.put(piece, other, target - mover.push())
            } else if m.move_type() == 2 {
                back.unpromote(m.promotion(), target)
            } else if m.move_type() == 4 {
                back.shift(
                    4,
                    side,
                    rook_landing(right_index(m.castle_right())),
                    rook_start(right_index(m.castle_right())),
                )
            } else {
                back
            };
            let restored = match m.piece_captured() {
                Some(victim) => settled.put(victim as int, other, target),
                None => settled,
            };
            Position {
                pieces: restored.pieces,
                colors: restored.colors,
                color: mover,
                castle_rights: m.prev_castle_rights() as usize,
                enpassant: m.prev_enpassant(),
                history: self.history.drop_last(),
            }
        }
    }
}

impl View for Board {
    type V = Position;

    open spec fn view(&self) -> Position {
        Position {
            pieces: self.pieces@,
            colors: self.colors@,
            color: self.color,
            castle_rights: self.castle_rights,
            enpassant: self.enpassant,
            history: self.move_history@,
        }
    }
}

/// The members of the piece sets and side sets of the start position.
proof fn lemma_start_bits(j: u64)
    by (bit_vector)
    requires
        j < 64,
    ensures
        ((0x1000000000000010u64 >> j) & 1 == 1) <==> (j == 4 || j == 60),
        ((0x00ff00000000ff00u64 >> j) & 1 == 1) <==> (8 <= j < 16 || 48 <= j < 56),
        ((0x4200000000000042u64 >> j) & 1 == 1) <==> (j == 1 || j == 6 || j == 57 || j == 62),
        ((0x2400000000000024u64 >> j) & 1 == 1) <==> (j == 2 || j == 5 || j == 58 || j == 61),
        ((0x8100000000000081u64 >> j) & 1 == 1) <==> (j == 0 || j == 7 || j == 56 || j == 63),
        ((0x0800000000000008u64 >> j) & 1 == 1) <==> (j == 3 || j == 59),
        ((0x000000000000ffffu64 >> j) & 1 == 1) <==> j < 16,
        ((0xffff000000000000u64 >> j) & 1 == 1) <==> j >= 48,
        ((0b1111u64 >> j) & 1 == 1) <==> j < 4,
{
}

/// The position at the start of a game.
pub open spec fn start_position() -> Position {
    Position {
        pieces: seq![
            0x1000000000000010u64,
            0x00ff00000000ff00u64,
            0x4200000000000042u64,
            0x2400000000000024u64,
            0x8100000000000081u64,
            0x0800000000000008u64,
        ],
        colors: seq![0x000000000000ffffu64, 0xffff000000000000u64],
        color: Color::White,
        castle_rights: 0b1111,
        enpassant: None,
        history: Seq::empty(),
    }
}

/// The position at the start of a game is sound.
pub proof fn lemma_start_position_sound()
    ensures
        start_position().wf(),
{
    let start = start_position();
    assert forall|square: int| 0 <= square < 64 implies #[trigger] start.square_ok(square) by {
        lemma_start_bits(square as u64);
        lemma_start_bits(0);
        lemma_start_bits(1);
        lemma_start_bits(2);
        lemma_start_bits(3);
    }
    assert forall|index: int| 0 <= index < 4 implies #[trigger] start.right_ok(index) by {
        lemma_start_bits(0);
        lemma_start_bits(7);
        lemma_start_bits(56);
        lemma_start_bits(63);
    }
}

impl Default for Board {
    /// The position at the start of a game.
    fn default() -> (board: Board)
        ensures
            board@ == start_position(),
            board@.wf(),
    {
        let board = Board {
            pieces: [
                0x1000000000000010,
                0x00ff00000000ff00,
                0x4200000000000042,
                0x2400000000000024,
                0x8100000000000081,
                0x0800000000000008,
            ],
            colors: [0x000000000000ffff, 0xffff000000000000],
            color: Color::White,
            castle_rights: 0b1111,
            enpassant: None,
            move_history: Vec::new(),
        };
        proof {
            lemma_start_position_sound();
            assert(board@.pieces =~= start_position().pieces);
            assert(board@.colors =~= start_position().colors);
            assert(board@.history =~= start_position().history);
        }
        board
    }
}

impl Board {
    /// The empty board: no piece, White to move, no castling right, no
    /// en-passant square, no move played.
    pub fn new() -> (board: Board)
        ensures
            board@.pieces == Seq::new(6, |i: int| 0u64),
            board@.colors == Seq::new(2, |i: int| 0u64),
            board@.color == Color::White,
            board@.castle_rights == 0,
            board@.enpassant is None,
            board@.history.len() == 0,
            board@.wf(),
    {
        let board = Board {
            pieces: [0;6],
            colors: [0;2],
            color: Color::White,
            castle_rights: 0,
            enpassant: None,
            move_history: Vec::new(),
        };
        proof {
            broadcast use group_has_bit;

            assert(board@.pieces =~= Seq::new(6, |i: int| 0u64));
            assert(board@.colors =~= Seq::new(2, |i: int| 0u64));
            assert forall|square: int| 0 <= square < 64 implies #[trigger] board@.square_ok(
                square,
            ) by {}
            assert forall|index: int| 0 <= index < 4 implies #[trigger] board@.right_ok(index) by {
                assert(!has_bit(0u64, index));
            }
        }
        board
    }

    /// The index of the square on a rank and a file: the squares are
    /// counted on from the first of the rank, so that a file behind the
    /// h-file leads into the rank above.
    pub fn to_square_index(rank: u8, file: u8) -> (square_index: u8)
        requires
            rank * 8 + file <= u8::MAX,
        ensures
            square_index == rank * 8 + file,
    {
        rank * 8 + file
    }

    /// The rank and the file of a square.
    pub fn square_to_rank_file(square_index: u8) -> (rank_file: (u8, u8))
        ensures
            rank_file.0 == square_index / 8,
            rank_file.1 == square_index % 8,
    {
        let rank: u8 = square_index / 8;
        let file: u8 = square_index - rank * 8;

        (rank, file)
    }

    /// The side to move.
    pub fn get_color(&self) -> (color: Color)
        ensures
            color == self@.color,
    {
        self.color
    }

    /// The squares of a side's pieces of one kind.
    pub fn get_bitboard(&self, piece: Piece, color: Color) -> (bitboard: Bitboard)
        ensures
            bitboard == self@.bitboard(piece, color),
    {
        self.pieces[piece.to_index()] & self.colors[color.to_index()]
    }

    /// The squares that hold a piece.
    pub fn get_occupancy(&self) -> (occupancy: Bitboard)
        ensures
            occupancy == self@.occupancy(),
    {
        self.colors[Color::White.to_index()] | self.colors[Color::Black.to_index()]
    }

    /// The squares of a side's pieces.
    pub fn get_allys(&self, color: Color) -> (allies: Bitboard)
        ensures
            allies == self@.allies(color),
    {
        self.colors[color.to_index()]
    }

    /// The index of the first kind of piece, in table order, that claims
    /// the square.
    pub fn get_piece_from_square(&self, square_index: u8) -> (piece: Option<usize>)
        requires
            square_index < 64,
        ensures
            piece is Some == self@.piece_on(square_index as int) is Some,
            piece is Some ==> piece->0 == self@.piece_on(square_index as int)->0 && piece->0 < 6,
    {
        let mut piece_index: usize = 0;
        while piece_index < 6
            invariant
                square_index < 64,
                piece_index <= 6,
                forall|i: int| 0 <= i < piece_index ==> !has_bit(self.pieces@[i], square_index as int),
            decreases 6 - piece_index,
        {
            if is_occupied(self.pieces[piece_index], square_index) {
                return Some(piece_index);
            }
            piece_index += 1;
        }
        None
    }

    /// Moves a piece of a side from one square to another.
    fn _move_bit(&mut self, piece: usize, color: usize, start_square: u8, target_square: u8)
        requires
            piece < 6,
            color < 2,
            start_square < 64,
            target_square < 64,
        ensures
            final(self)@ == old(self)@.shift(
                piece as int,
                color as int,
                start_square as int,
                target_square as int,
            ),
    {
        let mut bb_piece: Bitboard = self.pieces[piece];
        let mut bb_ally: Bitboard = self.colors[color];

        clear_bit(&mut bb_piece, start_square);
        set_bit(&mut bb_piece, target_square);

        clear_bit(&mut bb_ally, start_square);
        set_bit(&mut bb_ally, target_square);

        self.pieces[piece] = bb_piece;
        self.colors[color] = bb_ally;
        assert(self@.pieces =~= old(self)@.pieces.update(piece as int, bb_piece));
        assert(self@.colors =~= old(self)@.colors.update(color as int, bb_ally));
    }

    /// Takes a captured piece off its square.
    fn _capture_bit(&mut self, captured: usize, color: usize, target_square: u8)
        requires
            captured < 6,
            color < 2,
            target_square < 64,
        ensures
            final(self)@ == old(self)@.lift(captured as int, color as int, target_square as int),
    {
        let mut bb_piece: Bitboard = self.pieces[captured];
        let mut bb_side: Bitboard = self.colors[color];
        clear_bit(&mut bb_piece, target_square);
        clear_bit(&mut bb_side, target_square);
        self.pieces[captured] = bb_piece;
        self.colors[color] = bb_side;
        assert(self@.pieces =~= old(self)@.pieces.update(captured as int, bb_piece));
        assert(self@.colors =~= old(self)@.colors.update(color as int, bb_side));
    }

    /// Moves a piece of a side back from the target square of its move to
    /// the start square.
    fn _undo_move_bit(
        &mut self,
        piece: usize,
        color: usize,
        start_square: u8,
        target_square: u8,
    )
        requires
            piece < 6,
            color < 2,
            start_square < 64,
            target_square < 64,
        ensures
            final(self)@ == old(self)@.shift(
                piece as int,
                color as int,
                target_square as int,
                start_square as int,
            ),
    {
        self._move_bit(piece, color, target_square, start_square);
    }

    /// Puts a captured piece back on its square.
    fn _undo_capture_bit(&mut self, captured: usize, color: usize, target_square: u8)
        requires
            captured < 6,
            color < 2,
            target_square < 64,
        ensures
            final(self)@ == old(self)@.put(captured as int, color as int, target_square as int),
    {
        let mut bb_piece: Bitboard = self.pieces[captured];
        let mut bb_side: Bitboard = self.colors[color];
        set_bit(&mut bb_piece, target_square);
        set_bit(&mut bb_side, target_square);
        self.pieces[captured] = bb_piece;
        self.colors[color] = bb_side;
        assert(self@.pieces =~= old(self)@.pieces.update(captured as int, bb_piece));
        assert(self@.colors =~= old(self)@.colors.update(color as int, bb_side));
    }

    /// Replaces the pawn on a square by another kind of piece.
    fn _promotion(&mut self, piece: usize, target_square: u8)
        requires
            piece < 6,
            target_square < 64,
        ensures
            final(self)@ == old(self)@.promote(piece as int, target_square as int),
    {
        let mut bb_pawn: Bitboard = self.pieces[1];
        clear_bit(&mut bb_pawn, target_square);
        self.pieces[1] = bb_pawn;
        let mut bb_piece: Bitboard = self.pieces[piece];
        set_bit(&mut bb_piece, target_square);
        self.pieces[piece] = bb_piece;
        assert(self@.pieces =~= old(self)@.promote(piece as int, target_square as int).pieces);
    }

    /// Takes a promoted piece off its square.
    fn _undo_promotion(&mut self, piece: usize, target_square: u8)
        requires
            piece < 6,
            target_square < 64,
        ensures
            final(self)@ == old(self)@.unpromote(piece as int, target_square as int),
    {
        let mut bb_piece: Bitboard = self.pieces[piece];
        clear_bit(&mut bb_piece, target_square);
        self.pieces[piece] = bb_piece;
        assert(self@.pieces =~= old(self)@.pieces.update(piece as int, bb_piece));
    }
    /// Whether the position is sound, so that its moves can be generated
    /// and played: the piece sets and side sets agree on every square, no
    /// pawn stands on its last rank, the castling rights have their king and
    /// rook at home, the en-passant square lies behind a pawn that can have
    /// made a double step, and every move of the history can be taken back.
    pub fn is_sound(&self) -> (sound: bool)
        ensures
            sound == self@.wf(),
    {
        if self.castle_rights >= 16 {
            return false;
        }
        let rights: u64 = self.castle_rights as u64;
        let mut square: u8 = 0;
        while square < 64
            invariant
                square <= 64,
                rights == self.castle_rights as u64,
                forall|s: int| 0 <= s < square ==> #[trigger] self@.square_ok(s),
            decreases 64 - square,
        {
            let king: bool = is_occupied(self.pieces[0], square);
            let pawn: bool = is_occupied(self.pieces[1], square);
            let kinds: u8 = Board::one_if(king) + Board::one_if(pawn) + Board::one_if(
                is_occupied(self.pieces[2], square),
            ) + Board::one_if(is_occupied(self.pieces[3], square)) + Board::one_if(
                is_occupied(self.pieces[4], square),
            ) + Board::one_if(is_occupied(self.pieces[5], square));
            let white: bool = is_occupied(self.colors[0], square);
            let black: bool = is_occupied(self.colors[1], square);
            let sides: u8 = Board::one_if(white) + Board::one_if(black);
            let ok: bool = kinds == sides && sides <= 1 && !(pawn && white && square >= 56) && !(
            pawn && black && square < 8) && !(king && white && square != 4 && (is_occupied(rights, 0)
                || is_occupied(rights, 1))) && !(king && black && square != 60 && (is_occupied(
                rights,
                2,
            ) || is_occupied(rights, 3)));
            if !ok {
                assert(!self@.square_ok(square as int));
                return false;
            }
            square += 1;
        }
        let mut index: usize = 0;
        while index < 4
            invariant
                index <= 4,
                rights == self.castle_rights as u64,
                forall|i: int| 0 <= i < index ==> #[trigger] self@.right_ok(i),
            decreases 4 - index,
        {
            if is_occupied(rights, index as u8) {
                let start: u8 = CASTLE_ROOK_START[index];
                let side: usize = if index < 2 {
                    0
                } else {
                    1
                };
                if !(is_occupied(self.pieces[4], start) && is_occupied(self.colors[side], start)) {
                    assert(!self@.right_ok(index as int));
                    return false;
                }
            }
            index += 1;
        }
        if let Some(target) = self.enpassant {
            let ok: bool = match self.color {
                Color::White => 40 <= target && target < 48 && !is_occupied(self.colors[0], target as u8)
                    && !is_occupied(self.colors[1], target as u8) && is_occupied(
                    self.pieces[1],
                    (target - 8) as u8,
                ) && is_occupied(self.colors[1], (target - 8) as u8),
                Color::Black => 16 <= target && target < 24 && !is_occupied(self.colors[0], target as u8)
                    && !is_occupied(self.colors[1], target as u8) && is_occupied(
                    self.pieces[1],
                    (target + 8) as u8,
                ) && is_occupied(self.colors[0], (target + 8) as u8),
            };
            if !ok {
                return false;
            }
        }
        let played: usize = self.move_history.len();
        let mut i: usize = 0;
        while i < played
            invariant
                i <= played,
                played == self@.history.len(),
                forall|k: int| 0 <= k < i ==> shaped(#[trigger] self@.history[k], self@.mover(k)),
            decreases played - i,
        {
            let m: Move = self.move_history[i];
            let mover: Color = if (played - i) % 2 == 1 {
                self.color.not()
            } else {
                self.color
            };
            let target: u8 = m.get_target_square();
            let behind_ok: bool = match mover {
                Color::White => target >= 8,
                Color::Black => target < 56,
            };
            let captured: Option<usize> = m.get_piece_captured();
            let captured_ok: bool = match captured {
                Some(piece) => piece < 6,
                None => true,
            };
            let right: usize = m.get_castle_right();
            let kind: usize = m.get_move_type();
            let ok: bool = m.get_moved_piece() < 6 && (kind != 2 || m.get_promotion() < 6) && (kind
                != 4 || right == 1 || right == 2 || right == 4 || right == 8) && (kind != 1
                || behind_ok) && captured_ok;
            if !ok {
                assert(!shaped(self@.history[i as int], self@.mover(i as int)));
                return false;
            }
            i += 1;
        }
        true
    }

    /// One rank of the diagram: its number, its squares, and the line
    /// below it.
    fn rank_to_string(&self, rank: u8) -> (text: String)
        requires
            rank < 8,
        ensures
            text@ == self@.rank_text(rank as int),
    {
        let mut text: String = " ".to_owned();
        push_char(&mut text, rank_to_char(rank as usize));
        text.append(" ");
        let ghost head = text@;
        let mut file: u8 = 0;
        assert(text@ + self@.cells_text(rank as int, 0) == head + self@.cells_text(rank as int, 0));
        while file < 8
            invariant
                rank < 8,
                file <= 8,
                text@ + self@.cells_text(rank as int, file as int) == head + self@.cells_text(
                    rank as int,
                    0,
                ),
            decreases 8 - file,
        {
            let square_index: u8 = Board::to_square_index(rank, file);
            let ghost before = text@;
            match self.get_piece_from_square(square_index) {
                Some(piece) => {
                    let is_white: bool = is_occupied(self.colors[0], square_index);
                    let color: Color = if is_white {
                        Color::White
                    } else {
                        Color::Black
                    };
                    let str_piece: String = Piece::new(piece).to_string(color);
                    text.append("| ");
                    text.append(str_piece.as_str());
                    text.append(" ");
                    assert(text@ =~= before + self@.cell_text(square_index as int));
                },
                None => {
                    text.append("|   ");
                },
            }
            proof {
                let cell = self@.cell_text(square_index as int);
                let rest = self@.cells_text(rank as int, file + 1);
                assert((before + cell) + rest =~= before + (cell + rest));
            }
            file += 1;
        }
        text.append("|");
        text.append("\n   +———+———+———+———+———+———+———+———+\n");
        text
    }

    /// The diagram of the position, with the eighth rank on top: upper
    /// case letters for White's pieces, lower case for Black's.
    pub fn to_string(&self) -> (text: String)
        ensures
            text@ == self@.diagram(),
    {
        let mut text: String = "   +———+———+———+———+———+———+———+———+\n".to_owned();
        let ghost head = text@;
        let mut left: u8 = 8;
        assert(text@ + self@.ranks_text(7) == head + self@.ranks_text(7));
        while left > 0
            invariant
                left <= 8,
                text@ + self@.ranks_text(left - 1) == head + self@.ranks_text(7),
            decreases left,
        {
            let rank: u8 = left - 1;
            let row: String = self.rank_to_string(rank);
            let ghost before = text@;
            text.append(row.as_str());
            proof {
                let rest = self@.ranks_text(rank - 1);
                assert((before + row@) + rest =~= before + (row@ + rest));
            }
            left -= 1;
        }
        assert(text@ + Seq::<char>::empty() =~= text@);
        text.append("     a   b   c   d   e   f   g   h\n");
        text
    }

    /// Whether no side has a piece on the square.
    fn is_vacant(&self, square_index: u8) -> (vacant: bool)
        requires
            square_index < 64,
        ensures
            vacant == self@.vacant(square_index as int),
    {
        !is_occupied(self.colors[0], square_index) && !is_occupied(self.colors[1], square_index)
    }

    /// Whether the move may be played in the position, as `make_move`
    /// asks: it is fresh, it moves a piece of the side to move from its
    /// start square to a square that holds no piece of that side, and its
    /// move type fits the move.
    pub fn accepts(&self, to_move: Move) -> (accepted: bool)
        requires
            self@.wf(),
        ensures
            accepted == self@.admits(to_move),
    {
        let piece: usize = to_move.get_moved_piece();
        let start: u8 = to_move.get_start_square();
        let target: u8 = to_move.get_target_square();
        let kind: usize = to_move.get_move_type();
        let color: usize = self.color.to_index();
        if to_move.data >= 0x200_0000 || piece >= 6 || start == target {
            return false;
        }
        if !(is_occupied(self.pieces[piece], start) && is_occupied(self.colors[color], start))
            || is_occupied(self.colors[color], target) {
            return false;
        }
        if !(kind == 0 || kind == 1 || kind == 2 || kind == 4) {
            return false;
        }
        if kind == 1 && !(piece == 1 && self.enpassant == Some(target as usize)) {
            return false;
        }
        let last_rank: bool = match self.color {
            Color::White => target >= 56,
            Color::Black => target < 8,
        };
        if (kind == 2) != (piece == 1 && last_rank) {
            return false;
        }
        let promotion: usize = to_move.get_promotion();
        if kind == 2 && !(2 <= promotion && promotion < 6) {
            return false;
        }
        if kind == 4 {
            let right: usize = to_move.get_castle_right();
            if !(right == 1 || right == 2 || right == 4 || right == 8) {
                return false;
            }
            let index: usize = Board::castle_right_index(right);
            let side: usize = if index < 2 {
                0
            } else {
                1
            };
            let home: u8 = match self.color {
                Color::White => 4,
                Color::Black => 60,
            };
            let king_target: u8 = match index {
                0 => 2,
                1 => 6,
                2 => 58,
                _ => 62,
            };
            if !(piece == 0 && side == color && is_occupied(self.castle_rights as u64, index as u8)
                && start == home && target == king_target && self.is_vacant(king_target)
                && self.is_vacant(CASTLE_ROOK_TARGET[index]) && (index != 0 || self.is_vacant(1))
                && (index != 2 || self.is_vacant(57))) {
                return false;
            }
        }
        if piece == 1 && ((target >= start && target - start == 16) || (start >= target && start
            - target == 16)) {
            let forward: bool = match self.color {
                Color::White => target >= start && 8 <= start && start < 16,
                Color::Black => start >= target && 48 <= start && start < 56,
            };
            if !forward {
                return false;
            }
            let between: u8 = match self.color {
                Color::White => start + 8,
                Color::Black => start - 8,
            };
            if !(self.is_vacant(between) && self.is_vacant(target) && kind == 0) {
                return false;
            }
        }
        true
    }

    /// One for `true`, zero for `false`.
    fn one_if(condition: bool) -> (count: u8)
        ensures
            count == if condition {
                1int
            } else {
                0int
            },
    {
        if condition {
            1
        } else {
            0
        }
    }

    /// The castling right whose rook starts on the square, if there is one.
    fn rook_start_index(square_index: u8) -> (castle_index: Option<usize>)
        ensures
            castle_index is Some == rook_corner(square_index as int) is Some,
            castle_index is Some ==> castle_index->0 == rook_corner(square_index as int)->0
                && castle_index->0 < 4 && CASTLE_ROOK_START[castle_index->0 as int]
                == square_index,
    {
        let mut castle_index: usize = 0;
        while castle_index < 4
            invariant
                castle_index <= 4,
                forall|i: int| 0 <= i < castle_index ==> CASTLE_ROOK_START[i] != square_index,
            decreases 4 - castle_index,
        {
            if CASTLE_ROOK_START[castle_index] == square_index {
                return Some(castle_index);
            }
            castle_index += 1;
        }
        None
    }

    /// The index of the right that a one-bit mask names.
    fn castle_right_index(castle_right: usize) -> (castle_index: usize)
        requires
            castle_right == 1 || castle_right == 2 || castle_right == 4 || castle_right == 8,
        ensures
            castle_index == right_index(castle_right as int),
            castle_index < 4,
    {
        match castle_right {
            1 => 0,
            2 => 1,
            4 => 2,
            _ => 3,
        }
    }

    /// The square one pawn push behind `target_square`, seen from the side
    /// with index `color`.
    fn square_behind(target_square: u8, color: usize) -> (pawn_square: u8)
        requires
            color < 2,
            0 <= target_square - PAWN_PUSH_DIRECTION[color as int] < 64,
        ensures
            pawn_square == target_square - PAWN_PUSH_DIRECTION[color as int],
    {
        (target_square as i8 - PAWN_PUSH_DIRECTION[color]) as u8
    }

    /// Plays a move: captures what stands on the target square, moves the
    /// piece, carries out what the move type asks for, updates the castling
    /// rights and the en-passant square, hands the turn to the other side and
    /// records the move with what is needed to take it back.
    pub fn make_move(&mut self, to_move: Move)
        requires
            old(self)@.wf(),
            old(self)@.admits(to_move),
        ensures
            final(self)@ == old(self)@.make(to_move),
            final(self)@.wf(),
            final(self)@.undo() == old(self)@,
    {
        let color: usize = self.color.to_index();
        let inactive: usize = self.color.not().to_index();
        let mut played: Move = to_move;

        let piece_moved: usize = played.get_moved_piece();
        let start_square: u8 = played.get_start_square();
        let target_square: u8 = played.get_target_square();
        let piece_captured: Option<usize> = self.get_piece_from_square(target_square);

        played.set_prev_enpassant(self.enpassant);
        played.set_prev_castle_rights(self.castle_rights);
        self.enpassant = None;

        if let Some(piece) = piece_captured {
            self._capture_bit(piece, inactive, target_square);
            played.set_piece_captured(piece);

            if piece == 4 {
                if let Some(castle_index) = Board::rook_start_index(target_square) {
                    self.castle_rights &= !(1usize << castle_index);
                }
            }
        }
        self._move_bit(piece_moved, color, start_square, target_square);

        let move_type: usize = played.get_move_type();
        proof {
            to_move.lemma_completed(
                old(self)@.enpassant,
                old(self)@.castle_rights,
                old(self)@.piece_on(target_square as int),
            );
            assert(played == to_move.completed(
                old(self)@.enpassant,
                old(self)@.castle_rights,
                old(self)@.piece_on(target_square as int),
            ));
            assert(old(self)@.enpassant_ok());
            assert(PAWN_PUSH_DIRECTION[0] == 8 && PAWN_PUSH_DIRECTION[1] == -8);
        }

        match piece_moved {
            0 => {
                match self.color {
                    Color::White => self.castle_rights &= 0b1100,
                    Color::Black => self.castle_rights &= 0b0011,
                }
            },
            1 => {
                if (target_square >= start_square && target_square - start_square == 16) || (
                start_square >= target_square && start_square - target_square == 16) {
                    self.enpassant = Some(Board::square_behind(target_square, color) as usize);
                }
            },
            4 => {
                if let Some(castle_index) = Board::rook_start_index(start_square) {
                    self.castle_rights &= !(1usize << castle_index);
                }
            },
            _ => {},
        }

        match move_type {
            1 => {
                let pawn_square: u8 = Board::square_behind(target_square, color);
                self._capture_bit(piece_moved, inactive, pawn_square);
            },
            2 => {
                let piece: usize = played.get_promotion();
                self._promotion(piece, target_square);
            },
            4 => {
                let castle_index: usize = Board::castle_right_index(played.get_castle_right());
                let rook_start_square: u8 = CASTLE_ROOK_START[castle_index];
                let rook_target_square: u8 = CASTLE_ROOK_TARGET[castle_index];
                self._move_bit(4, color, rook_start_square, rook_target_square);
            },
            _ => {},
        }

        self.color = self.color.not();
        self.move_history.push(played);
        proof {
            lemma_make_sound(old(self)@, to_move);
            lemma_undo_restores(old(self)@, to_move);
        }
    }

    /// Takes the last move back and reports `true`; reports `false`, and
    /// changes nothing, when no move was played.
    pub fn undo_move(&mut self) -> (undone: bool)
        requires
            old(self)@.wf(),
        ensures
            undone == (old(self)@.history.len() > 0),
            final(self)@ == old(self)@.undo(),
    {
        if let Some(prev_move) = self.move_history.pop() {
            let color: usize = self.color.not().to_index();
            let inactive: usize = self.color.to_index();
            proof {
                let last = old(self)@.history.len() - 1;
                assert(shaped(old(self)@.history[last], old(self)@.mover(last)));
                assert(prev_move == old(self)@.history.last());
            }

            let piece_moved: usize = prev_move.get_moved_piece();
            let start_square: u8 = prev_move.get_start_square();
            let target_square: u8 = prev_move.get_target_square();
            let piece_captured: Option<usize> = prev_move.get_piece_captured();

            self._undo_move_bit(piece_moved, color, start_square, target_square);

            let move_type: usize = prev_move.get_move_type();

            match move_type {
                1 => {
                    let pawn_square: u8 = Board::square_behind(target_square, color);
                    self._undo_capture_bit(piece_moved, inactive, pawn_square);
                },
                2 => {
                    let piece: usize = prev_move.get_promotion();
                    self._undo_promotion(piece, target_square);
                },
                4 => {
                    let castle_index: usize = Board::castle_right_index(
                        prev_move.get_castle_right(),
                    );
                    let rook_start_square: u8 = CASTLE_ROOK_START[castle_index];
                    let rook_target_square: u8 = CASTLE_ROOK_TARGET[castle_index];
                    self._undo_move_bit(4, color, rook_start_square, rook_target_square);
                },
                _ => {},
            }

            if let Some(piece) = piece_captured {
                self._undo_capture_bit(piece, inactive, target_square);
            }
            self.color = self.color.not();
            self.enpassant = prev_move.get_prev_enpassant();
            self.castle_rights = prev_move.get_prev_castle_rights();

            return true;
        }
        return false;
    }
}

/// Playing a move that a sound position admits gives a sound position.
#[verifier::rlimit(40)]
pub proof fn lemma_make_sound(position: Position, m: Move)
    requires
        position.wf(),
        position.admits(m),
    ensures
        position.make(m).wf(),
{
    broadcast use group_has_bit;

    let after = position.make(m);
    let piece = m.moved_piece();
    let start = m.start_square();
    let target = m.target_square();
    let captured = position.piece_on(target);
    m.lemma_fields_bounded();
    m.lemma_completed(position.enpassant, position.castle_rights, captured);
    lemma_without_side(position.castle_rights, position.color);
    assert(position.square_ok(start));
    assert(position.square_ok(target));
    if rook_corner(target) is Some {
        lemma_without_right(position.castle_rights, rook_corner(target)->0);
        let kept = without_right(position.castle_rights, rook_corner(target)->0);
        lemma_without_side(kept, position.color);
        if rook_corner(start) is Some {
            lemma_without_right(kept, rook_corner(start)->0);
        }
    }
    if rook_corner(start) is Some {
        lemma_without_right(position.castle_rights, rook_corner(start)->0);
    }
    assert(after.castle_rights <= position.castle_rights);
    assert forall|j: int| holds_right(after.castle_rights, j) implies holds_right(
        position.castle_rights,
        j,
    ) by {}
    assert forall|square: int| 0 <= square < 64 implies #[trigger] after.square_ok(square) by {
        assert(position.square_ok(square));
        lemma_square_after(position, m, square);
    }
    assert forall|index: int| 0 <= index < 4 implies #[trigger] after.right_ok(index) by {
        assert(position.right_ok(index));
        if holds_right(after.castle_rights, index) {
            lemma_square_after(position, m, rook_start(index));
        }
    }
    assert(after.enpassant_ok()) by {
        if after.enpassant is Some {
            let passed = start + position.color.push();
            assert(after.enpassant->0 == passed);
            lemma_square_after(position, m, passed);
            lemma_square_after(position, m, target);
        }
    }
    assert forall|i: int| 0 <= i < after.history.len() implies shaped(
        #[trigger] after.history[i],
        after.mover(i),
    ) by {
        if i < position.history.len() {
            assert(shaped(position.history[i], position.mover(i)));
        } else {
            if m.move_type() == 1 {
                assert(position.enpassant_ok());
            }
        }
    }
}

/// What stands on a square after a move: the moved piece on the target
/// square, nothing on the start square or where a pawn was captured en
/// passant, the rook on its landing square after castling, and what stood
/// there before anywhere else.
#[verifier::rlimit(40)]
pub proof fn lemma_square_after(position: Position, m: Move, square: int)
    requires
        position.wf(),
        position.admits(m),
        0 <= square < 64,
    ensures
        ({
            let after = position.make(m);
            let mover = position.color;
            let piece = m.moved_piece();
            let target = m.target_square();
            let lands = if m.move_type() == 2 {
                m.promotion()
            } else {
                piece
            };
            let index = right_index(m.castle_right());
            &&& after.pieces.len() == 6
            &&& after.colors.len() == 2
            &&& after.piece_count(square) == after.color_count(square)
            &&& after.color_count(square) <= 1
            &&& (square == target ==> after.has(lands, mover, square))
            &&& (square == m.start_square() ==> after.vacant(square))
            &&& (m.move_type() == 1 && square == target - mover.push() ==> after.vacant(square))
            &&& (m.move_type() == 4 && square == rook_start(index) ==> after.vacant(square))
            &&& (m.move_type() == 4 && square == rook_landing(index) ==> after.has(
                4,
                mover,
                square,
            ))
            &&& (square != target && square != m.start_square() && !(m.move_type() == 1 && square
                == target - mover.push()) && !(m.move_type() == 4 && (square == rook_start(index)
                || square == rook_landing(index))) ==> forall|kind: int, side: Color|
                0 <= kind < 6 ==> after.has(kind, side, square) == position.has(
                    kind,
                    side,
                    square,
                ))
            &&& (forall|kind: int, side: Color|
                0 <= kind < 6 && after.has(kind, side, square) && !(square == target && kind
                    == lands && side == mover) && !(m.move_type() == 4 && square == rook_landing(
                    index,
                ) && kind == 4 && side == mover) ==> position.has(kind, side, square))
        }),
{
    broadcast use group_has_bit;

    m.lemma_fields_bounded();
    assert(position.square_ok(square));
    assert(position.square_ok(m.start_square()));
    assert(position.square_ok(m.target_square()));
    if m.move_type() == 1 {
        assert(position.enpassant_ok());
        assert(position.square_ok(m.target_square() - position.color.push()));
    }
    if m.move_type() == 4 {
        let index = right_index(m.castle_right());
        assert(position.right_ok(index));
        assert(position.square_ok(rook_start(index)));
        assert(position.square_ok(rook_landing(index)));
    }
}

/// Taking back a move that was just played restores the position: every
/// piece set and side set, the side to move, the castling rights, the
/// en-passant square and the history are what they were.
#[verifier::rlimit(40)]
pub proof fn lemma_undo_restores(position: Position, m: Move)
    requires
        position.wf(),
        position.admits(m),
    ensures
        position.make(m).undo() == position,
{
    broadcast use group_has_bit;

    let after = position.make(m);
    let back = after.undo();
    let target = m.target_square();
    let captured = position.piece_on(target);
    m.lemma_fields_bounded();
    m.lemma_completed(position.enpassant, position.castle_rights, captured);
    assert(after.history.last() == m.completed(
        position.enpassant,
        position.castle_rights,
        captured,
    ));
    assert(after.history.drop_last() =~= position.history);
    assert(position.enpassant_ok());
    assert(position.square_ok(m.start_square()));
    assert(position.square_ok(target));
    if m.move_type() == 4 {
        let index = right_index(m.castle_right());
        assert(position.right_ok(index));
        assert(position.square_ok(rook_start(index)));
        assert(position.square_ok(rook_landing(index)));
    }
    if m.move_type() == 1 {
        assert(position.square_ok(target - position.color.push()));
    }
    assert forall|kind: int| 0 <= kind < 6 implies back.pieces[kind] == position.pieces[kind] by {
        assert forall|square: int| 0 <= square < 64 implies has_bit(back.pieces[kind], square)
            == has_bit(position.pieces[kind], square) by {
            assert(position.square_ok(square));
        }
        lemma_same_members(back.pieces[kind], position.pieces[kind]);
    }
    assert forall|side: int| 0 <= side < 2 implies back.colors[side] == position.colors[side] by {
        assert forall|square: int| 0 <= square < 64 implies has_bit(back.colors[side], square)
            == has_bit(position.colors[side], square) by {
            assert(position.square_ok(square));
        }
        lemma_same_members(back.colors[side], position.colors[side]);
    }
    assert(back.pieces =~= position.pieces);
    assert(back.colors =~= position.colors);
}

} // verus!
