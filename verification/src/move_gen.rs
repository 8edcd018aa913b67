//! Legal move generation: attack tables built once, and, for each position,
//! the check and pin state and the moves that it leaves legal.

pub mod attack;
pub mod checks;
pub mod complete;
pub mod defs;
pub mod distinct;
pub mod extra;
pub mod init;
pub mod legal;
pub mod mask;
pub mod num_to_edge;
pub mod pins;
pub mod rules;
pub mod safety;
pub mod shipped;

use self::attack::{king_attacks, knight_attacks, lines, non_slider_attacks, pawn_attacks};
use self::attack::{slider_attacks, xray};
use self::defs::{lemma_moves_to_skip, moves_to, Move};
use self::extra::{check_state, restricted, CheckState};
use self::legal::{all_admitted, all_of_kind, lemma_all_moves_admitted};
use self::checks::{checks, lemma_flags_count_checks};
use self::complete::{lemma_check_flags_are_attackers, two_attack_the_king};
use self::distinct::{distinct, lemma_no_move_is_listed_twice};
use self::pins::attacked_by;
use self::rules::{all_capture_in_passing, is_legal, lemma_captures_in_passing_are_safe};
use self::rules::lemma_enpassant_moves_capture;
use self::rules::{lemma_listed_means_legal, lemma_no_move_is_mate_or_stalemate};
use self::legal::{lemma_double_check_king_only, none_castles};
use self::safety::{all_safe, lemma_all_moves_safe, lemma_no_castling_in_check, one_king_each};
use crate::bitboard::{bit, count, count_bits, get_lsb_index, group_has_bit, has_bit, lemma_lsb};
use crate::bitboard::{lsb, pop_lsb, set_bit, Bitboard};
use crate::board::{Board, Position};
use crate::color::Color;
use crate::magic::{magic_nr, magic_shift, Magic};
use crate::piece::Piece;
use core::ops::Not;
use vstd::prelude::*;

verus! {

/// The step, in squares, of a single pawn push of each side.
pub const PAWN_PUSH_DIRECTION: [i8; 2] = [8, -8];

/// Where the king lands for each castling right: c1, g1, c8, g8.
pub const CASTLE_KING_INDEX: [u8; 4] = [2, 6, 58, 62];

/// The rank on which each side's pawns land after a double step.
pub const PAWN_DOUBLE_PUSH_RANK: [Bitboard; 2] = [0x00000000ff000000, 0x000000ff00000000];

/// The castling rights of each side.
pub const CASTLE_RIGHTS: [Bitboard; 2] = [0b0011, 0b1100];

/// The squares that must be empty for each castling right.
pub const CASTLE_EMPTY: [Bitboard; 4] = [
    0x000000000000000e,
    0x0000000000000060,
    0x0e00000000000000,
    0x6000000000000000,
];

/// The squares that must not be attacked for each castling right.
pub const CASTLE_ATTACK: [Bitboard; 4] = [
    0x000000000000000c,
    0x0000000000000060,
    0x0c00000000000000,
    0x6000000000000000,
];

/// The move generator: attack tables, and the check and pin state of the
/// position it last looked at.
pub struct MoveGenerator {
    /// The squares a king attacks from each square.
    pub king: [Bitboard; 64],
    /// The squares a pawn attacks from each square, for each side.
    pub pawn: [[Bitboard; 64]; 2],
    /// The squares a knight attacks from each square.
    pub knight: [Bitboard; 64],
    /// The shared attack table of the rooks.
    pub rook: Vec<Bitboard>,
    /// The shared attack table of the bishops.
    pub bishop: Vec<Bitboard>,
    /// The magic entry of each square for a rook.
    pub rook_magics: [Magic; 64],
    /// The magic entry of each square for a bishop.
    pub bishop_magics: [Magic; 64],
    /// The one-square set of each square.
    pub square_bit: [u64; 64],
    /// Whether the side to move is in check.
    pub check: bool,
    /// Whether the side to move is in check from two pieces.
    pub double_check: bool,
    /// For each square, the line on which a piece pinned there may move;
    /// empty for a piece that is not pinned.
    pub pin_rays: [Bitboard; 64],
    /// The squares on which a piece other than the king answers a check.
    pub check_ray: Bitboard,
    /// The squares that the side not to move attacks.
    pub bb_attack: Bitboard,
}

/// Where the slots of a square begin in the shared table of a kind of
/// slider: behind the slots of the squares before it, of which each has
/// one for every subset of its relevant squares.
pub open spec fn table_offset(diagonal: bool, square: int) -> int
    decreases square,
{
    if square <= 0 {
        0
    } else {
        table_offset(diagonal, square - 1) + (1u64 << (count(
            lines(diagonal, square - 1, 1, 0, 4),
        ) as u64))
    }
}

/// A short name for the move generator, under which the board geometry is
/// found.
pub type MoveGen = MoveGenerator;

/// Whether a magic entry serves a square with the multiplier `nr`: it
/// holds the square's relevant squares, the shift that belongs to them, the
/// multiplier and the place of the square's slots; its slots lie within the
/// table; and for every occupancy the slot holds what the slider attacks.
pub open spec fn entry_serves(
    entry: Magic,
    table: Seq<Bitboard>,
    diagonal: bool,
    square: int,
    nr: u64,
) -> bool {
    &&& entry.mask == lines(diagonal, square, 1, 0, 4)
    &&& entry.shift == magic_shift(entry.mask)
    &&& entry.nr == nr
    &&& entry.offset == table_offset(diagonal, square)
    &&& entry.shift < 64
    &&& entry.offset + entry.span() < table.len()
    &&& table.len() <= usize::MAX
    &&& forall|occupancy: Bitboard|
        table[#[trigger] entry.slot(occupancy)] == lines(diagonal, square, 0, occupancy, 4)
}

/// Whether a magic entry serves a square with the shipped multiplier.
pub open spec fn entry_ok(entry: Magic, table: Seq<Bitboard>, diagonal: bool, square: int) -> bool {
    entry_serves(entry, table, diagonal, square, magic_nr(diagonal, square))
}

/// Whether the magic entries and the table serve every square with the
/// multipliers of a list.
pub open spec fn table_serves(
    magics: Seq<Magic>,
    table: Seq<Bitboard>,
    diagonal: bool,
    numbers: Seq<u64>,
) -> bool {
    &&& magics.len() == 64
    &&& numbers.len() == 64
    &&& forall|square: int|
        0 <= square < 64 ==> entry_serves(
            #[trigger] magics[square],
            table,
            diagonal,
            square,
            numbers[square],
        )
}

/// Whether the magic entries and the table serve every square with the
/// shipped multipliers.
pub open spec fn table_ok(magics: Seq<Magic>, table: Seq<Bitboard>, diagonal: bool) -> bool {
    &&& magics.len() == 64
    &&& forall|square: int|
        0 <= square < 64 ==> entry_ok(#[trigger] magics[square], table, diagonal, square)
}

impl MoveGenerator {
    /// Whether the tables are built: each holds, for each square, what its
    /// piece attacks from there, and the magic entries lead to the slider
    /// attacks for every occupancy.
    pub open spec fn wf(&self) -> bool {
        &&& forall|square: int| 0 <= square < 64 ==> #[trigger] self.king[square] == king_attacks(square)
        &&& forall|square: int|
            0 <= square < 64 ==> #[trigger] self.knight[square] == knight_attacks(square)
        &&& forall|square: int|
            0 <= square < 64 ==> #[trigger] self.pawn[0][square] == pawn_attacks(
                Color::White,
                square,
            )
        &&& forall|square: int|
            0 <= square < 64 ==> #[trigger] self.pawn[1][square] == pawn_attacks(
                Color::Black,
                square,
            )
        &&& forall|square: int| 0 <= square < 64 ==> #[trigger] self.square_bit[square] == bit(square)
        &&& table_ok(self.rook_magics@, self.rook@, false)
        &&& table_ok(self.bishop_magics@, self.bishop@, true)
        &&& self.rook@.len() == table_offset(false, 64)
        &&& self.bishop@.len() == table_offset(true, 64)
    }
}

/// The squares that a piece other than a pawn attacks from `square`.
pub open spec fn piece_attacks(piece: Piece, square: int, occupancy: Bitboard) -> Bitboard {
    match piece {
        Piece::King | Piece::Knight => non_slider_attacks(piece, square),
        _ => slider_attacks(piece, square, occupancy),
    }
}

/// The squares that a piece other than a pawn may move to from `square`:
/// those it attacks that hold no piece of its side; for the king, those of
/// them that the other side does not attack; for another piece, those of
/// them that the check and its pin leave.
pub open spec fn piece_targets(
    state: CheckState,
    position: Position,
    piece: Piece,
    square: int,
) -> Bitboard {
    let reach = piece_attacks(piece, square, position.occupancy()) & !position.allies(
        position.color,
    );
    if piece == Piece::King {
        reach & !state.attacked
    } else {
        restricted(state, reach, square)
    }
}

/// The moves of the pieces of one kind on `pieces` from square `from` up,
/// lowest square first.
pub open spec fn piece_moves(
    state: CheckState,
    position: Position,
    piece: Piece,
    pieces: Bitboard,
    from: int,
) -> Seq<Move>
    decreases 64 - from,
{
    if from < 0 || from >= 64 {
        Seq::empty()
    } else if has_bit(pieces, from) {
        moves_to(position, piece, from, piece_targets(state, position, piece, from), 0)
            + piece_moves(state, position, piece, pieces, from + 1)
    } else {
        piece_moves(state, position, piece, pieces, from + 1)
    }
}

/// A set of squares moved one rank towards the other side.
pub open spec fn forward(squares: Bitboard, color: Color) -> Bitboard {
    match color {
        Color::White => squares << 8u64,
        Color::Black => squares >> 8u64,
    }
}

/// The squares that a pawn of the side to move may move to from `square`:
/// the square ahead if it is empty; the square behind that if both are
/// empty and it lies on the double-step rank; the squares it attacks that
/// hold an enemy piece; all as far as the check and its pin leave them.
pub open spec fn pawn_targets(state: CheckState, position: Position, square: int) -> Bitboard {
    let color = position.color;
    let empty = !position.occupancy();
    let one_step = bit(square + color.push()) & empty;
    let two_step = forward(one_step, color) & empty & PAWN_DOUBLE_PUSH_RANK[color.index()];
    let capture = pawn_attacks(color, square) & position.allies(color.opposite());
    restricted(state, (one_step | two_step) | capture, square)
}

/// The moves of the pawns on `pawns` from square `from` up, lowest square
/// first, en-passant captures not among them.
pub open spec fn pawn_moves(state: CheckState, position: Position, pawns: Bitboard, from: int) -> Seq<
    Move,
>
    decreases 64 - from,
{
    if from < 0 || from >= 64 {
        Seq::empty()
    } else if has_bit(pawns, from) {
        moves_to(position, Piece::Pawn, from, pawn_targets(state, position, from), 0) + pawn_moves(
            state,
            position,
            pawns,
            from + 1,
        )
    } else {
        pawn_moves(state, position, pawns, from + 1)
    }
}

/// Whether the only pawn that can capture en passant would uncover its
/// king: the king stands on the rank of the two pawns, and the capturing
/// pawn has, along that rank, a king, rook or queen next to it on one side,
/// and one behind its first neighbour on the other.
pub open spec fn enpassant_exposes(position: Position, pawns: Bitboard) -> bool {
    let color = position.color;
    let other = color.opposite();
    let occupancy = position.occupancy();
    let king = position.bitboard(Piece::King, color);
    let pin_rank = PAWN_DOUBLE_PUSH_RANK[other.index()];
    let pieces = (king | position.bitboard(Piece::Rook, other)) | position.bitboard(
        Piece::Queen,
        other,
    );
    let seen = xray(Piece::Rook, lsb(pawns), occupancy, occupancy);
    &&& pin_rank & king != 0
    &&& count(pawns) == 1
    &&& (seen.1 & pin_rank) & pieces != 0
    &&& (seen.0 & pin_rank) & pieces != 0
}

/// Whether the pawn that an en-passant capture takes is all that shields
/// the king of the side to move from an enemy bishop or queen: with the
/// pawn off the board, the king sees along a diagonal a bishop or queen
/// that it does not see now.
pub open spec fn enpassant_uncovers(position: Position) -> bool {
    let color = position.color;
    let other = color.opposite();
    let king = position.bitboard(Piece::King, color);
    let occupancy = position.occupancy();
    let taken = bit(position.enpassant->0 - color.push());
    let sliders = position.bitboard(Piece::Queen, other) | position.bitboard(Piece::Bishop, other);
    king != 0 && (slider_attacks(Piece::Bishop, lsb(king), occupancy & !taken) & !slider_attacks(
        Piece::Bishop,
        lsb(king),
        occupancy,
    )) & sliders != 0
}

/// The pawns that may capture en passant as far as the king's lines and a
/// check allow: those that attack the en-passant square; none if the
/// capture would uncover the king along the rank of the two pawns or along
/// a diagonal through the pawn to be captured, or if the side is in check
/// and the pawn to be captured does not stand where the check is answered.
pub open spec fn enpassant_pawns(state: CheckState, position: Position) -> Bitboard {
    let color = position.color;
    let target = position.enpassant->0 as int;
    let pawns = position.bitboard(Piece::Pawn, color) & pawn_attacks(color.opposite(), target);
    if pawns == 0 || enpassant_exposes(position, pawns) || enpassant_uncovers(position) || (
    state.check && bit(target - color.push()) & state.check_ray == 0) {
        0
    } else {
        pawns
    }
}

/// The en-passant captures of the pawns on `pawns` from square `from` up
/// that are not pinned.
pub open spec fn enpassant_from(
    state: CheckState,
    position: Position,
    pawns: Bitboard,
    from: int,
) -> Seq<Move>
    decreases 64 - from,
{
    if from < 0 || from >= 64 {
        Seq::empty()
    } else if has_bit(pawns, from) && state.pin_rays[from] == 0 {
        moves_to(position, Piece::Pawn, from, bit(position.enpassant->0 as int), 0)
            + enpassant_from(state, position, pawns, from + 1)
    } else {
        enpassant_from(state, position, pawns, from + 1)
    }
}

/// The en-passant captures of a position.
pub open spec fn enpassant_moves(state: CheckState, position: Position) -> Seq<Move> {
    if position.enpassant is None {
        Seq::empty()
    } else {
        enpassant_from(state, position, enpassant_pawns(state, position), 0)
    }
}

/// Whether castling right `index` may be exercised: the squares between
/// king and rook are empty, and the squares that the king crosses and
/// lands on are not attacked.
pub open spec fn castle_open(state: CheckState, position: Position, index: int) -> bool {
    &&& 0 <= index < 4
    &&& !position.occupancy() & CASTLE_EMPTY[index] == CASTLE_EMPTY[index]
    &&& CASTLE_ATTACK[index] & !state.attacked == CASTLE_ATTACK[index]
}

/// `targets`, and the landing squares of the king for the rights among
/// `rights` from `from` up that may be exercised.
pub open spec fn castle_targets(
    state: CheckState,
    position: Position,
    rights: Bitboard,
    from: int,
    targets: Bitboard,
) -> Bitboard
    decreases 64 - from,
{
    if from < 0 || from >= 64 {
        targets
    } else if has_bit(rights, from) && castle_open(state, position, from) {
        castle_targets(
            state,
            position,
            rights,
            from + 1,
            targets | bit(CASTLE_KING_INDEX[from] as int),
        )
    } else {
        castle_targets(state, position, rights, from + 1, targets)
    }
}

/// The castling moves of a position: none in check; else the king's move
/// to the landing square of each right of the side to move that it holds and
/// may exercise.
pub open spec fn castle_moves(state: CheckState, position: Position) -> Seq<Move> {
    let color = position.color;
    let king = position.bitboard(Piece::King, color);
    let targets = castle_targets(
        state,
        position,
        CASTLE_RIGHTS[color.index()] & (position.castle_rights as u64),
        0,
        0,
    );
    if state.check || targets == 0 || king == 0 {
        Seq::empty()
    } else {
        moves_to(position, Piece::King, lsb(king), targets, 0)
    }
}

/// The moves of a position in a given check and pin state: the king's
/// moves, then castling, and unless the king is in double check, the pawns'
/// moves, the en-passant captures, and the moves of knights, bishops, rooks
/// and queens.
pub open spec fn moves_in(state: CheckState, position: Position) -> Seq<Move> {
    let color = position.color;
    let kings = (Seq::<Move>::empty() + piece_moves(
        state,
        position,
        Piece::King,
        position.bitboard(Piece::King, color),
        0,
    )) + castle_moves(state, position);
    if state.double_check {
        kings
    } else {
        (((((kings + pawn_moves(state, position, position.bitboard(Piece::Pawn, color), 0))
            + enpassant_moves(state, position)) + piece_moves(
            state,
            position,
            Piece::Knight,
            position.bitboard(Piece::Knight, color),
            0,
        )) + piece_moves(
            state,
            position,
            Piece::Bishop,
            position.bitboard(Piece::Bishop, color),
            0,
        )) + piece_moves(state, position, Piece::Rook, position.bitboard(Piece::Rook, color), 0))
            + piece_moves(
            state,
            position,
            Piece::Queen,
            position.bitboard(Piece::Queen, color),
            0,
        )
    }
}

/// The legal moves of a position, in the order in which they are
/// generated.
pub open spec fn all_moves(position: Position) -> Seq<Move> {
    moves_in(check_state(position), position)
}

/// Squares that hold no piece add no moves.
proof fn lemma_piece_moves_skip(
    state: CheckState,
    position: Position,
    piece: Piece,
    pieces: Bitboard,
    from: int,
    to: int,
)
    requires
        0 <= from <= to <= 64,
        forall|j: int| from <= j < to ==> !has_bit(pieces, j),
    ensures
        piece_moves(state, position, piece, pieces, from) == piece_moves(
            state,
            position,
            piece,
            pieces,
            to,
        ),
    decreases to - from,
{
    if from < to {
        lemma_piece_moves_skip(state, position, piece, pieces, from + 1, to);
    }
}

/// Squares that hold no pawn add no moves.
proof fn lemma_pawn_moves_skip(
    state: CheckState,
    position: Position,
    pawns: Bitboard,
    from: int,
    to: int,
)
    requires
        0 <= from <= to <= 64,
        forall|j: int| from <= j < to ==> !has_bit(pawns, j),
    ensures
        pawn_moves(state, position, pawns, from) == pawn_moves(state, position, pawns, to),
    decreases to - from,
{
    if from < to {
        lemma_pawn_moves_skip(state, position, pawns, from + 1, to);
    }
}

/// Squares that hold no capturing pawn add no captures.
proof fn lemma_enpassant_from_skip(
    state: CheckState,
    position: Position,
    pawns: Bitboard,
    from: int,
    to: int,
)
    requires
        0 <= from <= to <= 64,
        forall|j: int| from <= j < to ==> !has_bit(pawns, j),
    ensures
        enpassant_from(state, position, pawns, from) == enpassant_from(state, position, pawns, to),
    decreases to - from,
{
    if from < to {
        lemma_enpassant_from_skip(state, position, pawns, from + 1, to);
    }
}

/// Rights that are not held add no landing squares.
proof fn lemma_castle_targets_skip(
    state: CheckState,
    position: Position,
    rights: Bitboard,
    from: int,
    to: int,
    targets: Bitboard,
)
    requires
        0 <= from <= to <= 64,
        forall|j: int| from <= j < to ==> !has_bit(rights, j),
    ensures
        castle_targets(state, position, rights, from, targets) == castle_targets(
            state,
            position,
            rights,
            to,
            targets,
        ),
    decreases to - from,
{
    if from < to {
        lemma_castle_targets_skip(state, position, rights, from + 1, to, targets);
    }
}

/// The bits of the rank and castling masks.
proof fn lemma_mask_bits(j: u64)
    by (bit_vector)
    requires
        j < 64,
    ensures
        ((0xff00000000000000u64 >> j) & 1 == 1) <==> j >= 56,
        ((0x00000000000000ffu64 >> j) & 1 == 1) <==> j < 8,
        ((0x00000000ff000000u64 >> j) & 1 == 1) <==> 24 <= j < 32,
        ((0x000000ff00000000u64 >> j) & 1 == 1) <==> 32 <= j < 40,
        ((0x000000000000000eu64 >> j) & 1 == 1) <==> 1 <= j <= 3,
        ((0x0000000000000060u64 >> j) & 1 == 1) <==> 5 <= j <= 6,
        ((0x0e00000000000000u64 >> j) & 1 == 1) <==> 57 <= j <= 59,
        ((0x6000000000000000u64 >> j) & 1 == 1) <==> 61 <= j <= 62,
        ((0x000000000000000cu64 >> j) & 1 == 1) <==> 2 <= j <= 3,
        ((0x0c00000000000000u64 >> j) & 1 == 1) <==> 58 <= j <= 59,
        ((0b0011u64 >> j) & 1 == 1) <==> j <= 1,
        ((0b1100u64 >> j) & 1 == 1) <==> 2 <= j <= 3,
{
}

/// The members of the rank and castling masks.
pub proof fn lemma_masks(j: int)
    ensures
        has_bit(0xff00000000000000u64, j) == (56 <= j < 64),
        has_bit(0x00000000000000ffu64, j) == (0 <= j < 8),
        has_bit(0x00000000ff000000u64, j) == (24 <= j < 32),
        has_bit(0x000000ff00000000u64, j) == (32 <= j < 40),
        has_bit(0x000000000000000eu64, j) == (1 <= j <= 3),
        has_bit(0x0000000000000060u64, j) == (5 <= j <= 6),
        has_bit(0x0e00000000000000u64, j) == (57 <= j <= 59),
        has_bit(0x6000000000000000u64, j) == (61 <= j <= 62),
        has_bit(0x000000000000000cu64, j) == (2 <= j <= 3),
        has_bit(0x0c00000000000000u64, j) == (58 <= j <= 59),
        has_bit(0b0011u64, j) == (0 <= j <= 1),
        has_bit(0b1100u64, j) == (2 <= j <= 3),
{
    if 0 <= j < 64 {
        lemma_mask_bits(j as u64);
    }
}

impl MoveGenerator {
    /// The legal moves of a position, after finding its check and pin
    /// state: the king's moves and castling first, and unless the king is in
    /// double check, the moves of pawns, the en-passant captures, and the
    /// moves of knights, bishops, rooks and queens. No move is listed
    /// twice. Where two or more enemy pieces attack the king, of whatever
    /// kinds, only the king moves; in check the king does not castle; and
    /// where each side has one king, the side to move is in check exactly
    /// when an enemy piece attacks its king, in double check exactly when
    /// two different ones do, and no move leaves the king of the side that
    /// moved attacked. En-passant captures apart, a move is in the list
    /// exactly when the rules allow it; without an en-passant square the
    /// list is empty exactly at mate and at stalemate.
    pub fn all_possible(&mut self, board: &Board) -> (move_list: Vec<Move>)
        requires
            old(self).wf(),
            board@.wf(),
        ensures
            move_list@ == all_moves(board@),
            all_admitted(board@, move_list@),
            distinct(move_list@),
            check_state(board@).double_check == (checks(board@) >= 2),
            one_king_each(board@) ==> check_state(board@).check == attacked_by(
                board@,
                board@.color.opposite(),
                lsb(board@.bitboard(Piece::King, board@.color)),
            ),
            one_king_each(board@) ==> check_state(board@).double_check == two_attack_the_king(
                board@,
            ),
            checks(board@) >= 2 ==> all_of_kind(move_list@, Piece::King),
            one_king_each(board@) && two_attack_the_king(board@) ==> all_of_kind(
                move_list@,
                Piece::King,
            ),
            checks(board@) >= 1 ==> none_castles(move_list@),
            one_king_each(board@) ==> all_safe(board@, move_list@),
            one_king_each(board@) ==> forall|m: Move|
                m.move_type() != 1 ==> #[trigger] move_list@.contains(m) == is_legal(board@, m),
            one_king_each(board@) && board@.enpassant is None ==> (move_list@.len() == 0) == (
            forall|m: Move| !#[trigger] is_legal(board@, m)),
            final(self).state() == check_state(board@),
            final(self).same_tables(old(self)),
            final(self).wf(),
    {
        proof {
            lemma_all_moves_admitted(board@);
            lemma_no_move_is_listed_twice(board@);
            lemma_flags_count_checks(board@);
            if check_state(board@).double_check {
                lemma_double_check_king_only(board@);
            }
            if checks(board@) >= 1 {
                lemma_no_castling_in_check(board@);
            }
            if one_king_each(board@) {
                lemma_all_moves_safe(board@);
                lemma_check_flags_are_attackers(board@);
                assert forall|m: Move| m.move_type() != 1 implies #[trigger] all_moves(
                    board@,
                ).contains(m) == is_legal(board@, m) by {
                    lemma_listed_means_legal(board@, m);
                }
                if board@.enpassant is None {
                    lemma_no_move_is_mate_or_stalemate(board@);
                }
            }
        }
        let mut move_list: Vec<Move> = Vec::new();

        self.calculate_attack_mask(board);

        self.piece(board, Piece::King, &mut move_list);
        self.castling(board, &mut move_list);

        if self.double_check {
            return move_list;
        }
        self.pawns(board, &mut move_list);
        self.enpassant(board, &mut move_list);

        self.piece(board, Piece::Knight, &mut move_list);
        self.piece(board, Piece::Bishop, &mut move_list);
        self.piece(board, Piece::Rook, &mut move_list);
        self.piece(board, Piece::Queen, &mut move_list);

        move_list
    }

    /// Appends the moves of the pieces of one kind other than pawns, in the
    /// check and pin state that the generator holds.
    pub fn piece(&self, board: &Board, piece: Piece, list: &mut Vec<Move>)
        requires
            self.wf(),
            piece != Piece::Pawn,
        ensures
            final(list)@ == old(list)@ + piece_moves(
                self.state(),
                board@,
                piece,
                board@.bitboard(piece, board@.color),
                0,
            ),
    {
        let color: Color = board.get_color();

        let bb_occupancy: Bitboard = board.get_occupancy();
        let bb_ally_pieces: Bitboard = board.get_allys(color);
        let pieces: Bitboard = board.get_bitboard(piece, color);
        let mut bb_pieces: Bitboard = pieces;

        let is_king: bool = piece == Piece::King;
        let ghost mut from: int = 0;
        assert(list@ + piece_moves(self.state(), board@, piece, pieces, 0) == old(list)@
            + piece_moves(self.state(), board@, piece, pieces, 0));

        while bb_pieces > 0
            invariant
                self.wf(),
                piece != Piece::Pawn,
                is_king == (piece == Piece::King),
                color == board@.color,
                bb_occupancy == board@.occupancy(),
                bb_ally_pieces == board@.allies(color),
                0 <= from <= 64,
                forall|j: int| has_bit(bb_pieces, j) == (has_bit(pieces, j) && j >= from),
                list@ + piece_moves(self.state(), board@, piece, pieces, from) == old(list)@
                    + piece_moves(self.state(), board@, piece, pieces, 0),
            decreases 64 - from,
        {
            proof {
                lemma_lsb(bb_pieces);
                lemma_piece_moves_skip(self.state(), board@, piece, pieces, from, lsb(bb_pieces));
            }
            let square_index: usize = pop_lsb(&mut bb_pieces) as usize;
            let bb_target: Bitboard = (match piece {
                Piece::King | Piece::Knight => self.get_non_slider_attacks(piece, square_index),
                _ => self.get_slider_attacks(piece, square_index, bb_occupancy),
            }) & !bb_ally_pieces;

            let mut bb_moves: Bitboard = bb_target;

            if is_king {
                bb_moves &= !self.bb_attack;
            } else {
                self.isolate_attack_pin_checks(&mut bb_moves, square_index);
            }
            let ghost before = list@;
            if bb_moves > 0 {
                self.add_move(board, piece, square_index as u8, bb_moves, list);
            }
            proof {
                broadcast use group_has_bit;

                let made = moves_to(board@, piece, square_index as int, bb_moves, 0);
                if bb_moves == 0 {
                    lemma_moves_to_skip(board@, piece, square_index as int, bb_moves, 0, 64);
                    assert(before + made =~= before);
                }
                let rest = piece_moves(self.state(), board@, piece, pieces, square_index + 1);
                assert((before + made) + rest =~= before + (made + rest));
                from = square_index + 1;
            }
        }
        proof {
            broadcast use group_has_bit;

            lemma_piece_moves_skip(self.state(), board@, piece, pieces, from, 64);
            assert(list@ + Seq::<Move>::empty() =~= list@);
        }
    }

    /// Appends the moves of the pawns of the side to move, en-passant
    /// captures not among them, in the check and pin state that the
    /// generator holds.
    pub fn pawns(&self, board: &Board, list: &mut Vec<Move>)
        requires
            self.wf(),
            board@.wf(),
        ensures
            final(list)@ == old(list)@ + pawn_moves(
                self.state(),
                board@,
                board@.bitboard(Piece::Pawn, board@.color),
                0,
            ),
    {
        let color: Color = board.get_color();
        let inactive: Color = color.not();

        let bb_empty: Bitboard = !board.get_occupancy();

        let bb_opponent_pieces: Bitboard = board.get_allys(inactive);
        let pawns: Bitboard = board.get_bitboard(Piece::Pawn, color);
        let mut bb_ally_pawns: Bitboard = pawns;

        let color_index: usize = color.to_index();
        let double_push_rank: Bitboard = PAWN_DOUBLE_PUSH_RANK[color_index];
        let direction: i8 = PAWN_PUSH_DIRECTION[color_index];
        let ghost mut from: int = 0;
        assert(list@ + pawn_moves(self.state(), board@, pawns, 0) == old(list)@ + pawn_moves(
            self.state(),
            board@,
            pawns,
            0,
        ));

        while bb_ally_pawns > 0
            invariant
                self.wf(),
                board@.wf(),
                color == board@.color,
                inactive == color.opposite(),
                bb_empty == !board@.occupancy(),
                bb_opponent_pieces == board@.allies(inactive),
                pawns == board@.bitboard(Piece::Pawn, color),
                double_push_rank == PAWN_DOUBLE_PUSH_RANK[color.index()],
                direction == color.push(),
                0 <= from <= 64,
                forall|j: int| has_bit(bb_ally_pawns, j) == (has_bit(pawns, j) && j >= from),
                list@ + pawn_moves(self.state(), board@, pawns, from) == old(list)@ + pawn_moves(
                    self.state(),
                    board@,
                    pawns,
                    0,
                ),
            decreases 64 - from,
        {
            proof {
                broadcast use group_has_bit;

                lemma_lsb(bb_ally_pawns);
                lemma_pawn_moves_skip(self.state(), board@, pawns, from, lsb(bb_ally_pawns));
                assert(board@.square_ok(lsb(bb_ally_pawns)));
            }
            let square_index: usize = pop_lsb(&mut bb_ally_pawns) as usize;

            let bb_push: Bitboard = self.square_bit[(square_index as i8 + direction) as usize];
            let bb_one_step: Bitboard = bb_push & bb_empty;
            let bb_two_step: Bitboard = (match color {
                Color::White => bb_one_step << 8u64,
                Color::Black => bb_one_step >> 8u64,
            }) & bb_empty & double_push_rank;

            let capture_mask: Bitboard = self.get_pawn_attacks(square_index, color);
            let bb_capture: Bitboard = capture_mask & bb_opponent_pieces;

            let mut bb_moves: Bitboard = (bb_one_step | bb_two_step) | bb_capture;

            self.isolate_attack_pin_checks(&mut bb_moves, square_index);

            let ghost before = list@;
            if bb_moves > 0 {
                self.add_move(board, Piece::Pawn, square_index as u8, bb_moves, list);
            }
            proof {
                let made = moves_to(board@, Piece::Pawn, square_index as int, bb_moves, 0);
                if bb_moves == 0 {
                    lemma_moves_to_skip(board@, Piece::Pawn, square_index as int, bb_moves, 0, 64);
                    assert(before + made =~= before);
                }
                let rest = pawn_moves(self.state(), board@, pawns, square_index + 1);
                assert((before + made) + rest =~= before + (made + rest));
                from = square_index + 1;
            }
        }
        proof {
            broadcast use group_has_bit;

            lemma_pawn_moves_skip(self.state(), board@, pawns, from, 64);
            assert(list@ + Seq::<Move>::empty() =~= list@);
        }
    }

    /// Appends the en-passant captures, in the check and pin state that
    /// the generator holds. A capture that would uncover the king along its
    /// rank, or along a diagonal through the pawn to be captured, is left
    /// out, and so is every capture by a pinned pawn; in check, a capture is
    /// kept only if the captured pawn stands where the check is answered.
    /// Each capture is a pawn's move of type en passant to the en-passant
    /// square, from the square of a pawn of the side to move that attacks
    /// it; without an en-passant square nothing is appended. Where the
    /// generator holds the state of the position itself and the king is not
    /// in double check, no capture leaves the king attacked; in a double
    /// check `all_possible` does not ask for them.
    pub fn enpassant(&self, board: &Board, list: &mut Vec<Move>)
        requires
            self.wf(),
            board@.wf(),
        ensures
            final(list)@ == old(list)@ + enpassant_moves(self.state(), board@),
            board@.enpassant is None ==> final(list)@ == old(list)@,
            all_capture_in_passing(
                self.state(),
                board@,
                enpassant_moves(self.state(), board@),
            ),
            self.state() == check_state(board@) && one_king_each(board@) && !self.double_check
                ==> all_safe(board@, enpassant_moves(self.state(), board@)),
    {
        proof {
            lemma_enpassant_moves_capture(self.state(), board@);
            if self.state() == check_state(board@) && one_king_each(board@) && !self.double_check {
                lemma_captures_in_passing_are_safe(board@);
            }
            assert(old(list)@ + Seq::<Move>::empty() =~= old(list)@);
        }
        if board.enpassant.is_none() {
            assert(list@ + Seq::<Move>::empty() =~= list@);
            return ;
        }
        let color: Color = board.get_color();
        let inactive: Color = color.not();

        let bb_occupancy: Bitboard = board.get_occupancy();

        let bb_ally_king: Bitboard = board.get_bitboard(Piece::King, color);
        let bb_ally_pawns: Bitboard = board.get_bitboard(Piece::Pawn, color);

        let bb_opp_rooks: Bitboard = board.get_bitboard(Piece::Rook, inactive);
        let bb_opp_queens: Bitboard = board.get_bitboard(Piece::Queen, inactive);

        let enpassant_pin_rank: Bitboard = PAWN_DOUBLE_PUSH_RANK[inactive.to_index()];
        let bb_enpassant_pieces: Bitboard = bb_ally_king | bb_opp_rooks | bb_opp_queens;

        let target_square: usize = board.enpassant.unwrap();
        proof {
            assert(board@.enpassant_ok());
        }
        let bb_moves: Bitboard = self.square_bit[target_square];

        let mut bb_pawns: Bitboard = bb_ally_pawns & self.get_pawn_attacks(target_square, inactive);
        let pawn_square: i8 = target_square as i8 - PAWN_PUSH_DIRECTION[color.to_index()];
        let pawn_bit: Bitboard = self.square_bit[pawn_square as usize];

        if bb_pawns != 0 {
            if (enpassant_pin_rank & bb_ally_king) != 0 && count_bits(bb_pawns) == 1 {
                let square_index: usize = get_lsb_index(bb_pawns) as usize;

                let (xray, attack) = self.xray_attack(
                    Piece::Rook,
                    square_index,
                    bb_occupancy,
                    bb_occupancy,
                );

                let xray: Bitboard = xray & enpassant_pin_rank;
                let attack: Bitboard = attack & enpassant_pin_rank;

                let bb_piece_in_attack: Bitboard = attack & bb_enpassant_pieces;
                let bb_piece_in_xray: Bitboard = xray & bb_enpassant_pieces;

                if bb_piece_in_attack != 0 && bb_piece_in_xray != 0 {
                    bb_pawns = 0;
                }
            }
            if bb_ally_king != 0 {
                let king_square: usize = get_lsb_index(bb_ally_king) as usize;
                let bb_opp_bishops: Bitboard = board.get_bitboard(Piece::Bishop, inactive);
                let seen: Bitboard = self.get_slider_attacks(
                    Piece::Bishop,
                    king_square,
                    bb_occupancy,
                );
                let uncovered: Bitboard = self.get_slider_attacks(
                    Piece::Bishop,
                    king_square,
                    bb_occupancy & !pawn_bit,
                ) & !seen;

                if uncovered & (bb_opp_queens | bb_opp_bishops) != 0 {
                    bb_pawns = 0;
                }
            }
            if self.check {
                if pawn_bit & self.check_ray == 0 {
                    bb_pawns = 0;
                }
            }
        }
        assert(bb_pawns == enpassant_pawns(self.state(), board@));
        let pawns: Bitboard = bb_pawns;
        let ghost mut from: int = 0;
        assert(list@ + enpassant_from(self.state(), board@, pawns, 0) == old(list)@
            + enpassant_from(self.state(), board@, pawns, 0));

        while bb_pawns > 0
            invariant
                self.wf(),
                board@.enpassant == Some(target_square),
                target_square < 64,
                bb_moves == bit(target_square as int),
                0 <= from <= 64,
                forall|j: int| has_bit(bb_pawns, j) == (has_bit(pawns, j) && j >= from),
                list@ + enpassant_from(self.state(), board@, pawns, from) == old(list)@
                    + enpassant_from(self.state(), board@, pawns, 0),
            decreases 64 - from,
        {
            proof {
                lemma_lsb(bb_pawns);
                lemma_enpassant_from_skip(self.state(), board@, pawns, from, lsb(bb_pawns));
            }
            let square_index: u8 = pop_lsb(&mut bb_pawns);
            proof {
                from = square_index + 1;
            }
            if self.pin_rays[square_index as usize] != 0 {
                continue ;
            }
            let ghost before = list@;
            self.add_move(board, Piece::Pawn, square_index, bb_moves, list);
            proof {
                let made = moves_to(board@, Piece::Pawn, square_index as int, bb_moves, 0);
                let rest = enpassant_from(self.state(), board@, pawns, square_index + 1);
                assert((before + made) + rest =~= before + (made + rest));
            }
        }
        proof {
            broadcast use group_has_bit;

            lemma_enpassant_from_skip(self.state(), board@, pawns, from, 64);
            assert(list@ + Seq::<Move>::empty() =~= list@);
        }
    }

    /// Appends the castling moves, in the check and pin state that the
    /// generator holds: none in check; else, for each right of the side to
    /// move that it still holds, the king's move to its landing square,
    /// provided that the squares between king and rook are empty and the
    /// squares that the king crosses and lands on are not attacked.
    pub fn castling(&self, board: &Board, list: &mut Vec<Move>)
        ensures
            final(list)@ == old(list)@ + castle_moves(self.state(), board@),
    {
        if self.check {
            assert(list@ + Seq::<Move>::empty() =~= list@);
            return ;
        }
        let color: Color = board.get_color();

        let bb_empty: Bitboard = !board.get_occupancy();
        let bb_ally_king: Bitboard = board.get_bitboard(Piece::King, color);

        let rights: Bitboard = CASTLE_RIGHTS[color.to_index()] & (board.castle_rights as Bitboard);
        let mut ally_castle_rights: Bitboard = rights;

        let mut bb_moves: Bitboard = 0;
        let ghost mut from: int = 0;

        while ally_castle_rights > 0
            invariant
                color == board@.color,
                bb_empty == !board@.occupancy(),
                rights == CASTLE_RIGHTS[color.index()] & (board@.castle_rights as u64),
                0 <= from <= 64,
                forall|j: int| has_bit(ally_castle_rights, j) == (has_bit(rights, j) && j >= from),
                castle_targets(self.state(), board@, rights, 0, 0) == castle_targets(
                    self.state(),
                    board@,
                    rights,
                    from,
                    bb_moves,
                ),
            decreases 64 - from,
        {
            proof {
                broadcast use group_has_bit;

                lemma_lsb(ally_castle_rights);
                lemma_castle_targets_skip(
                    self.state(),
                    board@,
                    rights,
                    from,
                    lsb(ally_castle_rights),
                    bb_moves,
                );
                lemma_masks(lsb(ally_castle_rights));
            }
            let castle_index: usize = pop_lsb(&mut ally_castle_rights) as usize;
            proof {
                from = castle_index + 1;
            }
            let bb_castle_empty: Bitboard = CASTLE_EMPTY[castle_index];
            if bb_empty & bb_castle_empty != bb_castle_empty {
                continue ;
            }
            let bb_castle_attack: Bitboard = CASTLE_ATTACK[castle_index];
            if bb_castle_attack & !self.bb_attack != bb_castle_attack {
                continue ;
            }
            set_bit(&mut bb_moves, CASTLE_KING_INDEX[castle_index]);
        }
        proof {
            broadcast use group_has_bit;

            lemma_castle_targets_skip(self.state(), board@, rights, from, 64, bb_moves);
        }

        if bb_moves > 0 && bb_ally_king != 0 {
            let king_square: u8 = get_lsb_index(bb_ally_king);

            self.add_move(board, Piece::King, king_square, bb_moves, list);
        } else {
            assert(list@ + Seq::<Move>::empty() =~= list@);
        }
    }
}

} // verus!
