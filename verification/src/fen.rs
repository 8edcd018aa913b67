//! Reading a position from its description: the piece placement from the
//! eighth rank down, the side to move, the castling rights and the
//! en-passant square, separated by single spaces.

use crate::bitboard::{bit, set_bit, Bitboard};
use crate::board::{Board, Position};
use crate::color::Color;
use crate::error::Error;
use crate::notation::{parse_square, square_from_str};
use crate::piece::{is_piece_letter, Piece};
use vstd::prelude::*;
use vstd::string::StrSliceExecFns;

verus! {

/// Where the field that begins at `from` ends: at the first space from
/// there on, or at the end of the text.
pub open spec fn field_end(text: Seq<char>, from: int) -> int
    decreases text.len() - from,
{
    if from < 0 || from >= text.len() {
        text.len() as int
    } else if text[from] == ' ' {
        from
    } else {
        field_end(text, from + 1)
    }
}

/// Where field `n` begins, if the text has that many fields: the first
/// field begins the text, and each space begins another.
pub open spec fn field_start(text: Seq<char>, n: nat) -> Option<int>
    decreases n,
{
    if n == 0 {
        Some(0)
    } else {
        match field_start(text, (n - 1) as nat) {
            Some(start) => if field_end(text, start) < text.len() {
                Some(field_end(text, start) + 1)
            } else {
                None
            },
            None => None,
        }
    }
}

/// Field `n` of the text; only meaningful where the text has that many
/// fields.
pub open spec fn field(text: Seq<char>, n: nat) -> Seq<char> {
    text.subrange(field_start(text, n)->0, field_end(text, field_start(text, n)->0))
}

/// The piece placement as far as it has been read: the piece sets and side
/// sets, and the rank and file of the next square.
pub struct Placement {
    pub pieces: Seq<Bitboard>,
    pub colors: Seq<Bitboard>,
    pub rank: int,
    pub file: int,
}

/// The number of squares that a digit of the placement skips.
pub open spec fn skip_of(digit: char) -> Option<int> {
    if digit == '1' {
        Some(1)
    } else if digit == '2' {
        Some(2)
    } else if digit == '3' {
        Some(3)
    } else if digit == '4' {
        Some(4)
    } else if digit == '5' {
        Some(5)
    } else if digit == '6' {
        Some(6)
    } else if digit == '7' {
        Some(7)
    } else if digit == '8' {
        Some(8)
    } else {
        None
    }
}

/// Whether a character belongs in the piece placement: `/`, a digit `1` to
/// `8`, or a piece letter.
pub open spec fn is_placement_char(letter: char) -> bool {
    letter == '/' || skip_of(letter) is Some || is_piece_letter(letter)
}

/// Whether one more character takes the placement off the board: a `/`
/// when the first rank is being read, or a piece letter when the next
/// square lies behind h8, the last square of the board.
pub open spec fn leaves_board(placed: Placement, letter: char) -> bool {
    (letter == '/' && placed.rank <= 0) || (is_piece_letter(letter) && placed.rank * 8
        + placed.file >= 64)
}

/// The placement after one more character: `/` goes to the start of the
/// rank below, a digit `1` to `8` skips that many squares, a piece letter
/// puts a piece on the next square. The squares of a rank are counted on
/// from its first, so that what is written behind the h-file stands on the
/// rank above. A character that does not belong in the placement is
/// rejected, and so is one that takes the placement off the board.
pub open spec fn place_char(placed: Placement, letter: char) -> Option<Placement> {
    if !is_placement_char(letter) || leaves_board(placed, letter) {
        None
    } else if letter == '/' {
        Some(Placement { rank: placed.rank - 1, file: 0, ..placed })
    } else if skip_of(letter) is Some {
        Some(Placement { file: placed.file + skip_of(letter)->0, ..placed })
    } else {
        let square = placed.rank * 8 + placed.file;
        let piece = Piece::of_letter(letter).index();
        let side = Color::of_letter(letter).index();
        Some(
            Placement {
                pieces: placed.pieces.update(piece, placed.pieces[piece] | bit(square)),
                colors: placed.colors.update(side, placed.colors[side] | bit(square)),
                file: placed.file + 1,
                ..placed
            },
        )
    }
}

/// The placement after the characters of the text from `from` up to `to`.
pub open spec fn place(text: Seq<char>, from: int, to: int, placed: Placement) -> Option<
    Placement,
>
    decreases to - from,
{
    if from >= to {
        Some(placed)
    } else {
        match place_char(placed, text[from]) {
            Some(next) => place(text, from + 1, to, next),
            None => None,
        }
    }
}

/// The placement before anything is read: an empty board, and the next
/// square is a8.
pub open spec fn empty_placement() -> Placement {
    Placement {
        pieces: Seq::new(6, |i: int| 0u64),
        colors: Seq::new(2, |i: int| 0u64),
        rank: 7,
        file: 0,
    }
}

/// The side that the side-to-move field names.
pub open spec fn parse_side(text: Seq<char>) -> Option<Color> {
    if text.len() == 1 && (text[0] == 'w' || text[0] == 'W') {
        Some(Color::White)
    } else if text.len() == 1 && (text[0] == 'b' || text[0] == 'B') {
        Some(Color::Black)
    } else {
        None
    }
}

/// Whether a character belongs in the castling field: one of `K`, `Q`,
/// `k`, `q` and `-`.
pub open spec fn is_rights_char(letter: char) -> bool {
    letter == 'Q' || letter == 'K' || letter == 'q' || letter == 'k' || letter == '-'
}

/// The castling rights after one more character of the castling field.
pub open spec fn right_char(rights: usize, letter: char) -> Option<usize> {
    if letter == 'Q' {
        Some(rights | 0b0001)
    } else if letter == 'K' {
        Some(rights | 0b0010)
    } else if letter == 'q' {
        Some(rights | 0b0100)
    } else if letter == 'k' {
        Some(rights | 0b1000)
    } else if letter == '-' {
        Some(rights)
    } else {
        None
    }
}

/// The castling rights after the characters of the text from `from` up to
/// `to`.
pub open spec fn parse_rights(text: Seq<char>, from: int, to: int, rights: usize) -> Option<usize>
    decreases to - from,
{
    if from >= to {
        Some(rights)
    } else {
        match right_char(rights, text[from]) {
            Some(next) => parse_rights(text, from + 1, to, next),
            None => None,
        }
    }
}

/// The position that a text describes, if it describes one. The text must
/// have at least four fields. The first places the pieces, the second names
/// the side to move, the third lists the castling rights. The fourth names
/// the en-passant square; where it names no square, there is none. Further
/// fields are not read.
pub open spec fn parse_fen(text: Seq<char>) -> Option<Position> {
    if field_start(text, 3) is None {
        None
    } else {
        let placed = place(text, 0, field_end(text, 0), empty_placement());
        let side = parse_side(field(text, 1));
        let rights = parse_rights(
            text,
            field_start(text, 2)->0,
            field_end(text, field_start(text, 2)->0),
            0,
        );
        if placed is None || side is None || rights is None {
            None
        } else {
            Some(
                Position {
                    pieces: placed->0.pieces,
                    colors: placed->0.colors,
                    color: side->0,
                    castle_rights: rights->0,
                    enpassant: match parse_square(field(text, 3)) {
                        Some(square) => Some(square as usize),
                        None => None,
                    },
                    history: Seq::empty(),
                },
            )
        }
    }
}

/// The placement before character `at` of the text is read, if the
/// characters before it were placed.
pub open spec fn placed_before(text: Seq<char>, at: int) -> Option<Placement> {
    place(text, 0, at, empty_placement())
}

/// Whether the placement field goes off the board: one of its characters,
/// with those before it placed, takes the placement off the board.
pub open spec fn placement_leaves(text: Seq<char>) -> bool {
    exists|at: int|
        0 <= at < field_end(text, 0) && (#[trigger] placed_before(text, at)) is Some
            && leaves_board(placed_before(text, at)->0, text[at])
}

/// Whether some character of the text from `from` up to `to` does not
/// belong in the placement.
pub open spec fn holds_no_placement(text: Seq<char>, from: int, to: int) -> bool {
    exists|at: int| from <= at < to && !is_placement_char(#[trigger] text[at])
}

/// Whether some character of the text from `from` up to `to` does not
/// belong in the castling field.
pub open spec fn holds_no_rights(text: Seq<char>, from: int, to: int) -> bool {
    exists|at: int| from <= at < to && !is_rights_char(#[trigger] text[at])
}

/// Placing the characters of a stretch is placing those of its first part
/// and then those of the rest.
pub proof fn lemma_place_split(text: Seq<char>, from: int, mid: int, to: int, placed: Placement)
    requires
        from <= mid <= to,
    ensures
        place(text, from, to, placed) == match place(text, from, mid, placed) {
            Some(first) => place(text, mid, to, first),
            None => None,
        },
    decreases mid - from,
{
    if from < mid {
        match place_char(placed, text[from]) {
            Some(next) => {
                lemma_place_split(text, from + 1, mid, to, next);
            },
            None => {},
        }
    }
}

/// The placement is rejected exactly when one of its characters, with
/// those before it placed, is rejected.
pub proof fn lemma_place_rejected(text: Seq<char>, to: int)
    requires
        0 <= to,
    ensures
        placed_before(text, to) is None == exists|at: int|
            0 <= at < to && (#[trigger] placed_before(text, at)) is Some && place_char(
                placed_before(text, at)->0,
                text[at],
            ) is None,
    decreases to,
{
    if to > 0 {
        lemma_place_rejected(text, to - 1);
        lemma_place_split(text, 0, to - 1, to, empty_placement());
        let before = placed_before(text, to - 1);
        if before is Some {
            assert(place(text, to - 1, to, before->0) == match place_char(before->0, text[to - 1]) {
                Some(next) => place(text, to, to, next),
                None => None,
            });
            if place_char(before->0, text[to - 1]) is None {
                assert(placed_before(text, to - 1) is Some);
            }
        }
        if exists|at: int|
            0 <= at < to && (#[trigger] placed_before(text, at)) is Some && place_char(
                placed_before(text, at)->0,
                text[at],
            ) is None {
            let at = choose|at: int|
                0 <= at < to && (#[trigger] placed_before(text, at)) is Some && place_char(
                    placed_before(text, at)->0,
                    text[at],
                ) is None;
            if at < to - 1 {
                assert(placed_before(text, to - 1) is None);
            }
        }
    }
}

/// A stretch of characters that is placed holds placement characters
/// only.
proof fn lemma_placed_chars(text: Seq<char>, from: int, to: int, placed: Placement, at: int)
    requires
        from <= at < to,
        place(text, from, to, placed) is Some,
    ensures
        is_placement_char(text[at]),
    decreases to - from,
{
    if from < at {
        lemma_placed_chars(text, from + 1, to, place_char(placed, text[from])->0, at);
    }
}

/// The castling field is rejected exactly when it holds a character that
/// does not belong there.
pub proof fn lemma_rights_rejected(text: Seq<char>, from: int, to: int, rights: usize)
    ensures
        parse_rights(text, from, to, rights) is None == holds_no_rights(text, from, to),
    decreases to - from,
{
    if from < to {
        match right_char(rights, text[from]) {
            Some(next) => {
                lemma_rights_rejected(text, from + 1, to, next);
                if holds_no_rights(text, from, to) {
                    let at = choose|at: int| from <= at < to && !is_rights_char(#[trigger] text[at]);
                    assert(from + 1 <= at);
                }
                if holds_no_rights(text, from + 1, to) {
                    let at = choose|at: int|
                        from + 1 <= at < to && !is_rights_char(#[trigger] text[at]);
                    assert(from <= at < to && !is_rights_char(text[at]));
                }
            },
            None => {
                assert(!is_rights_char(text[from]));
            },
        }
    }
}

/// The texts that describe no position: a text is rejected exactly when
/// it has fewer than four fields, when its placement holds a character
/// that does not belong there or goes off the board, when its side to move
/// is neither `w` nor `b` in either case, or when its castling field holds
/// a character that does not belong there. Every other text describes a
/// position.
pub proof fn lemma_rejected_texts(text: Seq<char>)
    ensures
        parse_fen(text) is None == (field_start(text, 3) is None || holds_no_placement(
            text,
            0,
            field_end(text, 0),
        ) || placement_leaves(text) || parse_side(field(text, 1)) is None || holds_no_rights(
            text,
            field_start(text, 2)->0,
            field_end(text, field_start(text, 2)->0),
        )),
{
    let end = field_end(text, 0);
    lemma_field_end_bounds(text, 0);
    lemma_place_rejected(text, end);
    if field_start(text, 2) is Some {
        lemma_rights_rejected(
            text,
            field_start(text, 2)->0,
            field_end(text, field_start(text, 2)->0),
            0,
        );
    }
    if holds_no_placement(text, 0, end) {
        let at = choose|at: int| 0 <= at < end && !is_placement_char(#[trigger] text[at]);
        if placed_before(text, end) is Some {
            lemma_placed_chars(text, 0, end, empty_placement(), at);
        }
    }
    if placement_leaves(text) {
        let at = choose|at: int|
            0 <= at < end && (#[trigger] placed_before(text, at)) is Some && leaves_board(
                placed_before(text, at)->0,
                text[at],
            );
        assert(place_char(placed_before(text, at)->0, text[at]) is None);
    }
    if placed_before(text, end) is None {
        let at = choose|at: int|
            0 <= at < end && (#[trigger] placed_before(text, at)) is Some && place_char(
                placed_before(text, at)->0,
                text[at],
            ) is None;
        if is_placement_char(text[at]) {
            assert(leaves_board(placed_before(text, at)->0, text[at]));
        }
    }
}

/// A field ends at or behind its start, within the text.
proof fn lemma_field_end_bounds(text: Seq<char>, from: int)
    requires
        0 <= from,
    ensures
        from <= field_end(text, from) || field_end(text, from) == text.len(),
        0 <= field_end(text, from),
    decreases text.len() - from,
{
    if from < text.len() && text[from] != ' ' {
        lemma_field_end_bounds(text, from + 1);
    }
}

/// Where the field that begins at `from` ends.
fn find_field_end(value: &str, from: usize, length: usize) -> (end: usize)
    requires
        length == value@.len(),
        from <= length,
    ensures
        end == field_end(value@, from as int),
        from <= end <= length,
{
    let mut end: usize = from;
    while end < length && value.get_char(end) != ' '
        invariant
            from <= end <= length,
            length == value@.len(),
            field_end(value@, from as int) == field_end(value@, end as int),
        decreases length - end,
    {
        end += 1;
    }
    end
}

/// The number of squares that a digit of the placement skips.
fn digit_skip(digit: char) -> (skip: Option<u8>)
    ensures
        skip is Some == skip_of(digit) is Some,
        skip is Some ==> skip->0 == skip_of(digit)->0 && skip->0 <= 8,
{
    match digit {
        '1' => Some(1),
        '2' => Some(2),
        '3' => Some(3),
        '4' => Some(4),
        '5' => Some(5),
        '6' => Some(6),
        '7' => Some(7),
        '8' => Some(8),
        _ => None,
    }
}

/// Whether a character names a piece.
fn names_piece(letter: char) -> (named: bool)
    ensures
        named == is_piece_letter(letter),
{
    match letter {
        'K' | 'P' | 'N' | 'B' | 'R' | 'Q' | 'k' | 'p' | 'n' | 'b' | 'r' | 'q' => true,
        _ => false,
    }
}

impl Board {
    /// The error for a text that describes no position.
    fn invalid_fen(value: &str) -> (error: Error)
        ensures
            error matches Error::InvalidFen { fen } && fen@ == value@,
    {
        Error::InvalidFen { fen: value.to_owned() }
    }

    /// The position that a text describes. The text is rejected when it
    /// has fewer than four fields, when the placement or the castling field
    /// holds a character that does not belong there, or when the side to
    /// move is neither `w` nor `b` in either case; and when the placement
    /// leaves the board, with a `/` below the first rank or a piece behind
    /// the last square. A rank may be written longer than eight squares: it
    /// runs on into the rank above. The position that is read need not be
    /// sound.
    #[verifier::loop_isolation(false)]
    pub fn from_str(value: &str) -> (parsed: Result<Board, Error>)
        ensures
            parsed is Ok == parse_fen(value@) is Some,
            parsed is Ok ==> parsed->Ok_0@ == parse_fen(value@)->0,
            parsed is Err ==> (parsed->Err_0 matches Error::InvalidFen { fen } && fen@ == value@),
            parsed is Err == (field_start(value@, 3) is None || holds_no_placement(
                value@,
                0,
                field_end(value@, 0),
            ) || placement_leaves(value@) || parse_side(field(value@, 1)) is None
                || holds_no_rights(
                value@,
                field_start(value@, 2)->0,
                field_end(value@, field_start(value@, 2)->0),
            )),
    {
        proof {
            reveal_with_fuel(field_start, 5);
            lemma_rejected_texts(value@);
        }
        let length: usize = value.unicode_len();
        let placement_end: usize = find_field_end(value, 0, length);
        if placement_end >= length {
            return Err(Board::invalid_fen(value));
        }
        let side_start: usize = placement_end + 1;
        let side_end: usize = find_field_end(value, side_start, length);
        if side_end >= length {
            assert(field_start(value@, 1) == Some(side_start as int));
            assert(field_start(value@, 2) is None);
            return Err(Board::invalid_fen(value));
        }
        let rights_start: usize = side_end + 1;
        let rights_end: usize = find_field_end(value, rights_start, length);
        if rights_end >= length {
            assert(field_start(value@, 1) == Some(side_start as int));
            assert(field_start(value@, 2) == Some(rights_start as int));
            return Err(Board::invalid_fen(value));
        }
        let enpassant_start: usize = rights_end + 1;
        let enpassant_end: usize = find_field_end(value, enpassant_start, length);
        proof {
            assert(field_start(value@, 1) == Some(side_start as int));
            assert(field_start(value@, 2) == Some(rights_start as int));
            assert(field_start(value@, 3) == Some(enpassant_start as int));
        }

        let mut board = Board::new();
        let mut rank: u8 = 7;
        // The file, as far as it matters: behind the board no square lies.
        let mut file: u8 = 0;
        let ghost mut far: int = 0;
        let mut next: usize = 0;
        proof {
            assert(board@.pieces =~= empty_placement().pieces);
            assert(board@.colors =~= empty_placement().colors);
        }
        while next < placement_end
            invariant
                next <= placement_end <= length,
                length == value@.len(),
                rank < 8,
                0 <= far,
                file == if far <= 64 {
                    far
                } else {
                    64
                },
                board@.color == Color::White,
                board@.castle_rights == 0,
                board@.enpassant is None,
                board@.history.len() == 0,
                place(value@, 0, placement_end as int, empty_placement()) == place(
                    value@,
                    next as int,
                    placement_end as int,
                    Placement {
                        pieces: board@.pieces,
                        colors: board@.colors,
                        rank: rank as int,
                        file: far,
                    },
                ),
            decreases placement_end - next,
        {
            let letter: char = value.get_char(next);
            if letter == '/' {
                if rank == 0 {
                    return Err(Board::invalid_fen(value));
                }
                rank -= 1;
                file = 0;
                proof {
                    far = 0;
                }
            } else if let Some(skip) = digit_skip(letter) {
                file = if file + skip > 64 {
                    64
                } else {
                    file + skip
                };
                proof {
                    far = far + skip;
                }
            } else if names_piece(letter) {
                if file >= 64 || Board::to_square_index(rank, file) >= 64 {
                    return Err(Board::invalid_fen(value));
                }
                let square_index: u8 = Board::to_square_index(rank, file);
                let color: Color = Color::from(letter);
                let piece: Piece = Piece::from(letter);

                let mut bb_piece: Bitboard = board.pieces[piece.to_index()];
                let mut bb_color: Bitboard = board.colors[color.to_index()];
                set_bit(&mut bb_piece, square_index);
                set_bit(&mut bb_color, square_index);
                let ghost before = board@;
                board.pieces[piece.to_index()] = bb_piece;
                board.colors[color.to_index()] = bb_color;
                file += 1;
                proof {
                    far = far + 1;
                    assert(board@.pieces =~= before.pieces.update(piece.index(), bb_piece));
                    assert(board@.colors =~= before.colors.update(color.index(), bb_color));
                }
            } else {
                return Err(Board::invalid_fen(value));
            }
            next += 1;
        }

        let side: &str = value.substring_char(side_start, side_end);
        if side_end - side_start != 1 {
            return Err(Board::invalid_fen(value));
        }
        let turn: char = side.get_char(0);
        if turn == 'w' || turn == 'W' {
            board.color = Color::White;
        } else if turn == 'b' || turn == 'B' {
            board.color = Color::Black;
        } else {
            return Err(Board::invalid_fen(value));
        }

        let ghost placed = board@;
        assert(parse_side(field(value@, 1)) == Some(board@.color));
        let mut next: usize = rights_start;
        while next < rights_end
            invariant
                board@.pieces == placed.pieces,
                board@.colors == placed.colors,
                board@.color == placed.color,
                rights_start <= next <= rights_end <= length,
                length == value@.len(),
                board@.history.len() == 0,
                board@.enpassant is None,
                parse_rights(value@, rights_start as int, rights_end as int, 0) == parse_rights(
                    value@,
                    next as int,
                    rights_end as int,
                    board@.castle_rights,
                ),
            decreases rights_end - next,
        {
            let letter: char = value.get_char(next);
            if letter == 'Q' {
                board.castle_rights |= 0b0001;
            } else if letter == 'K' {
                board.castle_rights |= 0b0010;
            } else if letter == 'q' {
                board.castle_rights |= 0b0100;
            } else if letter == 'k' {
                board.castle_rights |= 0b1000;
            } else if letter == '-' {
            } else {
                return Err(Board::invalid_fen(value));
            }
            next += 1;
        }

        let enpassant: &str = value.substring_char(enpassant_start, enpassant_end);
        if let Some(square) = square_from_str(enpassant) {
            board.enpassant = Some(square);
        }
        proof {
            assert(board@.history =~= Seq::empty());
        }
        Ok(board)
    }
}

} // verus!
