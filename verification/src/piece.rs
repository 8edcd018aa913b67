//! The six kinds of chess piece.

use crate::color::Color;
use vstd::prelude::*;

verus! {

/// A kind of piece. The order is the order of the per-piece tables.
#[derive(Copy, Clone, PartialEq, Eq, Structural, Debug)]
pub enum Piece {
    King,
    Pawn,
    Knight,
    Bishop,
    Rook,
    Queen,
}

/// Every kind of piece, in table order.
pub const ALL_PIECES: [Piece; 6] = [
    Piece::King,
    Piece::Pawn,
    Piece::Knight,
    Piece::Bishop,
    Piece::Rook,
    Piece::Queen,
];

/// The kinds a pawn may promote to, in the order in which moves list them.
pub const PROMOTION_PIECES: [Piece; 4] = [Piece::Queen, Piece::Rook, Piece::Bishop, Piece::Knight];

/// Whether `letter` names a piece, in either case.
pub open spec fn is_piece_letter(letter: char) -> bool {
    letter == 'k' || letter == 'p' || letter == 'n' || letter == 'b' || letter == 'r' || letter
        == 'q' || letter == 'K' || letter == 'P' || letter == 'N' || letter == 'B' || letter == 'R'
        || letter == 'Q'
}

impl Piece {
    /// The position of the kind in per-piece tables.
    pub open spec fn index(self) -> int {
        match self {
            Piece::King => 0,
            Piece::Pawn => 1,
            Piece::Knight => 2,
            Piece::Bishop => 3,
            Piece::Rook => 4,
            Piece::Queen => 5,
        }
    }

    /// The kind at a position of the per-piece tables.
    pub open spec fn of_index(index: int) -> Piece {
        if index == 0 {
            Piece::King
        } else if index == 1 {
            Piece::Pawn
        } else if index == 2 {
            Piece::Knight
        } else if index == 3 {
            Piece::Bishop
        } else if index == 4 {
            Piece::Rook
        } else {
            Piece::Queen
        }
    }

    /// The kind that a piece letter names, in either case; only meaningful
    /// for a piece letter.
    pub open spec fn of_letter(letter: char) -> Piece {
        if letter == 'k' || letter == 'K' {
            Piece::King
        } else if letter == 'p' || letter == 'P' {
            Piece::Pawn
        } else if letter == 'n' || letter == 'N' {
            Piece::Knight
        } else if letter == 'b' || letter == 'B' {
            Piece::Bishop
        } else if letter == 'r' || letter == 'R' {
            Piece::Rook
        } else {
            Piece::Queen
        }
    }

    /// The lower-case letter of the kind.
    pub open spec fn letter(self) -> char {
        match self {
            Piece::King => 'k',
            Piece::Pawn => 'p',
            Piece::Knight => 'n',
            Piece::Bishop => 'b',
            Piece::Rook => 'r',
            Piece::Queen => 'q',
        }
    }

    /// The letter of the kind for a side: upper case for White.
    pub open spec fn symbol(self, color: Color) -> char {
        match color {
            Color::Black => self.letter(),
            Color::White => match self {
                Piece::King => 'K',
                Piece::Pawn => 'P',
                Piece::Knight => 'N',
                Piece::Bishop => 'B',
                Piece::Rook => 'R',
                Piece::Queen => 'Q',
            },
        }
    }

    /// The English name of the kind.
    pub open spec fn full_name(self) -> Seq<char> {
        match self {
            Piece::King => "King"@,
            Piece::Pawn => "Pawn"@,
            Piece::Knight => "Knight"@,
            Piece::Bishop => "Bishop"@,
            Piece::Rook => "Rook"@,
            Piece::Queen => "Queen"@,
        }
    }

    /// The kind at a position of the per-piece tables.
    pub fn new(piece_index: usize) -> (piece: Piece)
        requires
            piece_index < 6,
        ensures
            piece == Piece::of_index(piece_index as int),
            piece.index() == piece_index,
    {
        match piece_index {
            0 => Piece::King,
            1 => Piece::Pawn,
            2 => Piece::Knight,
            3 => Piece::Bishop,
            4 => Piece::Rook,
            _ => Piece::Queen,
        }
    }

    /// The kind that a piece letter names, in either case.
    pub fn from(letter: char) -> (piece: Piece)
        requires
            is_piece_letter(letter),
        ensures
            piece == Piece::of_letter(letter),
    {
        if letter == 'k' || letter == 'K' {
            Piece::King
        } else if letter == 'p' || letter == 'P' {
            Piece::Pawn
        } else if letter == 'n' || letter == 'N' {
            Piece::Knight
        } else if letter == 'b' || letter == 'B' {
            Piece::Bishop
        } else if letter == 'r' || letter == 'R' {
            Piece::Rook
        } else {
            Piece::Queen
        }
    }

    /// The position of the kind in per-piece tables.
    pub fn to_index(&self) -> (index: usize)
        ensures
            index == self.index(),
            index < 6,
    {
        match self {
            Piece::King => 0,
            Piece::Pawn => 1,
            Piece::Knight => 2,
            Piece::Bishop => 3,
            Piece::Rook => 4,
            Piece::Queen => 5,
        }
    }

    /// The lower-case letter of the kind.
    pub fn to_char(&self) -> (letter: char)
        ensures
            letter == self.letter(),
    {
        match self {
            Piece::King => 'k',
            Piece::Pawn => 'p',
            Piece::Knight => 'n',
            Piece::Bishop => 'b',
            Piece::Rook => 'r',
            Piece::Queen => 'q',
        }
    }

    /// The one-letter name of the kind for a side: upper case for White,
    /// lower case for Black.
    pub fn to_string(&self, color: Color) -> (name: String)
        ensures
            name@ == seq![self.symbol(color)],
    {
        let letter: char = match color {
            Color::Black => self.to_char(),
            Color::White => match self {
                Piece::King => 'K',
                Piece::Pawn => 'P',
                Piece::Knight => 'N',
                Piece::Bishop => 'B',
                Piece::Rook => 'R',
                Piece::Queen => 'Q',
            },
        };
        let mut name = String::new();
        crate::notation::push_char(&mut name, letter);
        name
    }

    /// The English name of the kind.
    pub fn to_full_name(&self) -> (name: String)
        ensures
            name@ == self.full_name(),
    {
        match self {
            Piece::King => "King".to_owned(),
            Piece::Pawn => "Pawn".to_owned(),
            Piece::Knight => "Knight".to_owned(),
            Piece::Bishop => "Bishop".to_owned(),
            Piece::Rook => "Rook".to_owned(),
            Piece::Queen => "Queen".to_owned(),
        }
    }
}

} // verus!
