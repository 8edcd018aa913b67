//! The two sides of a game.

use vstd::prelude::*;
use vstd::std_specs::convert::FromSpecImpl;
use vstd::std_specs::ops::NotSpecImpl;

verus! {

/// A side: White moves up the board, Black down.
#[derive(Copy, Clone, PartialEq, Eq, Structural, Debug)]
pub enum Color {
    White,
    Black,
}

impl Color {
    /// The position of the side in per-side tables: 0 for White, 1 for Black.
    pub open spec fn index(self) -> int {
        match self {
            Color::White => 0,
            Color::Black => 1,
        }
    }

    /// The other side.
    pub open spec fn opposite(self) -> Color {
        match self {
            Color::White => Color::Black,
            Color::Black => Color::White,
        }
    }

    /// The side that a piece letter stands for: a lower-case ASCII letter is
    /// Black, anything else is White.
    pub open spec fn of_letter(letter: char) -> Color {
        if 'a' <= letter && letter <= 'z' {
            Color::Black
        } else {
            Color::White
        }
    }

    /// The step, in squares, of a single pawn push of this side.
    pub open spec fn push(self) -> int {
        match self {
            Color::White => 8,
            Color::Black => -8,
        }
    }

    /// The English name of the side.
    pub open spec fn name(self) -> Seq<char> {
        match self {
            Color::White => "White"@,
            Color::Black => "Black"@,
        }
    }

    /// The English name of the side.
    pub fn to_string(&self) -> (name: String)
        ensures
            name@ == self.name(),
    {
        match self {
            Color::White => "White".to_owned(),
            Color::Black => "Black".to_owned(),
        }
    }

    /// The position of the side in per-side tables.
    pub fn to_index(&self) -> (index: usize)
        ensures
            index == self.index(),
            index < 2,
    {
        match self {
            Color::White => 0,
            Color::Black => 1,
        }
    }
}

impl From<char> for Color {
    /// The side that a piece letter stands for.
    fn from(value: char) -> (color: Color) {
        if 'a' <= value && value <= 'z' {
            Color::Black
        } else {
            Color::White
        }
    }
}

impl FromSpecImpl<char> for Color {
    open spec fn obeys_from_spec() -> bool {
        true
    }

    open spec fn from_spec(value: char) -> Color {
        Color::of_letter(value)
    }
}

impl core::ops::Not for Color {
    type Output = Color;

    /// The other side.
    fn not(self) -> (other: Color) {
        match self {
            Color::White => Color::Black,
            Color::Black => Color::White,
        }
    }
}

impl NotSpecImpl for Color {
    open spec fn obeys_not_spec() -> bool {
        true
    }

    open spec fn not_req(self) -> bool {
        true
    }

    open spec fn not_spec(self) -> Color {
        self.opposite()
    }
}

} // verus!
