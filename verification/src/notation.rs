//! Algebraic names of squares: a file letter `a` to `h`, then a rank digit
//! `1` to `8`. Square 0 is a1, square 7 is h1, square 63 is h8.

use crate::error::Error;
use vstd::prelude::*;
use vstd::string::{StrSliceExecFns, StringExecFns};

verus! {

/// A square by its algebraic name, in the order of the square indices.
#[derive(Copy, Clone, PartialEq, Eq, Structural, Debug)]
pub enum Notation {
    A1, B1, C1, D1, E1, F1, G1, H1,
    A2, B2, C2, D2, E2, F2, G2, H2,
    A3, B3, C3, D3, E3, F3, G3, H3,
    A4, B4, C4, D4, E4, F4, G4, H4,
    A5, B5, C5, D5, E5, F5, G5, H5,
    A6, B6, C6, D6, E6, F6, G6, H6,
    A7, B7, C7, D7, E7, F7, G7, H7,
    A8, B8, C8, D8, E8, F8, G8, H8,
}

/// The letter of a file, `a` for file 0.
pub open spec fn file_letter(file: int) -> char {
    if file == 0 {
        'a'
    } else if file == 1 {
        'b'
    } else if file == 2 {
        'c'
    } else if file == 3 {
        'd'
    } else if file == 4 {
        'e'
    } else if file == 5 {
        'f'
    } else if file == 6 {
        'g'
    } else {
        'h'
    }
}

/// The digit of a rank, `1` for rank 0.
pub open spec fn rank_digit(rank: int) -> char {
    if rank == 0 {
        '1'
    } else if rank == 1 {
        '2'
    } else if rank == 2 {
        '3'
    } else if rank == 3 {
        '4'
    } else if rank == 4 {
        '5'
    } else if rank == 5 {
        '6'
    } else if rank == 6 {
        '7'
    } else {
        '8'
    }
}

/// The file that a letter names, if it names one.
pub open spec fn file_of_letter(letter: char) -> Option<int> {
    if letter == 'a' {
        Some(0)
    } else if letter == 'b' {
        Some(1)
    } else if letter == 'c' {
        Some(2)
    } else if letter == 'd' {
        Some(3)
    } else if letter == 'e' {
        Some(4)
    } else if letter == 'f' {
        Some(5)
    } else if letter == 'g' {
        Some(6)
    } else if letter == 'h' {
        Some(7)
    } else {
        None
    }
}

/// The rank that a digit names, if it names one.
pub open spec fn rank_of_digit(digit: char) -> Option<int> {
    if digit == '1' {
        Some(0)
    } else if digit == '2' {
        Some(1)
    } else if digit == '3' {
        Some(2)
    } else if digit == '4' {
        Some(3)
    } else if digit == '5' {
        Some(4)
    } else if digit == '6' {
        Some(5)
    } else if digit == '7' {
        Some(6)
    } else if digit == '8' {
        Some(7)
    } else {
        None
    }
}

/// The algebraic name of a square index.
pub open spec fn square_name(square: int) -> Seq<char> {
    seq![file_letter(square % 8), rank_digit(square / 8)]
}

/// The square index that a text names: `Some` exactly for a file letter
/// followed by a rank digit and nothing else.
pub open spec fn parse_square(text: Seq<char>) -> Option<int> {
    if text.len() == 2 && file_of_letter(text[0]) is Some && rank_of_digit(text[1]) is Some {
        Some(rank_of_digit(text[1])->0 * 8 + file_of_letter(text[0])->0)
    } else {
        None
    }
}

/// Naming a square and reading the name back gives the square again.
pub proof fn lemma_square_name_round_trip(square: int)
    requires
        0 <= square < 64,
    ensures
        parse_square(square_name(square)) == Some(square),
        Notation::of_index(square).name() == square_name(square),
        Notation::of_index(square).index() == square,
{
}

/// A text that names a square is the name of that square.
pub proof fn lemma_parsed_square_name(text: Seq<char>)
    requires
        parse_square(text) is Some,
    ensures
        0 <= parse_square(text)->0 < 64,
        square_name(parse_square(text)->0) == text,
{
    assert(square_name(parse_square(text)->0) =~= text);
}

/// Whether a character is one of those that square names and piece
/// names are written with: a file letter, a rank digit or a piece letter.
pub open spec fn is_written(letter: char) -> bool {
    letter == 'a' || letter == 'b' || letter == 'c' || letter == 'd' || letter == 'e' ||
    letter == 'f' || letter == 'g' || letter == 'h' || letter == '1' || letter == '2' ||
    letter == '3' || letter == '4' || letter == '5' || letter == '6' || letter == '7' ||
    letter == '8' || letter == 'k' || letter == 'p' || letter == 'n' || letter == 'r' ||
    letter == 'q' || letter == 'K' || letter == 'P' || letter == 'N' || letter == 'B' ||
    letter == 'R' || letter == 'Q'
}

/// The text that holds one character and nothing else.
pub(crate) fn letter_to_str(letter: char) -> (text: &'static str)
    requires
        is_written(letter),
    ensures
        text@ == seq![letter],
{
    let text: &'static str = match letter {
        'a' => {
            proof {
                reveal_strlit("a");
            }
            "a"
        },
        'b' => {
            proof {
                reveal_strlit("b");
            }
            "b"
        },
        'c' => {
            proof {
                reveal_strlit("c");
            }
            "c"
        },
        'd' => {
            proof {
                reveal_strlit("d");
            }
            "d"
        },
        'e' => {
            proof {
                reveal_strlit("e");
            }
            "e"
        },
        'f' => {
            proof {
                reveal_strlit("f");
            }
            "f"
        },
        'g' => {
            proof {
                reveal_strlit("g");
            }
            "g"
        },
        'h' => {
            proof {
                reveal_strlit("h");
            }
            "h"
        },
        '1' => {
            proof {
                reveal_strlit("1");
            }
            "1"
        },
        '2' => {
            proof {
                reveal_strlit("2");
            }
            "2"
        },
        '3' => {
            proof {
                reveal_strlit("3");
            }
            "3"
        },
        '4' => {
            proof {
                reveal_strlit("4");
            }
            "4"
        },
        '5' => {
            proof {
                reveal_strlit("5");
            }
            "5"
        },
        '6' => {
            proof {
                reveal_strlit("6");
            }
            "6"
        },
        '7' => {
            proof {
                reveal_strlit("7");
            }
            "7"
        },
        '8' => {
            proof {
                reveal_strlit("8");
            }
            "8"
        },
        'k' => {
            proof {
                reveal_strlit("k");
            }
            "k"
        },
        'p' => {
            proof {
                reveal_strlit("p");
            }
            "p"
        },
        'n' => {
            proof {
                reveal_strlit("n");
            }
            "n"
        },
        'r' => {
            proof {
                reveal_strlit("r");
            }
            "r"
        },
        'q' => {
            proof {
                reveal_strlit("q");
            }
            "q"
        },
        'K' => {
            proof {
                reveal_strlit("K");
            }
            "K"
        },
        'P' => {
            proof {
                reveal_strlit("P");
            }
            "P"
        },
        'N' => {
            proof {
                reveal_strlit("N");
            }
            "N"
        },
        'B' => {
            proof {
                reveal_strlit("B");
            }
            "B"
        },
        'R' => {
            proof {
                reveal_strlit("R");
            }
            "R"
        },
        _ => {
            proof {
                reveal_strlit("Q");
            }
            "Q"
        },
    };
    assert(text@ =~= seq![letter]);
    text
}

/// Appends one character to a string.
pub(crate) fn push_char(text: &mut String, letter: char)
    requires
        is_written(letter),
    ensures
        final(text)@ == old(text)@.push(letter),
{
    text.append(letter_to_str(letter));
    assert(text@ =~= old(text)@.push(letter));
}

/// The letter of a file.
pub(crate) fn file_to_char(file: usize) -> (letter: char)
    requires
        file < 8,
    ensures
        letter == file_letter(file as int),
{
    match file {
        0 => 'a',
        1 => 'b',
        2 => 'c',
        3 => 'd',
        4 => 'e',
        5 => 'f',
        6 => 'g',
        _ => 'h',
    }
}

/// The digit of a rank.
pub(crate) fn rank_to_char(rank: usize) -> (digit: char)
    requires
        rank < 8,
    ensures
        digit == rank_digit(rank as int),
{
    match rank {
        0 => '1',
        1 => '2',
        2 => '3',
        3 => '4',
        4 => '5',
        5 => '6',
        6 => '7',
        _ => '8',
    }
}

/// The file that a letter names, if it names one.
pub(crate) fn char_to_file(letter: char) -> (file: Option<usize>)
    ensures
        file is Some == file_of_letter(letter) is Some,
        file is Some ==> file->0 == file_of_letter(letter)->0 && file->0 < 8,
{
    match letter {
        'a' => Some(0),
        'b' => Some(1),
        'c' => Some(2),
        'd' => Some(3),
        'e' => Some(4),
        'f' => Some(5),
        'g' => Some(6),
        'h' => Some(7),
        _ => None,
    }
}

/// The rank that a digit names, if it names one.
pub(crate) fn char_to_rank(digit: char) -> (rank: Option<usize>)
    ensures
        rank is Some == rank_of_digit(digit) is Some,
        rank is Some ==> rank->0 == rank_of_digit(digit)->0 && rank->0 < 8,
{
    match digit {
        '1' => Some(0),
        '2' => Some(1),
        '3' => Some(2),
        '4' => Some(3),
        '5' => Some(4),
        '6' => Some(5),
        '7' => Some(6),
        '8' => Some(7),
        _ => None,
    }
}

/// The algebraic name of a square index, as a string.
pub fn square_to_string(square: usize) -> (text: String)
    requires
        square < 64,
    ensures
        text@ == square_name(square as int),
{
    let mut text = String::new();
    push_char(&mut text, file_to_char(square % 8));
    push_char(&mut text, rank_to_char(square / 8));
    assert(text@ =~= square_name(square as int));
    text
}

/// The square index that a text names, if it names one.
pub fn square_from_str(value: &str) -> (square: Option<usize>)
    ensures
        square is Some == parse_square(value@) is Some,
        square is Some ==> square->0 == parse_square(value@)->0 && square->0 < 64,
{
    if value.unicode_len() != 2 {
        return None;
    }
    match (char_to_file(value.get_char(0)), char_to_rank(value.get_char(1))) {
        (Some(file), Some(rank)) => Some(rank * 8 + file),
        _ => None,
    }
}

impl Notation {
    /// The index of the square: a1 is 0, h1 is 7, h8 is 63.
    pub open spec fn index(self) -> int {
        match self {
            Notation::A1 => 0,
            Notation::B1 => 1,
            Notation::C1 => 2,
            Notation::D1 => 3,
            Notation::E1 => 4,
            Notation::F1 => 5,
            Notation::G1 => 6,
            Notation::H1 => 7,
            Notation::A2 => 8,
            Notation::B2 => 9,
            Notation::C2 => 10,
            Notation::D2 => 11,
            Notation::E2 => 12,
            Notation::F2 => 13,
            Notation::G2 => 14,
            Notation::H2 => 15,
            Notation::A3 => 16,
            Notation::B3 => 17,
            Notation::C3 => 18,
            Notation::D3 => 19,
            Notation::E3 => 20,
            Notation::F3 => 21,
            Notation::G3 => 22,
            Notation::H3 => 23,
            Notation::A4 => 24,
            Notation::B4 => 25,
            Notation::C4 => 26,
            Notation::D4 => 27,
            Notation::E4 => 28,
            Notation::F4 => 29,
            Notation::G4 => 30,
            Notation::H4 => 31,
            Notation::A5 => 32,
            Notation::B5 => 33,
            Notation::C5 => 34,
            Notation::D5 => 35,
            Notation::E5 => 36,
            Notation::F5 => 37,
            Notation::G5 => 38,
            Notation::H5 => 39,
            Notation::A6 => 40,
            Notation::B6 => 41,
            Notation::C6 => 42,
            Notation::D6 => 43,
            Notation::E6 => 44,
            Notation::F6 => 45,
            Notation::G6 => 46,
            Notation::H6 => 47,
            Notation::A7 => 48,
            Notation::B7 => 49,
            Notation::C7 => 50,
            Notation::D7 => 51,
            Notation::E7 => 52,
            Notation::F7 => 53,
            Notation::G7 => 54,
            Notation::H7 => 55,
            Notation::A8 => 56,
            Notation::B8 => 57,
            Notation::C8 => 58,
            Notation::D8 => 59,
            Notation::E8 => 60,
            Notation::F8 => 61,
            Notation::G8 => 62,
            Notation::H8 => 63,
        }
    }

    /// The square with a given index.
    pub open spec fn of_index(index: int) -> Notation {
        if index == 0 {
            Notation::A1
        } else if index == 1 {
            Notation::B1
        } else if index == 2 {
            Notation::C1
        } else if index == 3 {
            Notation::D1
        } else if index == 4 {
            Notation::E1
        } else if index == 5 {
            Notation::F1
        } else if index == 6 {
            Notation::G1
        } else if index == 7 {
            Notation::H1
        } else if index == 8 {
            Notation::A2
        } else if index == 9 {
            Notation::B2
        } else if index == 10 {
            Notation::C2
        } else if index == 11 {
            Notation::D2
        } else if index == 12 {
            Notation::E2
        } else if index == 13 {
            Notation::F2
        } else if index == 14 {
            Notation::G2
        } else if index == 15 {
            Notation::H2
        } else if index == 16 {
            Notation::A3
        } else if index == 17 {
            Notation::B3
        } else if index == 18 {
            Notation::C3
        } else if index == 19 {
            Notation::D3
        } else if index == 20 {
            Notation::E3
        } else if index == 21 {
            Notation::F3
        } else if index == 22 {
            Notation::G3
        } else if index == 23 {
            Notation::H3
        } else if index == 24 {
            Notation::A4
        } else if index == 25 {
            Notation::B4
        } else if index == 26 {
            Notation::C4
        } else if index == 27 {
            Notation::D4
        } else if index == 28 {
            Notation::E4
        } else if index == 29 {
            Notation::F4
        } else if index == 30 {
            Notation::G4
        } else if index == 31 {
            Notation::H4
        } else if index == 32 {
            Notation::A5
        } else if index == 33 {
            Notation::B5
        } else if index == 34 {
            Notation::C5
        } else if index == 35 {
            Notation::D5
        } else if index == 36 {
            Notation::E5
        } else if index == 37 {
            Notation::F5
        } else if index == 38 {
            Notation::G5
        } else if index == 39 {
            Notation::H5
        } else if index == 40 {
            Notation::A6
        } else if index == 41 {
            Notation::B6
        } else if index == 42 {
            Notation::C6
        } else if index == 43 {
            Notation::D6
        } else if index == 44 {
            Notation::E6
        } else if index == 45 {
            Notation::F6
        } else if index == 46 {
            Notation::G6
        } else if index == 47 {
            Notation::H6
        } else if index == 48 {
            Notation::A7
        } else if index == 49 {
            Notation::B7
        } else if index == 50 {
            Notation::C7
        } else if index == 51 {
            Notation::D7
        } else if index == 52 {
            Notation::E7
        } else if index == 53 {
            Notation::F7
        } else if index == 54 {
            Notation::G7
        } else if index == 55 {
            Notation::H7
        } else if index == 56 {
            Notation::A8
        } else if index == 57 {
            Notation::B8
        } else if index == 58 {
            Notation::C8
        } else if index == 59 {
            Notation::D8
        } else if index == 60 {
            Notation::E8
        } else if index == 61 {
            Notation::F8
        } else if index == 62 {
            Notation::G8
        } else {
            Notation::H8
        }
    }

    /// The algebraic name of the square.
    pub open spec fn name(self) -> Seq<char> {
        square_name(self.index())
    }

    /// The square with a given index.
    pub fn from(value: usize) -> (square: Notation)
        requires
            value < 64,
        ensures
            square == Notation::of_index(value as int),
            square.index() == value,
    {
        match value {
            0 => Notation::A1,
            1 => Notation::B1,
            2 => Notation::C1,
            3 => Notation::D1,
            4 => Notation::E1,
            5 => Notation::F1,
            6 => Notation::G1,
            7 => Notation::H1,
            8 => Notation::A2,
            9 => Notation::B2,
            10 => Notation::C2,
            11 => Notation::D2,
            12 => Notation::E2,
            13 => Notation::F2,
            14 => Notation::G2,
            15 => Notation::H2,
            16 => Notation::A3,
            17 => Notation::B3,
            18 => Notation::C3,
            19 => Notation::D3,
            20 => Notation::E3,
            21 => Notation::F3,
            22 => Notation::G3,
            23 => Notation::H3,
            24 => Notation::A4,
            25 => Notation::B4,
            26 => Notation::C4,
            27 => Notation::D4,
            28 => Notation::E4,
            29 => Notation::F4,
            30 => Notation::G4,
            31 => Notation::H4,
            32 => Notation::A5,
            33 => Notation::B5,
            34 => Notation::C5,
            35 => Notation::D5,
            36 => Notation::E5,
            37 => Notation::F5,
            38 => Notation::G5,
            39 => Notation::H5,
            40 => Notation::A6,
            41 => Notation::B6,
            42 => Notation::C6,
            43 => Notation::D6,
            44 => Notation::E6,
            45 => Notation::F6,
            46 => Notation::G6,
            47 => Notation::H6,
            48 => Notation::A7,
            49 => Notation::B7,
            50 => Notation::C7,
            51 => Notation::D7,
            52 => Notation::E7,
            53 => Notation::F7,
            54 => Notation::G7,
            55 => Notation::H7,
            56 => Notation::A8,
            57 => Notation::B8,
            58 => Notation::C8,
            59 => Notation::D8,
            60 => Notation::E8,
            61 => Notation::F8,
            62 => Notation::G8,
            _ => Notation::H8,
        }
    }

    /// The square that a text names. The text must be a file letter `a` to
    /// `h` followed by a rank digit `1` to `8`; any other text is rejected.
    pub fn from_str(value: &str) -> (parsed: Result<Notation, Error>)
        ensures
            parsed is Ok == parse_square(value@) is Some,
            parsed is Ok ==> parsed->Ok_0 == Notation::of_index(parse_square(value@)->0),
            parsed is Err ==> (parsed->Err_0 matches Error::InvalidStr { str } && str@ == value@),
    {
        match square_from_str(value) {
            Some(square) => Ok(Notation::from(square)),
            None => Err(Error::InvalidStr { str: value.to_owned() }),
        }
    }

    /// The index of the square: a1 is 0, h1 is 7, h8 is 63.
    pub fn to_index(&self) -> (index: usize)
        ensures
            index == self.index(),
            index < 64,
    {
        match self {
            Notation::A1 => 0,
            Notation::B1 => 1,
            Notation::C1 => 2,
            Notation::D1 => 3,
            Notation::E1 => 4,
            Notation::F1 => 5,
            Notation::G1 => 6,
            Notation::H1 => 7,
            Notation::A2 => 8,
            Notation::B2 => 9,
            Notation::C2 => 10,
            Notation::D2 => 11,
            Notation::E2 => 12,
            Notation::F2 => 13,
            Notation::G2 => 14,
            Notation::H2 => 15,
            Notation::A3 => 16,
            Notation::B3 => 17,
            Notation::C3 => 18,
            Notation::D3 => 19,
            Notation::E3 => 20,
            Notation::F3 => 21,
            Notation::G3 => 22,
            Notation::H3 => 23,
            Notation::A4 => 24,
            Notation::B4 => 25,
            Notation::C4 => 26,
            Notation::D4 => 27,
            Notation::E4 => 28,
            Notation::F4 => 29,
            Notation::G4 => 30,
            Notation::H4 => 31,
            Notation::A5 => 32,
            Notation::B5 => 33,
            Notation::C5 => 34,
            Notation::D5 => 35,
            Notation::E5 => 36,
            Notation::F5 => 37,
            Notation::G5 => 38,
            Notation::H5 => 39,
            Notation::A6 => 40,
            Notation::B6 => 41,
            Notation::C6 => 42,
            Notation::D6 => 43,
            Notation::E6 => 44,
            Notation::F6 => 45,
            Notation::G6 => 46,
            Notation::H6 => 47,
            Notation::A7 => 48,
            Notation::B7 => 49,
            Notation::C7 => 50,
            Notation::D7 => 51,
            Notation::E7 => 52,
            Notation::F7 => 53,
            Notation::G7 => 54,
            Notation::H7 => 55,
            Notation::A8 => 56,
            Notation::B8 => 57,
            Notation::C8 => 58,
            Notation::D8 => 59,
            Notation::E8 => 60,
            Notation::F8 => 61,
            Notation::G8 => 62,
            Notation::H8 => 63,
        }
    }

    /// The algebraic name of the square: file letter, then rank digit.
    pub fn to_string(&self) -> (text: String)
        ensures
            text@ == self.name(),
    {
        square_to_string(self.to_index())
    }
}

} // verus!
