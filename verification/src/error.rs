//! The ways in which text input is rejected.

use vstd::prelude::*;
use vstd::string::StringExecFns;

verus! {

/// A rejected text input, with the text that was rejected.
#[derive(Clone, Debug)]
pub enum Error {
    /// The text is no position description.
    InvalidFen { fen: String },
    /// The text names no square.
    InvalidStr { str: String },
}

impl Error {
    /// The message that describes the error.
    pub open spec fn message(self) -> Seq<char> {
        match self {
            Error::InvalidFen { fen } => "Invalid FEN string: "@ + fen@,
            Error::InvalidStr { str } => "Invalid str: "@ + str@,
        }
    }

    /// The message that describes the error: a fixed prefix, then the
    /// rejected text.
    pub fn to_string(&self) -> (text: String)
        ensures
            text@ == self.message(),
    {
        match self {
            Error::InvalidFen { fen } => "Invalid FEN string: ".to_owned().concat(fen.as_str()),
            Error::InvalidStr { str } => "Invalid str: ".to_owned().concat(str.as_str()),
        }
    }
}

} // verus!
