//! The ways in which reading, solving and comparing can fail.

use vstd::prelude::*;

verus! {

/// What is wrong with the layout of a text that should hold a matrix or a vector.
#[derive(Debug, Clone, Copy, PartialEq, Eq, Structural)]
pub enum Malformed {
    /// The text ends before any line that is not a comment.
    NoDimensions,
    /// The dimension line holds fewer than two tokens, or one of its first two tokens is
    /// not an unsigned integer that fits the machine.
    Dimensions,
    /// The number of rows or of columns is zero.
    ZeroDimension,
    /// The number of value tokens is not the number of rows times the number of columns.
    Count,
    /// A vector was asked for and there is no value at all.
    NoValues,
}

/// Why an operation did not produce its result.
#[derive(Debug, Clone, Copy, PartialEq, Eq, Structural)]
pub enum Error {
    /// The source is missing or cannot be read.
    Io,
    /// The text is not laid out as it should be.
    Format(Malformed),
    /// The value token at position `index`, counted from zero, is not a literal of a scalar.
    Parse { index: usize },
    /// The pseudo-inverse could not be computed.
    Solve,
    /// Two vectors to be compared entry by entry have different lengths.
    Index { computed: usize, truth: usize },
}

impl Error {
    /// The words that tell of this failure.
    pub open spec fn words(self) -> Seq<char> {
        match self {
            Error::Io => "the source is missing or cannot be read"@,
            Error::Format(Malformed::NoDimensions) => "the document ends before its dimension line"@,
            Error::Format(Malformed::Dimensions) => "the dimension line does not hold two unsigned integers"@,
            Error::Format(Malformed::ZeroDimension) => "a dimension is zero"@,
            Error::Format(Malformed::Count) => "short read"@,
            Error::Format(Malformed::NoValues) => "there is no value"@,
            Error::Parse { .. } => "a token is not a number"@,
            Error::Solve => "pseudo-inverse computation failed"@,
            Error::Index { .. } => "the vectors differ in length"@,
        }
    }

    /// The words that tell of this failure.
    pub fn message(&self) -> (r: String)
        ensures
            r@ == self.words(),
    {
        let words: &str = match self {
            Error::Io => "the source is missing or cannot be read",
            Error::Format(Malformed::NoDimensions) => "the document ends before its dimension line",
            Error::Format(Malformed::Dimensions) => "the dimension line does not hold two unsigned integers",
            Error::Format(Malformed::ZeroDimension) => "a dimension is zero",
            Error::Format(Malformed::Count) => "short read",
            Error::Format(Malformed::NoValues) => "there is no value",
            Error::Parse { .. } => "a token is not a number",
            Error::Solve => "pseudo-inverse computation failed",
            Error::Index { .. } => "the vectors differ in length",
        };
        words.to_owned()
    }
}

} // verus!
