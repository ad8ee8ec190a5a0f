//! Why a token could not be produced.

use vstd::prelude::*;

verus! {

/// A lexical failure. Offsets are byte offsets into the scanned text.
#[derive(Debug, PartialEq)]
pub enum LexerError {
    /// A character that starts no token, and its offset.
    UnexpectedCharacter(char, usize),
    /// A digit run that does not fit in an `i64`: its text and its span
    /// (start offset, end offset; the end is exclusive).
    InvalidNumber(String, (usize, usize)),
    /// A string literal without its closing quote: the offset where
    /// scanning stopped, which is the end of the text.
    UnterminatedString(usize),
}

/// The mathematical value of a `LexerError`.
pub enum LexerErrorView {
    UnexpectedCharacter(char, int),
    InvalidNumber(Seq<char>, int, int),
    UnterminatedString(int),
}

impl View for LexerError {
    type V = LexerErrorView;

    open spec fn view(&self) -> LexerErrorView {
        match self {
            LexerError::UnexpectedCharacter(c, at) => LexerErrorView::UnexpectedCharacter(
                *c,
                *at as int,
            ),
            LexerError::InvalidNumber(s, span) => LexerErrorView::InvalidNumber(
                s@,
                span.0 as int,
                span.1 as int,
            ),
            LexerError::UnterminatedString(at) => LexerErrorView::UnterminatedString(*at as int),
        }
    }
}

} // verus!
