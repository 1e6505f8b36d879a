//! What the parser of the surrounding syntax hands to this crate when it
//! refuses a source text.
//!
//! The parser itself is not part of this crate. Its errors are carried
//! through unchanged; the only one that this crate makes itself is
//! [`ParseError::InvalidToken`], for a format string that does not scan.

use vstd::prelude::*;

verus! {

/// A token of the source: the index of its kind and its text.
#[derive(Debug, PartialEq)]
pub struct Token<'input>(pub usize, pub &'input str);

/// The model of a token.
pub struct TokenView {
    pub kind: int,
    pub text: Seq<char>,
}

impl<'input> View for Token<'input> {
    type V = TokenView;

    open spec fn view(&self) -> TokenView {
        TokenView { kind: self.0 as int, text: self.1@ }
    }
}

/// A syntax error, with the offsets at which it was found.
#[derive(Debug, PartialEq)]
pub enum ParseError<'src> {
    /// Text at `location` that is no token at all.
    InvalidToken { location: usize },
    /// The source ended at `location` where one of `expected` had to follow.
    UnrecognizedEof { location: usize, expected: Vec<String> },
    /// A token, between its two offsets, where one of `expected` had to stand.
    UnrecognizedToken { token: (usize, Token<'src>, usize), expected: Vec<String> },
    /// A token, between its two offsets, after the end of the program.
    ExtraToken { token: (usize, Token<'src>, usize) },
    /// An error that the grammar's own actions raised.
    User { error: &'src str },
}

/// The model of a syntax error.
pub enum ParseErrorView {
    InvalidToken { location: int },
    UnrecognizedEof { location: int, expected: Seq<Seq<char>> },
    UnrecognizedToken { start: int, token: TokenView, end: int, expected: Seq<Seq<char>> },
    ExtraToken { start: int, token: TokenView, end: int },
    User { error: Seq<char> },
}

impl<'src> View for ParseError<'src> {
    type V = ParseErrorView;

    open spec fn view(&self) -> ParseErrorView {
        match *self {
            ParseError::InvalidToken { location } => ParseErrorView::InvalidToken {
                location: location as int,
            },
            ParseError::UnrecognizedEof { location, expected } => ParseErrorView::UnrecognizedEof {
                location: location as int,
                expected: expected.deep_view(),
            },
            ParseError::UnrecognizedToken { token, expected } => ParseErrorView::UnrecognizedToken {
                start: token.0 as int,
                token: token.1@,
                end: token.2 as int,
                expected: expected.deep_view(),
            },
            ParseError::ExtraToken { token } => ParseErrorView::ExtraToken {
                start: token.0 as int,
                token: token.1@,
                end: token.2 as int,
            },
            ParseError::User { error } => ParseErrorView::User { error: error@ },
        }
    }
}

} // verus!
