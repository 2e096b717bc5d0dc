//! Tokens produced by the lexer: a kind together with the span of source
//! text that the token covers.  A token never owns any text; its content is
//! recovered by slicing the original source with the span.

use vstd::prelude::*;

verus! {

/// A half-open range `start..end` of character offsets into the source.
#[derive(Debug, Clone, Copy, PartialEq, Eq, Structural)]
pub struct Span {
    /// Offset of the first character covered by the span.
    pub start: usize,
    /// Offset one past the last character covered by the span.
    pub end: usize,
}

impl Span {
    /// Creates a new span from its two offsets.
    pub fn new(start: usize, end: usize) -> (s: Self)
        ensures
            s == (Span { start, end }),
    {
        Span { start, end }
    }

    /// Converts the span to a [`Range<usize>`](core::ops::Range).
    pub fn range(&self) -> (r: core::ops::Range<usize>)
        ensures
            r.start == self.start,
            r.end == self.end,
    {
        self.start..self.end
    }
}

/// The different kinds of token that may appear in source code.
#[derive(Debug, Clone, Copy, PartialEq, Eq, Structural)]
pub enum TokenKind {
    /// An identifier.
    Name,
    /// An integer literal, possibly with a leading sign.
    Int,
    /// A floating point literal, possibly with a leading sign.
    Float,
    /// A string literal; its span excludes the surrounding quotes.
    Str,
    /// An opening parenthesis.
    OpenParen,
    /// A closing parenthesis.
    CloseParen,
    /// A single quote.
    Quote,
    /// One of the operator characters.
    Operator,
    /// The end of the source string, as a zero-width span.
    EOF,
}

/// A token: a small run of characters with a particular meaning, identified
/// by its kind and by the position at which it appears in the source.
#[derive(Debug, Clone, Copy, PartialEq, Eq, Structural)]
pub struct Token {
    /// The kind of the token.
    pub kind: TokenKind,
    /// The position of the token's content in the source string.
    pub span: Span,
}

} // verus!
