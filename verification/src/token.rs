//! The token vocabulary produced by the scanner.

use vstd::prelude::*;

verus! {

/// Radix of an integer literal, chosen from the literal's first two units.
#[derive(Clone, Copy, Debug, PartialEq, Eq, Structural)]
pub enum Base {
    /// Prefix `0e`.
    Binary,
    /// Prefix `0s`.
    Octal,
    /// No prefix.
    Decimal,
    /// Prefix `0o`.
    Hexadecimal,
}

/// What sort of literal a `Literal` token is.
///
/// `Byte` and `String` belong to the vocabulary shared with the parser; the
/// scanner has no dispatch rule that produces them.
#[derive(Clone, Copy, Debug, PartialEq, Eq, Structural)]
pub enum LiteralKind {
    Int { base: Base },
    Float,
    /// Single-quoted literal; `terminated` is false when the line or the
    /// input ended before the closing quote.
    Char { terminated: bool },
    Byte,
    String,
    /// Raw string; `terminated` is false when the opening quote or the
    /// matching closer is missing.
    RawString { terminated: bool },
}

#[derive(Clone, Copy, Debug, PartialEq, Eq, Structural)]
pub enum TokenKind {
    Whitespace,
    LineComment,
    /// Block comments nest; `terminated` is false when the input ended
    /// before the outermost comment was closed.
    BlockComment { terminated: bool },
    Identifier,
    RawIdentifier,
    /// Reserved for later validation passes; the scanner never emits it.
    InvalidIdentifier,
    /// `suffix_start` is the offset in bytes inside the token at which the
    /// trailing identifier-shaped suffix begins; it equals the token's
    /// length when there is no suffix.
    Literal { kind: LiteralKind, suffix_start: usize },
    Lifetime,
    Semicolon,
    Colon,
    Comma,
    Dot,
    OpenParen,
    CloseParen,
    OpenBrace,
    CloseBrace,
    OpenBracket,
    CloseBracket,
    At,
    Hashtag,
    Tilde,
    Question,
    Dollar,
    Eq,
    Bang,
    Lt,
    Gt,
    Minus,
    Plus,
    And,
    Or,
    Star,
    Slash,
    Caret,
    Percent,
    /// Any unit that no other rule classifies.
    Unknown,
    /// End of input; always of length zero.
    Eof,
}

/// A classified span of source text. `length` counts the bytes of UTF-8
/// between the end of the previous token and the end of this one.
#[derive(Clone, Copy, Debug, PartialEq, Eq, Structural)]
pub struct Token {
    pub kind: TokenKind,
    pub length: usize,
}

impl Token {
    pub fn new(kind: TokenKind, pos: usize) -> (token: Self)
        ensures
            token == (Token { kind, length: pos }),
    {
        Token { kind, length: pos }
    }
}

} // verus!
