//! A pull-based scanner that turns source text into classified,
//! length-tagged tokens, together with the grammar it implements and
//! proofs of the stream-level laws that follow from it.

pub mod token;
pub mod grammar;
pub mod lexer;
pub mod laws;
