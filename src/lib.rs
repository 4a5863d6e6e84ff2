//! A lexer for a Lua-like language: it turns source bytes into tokens, on
//! demand, with one token of lookahead.
use vstd::prelude::*;

pub mod chars;
pub mod grammar;
pub mod laws;
pub mod lex;
pub mod token;

pub use lex::Lex;
pub use token::{ErrorKind, Feature, FloatLit, LexError, Token};

verus! {

} // verus!
