//! A small JSON decoder: a lexer from text to tokens and a recursive-descent
//! parser from tokens to a value tree, with the behaviour of both stated
//! over mathematical models and proved.

pub mod chars;
pub mod number;
pub mod utf16;
pub mod scan;
pub mod lexer;
pub mod value;
pub mod grammar;
pub mod parser;

pub use crate::lexer::{Lexer, LexerError, Token};
pub use crate::parser::{Parser, ParserError};
pub use crate::value::{Object, Value};
