//! Generates a closed tagged union that forwards a set of methods to whichever
//! implementation it holds.
//!
//! A directive names the union, lists the implementation types and gives the
//! headers of the methods to forward. It is lexed into tokens
//! ([`lexer`]), parsed into a [`parser::WrapperSpec`], and rendered as source
//! text by [`emit`].

pub mod lexer;
pub mod parser;
pub mod emit;
pub mod generate;
pub mod demo;

pub use demo::{One, Two, UtilTrait, Wrapper};
pub use generate::{define_wrapper, parse};
pub use parser::{Expected, ParseError};
