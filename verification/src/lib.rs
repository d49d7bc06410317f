//! The front end of Diazo, a small language for marked-up notes and for the
//! types that give them shape.
//!
//! A text goes through two stages. The lexer ([`lexer`]) turns it into
//! tokens ([`tokens`]), reading the files it imports with the abridged lexer.
//! The parser ([`parser`]) turns the tokens into the items of the
//! intermediate representation, each of them a syntax tree ([`tree`]). The
//! interpreter ([`interpreter`]) takes the items.
//!
//! What holds of every text and of every stream of tokens is stated and
//! proved in [`lexer_laws`], [`round_trip`], [`parser_laws`] and [`tree`].

pub mod interpreter;
pub mod issue;
pub mod lexer;
pub mod lexer_laws;
pub mod parser;
pub mod parser_laws;
pub mod reader;
pub mod registry;
pub mod round_trip;
pub mod text;
pub mod tokens;
pub mod tree;
