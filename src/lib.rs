//! Front end of a small C-like scripting language: a scanner that turns
//! source text into tokens and a recursive-descent parser that builds an
//! expression tree from them.
pub mod ast;
pub mod luxor;
pub mod number;
pub mod parser;
pub mod round_trip;
pub mod scanner;
pub mod text;
pub mod token;
