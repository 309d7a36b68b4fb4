//! Front end for a small expression language: a scanner that turns source
//! text into tokens, a recursive-descent parser that turns tokens into
//! expression trees, and a printer for those trees; and a small stack
//! machine with its programs.
pub mod bytecode;
pub mod chunk;
pub mod expression;
pub mod parse;
pub mod scan;
pub mod text;
pub mod value;
pub mod virtual_machine;
