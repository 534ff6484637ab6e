//! Tokenizer, parser and expression trees for arithmetic over decimal literals.
pub mod tokenizer;
pub mod tree;
pub mod grammar;
pub mod parser;
