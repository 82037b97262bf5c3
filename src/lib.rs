//! A Reverse-Polish-Notation calculator library: a grammar validator, a
//! whitespace tokenizer, a stack evaluator that turns the tokens into the
//! calculation they denote, and the row format of the append-only history
//! store.
pub mod chars;
pub mod error;
pub mod log;
pub mod number;
pub mod rpn;
pub mod store;
pub mod syntax;
pub mod tokens;
