//! Symbolic differentiation of expressions that are written as text.
//!
//! A text is split into tokens, the tokens are parsed into an expression
//! tree, the tree is differentiated with respect to one variable, the
//! derivative is simplified, and the result is written as text again. Each
//! stage is an executable function whose result is proved equal to a
//! specification over mathematical models: sequences of characters, sequences
//! of tokens and trees.
//!
//! Numbers are IEEE-754 binary64 values, held as bit patterns. Their rounding
//! arithmetic, their decimal parsing and their decimal printing are done by
//! outside code and appear in the specifications under names.
pub mod ast;
pub mod built_in;
pub mod constants;
pub mod derivative;
pub mod engine;
pub mod function_table;
pub mod normal_form;
pub mod number;
pub mod parser;
pub mod progress;
pub mod round_trip;
pub mod simplifier;
pub mod text;
pub mod tokenizer;
