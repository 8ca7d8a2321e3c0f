//! A postfix (reverse Polish) calculator core: tokenizer, command parser,
//! stack-machine evaluator with a recorded trace, trace renderer and the
//! per-line session step.
//!
//! The library is generic over the type of its numbers. It never looks inside
//! a number: reading a numeral, applying an operator and writing a number out
//! are functions that the caller hands in, and every contract is stated over
//! what those functions guarantee.

pub mod eval;
pub mod parse;
pub mod session;
pub mod text;
pub mod token;
pub mod trace;
