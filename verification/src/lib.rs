//! A tree-walking interpreter for a small dynamically typed, block-scoped
//! scripting language: scanning, parsing, scope resolution and evaluation.
//!
//! Numbers are IEEE 754 doubles held by their bit pattern. The library never
//! computes with them; whatever needs floating point (arithmetic, turning text
//! into a number and back) is asked of the host, as is every output.

use vstd::prelude::*;

pub mod ast;
pub mod environment;
pub mod error;
pub mod interpreter;
pub mod lifetime;
pub mod number;
pub mod parser;
pub mod protocol;
pub mod resolver;
pub mod scanner;

verus! {

/// The result of every stage: a value, or an error (or the signal of an early
/// `return`, which travels the same way).
pub type Result<T> = std::result::Result<T, error::ErrorOrEarlyReturn>;

} // verus!
