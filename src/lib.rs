//! A small dynamically typed scripting language: scanner, parser and a
//! tree-walking evaluator, with contracts proved by Verus.
//!
//! Choices this implementation makes:
//! - Arrays and maps are values: assignment, binding and argument passing
//!   copy them. An index or field write is stored back only when its target
//!   is a bare variable; a write through any other expression is evaluated
//!   and then dropped.
//! - An integer literal above `i64::MAX` is a lexical error; arithmetic whose
//!   result does not fit in an `i64` is a runtime error; a negative array
//!   index is out of range.
//! - Evaluation spends a caller-given budget of steps (each loop iteration
//!   takes one), so every run ends; user function calls nest at most
//!   `semantics::MAX_CALL_DEPTH` deep.
//! - The environment is an arena of frames addressed by index; a closure
//!   keeps the index of the frame it was declared in.
use vstd::prelude::*;

pub mod ast;
pub mod environment;
pub mod error;
pub mod interpreter;
pub mod laws;
pub mod operators;
pub mod parser;
pub mod scanner;
pub mod semantics;
pub mod text;
pub mod tokens;

verus! {

/// Adds two unsigned integers whose sum fits in a `u64`.
pub fn add(left: u64, right: u64) -> (r: u64)
    requires
        left + right <= u64::MAX,
    ensures
        r == left + right,
{
    left + right
}

} // verus!
