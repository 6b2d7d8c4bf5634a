//! The three classes of fatal errors: lexical, syntax and runtime.
use vstd::prelude::*;

verus! {

/// A lexical error, with the 1-based line on which it was found.
#[derive(Debug, Clone, PartialEq, Eq, Structural)]
pub enum ScanError {
    /// End of input was reached inside a string literal.
    UnterminatedString { line: usize },
    /// A character that starts no token.
    UnexpectedCharacter { character: char, line: usize },
    /// An integer literal larger than `i64::MAX`.
    NumberTooLarge { line: usize },
}

/// A syntax error, with the index of the token at which it was found.
#[derive(Debug, Clone, PartialEq, Eq, Structural)]
pub enum ParseError {
    /// A specific token was required and another one was found.
    UnexpectedToken { position: usize },
    /// An expression was required and the token cannot start one.
    ExpectedExpression { position: usize },
    /// The left side of `=` is not a variable, index or field expression.
    InvalidAssignmentTarget { position: usize },
}

/// A runtime error; each one ends the run.
#[derive(Debug, Clone, PartialEq, Eq, Structural)]
pub enum RuntimeError {
    /// Reading or assigning a name that no enclosing scope defines.
    UndefinedVariable,
    /// An operator or intrinsic applied to values of the wrong types.
    TypeMismatch,
    /// Integer division by zero.
    DivisionByZero,
    /// Integer arithmetic whose result does not fit in an `i64`.
    Overflow,
    /// An array index outside the array.
    IndexOutOfBounds { index: i64 },
    /// Indexing or field access on a value that supports neither.
    NotIndexable,
    /// A map indexed by a value that is not a string.
    NonStringKey,
    /// Calling a value that is not a function.
    NotCallable,
    /// A call whose argument count differs from the parameter count.
    ArityMismatch { expected: usize, found: usize },
    /// A `for` loop over a value that is neither an array nor a string.
    NotIterable,
    /// The evaluation budget was used up.
    BudgetExhausted,
    /// User function calls nested deeper than the interpreter allows.
    CallDepthExceeded,
}

} // verus!
