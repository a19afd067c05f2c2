//! The errors of semantic analysis.

use vstd::prelude::*;

verus! {

/// Why a program that parses is rejected. Analysis stops at the first one,
/// in the order of the source text.
#[derive(Debug, Clone, Copy, PartialEq, Eq, Structural)]
pub enum SemanticError {
    /// A name is declared twice in one block.
    DuplicateDeclaration,
    /// A name is used that no enclosing block declares.
    UndefinedIdentifier,
    /// A call names something that is no function.
    UndefinedFunction,
    /// A call passes more or fewer arguments than the function takes.
    ArgumentCountMismatch,
    /// An expression that has to be constant is not.
    NotConstant,
    /// A constant expression divides by zero.
    DivisionByZero,
    /// A `break` outside any loop.
    BreakOutsideLoop,
    /// A `continue` outside any loop.
    ContinueOutsideLoop,
    /// A `return` with a value in a function that returns none.
    ReturnTypeMismatch,
    /// An operand whose kind or shape does not fit its use: an array where
    /// a number is needed or the reverse, an assignment to a constant, too
    /// many indices, an initializer that does not fit what it initializes,
    /// or an array whose shape is not allowed.
    TypeMismatch,
}

} // verus!
