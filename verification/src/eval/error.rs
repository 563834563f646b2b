//! Why an evaluation can fail.

use vstd::prelude::*;
use crate::ast::InfixOperator;
use crate::eval::builtin::BuiltinFunction;
use crate::parser::{ParseError, ParseErrorView};

verus! {

/// Why an evaluation failed.
#[derive(PartialEq, Eq, Structural, Debug, Clone, Copy)]
pub enum EvalError {
    /// An infix operator met operands that it is not defined on.
    InvalidOperation(InfixOperator),
    /// `-` met an operand that is not an integer.
    NotNegatable,
    /// A hash key is not an integer, a boolean or a string.
    UnhashableKey,
    /// What is called is neither a function nor a builtin.
    NotCallable,
    /// A function was called with the wrong number of arguments.
    WrongArgumentCount { expected: usize, found: usize },
    /// A builtin was called with the wrong number of arguments.
    BuiltinArity(BuiltinFunction),
    /// A builtin was called on a value that it is not defined on.
    BuiltinArgument(BuiltinFunction),
    /// An integer was divided by zero.
    DivisionByZero,
    /// A result does not fit in 64 bits signed.
    Overflow,
    /// The evaluation nests deeper than it is allowed to.
    DepthExceeded,
}

/// Why a source text has no value: it does not parse, or its evaluation
/// failed.
#[derive(PartialEq, Debug, Clone)]
pub enum Error {
    Parse(ParseError),
    Eval(EvalError),
}

/// The mathematical value of an [`Error`].
pub enum ErrorView {
    Parse(ParseErrorView),
    Eval(EvalError),
}

impl View for Error {
    type V = ErrorView;

    open spec fn view(&self) -> ErrorView {
        match self {
            Error::Parse(e) => ErrorView::Parse(e@),
            Error::Eval(e) => ErrorView::Eval(*e),
        }
    }
}

} // verus!
