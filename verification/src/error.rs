//! Why an evaluation, or a whole line of a session, stopped.

use vstd::prelude::*;
use crate::parse::ParseError;

verus! {

/// A failure that ends the evaluation of the current program.
#[derive(Debug, Clone, Copy, PartialEq, Eq, Structural)]
pub enum EvalError {
    /// A primitive needed more operands than the stack holds.
    StackUnderflow,
    /// An operand was not of the kind the primitive takes.
    TypeMismatch,
    /// The divisor of `/` was zero.
    DivisionByZero,
    /// The result of an arithmetic primitive does not fit in 32 bits.
    Overflow,
    /// An operator name outside the fixed vocabulary.
    UnknownOperator,
    /// More than [`crate::eval::MAX_DEPTH`] `if`s were under way, one inside
    /// another.
    DepthExceeded,
}

impl EvalError {
    /// The message for the failure.
    pub open spec fn text(self) -> Seq<char> {
        match self {
            EvalError::StackUnderflow => "stack underflow"@,
            EvalError::TypeMismatch => "type mismatch"@,
            EvalError::DivisionByZero => "division by zero"@,
            EvalError::Overflow => "arithmetic overflow"@,
            EvalError::UnknownOperator => "unknown operator"@,
            EvalError::DepthExceeded => "conditionals nested too deep"@,
        }
    }

    /// The message for the failure.
    pub fn to_string(&self) -> (message: String)
        ensures
            message@ == self.text(),
    {
        match self {
            EvalError::StackUnderflow => "stack underflow".to_owned(),
            EvalError::TypeMismatch => "type mismatch".to_owned(),
            EvalError::DivisionByZero => "division by zero".to_owned(),
            EvalError::Overflow => "arithmetic overflow".to_owned(),
            EvalError::UnknownOperator => "unknown operator".to_owned(),
            EvalError::DepthExceeded => "conditionals nested too deep".to_owned(),
        }
    }
}

/// Why a line of a session was not carried out, or not to its end.
#[derive(Debug, PartialEq, Eq)]
pub enum LineError {
    /// The line is not a program; the machine is as it was.
    Parse(ParseError),
    /// The program stopped part of the way.
    Eval(EvalError),
}

impl LineError {
    /// The message for the failure.
    pub fn to_string(&self) -> (message: String)
        ensures
            message@ == match self {
                LineError::Parse(e) => e->UnmatchedBrackets_0@,
                LineError::Eval(e) => e.text(),
            },
    {
        match self {
            LineError::Parse(e) => e.to_string(),
            LineError::Eval(e) => e.to_string(),
        }
    }
}

} // verus!
