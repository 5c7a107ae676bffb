//! The arithmetic primitives on a bare stack of numbers.
//!
//! Each takes the top of the stack as its left operand and the number below
//! it as its right operand. A primitive that fails leaves the stack as it
//! found it.

use vstd::prelude::*;
use crate::error::EvalError;
use crate::op::Binary;

verus! {

/// The stack after `op` replaces its two top numbers by the result, or why
/// that cannot be done.
pub open spec fn applied(op: Binary, stack: Seq<i32>) -> Result<Seq<i32>, EvalError> {
    if stack.len() < 2 {
        Err(EvalError::StackUnderflow)
    } else {
        let n = stack.len() as int;
        match op.result(stack[n - 1] as int, stack[n - 2] as int) {
            Ok(value) => Ok(stack.take(n - 2).push(value)),
            Err(e) => Err(e),
        }
    }
}

/// Whether `stack` went from `before` to what `result` reports of `op`.
pub open spec fn stepped(
    op: Binary,
    before: Seq<i32>,
    after: Seq<i32>,
    result: Result<(), EvalError>,
) -> bool {
    match result {
        Ok(_) => applied(op, before) == Ok::<Seq<i32>, EvalError>(after),
        Err(e) => applied(op, before) == Err::<Seq<i32>, EvalError>(e) && after == before,
    }
}

fn binary(op: Binary, stack: &mut Vec<i32>) -> (result: Result<(), EvalError>)
    ensures
        stepped(op, old(stack)@, final(stack)@, result),
{
    let n = stack.len();
    if n < 2 {
        return Err(EvalError::StackUnderflow);
    }
    match op.apply(stack[n - 1], stack[n - 2]) {
        Ok(value) => {
            stack.pop();
            stack.pop();
            stack.push(value);
            assert(stack@ =~= old(stack)@.take(n - 2).push(value));
            Ok(())
        },
        Err(e) => Err(e),
    }
}

/// Pops two numbers and pushes their sum.
pub fn add(stack: &mut Vec<i32>) -> (result: Result<(), EvalError>)
    ensures
        stepped(Binary::Add, old(stack)@, final(stack)@, result),
{
    binary(Binary::Add, stack)
}

/// Pops two numbers and pushes the first popped minus the second.
pub fn sub(stack: &mut Vec<i32>) -> (result: Result<(), EvalError>)
    ensures
        stepped(Binary::Sub, old(stack)@, final(stack)@, result),
{
    binary(Binary::Sub, stack)
}

/// Pops two numbers and pushes their product.
pub fn mul(stack: &mut Vec<i32>) -> (result: Result<(), EvalError>)
    ensures
        stepped(Binary::Mul, old(stack)@, final(stack)@, result),
{
    binary(Binary::Mul, stack)
}

/// Pops two numbers and pushes the first popped divided by the second,
/// rounded toward zero.
pub fn div(stack: &mut Vec<i32>) -> (result: Result<(), EvalError>)
    ensures
        stepped(Binary::Div, old(stack)@, final(stack)@, result),
{
    binary(Binary::Div, stack)
}

} // verus!
