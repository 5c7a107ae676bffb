//! The operator vocabulary and the primitives behind it.
//!
//! Operands are popped whole: a block on the stack is a value like any
//! other until `if` runs it.
//!
//! A primitive that fails leaves the machine as it found it. The one
//! exception is `if`: once it has taken its operands, whatever the blocks it
//! runs have done stays done.

use vstd::prelude::*;
use crate::error::EvalError;
use crate::eval::MAX_DEPTH;
use crate::eval::Outcome;
use crate::eval::eval_sequence;
use crate::eval::failed;
use crate::eval::finished;
use crate::eval::run_sequence;
use crate::parse::Term;
use crate::parse::Value;
use crate::text::str_eq;
use crate::vm::State;
use crate::vm::Vm;

verus! {

/// The primitives that take two numbers and give one.
#[derive(Debug, Clone, Copy, PartialEq, Eq, Structural)]
pub enum Binary {
    Add,
    Sub,
    Mul,
    Div,
    Lt,
    Gt,
}

/// The built-in primitives. The parser's keyword list and the evaluator's
/// dispatch both go through [`Operator::lookup`], so the two cannot disagree.
#[derive(Debug, Clone, Copy, PartialEq, Eq, Structural)]
pub enum Operator {
    Binary(Binary),
    If,
    Def,
    Puts,
}

/// The primitive that `name` spells: one of `+ - * / < > if def puts`.
pub open spec fn operator_of(name: Seq<char>) -> Option<Operator> {
    if name == "+"@ {
        Some(Operator::Binary(Binary::Add))
    } else if name == "-"@ {
        Some(Operator::Binary(Binary::Sub))
    } else if name == "*"@ {
        Some(Operator::Binary(Binary::Mul))
    } else if name == "/"@ {
        Some(Operator::Binary(Binary::Div))
    } else if name == "<"@ {
        Some(Operator::Binary(Binary::Lt))
    } else if name == ">"@ {
        Some(Operator::Binary(Binary::Gt))
    } else if name == "if"@ {
        Some(Operator::If)
    } else if name == "def"@ {
        Some(Operator::Def)
    } else if name == "puts"@ {
        Some(Operator::Puts)
    } else {
        None
    }
}

impl Operator {
    /// Looks `name` up in the operator vocabulary.
    pub fn lookup(name: &str) -> (found: Option<Operator>)
        ensures
            found == operator_of(name@),
    {
        if str_eq(name, "+") {
            Some(Operator::Binary(Binary::Add))
        } else if str_eq(name, "-") {
            Some(Operator::Binary(Binary::Sub))
        } else if str_eq(name, "*") {
            Some(Operator::Binary(Binary::Mul))
        } else if str_eq(name, "/") {
            Some(Operator::Binary(Binary::Div))
        } else if str_eq(name, "<") {
            Some(Operator::Binary(Binary::Lt))
        } else if str_eq(name, ">") {
            Some(Operator::Binary(Binary::Gt))
        } else if str_eq(name, "if") {
            Some(Operator::If)
        } else if str_eq(name, "def") {
            Some(Operator::Def)
        } else if str_eq(name, "puts") {
            Some(Operator::Puts)
        } else {
            None
        }
    }
}

/// `v` as a 32-bit number, or an overflow if it does not fit.
pub open spec fn fit(v: int) -> Result<i32, EvalError> {
    if i32::MIN <= v <= i32::MAX {
        Ok(v as i32)
    } else {
        Err(EvalError::Overflow)
    }
}

/// The absolute value of `v`.
pub open spec fn magnitude(v: int) -> int {
    if v < 0 {
        -v
    } else {
        v
    }
}

/// The quotient of `x` by `d`, rounded toward zero.
pub open spec fn quotient(x: int, d: int) -> int
    recommends
        d != 0,
{
    if (x < 0) == (d < 0) {
        magnitude(x) / magnitude(d)
    } else {
        -(magnitude(x) / magnitude(d))
    }
}

impl Binary {
    /// What the primitive gives for `lhs` and `rhs`: the exact sum,
    /// difference or product if it fits in 32 bits, the quotient rounded
    /// toward zero, or 1 or 0 for a comparison that holds or does not.
    pub open spec fn result(self, lhs: int, rhs: int) -> Result<i32, EvalError> {
        match self {
            Binary::Add => fit(lhs + rhs),
            Binary::Sub => fit(lhs - rhs),
            Binary::Mul => fit(lhs * rhs),
            Binary::Div => if rhs == 0 {
                Err(EvalError::DivisionByZero)
            } else {
                fit(quotient(lhs, rhs))
            },
            Binary::Lt => Ok(
                if lhs < rhs {
                    1i32
                } else {
                    0i32
                },
            ),
            Binary::Gt => Ok(
                if lhs > rhs {
                    1i32
                } else {
                    0i32
                },
            ),
        }
    }

    /// Computes the primitive on two numbers.
    pub fn apply(self, lhs: i32, rhs: i32) -> (value: Result<i32, EvalError>)
        ensures
            value == self.result(lhs as int, rhs as int),
    {
        let checked = match self {
            Binary::Add => lhs.checked_add(rhs),
            Binary::Sub => lhs.checked_sub(rhs),
            Binary::Mul => lhs.checked_mul(rhs),
            Binary::Div => {
                if rhs == 0 {
                    return Err(EvalError::DivisionByZero);
                }
                proof {
                    if lhs == 0 {
                        vstd::arithmetic::div_mod::lemma_div_basics(magnitude(rhs as int));
                    }
                }
                lhs.checked_div(rhs)
            },
            Binary::Lt => Some(
                if lhs < rhs {
                    1
                } else {
                    0
                },
            ),
            Binary::Gt => Some(
                if lhs > rhs {
                    1
                } else {
                    0
                },
            ),
        };
        match checked {
            Some(value) => Ok(value),
            None => Err(EvalError::Overflow),
        }
    }

    /// The machine after the primitive: the two numbers on top of the stack
    /// are replaced by the result, the first one popped being the left
    /// operand.
    pub open spec fn step(self, st: State) -> Outcome {
        if st.stack.len() < 2 {
            failed(st, EvalError::StackUnderflow)
        } else {
            match (st.top(0).number(), st.top(1).number()) {
                (Ok(lhs), Ok(rhs)) => match self.result(lhs as int, rhs as int) {
                    Ok(value) => finished(st.pop(2).push(Term::Num(value))),
                    Err(e) => failed(st, e),
                },
                _ => failed(st, EvalError::TypeMismatch),
            }
        }
    }

    /// Runs the primitive on the machine.
    pub fn run(self, vm: &mut Vm) -> (result: Result<(), EvalError>)
        ensures
            self.step(old(vm)@) == (Outcome { state: final(vm)@, error: result.err() }),
    {
        let n = vm.stack.len();
        if n < 2 {
            return Err(EvalError::StackUnderflow);
        }
        let lhs = match vm.stack[n - 1].as_num() {
            Ok(number) => number,
            Err(e) => {
                return Err(e);
            },
        };
        let rhs = match vm.stack[n - 2].as_num() {
            Ok(number) => number,
            Err(e) => {
                return Err(e);
            },
        };
        let value = match self.apply(lhs, rhs) {
            Ok(number) => number,
            Err(e) => {
                return Err(e);
            },
        };
        vm.stack.pop();
        vm.stack.pop();
        vm.stack.push(Value::Num(value));
        assert(vm@.stack =~= old(vm)@.pop(2).push(Term::Num(value)).stack);
        Ok(())
    }
}

/// Pops two numbers and pushes their sum.
pub fn add(vm: &mut Vm) -> (result: Result<(), EvalError>)
    ensures
        Binary::Add.step(old(vm)@) == (Outcome { state: final(vm)@, error: result.err() }),
{
    Binary::Add.run(vm)
}

/// Pops two numbers and pushes the first popped minus the second.
pub fn sub(vm: &mut Vm) -> (result: Result<(), EvalError>)
    ensures
        Binary::Sub.step(old(vm)@) == (Outcome { state: final(vm)@, error: result.err() }),
{
    Binary::Sub.run(vm)
}

/// Pops two numbers and pushes their product.
pub fn mul(vm: &mut Vm) -> (result: Result<(), EvalError>)
    ensures
        Binary::Mul.step(old(vm)@) == (Outcome { state: final(vm)@, error: result.err() }),
{
    Binary::Mul.run(vm)
}

/// Pops two numbers and pushes the first popped divided by the second,
/// rounded toward zero.
pub fn div(vm: &mut Vm) -> (result: Result<(), EvalError>)
    ensures
        Binary::Div.step(old(vm)@) == (Outcome { state: final(vm)@, error: result.err() }),
{
    Binary::Div.run(vm)
}

/// Pops two numbers and pushes 1 if the first popped is less than the
/// second, else 0.
pub fn lt(vm: &mut Vm) -> (result: Result<(), EvalError>)
    ensures
        Binary::Lt.step(old(vm)@) == (Outcome { state: final(vm)@, error: result.err() }),
{
    Binary::Lt.run(vm)
}

/// Pops two numbers and pushes 1 if the first popped is greater than the
/// second, else 0.
pub fn gt(vm: &mut Vm) -> (result: Result<(), EvalError>)
    ensures
        Binary::Gt.step(old(vm)@) == (Outcome { state: final(vm)@, error: result.err() }),
{
    Binary::Gt.run(vm)
}

/// The machine after `def`: the value on top of the stack is bound to the
/// symbol below it, in place of any earlier binding, and both are popped.
pub open spec fn define(st: State) -> Outcome {
    if st.stack.len() < 2 {
        failed(st, EvalError::StackUnderflow)
    } else {
        match st.top(1).name() {
            Ok(name) => finished(
                State { vars: st.vars.insert(name, Some(st.top(0))), ..st.pop(2) },
            ),
            Err(e) => failed(st, e),
        }
    }
}

/// Pops a value and the symbol below it, and binds the symbol's name to the
/// value.
pub fn op_def(vm: &mut Vm) -> (result: Result<(), EvalError>)
    ensures
        define(old(vm)@) == (Outcome { state: final(vm)@, error: result.err() }),
{
    let n = vm.stack.len();
    if n < 2 {
        return Err(EvalError::StackUnderflow);
    }
    let name = match &vm.stack[n - 2] {
        Value::Sym(name) => name.clone(),
        _ => {
            return Err(EvalError::TypeMismatch);
        },
    };
    let value = vm.stack.pop().unwrap();
    vm.stack.pop();
    let ghost bound = old(vm)@.vars.insert(name@, Some(value@));
    vm.vars.insert(name, Some(value));
    assert(vm@.vars =~= bound);
    assert(vm@.stack =~= old(vm)@.pop(2).stack);
    Ok(())
}

/// The machine after `puts`: the value on top of the stack is popped and
/// its text becomes the next line of output.
pub open spec fn emit(st: State) -> Outcome {
    if st.stack.len() < 1 {
        failed(st, EvalError::StackUnderflow)
    } else {
        finished(State { output: st.output.push(st.top(0).text()), ..st.pop(1) })
    }
}

/// Pops a value and writes its text as a line of output.
pub fn op_puts(vm: &mut Vm) -> (result: Result<(), EvalError>)
    ensures
        emit(old(vm)@) == (Outcome { state: final(vm)@, error: result.err() }),
{
    if vm.stack.len() < 1 {
        return Err(EvalError::StackUnderflow);
    }
    let value = vm.stack.pop().unwrap();
    vm.output.push(value.to_string());
    assert(vm@.output =~= old(vm)@.output.push(old(vm)@.top(0).text()));
    assert(vm@.stack =~= old(vm)@.pop(1).stack);
    Ok(())
}

/// The truth of the value that a condition left on top of the stack:
/// a number other than zero is true.
pub open spec fn verdict(st: State) -> Result<bool, EvalError> {
    if st.stack.len() < 1 {
        Err(EvalError::StackUnderflow)
    } else {
        match st.top(0).number() {
            Ok(n) => Ok(n != 0),
            Err(e) => Err(e),
        }
    }
}

/// The machine after `if`, where `depth` more `if`s may run one inside
/// another, this one counted.
///
/// The top three operands are, from the top, the false branch, the true
/// branch and the condition; each is a block, or a single value that counts
/// as a block of itself. The condition runs first; the number it leaves on
/// top is popped, and the true branch runs if that number is not zero, the
/// false branch otherwise.
pub open spec fn branch(st: State, depth: nat) -> Outcome
    decreases depth, 0nat, 0nat,
{
    if st.stack.len() < 3 {
        failed(st, EvalError::StackUnderflow)
    } else if depth == 0 {
        failed(st, EvalError::DepthExceeded)
    } else {
        let tested = run_sequence(st.top(2).items(), st.pop(3), (depth - 1) as nat);
        if tested.error is Some {
            tested
        } else {
            match verdict(tested.state) {
                Ok(truth) => run_sequence(
                    if truth {
                        st.top(1).items()
                    } else {
                        st.top(0).items()
                    },
                    tested.state.pop(1),
                    (depth - 1) as nat,
                ),
                Err(e) => failed(tested.state, e),
            }
        }
    }
}

/// Runs `if` where `depth` more `if`s may run one inside another, this one
/// counted.
pub fn op_if_within(vm: &mut Vm, depth: usize) -> (result: Result<(), EvalError>)
    ensures
        branch(old(vm)@, depth as nat) == (Outcome { state: final(vm)@, error: result.err() }),
    decreases depth, 0nat, 0nat,
{
    if vm.stack.len() < 3 {
        return Err(EvalError::StackUnderflow);
    }
    if depth == 0 {
        return Err(EvalError::DepthExceeded);
    }
    let false_branch = vm.stack.pop().unwrap().to_block();
    let true_branch = vm.stack.pop().unwrap().to_block();
    let cond = vm.stack.pop().unwrap().to_block();
    assert(vm@ == old(vm)@.pop(3)) by {
        assert(vm@.stack =~= old(vm)@.pop(3).stack);
    }
    match eval_sequence(&cond, vm, depth - 1) {
        Ok(()) => {},
        Err(e) => {
            return Err(e);
        },
    }
    let ghost tested = vm@;
    let n = vm.stack.len();
    if n < 1 {
        return Err(EvalError::StackUnderflow);
    }
    let truth = match vm.stack[n - 1].as_num() {
        Ok(number) => number != 0,
        Err(e) => {
            return Err(e);
        },
    };
    vm.stack.pop();
    assert(vm@ == tested.pop(1)) by {
        assert(vm@.stack =~= tested.pop(1).stack);
    }
    if truth {
        eval_sequence(&true_branch, vm, depth - 1)
    } else {
        eval_sequence(&false_branch, vm, depth - 1)
    }
}

/// Pops the false branch, the true branch and the condition, runs the
/// condition, pops the number it left, and runs the branch it selects.
pub fn op_if(vm: &mut Vm) -> (result: Result<(), EvalError>)
    ensures
        branch(old(vm)@, MAX_DEPTH as nat) == (Outcome { state: final(vm)@, error: result.err() }),
{
    op_if_within(vm, MAX_DEPTH)
}

} // verus!
