//! The evaluator: what a program does to the machine.
//!
//! A program is a block, and evaluating it runs its items in order. A block
//! met among the items is not run there: it is pushed whole, as an operand
//! for `if` or `def`, and only `if` runs it.
//!
//! A symbol that is not bound stands for itself. That is how `def` gets to
//! see the name it binds, and it makes unbound symbols usable as tags.

use vstd::prelude::*;
use crate::error::EvalError;
use crate::error::LineError;
use crate::op::Operator;
use crate::op::branch;
use crate::op::define;
use crate::op::emit;
use crate::op::op_def;
use crate::op::op_if_within;
use crate::op::op_puts;
use crate::op::operator_of;
use crate::parse::ParseError;
use crate::parse::Term;
use crate::parse::Value;
use crate::parse::parse;
use crate::parse::parse_words;
use crate::parse::terms;
use crate::text::split;
use crate::text::split_words;
use crate::vm::State;
use crate::vm::Vm;

verus! {

/// How many `if`s an evaluation may have under way, one inside another.
///
/// A bound is needed: a block bound to a name can run itself through `if`
/// without end. The evaluator walks by recursion, so the bound is chosen by
/// the native stack. One `if` under way takes less than 300 bytes of it, so
/// 2048 of them take well under 1 MiB, and the smallest stack that Rust
/// gives a thread by default is 2 MiB. A block that is only nested in
/// another, and not run by an `if` in it, costs nothing.
pub const MAX_DEPTH: usize = 2048;

/// Where an evaluation left the machine, and what stopped it, if anything
/// did.
pub struct Outcome {
    pub state: State,
    pub error: Option<EvalError>,
}

/// An evaluation that ran to its end in `state`.
pub open spec fn finished(state: State) -> Outcome {
    Outcome { state, error: None }
}

/// An evaluation that stopped in `state` because of `error`.
pub open spec fn failed(state: State, error: EvalError) -> Outcome {
    Outcome { state, error: Some(error) }
}

/// What the item `code` of a running sequence does to the machine `st`,
/// where `depth` more `if`s may run one inside another.
///
/// A number is pushed. A symbol pushes the value bound to its name, or
/// itself while the name is unbound. An operator runs its primitive. A
/// block is pushed whole and not run.
pub open spec fn eval(code: Term, st: State, depth: nat) -> Outcome
    decreases depth, 1nat, 0nat,
{
    match code {
        Term::Num(_) => finished(st.push(code)),
        Term::Sym(name) => finished(st.push(st.resolve(name))),
        Term::Op(name) => match operator_of(name) {
            Some(Operator::Binary(op)) => op.step(st),
            Some(Operator::If) => branch(st, depth),
            Some(Operator::Def) => define(st),
            Some(Operator::Puts) => emit(st),
            None => failed(st, EvalError::UnknownOperator),
        },
        Term::Block(_) => finished(st.push(code)),
    }
}

/// What evaluating `items` one after another does to the machine `st`.
/// The first failure ends the run, in the state the failing item left.
pub open spec fn run_sequence(items: Seq<Term>, st: State, depth: nat) -> Outcome
    decreases depth, 2nat, items.len(),
{
    if items.len() == 0 {
        finished(st)
    } else {
        let first = eval(items[0], st, depth);
        if first.error is Some {
            first
        } else {
            run_sequence(items.drop_first(), first.state, depth)
        }
    }
}

/// Evaluates one item of a running sequence. A block is pushed whole.
pub fn eval_impl(code: &Value, vm: &mut Vm, depth: usize) -> (result: Result<(), EvalError>)
    ensures
        eval(code@, old(vm)@, depth as nat) == (Outcome { state: final(vm)@, error: result.err() }),
    decreases depth, 1nat, 0nat,
{
    match code {
        Value::Op(name) => match Operator::lookup(name.as_str()) {
            Some(Operator::Binary(op)) => op.run(vm),
            Some(Operator::If) => op_if_within(vm, depth),
            Some(Operator::Def) => op_def(vm),
            Some(Operator::Puts) => op_puts(vm),
            None => Err(EvalError::UnknownOperator),
        },
        Value::Sym(name) => {
            let bound = match vm.vars.get(name.as_str()) {
                Some(Some(value)) => value.clone(),
                _ => Value::Sym(name.clone()),
            };
            vm.stack.push(bound);
            assert(vm@.stack =~= old(vm)@.push(old(vm)@.resolve(name@)).stack);
            Ok(())
        },
        Value::Block(_) => {
            vm.stack.push(code.clone());
            assert(vm@.stack =~= old(vm)@.push(code@).stack);
            Ok(())
        },
        Value::Num(n) => {
            vm.stack.push(Value::Num(*n));
            assert(vm@.stack =~= old(vm)@.push(code@).stack);
            Ok(())
        },
    }
}

/// Evaluates `items` in order and stops at the first failure.
pub fn eval_sequence(items: &Vec<Value>, vm: &mut Vm, depth: usize) -> (result: Result<
    (),
    EvalError,
>)
    ensures
        run_sequence(terms(items@), old(vm)@, depth as nat) == (Outcome {
            state: final(vm)@,
            error: result.err(),
        }),
    decreases depth, 2nat, items@.len(),
{
    let ghost all = terms(items@);
    let mut i: usize = 0;
    assert(all.skip(0) == all);
    while i < items.len()
        invariant
            i <= items@.len(),
            all == terms(items@),
            run_sequence(all.skip(i as int), vm@, depth as nat) == run_sequence(
                all,
                old(vm)@,
                depth as nat,
            ),
        decreases items@.len() - i,
    {
        proof {
            assert(all.skip(i as int)[0] == items@[i as int]@);
            assert(all.skip(i as int).drop_first() == all.skip(i + 1));
        }
        match eval_impl(&items[i], vm, depth) {
            Ok(()) => {},
            Err(e) => {
                return Err(e);
            },
        }
        i += 1;
    }
    Ok(())
}

/// Evaluates a list of values in order, from the outermost level. A block
/// in the list is pushed whole.
pub fn eval_with_codes(codes: Vec<Value>, vm: &mut Vm) -> (result: Result<(), EvalError>)
    ensures
        run_sequence(terms(codes@), old(vm)@, MAX_DEPTH as nat) == (Outcome {
            state: final(vm)@,
            error: result.err(),
        }),
{
    eval_sequence(&codes, vm, MAX_DEPTH)
}

/// Evaluates a program: runs the items of the block `code` in order, from
/// the outermost level. A value that is not a block is run as a block of
/// itself.
pub fn eval_with_block(code: Value, vm: &mut Vm) -> (result: Result<(), EvalError>)
    ensures
        run_sequence(code@.items(), old(vm)@, MAX_DEPTH as nat) == (Outcome {
            state: final(vm)@,
            error: result.err(),
        }),
{
    eval_with_codes(code.to_block(), vm)
}

/// What carrying out `line` does to the machine `st`: the line is split
/// into words at white space, the words are parsed, and the program is
/// evaluated from the outermost level. `None` where the words are no
/// program.
pub open spec fn run_line(line: Seq<char>, st: State) -> Option<Outcome> {
    match parse_words(split(line)) {
        Some(program) => Some(run_sequence(program.items(), st, MAX_DEPTH as nat)),
        None => None,
    }
}

/// Carries out one line of a session.
///
/// A line that is not a program leaves the machine as it was. A program
/// that fails leaves the machine as the failure left it.
pub fn eval_line(line: &str, vm: &mut Vm) -> (result: Result<(), LineError>)
    ensures
        match result {
            Ok(_) => run_line(line@, old(vm)@) == Some(finished(final(vm)@)),
            Err(LineError::Eval(e)) => run_line(line@, old(vm)@) == Some(failed(final(vm)@, e)),
            Err(LineError::Parse(ParseError::UnmatchedBrackets(message))) => run_line(
                line@,
                old(vm)@,
            ) is None && final(vm)@ == old(vm)@ && message@ == "Unmatched '}'"@,
        },
{
    let words = split_words(line);
    match parse(words.as_slice()) {
        Ok(program) => match eval_with_block(program, vm) {
            Ok(()) => Ok(()),
            Err(e) => Err(LineError::Eval(e)),
        },
        Err(e) => Err(LineError::Parse(e)),
    }
}

} // verus!
