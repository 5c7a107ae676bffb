//! What holds of every evaluation: the order in which a primitive takes its
//! operands, that blocks are operands and only the chosen one runs, what a
//! failure leaves behind, what no evaluation changes, and that a session
//! never meets an operator it does not know.

use vstd::prelude::*;
use crate::error::EvalError;
use crate::eval::MAX_DEPTH;
use crate::eval::Outcome;
use crate::eval::eval;
use crate::eval::failed;
use crate::eval::finished;
use crate::eval::run_line;
use crate::eval::run_sequence;
use crate::laws::parsing::all_writable;
use crate::laws::parsing::law_parsed_program_is_writable;
use crate::laws::parsing::writable;
use crate::op::Binary;
use crate::op::Operator;
use crate::op::branch;
use crate::op::define;
use crate::op::emit;
use crate::op::operator_of;
use crate::parse::Term;
use crate::parse::parse_words;
use crate::text::split;
use crate::vm::State;

verus! {

/// Two numbers followed by a binary operator evaluate to the operator's
/// result for the second number as left operand and the first as right
/// operand: the top of the stack is the left operand. Where the primitive
/// fails, both numbers stay on the stack.
pub proof fn law_binary_takes_top_as_left_operand(
    op: Binary,
    name: Seq<char>,
    a: i32,
    b: i32,
    st: State,
    depth: nat,
)
    requires
        operator_of(name) == Some(Operator::Binary(op)),
    ensures
        run_sequence(seq![Term::Num(a), Term::Num(b), Term::Op(name)], st, depth) == match op.result(
            b as int,
            a as int,
        ) {
            Ok(value) => finished(st.push(Term::Num(value))),
            Err(e) => failed(st.push(Term::Num(a)).push(Term::Num(b)), e),
        },
{
    let code = seq![Term::Num(a), Term::Num(b), Term::Op(name)];
    let one = st.push(Term::Num(a));
    let two = one.push(Term::Num(b));
    assert(eval(code[0], st, depth) == finished(one));
    assert(code.drop_first() == seq![Term::Num(b), Term::Op(name)]);
    assert(eval(code[1], one, depth) == finished(two));
    assert(code.drop_first().drop_first() == seq![Term::Op(name)]);
    assert(eval(code[2], two, depth) == op.step(two));
    assert(code.drop_first().drop_first().drop_first() == Seq::<Term>::empty());
    assert(two.pop(2).stack == st.stack);
    reveal_with_fuel(run_sequence, 4);
}

/// For all numbers `a` and `b`, the program `a b -` leaves `b - a` on the
/// stack, above what was there, whenever `b - a` fits in 32 bits; run on an
/// empty stack it leaves that number alone.
pub proof fn law_subtraction_order(a: i32, b: i32, st: State, depth: nat)
    requires
        i32::MIN <= b - a <= i32::MAX,
    ensures
        run_sequence(seq![Term::Num(a), Term::Num(b), Term::Op("-"@)], st, depth) == finished(
            st.push(Term::Num((b - a) as i32)),
        ),
        run_sequence(
            seq![Term::Num(a), Term::Num(b), Term::Op("-"@)],
            State::empty(),
            depth,
        ).state.stack == seq![Term::Num((b - a) as i32)],
{
    assert(operator_of("-"@) == Some(Operator::Binary(Binary::Sub))) by {
        reveal_strlit("+");
        reveal_strlit("-");
        assert("-"@[0] != "+"@[0]);
    }
    law_binary_takes_top_as_left_operand(Binary::Sub, "-"@, a, b, st, depth);
    law_binary_takes_top_as_left_operand(Binary::Sub, "-"@, a, b, State::empty(), depth);
}

/// For every number `a`, the program `0 a /` divides `a` by zero: it fails
/// with a division by zero and leaves both numbers on the stack.
pub proof fn law_division_by_zero_is_reported(a: i32, st: State, depth: nat)
    ensures
        run_sequence(seq![Term::Num(0), Term::Num(a), Term::Op("/"@)], st, depth) == failed(
            st.push(Term::Num(0)).push(Term::Num(a)),
            EvalError::DivisionByZero,
        ),
{
    assert(operator_of("/"@) == Some(Operator::Binary(Binary::Div))) by {
        reveal_strlit("+");
        reveal_strlit("-");
        reveal_strlit("*");
        reveal_strlit("/");
        assert("/"@[0] != "+"@[0]);
        assert("/"@[0] != "-"@[0]);
        assert("/"@[0] != "*"@[0]);
    }
    law_binary_takes_top_as_left_operand(Binary::Div, "/"@, 0, a, st, depth);
}

/// The spelling of `if` names the conditional, the spelling of `def` the
/// definition.
proof fn lemma_if_and_def_are_operators()
    ensures
        operator_of("if"@) == Some(Operator::If),
        operator_of("def"@) == Some(Operator::Def),
{
    reveal_strlit("+");
    reveal_strlit("-");
    reveal_strlit("*");
    reveal_strlit("/");
    reveal_strlit("<");
    reveal_strlit(">");
    reveal_strlit("if");
    reveal_strlit("def");
    assert("if"@.len() == 2 && "def"@.len() == 3);
}

/// A sequence of one item does what the item does.
proof fn lemma_run_one(t: Term, st: State, depth: nat)
    ensures
        run_sequence(seq![t], st, depth) == eval(t, st, depth),
{
    let items = seq![t];
    let first = eval(items[0], st, depth);
    assert(items.drop_first() == Seq::<Term>::empty());
    assert(run_sequence(items.drop_first(), first.state, depth) == finished(first.state));
}

/// A sequence whose first item is pushed goes on with the other items on
/// the machine with that item on top.
proof fn lemma_run_pushed(items: Seq<Term>, st: State, depth: nat)
    requires
        items.len() > 0,
        items[0] is Num || items[0] is Block,
    ensures
        run_sequence(items, st, depth) == run_sequence(
            items.drop_first(),
            st.push(items[0]),
            depth,
        ),
{
    assert(eval(items[0], st, depth) == finished(st.push(items[0])));
}

/// For every number `n` and all blocks `yes` and `no`, the program
/// `n { yes } { no } if` does what the items of `yes` do if `n` is not zero
/// and what the items of `no` do if it is, one level deeper, on the machine
/// as it was before. The blocks are operands: neither is run where it is
/// met, and the block that is not chosen is never run.
pub proof fn law_if_runs_only_the_chosen_branch(
    n: i32,
    yes: Seq<Term>,
    no: Seq<Term>,
    st: State,
    depth: nat,
)
    requires
        depth >= 1,
    ensures
        run_sequence(
            seq![Term::Num(n), Term::Block(yes), Term::Block(no), Term::Op("if"@)],
            st,
            depth,
        ) == run_sequence(
            if n != 0 {
                yes
            } else {
                no
            },
            st,
            (depth - 1) as nat,
        ),
{
    lemma_if_and_def_are_operators();
    let code = seq![Term::Num(n), Term::Block(yes), Term::Block(no), Term::Op("if"@)];
    let one = st.push(Term::Num(n));
    let two = one.push(Term::Block(yes));
    let three = two.push(Term::Block(no));
    let below = (depth - 1) as nat;
    let rest1 = code.drop_first();
    let rest2 = rest1.drop_first();
    let rest3 = rest2.drop_first();
    assert(rest1[0] == code[1] && rest2[0] == code[2] && rest3[0] == code[3]);
    lemma_run_pushed(code, st, depth);
    lemma_run_pushed(rest1, one, depth);
    lemma_run_pushed(rest2, two, depth);
    assert(rest3 == seq![Term::Op("if"@)]);
    lemma_run_one(Term::Op("if"@), three, depth);
    assert(eval(Term::Op("if"@), three, depth) == branch(three, depth));
    assert(three.pop(3) == st) by {
        assert(three.pop(3).stack == st.stack);
    }
    assert(three.top(2).items() == seq![Term::Num(n)]);
    lemma_run_one(Term::Num(n), st, below);
    assert(one.pop(1) == st) by {
        assert(one.pop(1).stack == st.stack);
    }
}

/// For all numbers `n`, `yes` and `no`, the program `n { yes } { no } if`
/// leaves `yes` on the stack if `n` is not zero and `no` if it is: the
/// false branch is on top, the condition lowest, and every number but zero
/// is true.
pub proof fn law_if_takes_nonzero_for_true(n: i32, yes: i32, no: i32, st: State, depth: nat)
    requires
        depth >= 1,
    ensures
        run_sequence(
            seq![
                Term::Num(n),
                Term::Block(seq![Term::Num(yes)]),
                Term::Block(seq![Term::Num(no)]),
                Term::Op("if"@),
            ],
            st,
            depth,
        ) == finished(
            st.push(
                Term::Num(
                    if n != 0 {
                        yes
                    } else {
                        no
                    },
                ),
            ),
        ),
{
    let below = (depth - 1) as nat;
    law_if_runs_only_the_chosen_branch(n, seq![Term::Num(yes)], seq![Term::Num(no)], st, depth);
    lemma_run_one(Term::Num(yes), st, below);
    lemma_run_one(Term::Num(no), st, below);
}

/// For every name that is not bound and every number or block `value`, the
/// program `/name value def name` binds the name to the value, whole, and
/// leaves the value on the stack.
pub proof fn law_def_binds_for_later_references(
    name: Seq<char>,
    value: Term,
    st: State,
    depth: nat,
)
    requires
        st.resolve(name) == Term::Sym(name),
        value is Num || value is Block,
    ensures
        run_sequence(
            seq![Term::Sym(name), value, Term::Op("def"@), Term::Sym(name)],
            st,
            depth,
        ) == finished(State { vars: st.vars.insert(name, Some(value)), ..st }.push(value)),
{
    lemma_if_and_def_are_operators();
    let code = seq![Term::Sym(name), value, Term::Op("def"@), Term::Sym(name)];
    let one = st.push(Term::Sym(name));
    let two = one.push(value);
    let bound = State { vars: st.vars.insert(name, Some(value)), ..st };
    assert(eval(code[0], st, depth) == finished(one));
    assert(eval(code[1], one, depth) == finished(two));
    assert(two.pop(2).stack == st.stack);
    assert(eval(code[2], two, depth) == finished(bound));
    assert(eval(code[3], bound, depth) == finished(bound.push(value)));
    let rest1 = code.drop_first();
    let rest2 = rest1.drop_first();
    let rest3 = rest2.drop_first();
    assert(rest1[0] == code[1] && rest2[0] == code[2] && rest3[0] == code[3]);
    assert(rest3 == seq![Term::Sym(name)]);
    lemma_run_one(Term::Sym(name), bound, depth);
    assert(run_sequence(rest2, two, depth) == finished(bound.push(value)));
    assert(run_sequence(rest1, one, depth) == finished(bound.push(value)));
}

/// A primitive other than `if` that fails leaves the machine as it found
/// it.
pub proof fn law_failed_primitive_changes_nothing(op: Binary, st: State)
    ensures
        op.step(st).error is Some ==> op.step(st).state == st,
        define(st).error is Some ==> define(st).state == st,
        emit(st).error is Some ==> emit(st).state == st,
{
}

/// Whether `after` can come after `before` in a session: the contexts set
/// aside are the same, and the output has only grown.
pub open spec fn follows(before: State, after: State) -> bool {
    after.blocks == before.blocks && before.output.is_prefix_of(after.output)
}

proof fn lemma_eval_follows(code: Term, st: State, depth: nat)
    ensures
        follows(st, eval(code, st, depth).state),
    decreases depth, 1nat, 0nat,
{
    match code {
        Term::Op(name) => {
            if operator_of(name) == Some(Operator::If) {
                lemma_branch_follows(st, depth);
            }
        },
        _ => {},
    }
}

proof fn lemma_branch_follows(st: State, depth: nat)
    ensures
        follows(st, branch(st, depth).state),
    decreases depth, 0nat, 0nat,
{
    if st.stack.len() >= 3 && depth > 0 {
        let below = (depth - 1) as nat;
        let tested = run_sequence(st.top(2).items(), st.pop(3), below);
        lemma_sequence_follows(st.top(2).items(), st.pop(3), below);
        lemma_sequence_follows(st.top(1).items(), tested.state.pop(1), below);
        lemma_sequence_follows(st.top(0).items(), tested.state.pop(1), below);
    }
}

proof fn lemma_sequence_follows(items: Seq<Term>, st: State, depth: nat)
    ensures
        follows(st, run_sequence(items, st, depth).state),
    decreases depth, 2nat, items.len(),
{
    if items.len() > 0 {
        lemma_eval_follows(items[0], st, depth);
        lemma_sequence_follows(items.drop_first(), eval(items[0], st, depth).state, depth);
    }
}

/// Whatever is evaluated, and whether or not it fails, the contexts set
/// aside stay as they were and the lines already written stay written.
pub proof fn law_evaluation_only_adds_output(items: Seq<Term>, st: State, depth: nat)
    ensures
        run_sequence(items, st, depth).state.blocks == st.blocks,
        st.output.is_prefix_of(run_sequence(items, st, depth).state.output),
{
    lemma_sequence_follows(items, st, depth);
}

/// Whether every value that the machine holds, on its stack or bound to a
/// name, is a term that words can write. A machine that starts empty and is
/// only ever changed by lines of text stays so.
pub open spec fn holds_only_writable(st: State) -> bool {
    &&& forall|i: int| 0 <= i < st.stack.len() ==> writable(#[trigger] st.stack[i])
    &&& forall|name: Seq<char>| #[trigger]
        st.vars.contains_key(name) && st.vars[name] is Some ==> writable(st.vars[name]->0)
}

/// Whether an evaluation of terms that words can write, on a machine that
/// held only such terms, went as it must: the machine holds only such terms
/// afterwards, and each operator that was met had a primitive.
spec fn stays_writable(outcome: Outcome) -> bool {
    holds_only_writable(outcome.state) && outcome.error != Some(EvalError::UnknownOperator)
}

/// The items that a writable operand of `if` stands for are writable.
proof fn lemma_items_writable(t: Term)
    requires
        writable(t),
    ensures
        all_writable(t.items()),
{
}

proof fn lemma_eval_stays_writable(code: Term, st: State, depth: nat)
    requires
        writable(code),
        holds_only_writable(st),
    ensures
        stays_writable(eval(code, st, depth)),
    decreases depth, 1nat, 0nat,
{
    match code {
        Term::Op(name) => {
            match operator_of(name) {
                Some(Operator::If) => {
                    lemma_branch_stays_writable(st, depth);
                },
                Some(Operator::Binary(op)) => {
                    if op.step(st).error is None {
                        assert(holds_only_writable(st.pop(2)));
                    }
                },
                Some(Operator::Def) => {
                    if define(st).error is None {
                        assert(holds_only_writable(st.pop(2)));
                        assert(writable(st.top(0)));
                    }
                },
                Some(Operator::Puts) => {
                    if emit(st).error is None {
                        assert(holds_only_writable(st.pop(1)));
                    }
                },
                None => {},
            }
        },
        _ => {},
    }
}

proof fn lemma_branch_stays_writable(st: State, depth: nat)
    requires
        holds_only_writable(st),
    ensures
        stays_writable(branch(st, depth)),
    decreases depth, 0nat, 0nat,
{
    if st.stack.len() >= 3 && depth > 0 {
        let below = (depth - 1) as nat;
        assert(writable(st.top(0)) && writable(st.top(1)) && writable(st.top(2)));
        lemma_items_writable(st.top(0));
        lemma_items_writable(st.top(1));
        lemma_items_writable(st.top(2));
        assert(holds_only_writable(st.pop(3)));
        lemma_sequence_stays_writable(st.top(2).items(), st.pop(3), below);
        let tested = run_sequence(st.top(2).items(), st.pop(3), below);
        if tested.state.stack.len() >= 1 {
            assert(holds_only_writable(tested.state.pop(1)));
            lemma_sequence_stays_writable(st.top(1).items(), tested.state.pop(1), below);
            lemma_sequence_stays_writable(st.top(0).items(), tested.state.pop(1), below);
        }
    }
}

proof fn lemma_sequence_stays_writable(items: Seq<Term>, st: State, depth: nat)
    requires
        all_writable(items),
        holds_only_writable(st),
    ensures
        stays_writable(run_sequence(items, st, depth)),
    decreases depth, 2nat, items.len(),
{
    if items.len() > 0 {
        let first = eval(items[0], st, depth);
        let others = items.drop_first();
        lemma_eval_stays_writable(items[0], st, depth);
        assert forall|i: int| 0 <= i < others.len() implies writable(#[trigger] others[i]) by {
            assert(others[i] == items[i + 1]);
        }
        if first.error is None {
            lemma_sequence_stays_writable(others, first.state, depth);
        }
    }
}

/// On a machine that holds only terms that words can write, a program of
/// such terms meets no operator without a primitive, whatever blocks `if`
/// runs on the way, and the machine holds only such terms afterwards.
pub proof fn law_written_programs_know_their_operators(items: Seq<Term>, st: State, depth: nat)
    requires
        all_writable(items),
        holds_only_writable(st),
    ensures
        run_sequence(items, st, depth).error != Some(EvalError::UnknownOperator),
        holds_only_writable(run_sequence(items, st, depth).state),
{
    lemma_sequence_stays_writable(items, st, depth);
}

/// The machine after `line` is carried out on `st`, whether or not the line
/// is a program and whether or not the program fails.
pub open spec fn after_line(line: Seq<char>, st: State) -> State {
    match run_line(line, st) {
        Some(outcome) => outcome.state,
        None => st,
    }
}

/// The machine after `lines` are carried out one after another on `st`.
pub open spec fn after_lines(lines: Seq<Seq<char>>, st: State) -> State
    decreases lines.len(),
{
    if lines.len() == 0 {
        st
    } else {
        after_line(lines.last(), after_lines(lines.drop_last(), st))
    }
}

proof fn lemma_line_stays_writable(line: Seq<char>, st: State)
    requires
        holds_only_writable(st),
    ensures
        holds_only_writable(after_line(line, st)),
        run_line(line, st) is Some ==> stays_writable(run_line(line, st)->0),
{
    match parse_words(split(line)) {
        Some(program) => {
            law_parsed_program_is_writable(split(line));
            lemma_items_writable(program);
            lemma_sequence_stays_writable(program.items(), st, MAX_DEPTH as nat);
        },
        None => {},
    }
}

proof fn lemma_session_holds_only_writable(lines: Seq<Seq<char>>)
    ensures
        holds_only_writable(after_lines(lines, State::empty())),
    decreases lines.len(),
{
    if lines.len() > 0 {
        lemma_session_holds_only_writable(lines.drop_last());
        lemma_line_stays_writable(lines.last(), after_lines(lines.drop_last(), State::empty()));
    }
}

/// In a session that starts with a new machine, whatever lines came before,
/// the machine holds only terms that words can write, and the next line
/// meets no operator without a primitive: the parser and the evaluator know
/// the same operators.
pub proof fn law_session_knows_its_operators(lines: Seq<Seq<char>>, line: Seq<char>)
    ensures
        holds_only_writable(after_lines(lines, State::empty())),
        run_line(line, after_lines(lines, State::empty())) is Some ==> run_line(
            line,
            after_lines(lines, State::empty()),
        )->0.error != Some(EvalError::UnknownOperator),
{
    lemma_session_holds_only_writable(lines);
    lemma_line_stays_writable(line, after_lines(lines, State::empty()));
}

} // verus!
