use rustack::error::{EvalError, LineError};
use rustack::eval::{eval_impl, eval_line, eval_sequence, eval_with_block, eval_with_codes, MAX_DEPTH};
use rustack::op::{add, div, gt, lt, mul, op_def, op_if, op_if_within, op_puts, sub};
use rustack::parse::{parse, ParseError, Value};
use rustack::vm::Vm;

fn num(value: i32) -> Value {
    Value::Num(value)
}

fn op(name: &str) -> Value {
    Value::Op(name.to_string())
}

fn sym(name: &str) -> Value {
    Value::Sym(name.to_string())
}

fn block(items: Vec<Value>) -> Value {
    Value::Block(items)
}

fn new_test(code: Vec<Value>) -> Vm {
    let mut vm = Vm::new();
    eval_with_codes(code, &mut vm).unwrap();
    vm
}

fn run_line(line: &str, vm: &mut Vm) -> Result<(), EvalError> {
    let words: Vec<&str> = line.split_whitespace().collect();
    eval_with_block(parse(&words).unwrap(), vm)
}

#[test]
fn eval_test_add() {
    let mut vm = new_test(vec![num(1), num(2)]);

    add(&mut vm).unwrap();
    assert_eq!(vm.stack, vec![num(3)]);
}

#[test]
fn eval_test_sub() {
    let mut vm = new_test(vec![num(1), num(2)]);
    sub(&mut vm).unwrap();
    assert_eq!(vm.stack, vec![num(1)]);
}

#[test]
fn eval_test_mul() {
    let mut vm = new_test(vec![num(2), num(3)]);
    mul(&mut vm).unwrap();
    assert_eq!(vm.stack, vec![num(6)]);
}

#[test]
fn eval_test_div() {
    let mut vm = new_test(vec![num(3), num(6)]);
    div(&mut vm).unwrap();
    assert_eq!(vm.stack, vec![num(2)]);
}

#[test]
fn eval_test_op_if_true() {
    let mut vm = new_test(vec![block(vec![num(1)]), block(vec![num(2)]), block(vec![num(1)])]);
    op_if(&mut vm).unwrap();
    assert_eq!(vm.stack, vec![num(2)]);
}

#[test]
fn eval_test_op_if_false() {
    let mut vm = new_test(vec![block(vec![num(0)]), block(vec![num(2)]), block(vec![num(1)])]);
    op_if(&mut vm).unwrap();
    assert_eq!(vm.stack, vec![num(1)]);
}

#[test]
fn test_eval() {
    let vm = new_test(vec![
        num(4),
        num(4),
        op("-"),
        num(4),
        num(2),
        op("+"),
        num(3),
        op("/"),
        num(4),
        op("*"),
        op("*"),
    ]);
    assert_eq!(vm.stack, vec![num(0)]);
}

#[test]
fn test_eval_if() {
    let vm = new_test(vec![num(1), block(vec![num(1)]), block(vec![num(2)]), op("if")]);

    assert_eq!(vm.stack, vec![num(1)]);
}

#[test]
fn test_eval_def() {
    let vm = new_test(vec![
        sym("a"),
        num(1),
        op("def"),
        sym("b"),
        num(2),
        op("def"),
        sym("a"),
        sym("b"),
        op("+"),
    ]);

    assert_eq!(vm.stack, vec![num(3)]);
    assert_eq!(vm.vars.get("a"), Some(&Some(num(1))));
    assert_eq!(vm.vars.get("b"), Some(&Some(num(2))));
}

#[test]
fn eval_if_zero_takes_false_branch() {
    let vm = new_test(vec![num(0), block(vec![num(1)]), block(vec![num(2)]), op("if")]);
    assert_eq!(vm.stack, vec![num(2)]);
}

#[test]
fn eval_if_negative_is_true() {
    let vm = new_test(vec![num(-7), block(vec![num(1)]), block(vec![num(2)]), op("if")]);
    assert_eq!(vm.stack, vec![num(1)]);
}

#[test]
fn subtraction_takes_the_top_as_left_operand() {
    for (a, b) in [(1, 2), (2, 1), (0, 0), (-5, 3), (i32::MAX, i32::MAX), (i32::MIN, -1)] {
        let vm = new_test(vec![num(a), num(b), op("-")]);
        assert_eq!(vm.stack, vec![num(b - a)]);
    }
}

#[test]
fn division_takes_the_top_as_dividend() {
    let vm = new_test(vec![num(1), num(0), op("/")]);
    assert_eq!(vm.stack, vec![num(0)]);
}

#[test]
fn division_rounds_toward_zero() {
    for (divisor, dividend, expected) in
        [(2, 7, 3), (2, -7, -3), (-2, 7, -3), (-2, -7, 3), (7, 2, 0), (-7, 2, 0), (1, i32::MIN, i32::MIN)]
    {
        let vm = new_test(vec![num(divisor), num(dividend), op("/")]);
        assert_eq!(vm.stack, vec![num(expected)]);
    }
}

#[test]
fn division_by_zero_is_reported() {
    let mut vm = Vm::new();
    let result = eval_with_codes(vec![num(0), num(1), op("/")], &mut vm);
    assert_eq!(result, Err(EvalError::DivisionByZero));
    assert_eq!(vm.stack, vec![num(0), num(1)]);
}

#[test]
fn division_overflow_is_reported() {
    let mut vm = Vm::new();
    let result = eval_with_codes(vec![num(-1), num(i32::MIN), op("/")], &mut vm);
    assert_eq!(result, Err(EvalError::Overflow));
    assert_eq!(vm.stack, vec![num(-1), num(i32::MIN)]);
}

#[test]
fn arithmetic_overflow_is_reported() {
    let mut vm = Vm::new();
    assert_eq!(
        eval_with_codes(vec![num(1), num(i32::MAX), op("+")], &mut vm),
        Err(EvalError::Overflow)
    );
    assert_eq!(vm.stack, vec![num(1), num(i32::MAX)]);

    let mut vm = Vm::new();
    assert_eq!(
        eval_with_codes(vec![num(1), num(i32::MIN), op("-")], &mut vm),
        Err(EvalError::Overflow)
    );

    let mut vm = Vm::new();
    assert_eq!(
        eval_with_codes(vec![num(65536), num(65536), op("*")], &mut vm),
        Err(EvalError::Overflow)
    );
}

#[test]
fn comparisons_push_one_or_zero() {
    let mut vm = new_test(vec![num(1), num(2)]);
    lt(&mut vm).unwrap();
    assert_eq!(vm.stack, vec![num(0)]);

    let mut vm = new_test(vec![num(2), num(1)]);
    lt(&mut vm).unwrap();
    assert_eq!(vm.stack, vec![num(1)]);

    let mut vm = new_test(vec![num(1), num(2)]);
    gt(&mut vm).unwrap();
    assert_eq!(vm.stack, vec![num(1)]);

    let mut vm = new_test(vec![num(2), num(2)]);
    gt(&mut vm).unwrap();
    assert_eq!(vm.stack, vec![num(0)]);

    let vm = new_test(vec![num(3), num(1), op("<"), num(3), num(1), op(">")]);
    assert_eq!(vm.stack, vec![num(1), num(0)]);
}

#[test]
fn stack_underflow_is_reported_and_leaves_the_stack() {
    let mut vm = new_test(vec![num(1)]);
    assert_eq!(add(&mut vm), Err(EvalError::StackUnderflow));
    assert_eq!(vm.stack, vec![num(1)]);
    assert_eq!(op_def(&mut vm), Err(EvalError::StackUnderflow));
    assert_eq!(vm.stack, vec![num(1)]);
    assert_eq!(op_if(&mut vm), Err(EvalError::StackUnderflow));
    assert_eq!(vm.stack, vec![num(1)]);

    let mut vm = Vm::new();
    assert_eq!(op_puts(&mut vm), Err(EvalError::StackUnderflow));
}

#[test]
fn type_mismatch_is_reported_and_leaves_the_stack() {
    let mut vm = new_test(vec![sym("x"), num(2)]);
    assert_eq!(add(&mut vm), Err(EvalError::TypeMismatch));
    assert_eq!(vm.stack, vec![sym("x"), num(2)]);

    let mut vm = new_test(vec![num(1), num(2)]);
    assert_eq!(op_def(&mut vm), Err(EvalError::TypeMismatch));
    assert_eq!(vm.stack, vec![num(1), num(2)]);
}

#[test]
fn unknown_operator_is_reported() {
    let mut vm = Vm::new();
    let result = eval_with_codes(vec![num(1), op("dup")], &mut vm);
    assert_eq!(result, Err(EvalError::UnknownOperator));
    assert_eq!(vm.stack, vec![num(1)]);
}

#[test]
fn unbound_symbol_stands_for_itself() {
    let vm = new_test(vec![sym("tag")]);
    assert_eq!(vm.stack, vec![sym("tag")]);
}

#[test]
fn reserved_name_reads_as_unbound() {
    let mut vm = Vm::new();
    vm.vars.insert("a".to_string(), None);
    eval_with_codes(vec![sym("a"), num(5), op("def"), sym("a")], &mut vm).unwrap();
    assert_eq!(vm.stack, vec![num(5)]);
    assert_eq!(vm.vars.get("a"), Some(&Some(num(5))));
}

#[test]
fn def_replaces_an_earlier_binding() {
    let mut vm = new_test(vec![sym("a"), num(1), op("def")]);
    vm.stack.push(sym("a"));
    vm.stack.push(num(2));
    op_def(&mut vm).unwrap();
    assert_eq!(vm.vars.get("a"), Some(&Some(num(2))));
    assert!(vm.stack.is_empty());
}

#[test]
fn def_of_a_bound_name_sees_its_value() {
    let mut vm = new_test(vec![sym("a"), num(1), op("def")]);
    let result = eval_with_codes(vec![sym("a"), num(2), op("def")], &mut vm);
    assert_eq!(result, Err(EvalError::TypeMismatch));
    assert_eq!(vm.stack, vec![num(1), num(2)]);
    assert_eq!(vm.vars.get("a"), Some(&Some(num(1))));
}

#[test]
fn puts_writes_a_line_and_pops() {
    let mut vm = new_test(vec![num(-42), op("puts"), sym("hello"), op("puts")]);
    assert!(vm.stack.is_empty());
    assert_eq!(vm.output, vec!["-42".to_string(), "hello".to_string()]);

    vm.stack.push(block(vec![num(1)]));
    op_puts(&mut vm).unwrap();
    vm.stack.push(op("+"));
    op_puts(&mut vm).unwrap();
    assert_eq!(vm.output[2], "<block>");
    assert_eq!(vm.output[3], "+");
}

#[test]
fn block_in_a_sequence_is_pushed_whole() {
    let inner = block(vec![num(2), num(3), op("+")]);
    let vm = new_test(vec![num(1), inner.clone()]);
    assert_eq!(vm.stack, vec![num(1), inner.clone()]);

    let mut vm = Vm::new();
    assert_eq!(eval_impl(&inner, &mut vm, 0), Ok(()));
    assert_eq!(vm.stack, vec![inner]);
}

#[test]
fn program_runs_its_items_and_pushes_the_blocks_among_them() {
    let inner = block(vec![num(2), num(3), op("+")]);
    let mut vm = Vm::new();
    eval_with_block(block(vec![num(1), inner.clone(), op("puts")]), &mut vm).unwrap();
    assert_eq!(vm.stack, vec![num(1)]);
    assert_eq!(vm.output, vec!["<block>".to_string()]);

    let mut vm = Vm::new();
    assert_eq!(
        eval_with_block(block(vec![num(1), inner.clone(), num(4), op("+")]), &mut vm),
        Err(EvalError::TypeMismatch)
    );
    assert_eq!(vm.stack, vec![num(1), inner, num(4)]);
}

#[test]
fn if_does_not_run_the_branch_it_does_not_choose() {
    let vm = new_test(vec![
        num(0),
        block(vec![num(1), num(2)]),
        block(vec![num(3)]),
        op("if"),
    ]);
    assert_eq!(vm.stack, vec![num(3)]);

    let vm = new_test(vec![
        num(1),
        block(vec![num(10), op("puts")]),
        block(vec![num(20), op("puts")]),
        op("if"),
    ]);
    assert!(vm.stack.is_empty());
    assert_eq!(vm.output, vec!["10".to_string()]);

    let vm = new_test(vec![
        block(vec![num(1), num(2), op(">")]),
        block(vec![num(10), op("puts")]),
        block(vec![op("+")]),
        op("if"),
    ]);
    assert!(vm.stack.is_empty());
    assert_eq!(vm.output, vec!["10".to_string()]);
}

#[test]
fn if_condition_block_may_leave_several_values_or_none() {
    let vm = new_test(vec![
        block(vec![num(7), num(0), num(5)]),
        block(vec![num(1)]),
        block(vec![num(2)]),
        op("if"),
    ]);
    assert_eq!(vm.stack, vec![num(7), num(0), num(1)]);

    let mut vm = Vm::new();
    let result = eval_with_codes(
        vec![block(vec![]), block(vec![num(1)]), block(vec![num(2)]), op("if")],
        &mut vm,
    );
    assert_eq!(result, Err(EvalError::StackUnderflow));
    assert!(vm.stack.is_empty());
}

#[test]
fn def_binds_a_block_whole_and_if_runs_it() {
    let mut vm = Vm::new();
    run_line("/double { 2 * } def", &mut vm).unwrap();
    assert_eq!(vm.vars.get("double"), Some(&Some(block(vec![num(2), op("*")]))));
    assert!(vm.stack.is_empty());
    run_line("21 1 double { } if", &mut vm).unwrap();
    assert_eq!(vm.stack, vec![num(42)]);
    run_line("0 double { 1 + } if", &mut vm).unwrap();
    assert_eq!(vm.stack, vec![num(43)]);
}

#[test]
fn eval_with_block_runs_a_bare_value_as_a_block_of_itself() {
    let mut vm = Vm::new();
    eval_with_block(num(9), &mut vm).unwrap();
    eval_with_block(block(vec![num(1), num(2)]), &mut vm).unwrap();
    assert_eq!(vm.stack, vec![num(9), num(1), num(2)]);
}

#[test]
fn failure_keeps_what_ran_before_it() {
    let mut vm = Vm::new();
    let result = eval_with_codes(
        vec![sym("a"), num(1), op("def"), num(7), op("puts"), op("+"), num(3)],
        &mut vm,
    );
    assert_eq!(result, Err(EvalError::StackUnderflow));
    assert!(vm.stack.is_empty());
    assert_eq!(vm.vars.get("a"), Some(&Some(num(1))));
    assert_eq!(vm.output, vec!["7".to_string()]);
}

#[test]
fn if_with_blocks_on_the_stack_runs_only_the_chosen_branch() {
    let mut vm = Vm::new();
    vm.stack.push(block(vec![num(2), num(1), op("<")]));
    vm.stack.push(block(vec![num(10), op("puts")]));
    vm.stack.push(block(vec![num(20), op("puts")]));
    op_if(&mut vm).unwrap();
    assert!(vm.stack.is_empty());
    assert_eq!(vm.output, vec!["10".to_string()]);
}

#[test]
fn if_condition_without_a_number_fails_after_the_condition_ran() {
    let mut vm = Vm::new();
    vm.stack.push(num(5));
    vm.stack.push(block(vec![op("puts")]));
    vm.stack.push(num(1));
    vm.stack.push(num(2));
    assert_eq!(op_if(&mut vm), Err(EvalError::StackUnderflow));
    assert!(vm.stack.is_empty());
    assert_eq!(vm.output, vec!["5".to_string()]);

    let mut vm = Vm::new();
    vm.stack.push(sym("x"));
    vm.stack.push(num(1));
    vm.stack.push(num(2));
    assert_eq!(op_if(&mut vm), Err(EvalError::TypeMismatch));
    assert_eq!(vm.stack, vec![sym("x")]);
}

#[test]
fn nested_blocks_are_one_operand() {
    let mut code = block(vec![num(1)]);
    for _ in 0..100 {
        code = block(vec![num(0), code]);
    }
    let vm = new_test(vec![code.clone()]);
    assert_eq!(vm.stack, vec![code]);
}

#[test]
fn ifs_inside_branches_nest() {
    let mut vm = Vm::new();
    run_line("1 { 0 { 10 } { 1 { 20 } { 30 } if } if } { 40 } if", &mut vm).unwrap();
    assert_eq!(vm.stack, vec![num(20)]);
}

/// A machine in which `b0` is bound to a block that pushes 42, and each
/// `b<k>` to a block that runs `b<k-1>` through an `if`.
fn chain(length: usize) -> Vm {
    let mut vm = Vm::new();
    vm.vars.insert("b0".to_string(), Some(block(vec![num(42)])));
    for k in 1..=length {
        let below = format!("b{}", k - 1);
        let body = block(vec![num(1), sym(&below), sym(&below), op("if")]);
        vm.vars.insert(format!("b{}", k), Some(body));
    }
    vm
}

#[test]
fn ifs_nest_up_to_the_limit() {
    let mut vm = chain(MAX_DEPTH - 1);
    let top = format!("b{}", MAX_DEPTH - 1);
    let result = eval_with_codes(vec![num(1), sym(&top), sym(&top), op("if")], &mut vm);
    assert_eq!(result, Ok(()));
    assert_eq!(vm.stack, vec![num(42)]);
}

#[test]
fn ifs_nested_past_the_limit_are_reported() {
    let mut vm = chain(MAX_DEPTH);
    let top = format!("b{}", MAX_DEPTH);
    let result = eval_with_codes(vec![num(1), sym(&top), sym(&top), op("if")], &mut vm);
    assert_eq!(result, Err(EvalError::DepthExceeded));
    assert_eq!(vm.stack, vec![num(1), block(vec![num(42)]), block(vec![num(42)])]);
}

#[test]
fn a_block_that_reruns_itself_is_stopped() {
    let mut vm = Vm::new();
    let body = block(vec![num(1), sym("f"), sym("f"), op("if")]);
    vm.vars.insert("f".to_string(), Some(body));
    let result = eval_with_codes(vec![num(1), sym("f"), sym("f"), op("if")], &mut vm);
    assert_eq!(result, Err(EvalError::DepthExceeded));
}

#[test]
fn lines_share_one_session() {
    let mut vm = Vm::new();
    run_line("/x 10 def", &mut vm).unwrap();
    run_line("/y 3 def", &mut vm).unwrap();
    run_line("y x -", &mut vm).unwrap();
    assert_eq!(vm.stack, vec![num(7)]);
    run_line("{ x y < } { 1 } { 2 } if", &mut vm).unwrap();
    assert_eq!(vm.stack, vec![num(7), num(1)]);
    run_line("{ x y > } { 1 } { 2 } if", &mut vm).unwrap();
    assert_eq!(vm.stack, vec![num(7), num(1), num(2)]);
    run_line("* *", &mut vm).unwrap();
    assert_eq!(vm.stack, vec![num(14)]);
    assert_eq!(run_line("+", &mut vm), Err(EvalError::StackUnderflow));
    assert_eq!(vm.stack, vec![num(14)]);
    run_line("x puts", &mut vm).unwrap();
    assert_eq!(vm.output, vec!["10".to_string()]);
}

#[test]
fn new_vm_is_empty() {
    let vm = Vm::new();
    assert!(vm.stack.is_empty());
    assert!(vm.vars.is_empty());
    assert!(vm.blocks.is_empty());
    assert!(vm.output.is_empty());
}

#[test]
fn eval_line_runs_a_line_of_text() {
    let mut vm = Vm::new();
    assert_eq!(eval_line("/a 4 def  2 a *\tputs { a }", &mut vm), Ok(()));
    assert_eq!(vm.output, vec!["8".to_string()]);
    assert_eq!(vm.stack, vec![block(vec![sym("a")])]);
    assert_eq!(eval_line("puts", &mut vm), Ok(()));
    assert_eq!(vm.output, vec!["8".to_string(), "<block>".to_string()]);
    assert_eq!(eval_line("", &mut vm), Ok(()));
    assert_eq!(eval_line("a 1 -", &mut vm), Ok(()));
    assert_eq!(vm.stack, vec![num(-3)]);
}

#[test]
fn eval_line_reports_what_went_wrong() {
    let mut vm = Vm::new();
    vm.stack.push(num(1));
    let error = eval_line("2 3 } 4", &mut vm).unwrap_err();
    assert_eq!(
        error,
        LineError::Parse(ParseError::UnmatchedBrackets("Unmatched '}'".to_string()))
    );
    assert_eq!(error.to_string(), "Unmatched '}'");
    assert_eq!(vm.stack, vec![num(1)]);

    let error = eval_line("5 0 1 / 7", &mut vm).unwrap_err();
    assert_eq!(error, LineError::Eval(EvalError::DivisionByZero));
    assert_eq!(error.to_string(), "division by zero");
    assert_eq!(vm.stack, vec![num(1), num(5), num(0), num(1)]);
}

#[test]
fn each_failure_has_its_message() {
    assert_eq!(EvalError::StackUnderflow.to_string(), "stack underflow");
    assert_eq!(EvalError::TypeMismatch.to_string(), "type mismatch");
    assert_eq!(EvalError::DivisionByZero.to_string(), "division by zero");
    assert_eq!(EvalError::Overflow.to_string(), "arithmetic overflow");
    assert_eq!(EvalError::UnknownOperator.to_string(), "unknown operator");
    assert_eq!(EvalError::DepthExceeded.to_string(), "conditionals nested too deep");
}

#[test]
fn depth_counts_the_ifs_under_way() {
    let mut vm = Vm::new();
    assert_eq!(eval_impl(&num(1), &mut vm, 0), Ok(()));
    assert_eq!(eval_sequence(&vec![num(2), num(3)], &mut vm, 0), Ok(()));
    assert_eq!(eval_sequence(&vec![num(5), op("+")], &mut vm, 0), Ok(()));
    assert_eq!(vm.stack, vec![num(1), num(2), num(8)]);

    assert_eq!(op_if_within(&mut vm, 0), Err(EvalError::DepthExceeded));
    assert_eq!(eval_impl(&op("if"), &mut vm, 0), Err(EvalError::DepthExceeded));
    assert_eq!(vm.stack, vec![num(1), num(2), num(8)]);
    assert_eq!(op_if_within(&mut vm, 1), Ok(()));
    assert_eq!(vm.stack, vec![num(2)]);

    vm.stack = vec![num(1), block(vec![num(1), num(7), num(8), op("if")]), num(9)];
    assert_eq!(op_if_within(&mut vm, 1), Err(EvalError::DepthExceeded));
    assert_eq!(vm.stack, vec![num(1), num(7), num(8)]);
    vm.stack = vec![num(1), block(vec![num(1), num(7), num(8), op("if")]), num(9)];
    assert_eq!(op_if_within(&mut vm, 2), Ok(()));
    assert_eq!(vm.stack, vec![num(7)]);
}
