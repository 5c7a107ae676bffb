use rustack::error::EvalError;
use rustack::stack::{add, div, mul, sub};

#[test]
fn stack_add_replaces_the_top_two() {
    let mut stack = vec![10, 1, 2];
    add(&mut stack).unwrap();
    assert_eq!(stack, vec![10, 3]);
}

#[test]
fn stack_sub_takes_the_top_as_left_operand() {
    let mut stack = vec![1, 2];
    sub(&mut stack).unwrap();
    assert_eq!(stack, vec![1]);
}

#[test]
fn stack_mul_multiplies() {
    let mut stack = vec![2, 3];
    mul(&mut stack).unwrap();
    assert_eq!(stack, vec![6]);
}

#[test]
fn stack_div_takes_the_top_as_dividend() {
    let mut stack = vec![3, 6];
    div(&mut stack).unwrap();
    assert_eq!(stack, vec![2]);

    let mut stack = vec![2, -7];
    div(&mut stack).unwrap();
    assert_eq!(stack, vec![-3]);
}

#[test]
fn stack_failures_leave_the_stack() {
    let mut stack = vec![1];
    assert_eq!(add(&mut stack), Err(EvalError::StackUnderflow));
    assert_eq!(stack, vec![1]);

    let mut stack: Vec<i32> = vec![];
    assert_eq!(mul(&mut stack), Err(EvalError::StackUnderflow));

    let mut stack = vec![0, 1];
    assert_eq!(div(&mut stack), Err(EvalError::DivisionByZero));
    assert_eq!(stack, vec![0, 1]);

    let mut stack = vec![-1, i32::MIN];
    assert_eq!(div(&mut stack), Err(EvalError::Overflow));
    assert_eq!(stack, vec![-1, i32::MIN]);

    let mut stack = vec![1, i32::MAX];
    assert_eq!(add(&mut stack), Err(EvalError::Overflow));
    assert_eq!(stack, vec![1, i32::MAX]);

    let mut stack = vec![1, i32::MIN];
    assert_eq!(sub(&mut stack), Err(EvalError::Overflow));

    let mut stack = vec![2, i32::MAX];
    assert_eq!(mul(&mut stack), Err(EvalError::Overflow));
}
