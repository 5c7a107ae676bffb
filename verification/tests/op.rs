use rustack::op::{add, div, mul, op_if, sub, Binary, Operator};
use rustack::error::EvalError;
use rustack::parse::Value;
use rustack::vm::Vm;

fn from_code(code: Vec<Value>) -> Vm {
    let mut vm = Vm::new();
    vm.stack = code;
    vm
}

#[test]
fn op_test_add() {
    let mut vm = from_code(vec![Value::Num(1), Value::Num(2)]);
    add(&mut vm).unwrap();
    assert_eq!(vm.stack, vec![Value::Num(3)]);
}

#[test]
fn op_test_sub() {
    let mut vm = from_code(vec![Value::Num(1), Value::Num(2)]);
    sub(&mut vm).unwrap();
    assert_eq!(vm.stack, vec![Value::Num(1)]);
}

#[test]
fn op_test_mul() {
    let mut vm = from_code(vec![Value::Num(2), Value::Num(3)]);
    mul(&mut vm).unwrap();
    assert_eq!(vm.stack, vec![Value::Num(6)]);
}

#[test]
fn op_test_div() {
    let mut vm = from_code(vec![Value::Num(3), Value::Num(6)]);
    div(&mut vm).unwrap();
    assert_eq!(vm.stack, vec![Value::Num(2)]);
}

#[test]
fn op_test_op_if_true() {
    {
        let mut vm = from_code(vec![
            Value::Block(vec![Value::Num(1)]),
            Value::Block(vec![Value::Num(2)]),
            Value::Block(vec![Value::Num(1)]),
        ]);
        op_if(&mut vm).unwrap();
        assert_eq!(vm.stack, vec![Value::Num(2)]);
    }
}

#[test]
fn op_test_op_if_false() {
    {
        let mut vm = from_code(vec![
            Value::Block(vec![Value::Num(0)]),
            Value::Block(vec![Value::Num(2)]),
            Value::Block(vec![Value::Num(1)]),
        ]);
        op_if(&mut vm).unwrap();
        assert_eq!(vm.stack, vec![Value::Num(1)]);
    }
}

#[test]
fn lookup_knows_the_nine_keywords_and_no_other() {
    assert_eq!(Operator::lookup("+"), Some(Operator::Binary(Binary::Add)));
    assert_eq!(Operator::lookup("-"), Some(Operator::Binary(Binary::Sub)));
    assert_eq!(Operator::lookup("*"), Some(Operator::Binary(Binary::Mul)));
    assert_eq!(Operator::lookup("/"), Some(Operator::Binary(Binary::Div)));
    assert_eq!(Operator::lookup("<"), Some(Operator::Binary(Binary::Lt)));
    assert_eq!(Operator::lookup(">"), Some(Operator::Binary(Binary::Gt)));
    assert_eq!(Operator::lookup("if"), Some(Operator::If));
    assert_eq!(Operator::lookup("def"), Some(Operator::Def));
    assert_eq!(Operator::lookup("puts"), Some(Operator::Puts));
    for word in ["", "++", "If", "iff", "i", "put", "define", "{", "}", "=", "é"] {
        assert_eq!(Operator::lookup(word), None);
    }
}

#[test]
fn apply_computes_each_primitive() {
    assert_eq!(Binary::Add.apply(2, 3), Ok(5));
    assert_eq!(Binary::Sub.apply(2, 3), Ok(-1));
    assert_eq!(Binary::Mul.apply(-4, 3), Ok(-12));
    assert_eq!(Binary::Div.apply(-7, 2), Ok(-3));
    assert_eq!(Binary::Div.apply(7, -2), Ok(-3));
    assert_eq!(Binary::Div.apply(0, 5), Ok(0));
    assert_eq!(Binary::Lt.apply(2, 3), Ok(1));
    assert_eq!(Binary::Lt.apply(3, 3), Ok(0));
    assert_eq!(Binary::Gt.apply(3, 2), Ok(1));
    assert_eq!(Binary::Gt.apply(2, 3), Ok(0));
    assert_eq!(Binary::Div.apply(1, 0), Err(EvalError::DivisionByZero));
    assert_eq!(Binary::Div.apply(i32::MIN, -1), Err(EvalError::Overflow));
    assert_eq!(Binary::Add.apply(i32::MAX, 1), Err(EvalError::Overflow));
    assert_eq!(Binary::Sub.apply(i32::MIN, 1), Err(EvalError::Overflow));
    assert_eq!(Binary::Mul.apply(i32::MIN, -1), Err(EvalError::Overflow));
}
