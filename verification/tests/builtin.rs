use regatelisp::builtin::apply_builtin;
use regatelisp::error::EvalError;
use regatelisp::value::{Builtin, Value};
use std::rc::Rc;

fn out() -> String {
    String::new()
}

#[test]
fn add_two_ints() {
    let mut o = out();
    let result = apply_builtin(Builtin::Add, &[Value::Int(1), Value::Int(2)], &mut o).unwrap();
    assert!(matches!(result, Value::Int(3)));
}

#[test]
fn remainder_signs_follow_dividend() {
    let mut o = out();
    let cases = [(7, 3, 1), (-7, 3, -1), (7, -3, 1), (-7, -3, -1)];
    for (a, b, expected) in cases {
        let result = apply_builtin(Builtin::Rem, &[Value::Int(a), Value::Int(b)], &mut o).unwrap();
        assert!(matches!(result, Value::Int(n) if n == expected));
    }
}

#[test]
fn builtin_remainder_by_zero_is_error() {
    let mut o = out();
    let result = apply_builtin(Builtin::Rem, &[Value::Int(10), Value::Int(0)], &mut o);
    assert!(matches!(result, Err(EvalError::DivisionByZero)));
}

#[test]
fn builtin_remainder_overflow_is_error() {
    let mut o = out();
    let result = apply_builtin(Builtin::Rem, &[Value::Int(i64::MIN), Value::Int(-1)], &mut o);
    assert!(matches!(result, Err(EvalError::IntegerOverflow)));
}

#[test]
fn print_writes_to_output_and_returns_unit() {
    let mut o = out();
    let result = apply_builtin(Builtin::Print, &[Value::String(Rc::new("hello".to_string()))], &mut o).unwrap();
    assert!(matches!(result, Value::Unit));
    assert_eq!(o, "hello");
}

#[test]
fn print_first_argument_must_be_string() {
    let mut o = out();
    let result = apply_builtin(Builtin::Print, &[Value::Int(123)], &mut o);
    assert!(matches!(result, Err(EvalError::NonStringFormatArgument)));
}

#[test]
fn print_error_leaves_output_untouched() {
    let mut o = out();
    let result = apply_builtin(Builtin::Print, &[Value::String(Rc::new("{} {}".to_string())), Value::Int(10)], &mut o);
    assert!(result.is_err());
    assert!(o.is_empty());
}

#[test]
fn division_truncates_toward_zero() {
    let mut o = out();
    let result = apply_builtin(Builtin::Div, &[Value::Int(-7), Value::Int(2)], &mut o).unwrap();
    assert!(matches!(result, Value::Int(-3)));
}
