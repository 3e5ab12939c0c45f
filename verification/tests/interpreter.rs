use regatelisp::interpreter::Interpreter;
use regatelisp::value::Value;
use regatelisp::LispError;

#[test]
fn print_writes_to_captured_output() {
    let mut interp = Interpreter::new(String::new());
    interp.eval_source(r#"(print "hello")"#).unwrap();
    assert_eq!(interp.output(), "hello");
}

#[test]
fn output_and_eval_results_stay_in_order() {
    let mut interp = Interpreter::new(String::new());
    let values = interp.eval_source("(print \"a\")\n(print \"b\")\n(+ 1 2)").unwrap();
    assert_eq!(interp.output(), "ab");
    assert_eq!(values.len(), 3);
}

#[test]
fn definitions_persist_across_forms() {
    let mut interp = Interpreter::new(String::new());
    let values = interp.eval_source("(def square (fn (x) (* x x))) (square 7)").unwrap();
    assert!(matches!(values[1], Value::Int(49)));
}

#[test]
fn for_uses_an_earlier_integer_def_as_its_bound() {
    let mut interp = Interpreter::new(String::new());
    interp.eval_source("(def n 3) (for (i 0 n) (print \"{}\" i))").unwrap();
    assert_eq!(interp.output(), "012");
}

#[test]
fn quote_gives_data_and_quasiquote_fills_it_in() {
    let mut interp = Interpreter::new(String::new());
    let values = interp.eval_source("(quote (a b)) (quasiquote (x (unquote (+ 1 2))))").unwrap();
    assert!(matches!(&values[0], Value::Datum(d) if d.display_text() == "(a b)"));
    assert!(matches!(&values[1], Value::Datum(d) if d.display_text() == "(x 3)"));
}

#[test]
fn output_printed_before_a_failure_is_kept() {
    let mut interp = Interpreter::new(String::new());
    let result = interp.eval_source("(print \"x\") (/ 1 0)");
    assert!(matches!(result, Err(LispError::Eval(_))));
    assert_eq!(interp.output(), "x");
}

#[test]
fn into_output_hands_back_everything_printed() {
    let mut interp = Interpreter::new(String::from(">"));
    interp.eval_source("(print \"a\")").unwrap();
    assert_eq!(interp.into_output(), ">a");
}
