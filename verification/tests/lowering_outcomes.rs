use regatelisp::compiler::Compiler;
use regatelisp::error::LowerError;
use regatelisp::interpreter::Interpreter;
use regatelisp::value::Value;
use regatelisp::LispError;

fn lowering_error(source: &str) -> LowerError {
    let mut compiler = Compiler::new();
    match compiler.compile_source(source) {
        Err(LispError::Lower(e)) => e,
        other => panic!("expected a lowering error for {source}, got {other:?}"),
    }
}

#[test]
fn well_formed_forms_compile() {
    let sources = [
        "(def f (fn (a b) (let ((x a) (y b)) (loop (i 0 3) (if (= i 1) (break x) y)))))",
        "(loop ((a 1) (b 2)) (while (< a 10)) (next ((a (+ a b)) (b b))) (do (print \"{}\" a)))",
        "(do 1 2 (gensym) (gensym \"p\"))",
        "(quasiquote (1 (unquote (+ 1 2)) (quote x)))",
        "(def g (fn () (fn (y) y)))",
    ];
    for source in sources {
        let mut compiler = Compiler::new();
        let result = compiler.compile_source(source);
        assert!(result.is_ok(), "{source}: {result:?}");
    }
}

#[test]
fn malformed_forms_report_which_rule_they_break() {
    assert_eq!(lowering_error("(fn (x x) x)"), LowerError::DuplicateParameter("x".to_string()));
    assert_eq!(lowering_error("(let ((x 1) (x 2)) x)"), LowerError::DuplicateBinding("x".to_string()));
    assert_eq!(
        lowering_error("(loop ((a 1) (a 2)) (while true) (next ((a 1) (a 2))) (do a))"),
        LowerError::DuplicateLoopState("a".to_string())
    );
    assert_eq!(lowering_error("(break 1)"), LowerError::BreakOutsideRuntimeLoop);
    assert_eq!(lowering_error("(fn (x) (loop (i 0 2) (fn () (break))))"), LowerError::BreakOutsideRuntimeLoop);
    assert_eq!(lowering_error("(if true 1)"), LowerError::InvalidCoreForm);
    assert_eq!(lowering_error("(let (x 1) x)"), LowerError::InvalidCoreForm);
    assert_eq!(lowering_error("(do (def x 1))"), LowerError::DefOutsideDirectTopLevel);
    assert_eq!(lowering_error("(def let 1)"), LowerError::ReservedDefinitionName("let".to_string()));
}

#[test]
fn a_failed_form_keeps_the_functions_of_earlier_forms_only() {
    let mut compiler = Compiler::new();
    let result = compiler.compile_source("(def g (fn () 1)) (def h (fn (x x) x))");
    assert!(matches!(result, Err(LispError::Lower(LowerError::DuplicateParameter(ref n))) if n == "x"));
    assert_eq!(compiler.module().functions.len(), 1);
}

#[test]
fn general_loop_updates_name_the_states_in_order() {
    let mut compiler = Compiler::new();
    let swapped = compiler.compile_source("(loop ((a 1) (b 2)) (while false) (next ((b 1) (a 2))) (do 0))");
    assert!(matches!(swapped, Err(LispError::Lower(LowerError::InvalidCoreForm))));
    let mut interpreter = Interpreter::new(String::new());
    let result = interpreter.eval_source("(loop ((a 1) (b 2)) (while (< a 5)) (next ((a (+ a b)) (b b))) (do a))");
    let values = result.unwrap();
    assert_eq!(values.len(), 1);
    assert!(matches!(values[0], Value::Unit));
}

#[test]
fn forms_without_macro_calls_come_through_expansion_unchanged() {
    let source = "(defmacro twice (x) (quasiquote (do (unquote x) (unquote x)))) (+ 1 2) (twice (print \"a\")) (let ((y 3)) (* y y))";
    let expressions = regatelisp::parse_program(source).unwrap();
    let (expanded, _) = regatelisp::macro_expand::expand_program(&expressions, 0).unwrap();
    assert_eq!(expanded.len(), 3);
    assert_eq!(expanded[0].display_text(), "(+ 1 2)");
    assert_eq!(expanded[1].display_text(), "(do (print \"a\") (print \"a\"))");
    assert_eq!(expanded[2].display_text(), "(let ((y 3)) (* y y))");
}
