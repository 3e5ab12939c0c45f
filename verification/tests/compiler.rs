use regatelisp::compiler::Compiler;

#[test]
fn constant_arithmetic_def_is_foldable() {
    let mut compiler = Compiler::new();
    compiler.compile_source("(def count (+ 2 2))").unwrap();
    let result = compiler.compile_source("(for (i 0 count) i)");
    assert!(result.is_ok());
}

#[test]
fn print_def_is_not_foldable() {
    let mut compiler = Compiler::new();
    compiler.compile_source(r#"(def count (print "4"))"#).unwrap();
    let result = compiler.compile_source("(for (i 0 count) i)");
    assert!(result.is_err());
}

#[test]
fn function_call_def_is_not_foldable() {
    let mut compiler = Compiler::new();
    compiler.compile_source("(def count ((fn () 4)))").unwrap();
    let result = compiler.compile_source("(for (i 0 count) i)");
    assert!(result.is_err());
}

#[test]
fn loop_def_is_not_foldable() {
    let mut compiler = Compiler::new();
    compiler.compile_source("(def count (loop (i 0 4) i))").unwrap();
    let result = compiler.compile_source("(for (i 0 count) i)");
    assert!(result.is_err());
}

#[test]
fn compile_source_never_produces_output() {
    let mut compiler = Compiler::new();
    let result = compiler.compile_source(r#"(print "must-not-run\n")"#);
    assert!(result.is_ok());
}

#[test]
fn redefined_operator_is_not_folded() {
    let mut compiler = Compiler::new();
    compiler.compile_source("(def + 5)").unwrap();
    compiler.compile_source("(def count (+ 1 2))").unwrap();
    assert!(compiler.compile_source("(for (i 0 count) i)").is_err());
}

#[test]
fn later_integer_def_replaces_the_constant() {
    let mut compiler = Compiler::new();
    compiler.compile_source("(def count 3)").unwrap();
    compiler.compile_source("(def count 4)").unwrap();
    let lowered = compiler.compile_source("(for (i 0 count) i)").unwrap();
    assert_eq!(lowered.len(), 1);
}
