use regatelisp::globals::GlobalRegistry;
use regatelisp::ir::IrModule;
use regatelisp::messages::lisp_error_message;
use regatelisp::{expand, format_ir_module, format_top_level, lower_top_level, parse_one, parse_program, tokenize, verify_top_level};
use regatelisp::{EvalError, LispError, RuntimeConstants, GlobalStore};
use regatelisp::expand::ExpansionContext;

#[test]
fn top_level_pipeline_lowers_verifies_and_formats() {
    let mut globals = GlobalRegistry::new();
    let mut module = IrModule::new();
    let store = GlobalStore::new();
    let expr = parse_one("(def square (fn (x) (* x x)))").unwrap();
    let core = {
        let registry = GlobalRegistry::new();
        let constants = RuntimeConstants { registry: &registry, store: &store };
        let mut context = ExpansionContext::new(&constants);
        expand(&expr, &mut context).unwrap()
    };
    let top = lower_top_level(&core, &mut globals, &mut module).unwrap();
    assert_eq!(module.functions.len(), 1);
    assert!(verify_top_level(&top, &module, &globals).is_ok());
    let module_text = format_ir_module(&module, &globals);
    assert!(module_text.contains("fn#0"));
    let top_text = format_top_level(&top, &module, &globals);
    assert!(!top_text.is_empty());
}

#[test]
fn tokenize_reports_lex_errors_as_lisp_errors() {
    assert!(matches!(tokenize("\"open"), Err(LispError::Lex(_))));
    assert_eq!(tokenize("(a)").unwrap().len(), 3);
}

#[test]
fn programs_parse_into_forms() {
    assert_eq!(parse_program("1 2 3").unwrap().len(), 3);
}

#[test]
fn error_messages_read_like_the_display_text() {
    assert_eq!(lisp_error_message(&LispError::Eval(EvalError::DivisionByZero)), "eval error: division by zero");
    assert_eq!(
        lisp_error_message(&LispError::Eval(EvalError::WrongArgCount { expected: 2, got: 3 })),
        "eval error: wrong number of arguments: expected 2, got 3"
    );
    assert_eq!(
        lisp_error_message(&parse_one("(").unwrap_err()),
        "parse error: unmatched opening parenthesis at byte 0"
    );
}

#[test]
fn lowering_failure_leaves_the_module_alone() {
    let mut globals = GlobalRegistry::new();
    let mut module = IrModule::new();
    let store = GlobalStore::new();
    let expr = parse_one("(break 1)").unwrap();
    let registry = GlobalRegistry::new();
    let constants = RuntimeConstants { registry: &registry, store: &store };
    let mut context = ExpansionContext::new(&constants);
    let core = expand(&expr, &mut context).unwrap();
    assert!(lower_top_level(&core, &mut globals, &mut module).is_err());
    assert!(module.functions.is_empty());
}
