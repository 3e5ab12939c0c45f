use regatelisp::ast::Expr;
use regatelisp::error::{LispError, MacroExpandError};
use regatelisp::macro_expand::{expand_program, MacroExpansionLimits, MacroExpansionSession};
use regatelisp::parser::parse_program;
use regatelisp::property::PropertyValue;

#[test]
fn collects_forward_definition_and_expands_call() {
    let source = "(inc 4) (defmacro inc (x) (quasiquote (+ (unquote x) 1)))";
    let expressions = parse_program(source).unwrap();
    let (expanded, _) = expand_program(&expressions, 0).unwrap();
    assert_eq!(expanded.len(), 1);
    assert_eq!(expanded[0].display_text(), "(+ 4 1)");
}

#[test]
fn quote_shields_macro_calls() {
    let source = "(defmacro one () (quote 1)) (quote (one))";
    let expressions = parse_program(source).unwrap();
    let (expanded, _) = expand_program(&expressions, 0).unwrap();
    assert_eq!(expanded[0].display_text(), "(quote (one))");
}

#[test]
fn rejects_non_datum_result() {
    let source = "(defmacro bad () 1) (bad)";
    let expressions = parse_program(source).unwrap();
    let error = expand_program(&expressions, 0).unwrap_err();
    assert!(matches!(error, LispError::Macro(MacroExpandError::MacroResultIsNotDatum { .. })));
}

#[test]
fn recursive_expansion_stops_at_the_depth_limit() {
    let expressions = parse_program("(defmacro forever () (quasiquote (forever))) (forever)").unwrap();
    let mut session = MacroExpansionSession::with_limits(0, MacroExpansionLimits { max_depth: 4, max_invocations: 100 });
    let error = session.expand_program(&expressions).unwrap_err();
    assert!(matches!(
        error,
        MacroExpandError::MacroExpansionDepthExceeded { stack } if stack.len() == 4
    ));
}

#[test]
fn separate_calls_share_the_invocation_budget() {
    let expressions = parse_program("(defmacro one () (quote 1)) (one) (one) (one)").unwrap();
    let mut session = MacroExpansionSession::with_limits(0, MacroExpansionLimits { max_depth: 100, max_invocations: 2 });
    assert!(matches!(session.expand_program(&expressions), Err(MacroExpandError::MacroExpansionBudgetExceeded { .. })));
}

#[test]
fn duplicate_definitions_are_rejected() {
    let expressions = parse_program("(defmacro m () (quote 1)) (defmacro m () (quote 2))").unwrap();
    let error = expand_program(&expressions, 0).unwrap_err();
    assert!(matches!(error, LispError::Macro(MacroExpandError::DuplicateMacroDefinition(name)) if name == "m"));
}

#[test]
fn reserved_names_cannot_be_macros() {
    let expressions = parse_program("(defmacro if (a) a)").unwrap();
    let error = expand_program(&expressions, 0).unwrap_err();
    assert!(matches!(error, LispError::Macro(MacroExpandError::ReservedMacroName(name)) if name == "if"));
}

#[test]
fn duplicate_parameters_are_rejected() {
    let expressions = parse_program("(defmacro m (a a) a)").unwrap();
    let error = expand_program(&expressions, 0).unwrap_err();
    assert!(matches!(error, LispError::Macro(MacroExpandError::DuplicateMacroParameter(name)) if name == "a"));
}

#[test]
fn macro_bodies_may_not_print() {
    let expressions = parse_program("(defmacro m () (print \"x\"))").unwrap();
    let error = expand_program(&expressions, 0).unwrap_err();
    assert!(matches!(error, LispError::Macro(MacroExpandError::ForbiddenMacroOperation(name)) if name == "print"));
}

#[test]
fn definitions_inside_other_forms_are_rejected() {
    let expressions = parse_program("(do (defmacro m () (quote 1)))").unwrap();
    let error = expand_program(&expressions, 0).unwrap_err();
    assert!(matches!(error, LispError::Macro(MacroExpandError::NestedMacroDefinition)));
}

#[test]
fn malformed_definition_is_rejected() {
    let expressions = parse_program("(defmacro m)").unwrap();
    let error = expand_program(&expressions, 0).unwrap_err();
    assert!(matches!(error, LispError::Macro(MacroExpandError::InvalidMacroDefinition)));
}

#[test]
fn arity_mismatch_is_reported() {
    let expressions = parse_program("(defmacro m (a) (quote 1)) (m)").unwrap();
    let error = expand_program(&expressions, 0).unwrap_err();
    assert!(matches!(
        error,
        LispError::Macro(MacroExpandError::MacroArityMismatch { expected: 1, got: 0, .. })
    ));
}

#[test]
fn programs_without_macros_come_back_unchanged() {
    let expressions = parse_program("(+ 1 2) (quote (a b)) x").unwrap();
    let (expanded, next) = expand_program(&expressions, 7).unwrap();
    assert_eq!(expanded, expressions);
    assert_eq!(next, 7);
}

#[test]
fn argument_properties_survive_expansion() {
    let mut expressions = parse_program("(defmacro id (x) (quasiquote (unquote x)))").unwrap();
    let argument = Expr::symbol("y").with_property("width", PropertyValue::Int(8));
    expressions.push(Expr::list(vec![Expr::symbol("id"), argument]));
    let (expanded, _) = expand_program(&expressions, 0).unwrap();
    assert_eq!(expanded[0].display_text(), "y");
    assert_eq!(expanded[0].get_property("width"), Some(&PropertyValue::Int(8)));
}
