use regatelisp::ast::Expr;
use regatelisp::core_expr::CoreExpr;
use regatelisp::error::ExpandError;
use regatelisp::expand::{expand, ExpansionContext, ExpansionLimits};
use regatelisp::globals::{GlobalRegistry, GlobalStore, RuntimeConstants};
use regatelisp::parser::parse_one;
use regatelisp::property::PropertyValue;
use regatelisp::value::Value;

/// A name-to-integer constant source for the expander: a registry of names
/// and the values bound to them.
struct TestConstants {
    registry: GlobalRegistry,
    store: GlobalStore,
}

impl TestConstants {
    fn with(pairs: &[(&str, i64)]) -> Self {
        let mut registry = GlobalRegistry::new();
        let mut store = GlobalStore::new();
        for (name, value) in pairs {
            let id = registry.intern(name);
            store.define(id, Value::Int(*value));
        }
        TestConstants { registry, store }
    }

    fn source(&self) -> RuntimeConstants<'_> {
        RuntimeConstants { registry: &self.registry, store: &self.store }
    }
}

fn expand_source(source: &str) -> Result<CoreExpr, ExpandError> {
    let constants = TestConstants::with(&[]);
    let source_constants = constants.source();
    let expr = parse_one(source).expect("should parse");
    let mut context = ExpansionContext::new(&source_constants);
    expand(&expr, &mut context)
}

#[test]
fn non_for_expressions_pass_through_structurally() {
    let core = expand_source("(+ 1 2)").unwrap();
    assert_eq!(
        core,
        CoreExpr::List(vec![CoreExpr::Symbol("+".to_string()), CoreExpr::Int(1), CoreExpr::Int(2)])
    );
}

#[test]
fn for_expands_to_sequence_of_let_wrapped_iterations() {
    let core = expand_source("(for (i 0 3) i)").unwrap();
    let CoreExpr::Sequence(iterations) = core else {
        panic!("expected Sequence");
    };
    assert_eq!(iterations.len(), 3);
}

#[test]
fn for_zero_iterations_is_empty_sequence() {
    let core = expand_source("(for (i 4 0) i)").unwrap();
    assert_eq!(core, CoreExpr::Sequence(vec![]));
}

#[test]
fn expand_for_negative_step() {
    let core = expand_source("(for (i 4 0 -1) i)").unwrap();
    let CoreExpr::Sequence(iterations) = core else {
        panic!("expected Sequence");
    };
    assert_eq!(iterations.len(), 4);
}

#[test]
fn expand_for_constant_expression_bound() {
    let core = expand_source("(for (i 0 (+ 2 2)) i)").unwrap();
    let CoreExpr::Sequence(iterations) = core else {
        panic!("expected Sequence");
    };
    assert_eq!(iterations.len(), 4);
}

#[test]
fn expand_for_zero_step_is_error() {
    let result = expand_source("(for (i 0 10 0) i)");
    assert!(matches!(result, Err(ExpandError::ZeroForStep)));
}

#[test]
fn expand_for_runtime_bound_is_error() {
    let result = expand_source("(fn (count) (for (i 0 count) i))");
    assert!(matches!(result, Err(ExpandError::NonConstantForBound)));
}

#[test]
fn for_division_by_zero_constant_is_error() {
    let result = expand_source("(for (i 0 (/ 10 0)) i)");
    assert!(matches!(result, Err(ExpandError::ConstantDivisionByZero)));
}

#[test]
fn for_expansion_limit_exceeded() {
    let constants = TestConstants::with(&[]);
    let source_constants = constants.source();
    let expr = parse_one("(for (i 0 10) i)").unwrap();
    let mut context = ExpansionContext::with_limits(&source_constants, ExpansionLimits { max_for_expansions: 5 });
    let result = expand(&expr, &mut context);
    assert!(matches!(result, Err(ExpandError::ForExpansionLimitExceeded)));
}

#[test]
fn nested_for_uses_outer_variable() {
    let constants = TestConstants::with(&[]);
    let source_constants = constants.source();
    let expr = parse_one("(for (x 0 3) (for (y 0 (+ x 1)) y))").unwrap();
    let mut context = ExpansionContext::new(&source_constants);
    let core = expand(&expr, &mut context).unwrap();
    let CoreExpr::Sequence(outer) = core else {
        panic!("expected Sequence");
    };
    assert_eq!(outer.len(), 3);
}

#[test]
fn global_integer_constant_bound() {
    let constants = TestConstants::with(&[("count", 3)]);
    let source_constants = constants.source();
    let expr = parse_one("(for (i 0 count) i)").unwrap();
    let mut context = ExpansionContext::new(&source_constants);
    let core = expand(&expr, &mut context).unwrap();
    let CoreExpr::Sequence(iterations) = core else {
        panic!("expected Sequence");
    };
    assert_eq!(iterations.len(), 3);
}

#[test]
fn each_iteration_binds_the_loop_variable_with_let() {
    let core = expand_source("(for (i 5 7) i)").unwrap();
    let CoreExpr::Sequence(iterations) = core else {
        panic!("expected Sequence");
    };
    let binding = |value: i64| {
        CoreExpr::List(vec![
            CoreExpr::Symbol("let".to_string()),
            CoreExpr::List(vec![CoreExpr::List(vec![CoreExpr::Symbol("i".to_string()), CoreExpr::Int(value)])]),
            CoreExpr::Symbol("i".to_string()),
        ])
    };
    assert_eq!(iterations, vec![binding(5), binding(6)]);
}

#[test]
fn nested_iterations_share_one_budget() {
    let constants = TestConstants::with(&[]);
    let source_constants = constants.source();
    let expr = parse_one("(for (x 0 2) (for (y 0 3) y))").unwrap();
    let mut context = ExpansionContext::with_limits(&source_constants, ExpansionLimits { max_for_expansions: 7 });
    assert!(expand(&expr, &mut context).is_err());
    let mut context = ExpansionContext::with_limits(&source_constants, ExpansionLimits { max_for_expansions: 8 });
    assert!(expand(&expr, &mut context).is_ok());
}

#[test]
fn properties_do_not_change_expansion() {
    let constants = TestConstants::with(&[("n", 2)]);
    let source_constants = constants.source();
    let plain = parse_one("(for (i 0 n) (+ i 1))").expect("should parse");
    let mut annotated = parse_one("(for (i 0 n) (+ i 1))").expect("should parse");
    annotated.properties_mut().insert("width", PropertyValue::Int(8));
    let annotated = Expr::list(vec![annotated]);
    let plain = Expr::list(vec![plain]);
    let mut first = ExpansionContext::new(&source_constants);
    let mut second = ExpansionContext::new(&source_constants);
    let a = expand(&plain, &mut first).unwrap();
    let b = expand(&annotated, &mut second).unwrap();
    assert_eq!(a, b);
}
