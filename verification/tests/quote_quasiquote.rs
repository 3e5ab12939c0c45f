use regatelisp::datum::{datum_to_expr, expr_to_datum, Datum};
use regatelisp::error::{EvalError, ExpandError, LispError, LowerError, Span};
use regatelisp::ir::{IrBody, IrExpr, IrExprKind, IrModule, IrQuasiDatum, IrTopLevel};
use regatelisp::messages::lisp_error_message;
use regatelisp::property::PropertyValue;
use regatelisp::symbol::{GensymId, Symbol};
use regatelisp::{Expr, ExprKind, GlobalRegistry, Interpreter, Value, parse_one};

fn eval_one(source: &str) -> Value {
    Interpreter::new(String::new())
        .eval_source(source)
        .unwrap()
        .pop()
        .unwrap()
}

fn datum(source: &str) -> Datum {
    let Value::Datum(value) = eval_one(source) else {
        panic!("expected datum result");
    };
    value.as_ref().copy()
}

#[test]
fn quote_returns_atoms_lists_and_unevaluated_symbols() {
    assert_eq!(datum("(quote abc)"), Datum::Symbol(Symbol::interned("abc")));
    assert_eq!(datum("(quote 42)"), Datum::Integer(42));
    assert_eq!(datum("(quote true)"), Datum::Bool(true));
    assert_eq!(datum("(quote ())"), Datum::List(vec![]));
    assert_eq!(datum("(quote (a (b 1)))").display_text(), "(a (b 1))");
    assert_eq!(
        datum("(quote (unquote missing))").display_text(),
        "(unquote missing)"
    );
    assert_eq!(datum("(quote missing)").display_text(), "missing");
}

#[test]
fn quasiquote_evaluates_matching_unquotes_without_splicing() {
    assert_eq!(
        datum("(let ((x 10)) (quasiquote (+ (unquote x) 2)))").display_text(),
        "(+ 10 2)"
    );
    assert_eq!(
        datum("(let ((x false)) (quasiquote (value (unquote x))))").display_text(),
        "(value false)"
    );
    assert_eq!(
        datum("(let ((x (quote (a b)))) (quasiquote (head (unquote x) tail)))").display_text(),
        "(head (a b) tail)"
    );
    assert_eq!(
        datum("(let ((x 7)) (quasiquote (a (b (unquote x)))))").display_text(),
        "(a (b 7))"
    );
}

#[test]
fn multiple_unquotes_are_evaluated_from_left_to_right() {
    assert_eq!(
        datum("(quasiquote ((unquote (gensym)) (unquote (gensym))))").display_text(),
        "(g__g0 g__g1)"
    );
}

#[test]
fn datum_conversion_drops_properties_without_mutating_the_source() {
    let mut child = Expr::symbol("x");
    child.set_property("child", PropertyValue::Bool(true));
    let mut source = Expr::list(vec![child]);
    source.set_property("root", PropertyValue::Int(1));
    let original = source.copy();

    let converted = expr_to_datum(&source);
    assert_eq!(converted.display_text(), "(x)");
    assert_eq!(source, original);

    fn assert_empty(expression: &Expr) {
        assert!(expression.properties().is_empty());
        if let ExprKind::List(items) = expression.kind() {
            for item in items {
                assert_empty(item);
            }
        }
    }
    assert_empty(&datum_to_expr(&converted));
}

#[test]
fn verifier_recursively_checks_unquote_ir() {
    let top_level = IrTopLevel::Expr {
        body: IrBody {
            local_count: 0,
            expr: IrExpr::new(
                Span::new(0, 0),
                IrExprKind::QuasiQuote(IrQuasiDatum::Evaluate(Box::new(IrExpr::new(
                    Span::new(0, 0),
                    IrExprKind::LoadLocal(regatelisp::ids::LocalSlot(0)),
                )))),
            ),
        },
        span: Span::new(0, 0),
    };
    assert!(
        regatelisp::verify_top_level(&top_level, &IrModule::new(), &GlobalRegistry::new()).is_err()
    );
}


#[test]
fn quasiquote_tracks_depth_and_treats_quote_as_opaque() {
    assert_eq!(
        datum("(let ((x 10)) (quasiquote (outer (quasiquote (inner (unquote x))))))").display_text(),
        "(outer (quasiquote (inner (unquote x))))"
    );
    assert_eq!(
        datum("(let ((x 10)) (quasiquote (quote (unquote x))))").display_text(),
        "(quote (unquote x))"
    );
}

#[test]
fn gensym_is_unique_identity_based_and_session_deterministic() {
    let mut first = Interpreter::new(String::new());
    let values = first.eval_source("(gensym (quote tmp)) (gensym (quote tmp))").unwrap();
    assert_eq!(values[0].display_text(), "tmp__g0");
    assert_eq!(values[1].display_text(), "tmp__g1");
    assert_ne!(values[0], values[1]);

    let fresh = eval_one("(gensym (quote tmp))");
    assert_eq!(fresh.display_text(), "tmp__g0");
    assert_eq!(eval_one("(= (gensym (quote tmp)) (quote tmp__g0))"), Value::Bool(false));
}

#[test]
fn data_compare_by_structure_and_symbol_identity() {
    assert_eq!(eval_one("(= (quote (a 1 \"s\")) (quote (a 1 \"s\")))"), Value::Bool(true));
    assert_eq!(eval_one("(= (quote (a 1)) (quote (a 2)))"), Value::Bool(false));
    assert_eq!(eval_one("(!= (quote a) (quote b))"), Value::Bool(true));
}
