use regatelisp::ast::{Expr, ExprKind};
use regatelisp::property::PropertyValue;

#[test]
fn ordinary_constructors_start_with_independent_empty_properties() {
    let mut parent = Expr::list(vec![Expr::integer(1)]);
    parent.set_property("width", PropertyValue::Int(8));
    let ExprKind::List(children) = parent.kind() else {
        panic!("expected list");
    };
    assert_eq!(parent.get_property("width"), Some(&PropertyValue::Int(8)));
    assert!(children[0].properties().is_empty());
}

#[test]
fn expression_text_shows_the_datum_without_properties() {
    let expr = Expr::list(vec![Expr::symbol("+"), Expr::integer(-4), Expr::string("a\"b"), Expr::bool(true)])
        .with_property("width", PropertyValue::Int(8));
    assert_eq!(expr.display_text(), "(+ -4 \"a\\\"b\" true)");
}
