use regatelisp::datum::{datum_to_expr, expr_to_datum, Datum};
use regatelisp::parser::parse_one;
use regatelisp::symbol::{GensymId, Symbol};

#[test]
fn generated_symbol_survives_structural_ast_round_trip() {
    let generated = Datum::Symbol(Symbol::generated(GensymId(7), Some("tmp".into())));
    let expression = datum_to_expr(&generated);
    assert!(expression.properties().is_empty());
    assert_eq!(expr_to_datum(&expression), generated);

    let reparsed = parse_one(&generated.display_text()).unwrap();
    assert_ne!(expr_to_datum(&reparsed), generated);
    assert_ne!(
        Symbol::interned("tmp__g7"),
        Symbol::generated(GensymId(7), Some("tmp".into()))
    );
}

#[test]
fn generated_symbols_inside_lists_keep_their_identity() {
    let list = Datum::List(vec![
        Datum::Symbol(Symbol::interned("let")),
        Datum::Symbol(Symbol::generated(GensymId(3), None)),
        Datum::Integer(4),
    ]);
    let expression = datum_to_expr(&list);
    assert_eq!(expr_to_datum(&expression), list);
}
