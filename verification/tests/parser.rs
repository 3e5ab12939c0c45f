use regatelisp::ast::Expr;
use regatelisp::error::{LispError, ParseError};
use regatelisp::parser::{parse_one, parse_program};

#[test]
fn parses_nested_list() {
    let expr = parse_one("(+ 1 (* 2 3))").expect("should parse");
    assert_eq!(
        expr,
        Expr::list(vec![
            Expr::symbol("+"),
            Expr::integer(1),
            Expr::list(vec![Expr::symbol("*"), Expr::integer(2), Expr::integer(3)]),
        ])
    );
}

#[test]
fn parses_empty_list() {
    let expr = parse_one("()").expect("should parse");
    assert_eq!(expr, Expr::list(vec![]));
}

#[test]
fn unmatched_open_paren_is_error() {
    let result = parse_one("(+ 1 2");
    assert!(matches!(result, Err(LispError::Parse(ParseError::UnmatchedOpenParen { .. }))));
}

#[test]
fn unmatched_close_paren_is_error() {
    let result = parse_one("(+ 1 2))");
    assert!(matches!(
        result,
        Err(LispError::Parse(ParseError::UnmatchedCloseParen { .. }))
            | Err(LispError::Parse(ParseError::ExtraTokensAfterExpression { .. }))
    ));
}

#[test]
fn empty_input_is_error() {
    let result = parse_one("");
    assert!(matches!(result, Err(LispError::Parse(ParseError::EmptyInput))));
}

#[test]
fn extra_top_level_expression_is_error() {
    let result = parse_one("(+ 1 2) (+ 3 4)");
    assert!(matches!(result, Err(LispError::Parse(ParseError::ExtraTokensAfterExpression { .. }))));
}

#[test]
fn parse_program_returns_multiple_expressions() {
    let exprs = parse_program("(+ 1 2)\n(* 3 4)").expect("should parse");
    assert_eq!(exprs.len(), 2);
}

#[test]
fn empty_program_has_no_expressions() {
    let exprs = parse_program("  ; only a comment\n").expect("should parse");
    assert!(exprs.is_empty());
}

#[test]
fn lexing_errors_surface_through_the_parser() {
    let result = parse_program("\"open");
    assert!(matches!(result, Err(LispError::Lex(_))));
}
