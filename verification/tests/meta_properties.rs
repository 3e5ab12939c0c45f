use regatelisp::compiler::Compiler;
use regatelisp::error::{ExpandError, LispError};
use regatelisp::interpreter::Interpreter;
use regatelisp::parser::parse_one;
use regatelisp::value::Value;

#[test]
fn malformed_meta_forms_are_structured_expand_errors() {
    let cases = [
        ("(meta)", ExpandError::InvalidMetaSyntax),
        ("(meta ((width 8)))", ExpandError::InvalidMetaSyntax),
        ("(meta ((width 8)) x y)", ExpandError::InvalidMetaSyntax),
        ("(meta width x)", ExpandError::MetaPropertiesNotList),
        ("(meta (width) x)", ExpandError::InvalidMetaProperty),
        ("(meta ((width)) x)", ExpandError::InvalidMetaProperty),
        ("(meta ((width 8 16)) x)", ExpandError::InvalidMetaProperty),
        ("(meta ((123 8)) x)", ExpandError::InvalidMetaPropertyKey),
    ];
    for (source, expected) in cases {
        let mut compiler = Compiler::new();
        let expression = parse_one(source).unwrap();
        let Err(LispError::Expand(actual)) = compiler.expand_only(&expression) else {
            panic!("expected expand error for {source}");
        };
        assert_eq!(actual, expected);
    }

    let mut compiler = Compiler::new();
    let expression = parse_one("(meta ((width 8) (width 16)) x)").unwrap();
    let Err(LispError::Expand(actual)) = compiler.expand_only(&expression) else {
        panic!("expected duplicate property error");
    };
    assert_eq!(actual, ExpandError::DuplicatePropertyKey("width".into()));
}

#[test]
fn empty_metadata_is_a_no_op() {
    let mut interpreter = Interpreter::new(String::new());
    assert_eq!(interpreter.eval_source("(meta () 123)").unwrap(), vec![Value::Int(123)]);
}

#[test]
fn meta_does_not_affect_evaluation() {
    let mut interpreter = Interpreter::new(String::new());
    assert_eq!(
        interpreter.eval_source("(meta ((width 8) (target vhdl) (signed false)) (+ 1 2))").unwrap(),
        vec![Value::Int(3)]
    );
}

#[test]
fn nested_meta_expands_to_the_inner_expression() {
    let mut compiler = Compiler::new();
    let core = compiler
        .expand_only(&parse_one("(meta ((width 8) (target vhdl)) (meta ((width 16) (signed true)) 1))").unwrap())
        .unwrap();
    let plain = compiler.expand_only(&parse_one("1").unwrap()).unwrap();
    assert_eq!(core, plain);
}
