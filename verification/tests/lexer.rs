use regatelisp::error::LexError;
use regatelisp::lexer::{tokenize, Token};

fn token_kinds(source: &str) -> Vec<Token> {
    tokenize(source).expect("tokenize should succeed").into_iter().map(|t| t.token).collect()
}

#[test]
fn tokenizes_plus_with_negative_int() {
    let tokens = token_kinds("(+ 12 -3)");
    assert_eq!(tokens, vec![Token::LParen, Token::Symbol("+".to_string()), Token::Int(12), Token::Int(-3), Token::RParen]);
}

#[test]
fn standalone_minus_is_symbol() {
    let tokens = token_kinds("(- 12 3)");
    assert_eq!(tokens, vec![Token::LParen, Token::Symbol("-".to_string()), Token::Int(12), Token::Int(3), Token::RParen]);
}

#[test]
fn skips_comments_and_whitespace() {
    let tokens = token_kinds("  (+ 1 2) ; comment\n; full line comment\n(* 3 4)");
    assert_eq!(
        tokens,
        vec![
            Token::LParen,
            Token::Symbol("+".to_string()),
            Token::Int(1),
            Token::Int(2),
            Token::RParen,
            Token::LParen,
            Token::Symbol("*".to_string()),
            Token::Int(3),
            Token::Int(4),
            Token::RParen,
        ]
    );
}

#[test]
fn out_of_range_integer_is_lex_error() {
    let result = tokenize("99999999999999999999");
    assert!(matches!(result, Err(LexError::IntegerOutOfRange { .. })));
}

#[test]
fn symbols_allow_hyphenated_names() {
    let tokens = token_kinds("make-adder");
    assert_eq!(tokens, vec![Token::Symbol("make-adder".to_string())]);
}

#[test]
fn lexer_binary_octal_hex_literals() {
    assert_eq!(token_kinds("0b0001"), vec![Token::Int(1)]);
    assert_eq!(token_kinds("0o17"), vec![Token::Int(15)]);
    assert_eq!(token_kinds("0x01"), vec![Token::Int(1)]);
    assert_eq!(token_kinds("0xFF"), vec![Token::Int(255)]);
    assert_eq!(token_kinds("0xff"), vec![Token::Int(255)]);
}

#[test]
fn lexer_negative_radix_literals() {
    assert_eq!(token_kinds("-0b1000"), vec![Token::Int(-8)]);
    assert_eq!(token_kinds("-0o10"), vec![Token::Int(-8)]);
    assert_eq!(token_kinds("-0x80"), vec![Token::Int(-128)]);
}

#[test]
fn underscore_separators() {
    assert_eq!(token_kinds("0b1111_0000"), vec![Token::Int(240)]);
    assert_eq!(token_kinds("0xDEAD_BEEF"), vec![Token::Int(3735928559)]);
    assert_eq!(token_kinds("1_000_000"), vec![Token::Int(1_000_000)]);
}

#[test]
fn i64_boundary_values() {
    assert_eq!(token_kinds("0x7fff_ffff_ffff_ffff"), vec![Token::Int(i64::MAX)]);
    assert_eq!(token_kinds("-0x8000_0000_0000_0000"), vec![Token::Int(i64::MIN)]);
    assert_eq!(token_kinds("9223372036854775807"), vec![Token::Int(i64::MAX)]);
    assert_eq!(token_kinds("-9223372036854775808"), vec![Token::Int(i64::MIN)]);
}

#[test]
fn lexer_malformed_radix_literals_are_errors() {
    for text in ["0b", "0o", "0x", "0b102", "0o89", "0x12g", "0x_ff", "0xff_", "1__000"] {
        let result = tokenize(text);
        assert!(result.is_err(), "expected error for {text}");
    }
}

#[test]
fn uppercase_radix_prefix_is_rejected() {
    assert!(tokenize("0Xff").is_err());
}

#[test]
fn lexer_out_of_range_radix_literals_are_errors() {
    assert!(tokenize("0x8000_0000_0000_0000").is_err());
    assert!(tokenize("-0x8000_0000_0000_0001").is_err());
}

#[test]
fn string_literal_basic() {
    let tokens = token_kinds(r#""hello""#);
    assert_eq!(tokens, vec![Token::String("hello".to_string())]);
}

#[test]
fn string_literal_escapes() {
    let tokens = token_kinds(r#""a\nb""#);
    assert_eq!(tokens, vec![Token::String("a\nb".to_string())]);

    let tokens = token_kinds(r#""\"hello\"""#);
    assert_eq!(tokens, vec![Token::String("\"hello\"".to_string())]);

    let tokens = token_kinds(r#""c:\\temp\\file""#);
    assert_eq!(tokens, vec![Token::String("c:\\temp\\file".to_string())]);
}

#[test]
fn lexer_unterminated_string_is_error() {
    let result = tokenize("\"unterminated");
    assert!(matches!(result, Err(LexError::UnterminatedString { .. })));
}

#[test]
fn lexer_invalid_escape_is_error() {
    let result = tokenize(r#""\q""#);
    assert!(matches!(result, Err(LexError::InvalidEscape { .. })));
}

#[test]
fn tokens_carry_their_byte_spans() {
    let tokens = tokenize("(ab 7)").unwrap();
    assert_eq!(tokens[1].span.start, 1);
    assert_eq!(tokens[1].span.end, 3);
    assert_eq!(tokens[2].span.start, 4);
}

#[test]
fn booleans_are_tokens() {
    assert_eq!(token_kinds("true false"), vec![Token::Bool(true), Token::Bool(false)]);
}
