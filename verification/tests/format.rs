use regatelisp::error::FormatError;
use regatelisp::format::{parse_format_string, render};
use regatelisp::value::Value;
use std::rc::Rc;

fn ints(values: &[i64]) -> Vec<Value> {
    values.iter().map(|&n| Value::Int(n)).collect()
}

fn render_str(format: &str, args: &[Value]) -> String {
    let parts = parse_format_string(format).expect("format should parse");
    render(&parts, args).expect("render should succeed")
}

#[test]
fn plain_placeholders_use_implicit_order() {
    assert_eq!(render_str("{} {}", &ints(&[10, 20])), "10 20");
}

#[test]
fn explicit_argument_indices() {
    assert_eq!(render_str("{1} {0} {1}", &ints(&[10, 20])), "20 10 20");
}

#[test]
fn mixed_explicit_then_implicit_does_not_advance_implicit_cursor() {
    assert_eq!(render_str("{1} {}", &ints(&[10, 20])), "20 10");
}

#[test]
fn escaped_braces() {
    assert_eq!(render_str("{{value={}}}", &ints(&[10])), "{value=10}");
}

#[test]
fn radix_formatting() {
    let args = ints(&[255]);
    assert_eq!(render_str("{:b}", &args), "11111111");
    assert_eq!(render_str("{:o}", &args), "377");
    assert_eq!(render_str("{:x}", &args), "ff");
    assert_eq!(render_str("{:X}", &args), "FF");
}

#[test]
fn alternate_prefix() {
    let args = ints(&[255]);
    assert_eq!(render_str("{:#b}", &args), "0b11111111");
    assert_eq!(render_str("{:#o}", &args), "0o377");
    assert_eq!(render_str("{:#x}", &args), "0xff");
    assert_eq!(render_str("{:#X}", &args), "0xFF");
}

#[test]
fn zero_padding() {
    assert_eq!(render_str("{:08x}", &ints(&[255])), "000000ff");
}

#[test]
fn zero_padding_with_prefix() {
    assert_eq!(render_str("{:#010x}", &ints(&[255])), "0x000000ff");
}

#[test]
fn alignment_variants() {
    let args = ints(&[123]);
    assert_eq!(render_str("|{:<8}|", &args), "|123     |");
    assert_eq!(render_str("|{:>8}|", &args), "|     123|");
    assert_eq!(render_str("|{:^8}|", &args), "|  123   |");
}

#[test]
fn fill_character() {
    assert_eq!(render_str("|{:*>8}|", &ints(&[123])), "|*****123|");
    assert_eq!(render_str("|{:-^9}|", &ints(&[123])), "|---123---|");
}

#[test]
fn sign() {
    assert_eq!(render_str("{:+} {:+}", &ints(&[10, -10])), "+10 -10");
}

#[test]
fn sign_with_zero_padding() {
    assert_eq!(render_str("{:+06}", &ints(&[10])), "+00010");
}

#[test]
fn string_alignment() {
    let args = vec![Value::String(Rc::new("abc".to_string())), Value::String(Rc::new("abc".to_string()))];
    assert_eq!(render_str("|{:<8}|{:>8}|", &args), "|abc     |     abc|");
}

#[test]
fn negative_hex_uses_twos_complement() {
    assert_eq!(render_str("{:x}", &ints(&[-1])), "ffffffffffffffff");
    assert_eq!(render_str("{:X}", &ints(&[-1])), "FFFFFFFFFFFFFFFF");
    assert_eq!(render_str("{:#x}", &ints(&[-1])), "0xffffffffffffffff");
}

#[test]
fn unmatched_open_brace_is_error() {
    let result = parse_format_string("{");
    assert!(matches!(result, Err(FormatError::UnmatchedOpenBrace)));
}

#[test]
fn unmatched_close_brace_is_error() {
    let result = parse_format_string("}");
    assert!(matches!(result, Err(FormatError::UnmatchedCloseBrace)));
}

#[test]
fn unsupported_format_type_is_error() {
    let result = parse_format_string("{:?}");
    assert!(matches!(result, Err(FormatError::UnsupportedFormatType { .. })));
}

#[test]
fn string_with_hex_format_is_type_mismatch() {
    let parts = parse_format_string("{:x}").unwrap();
    let args = vec![Value::String(Rc::new("hello".to_string()))];
    let result = render(&parts, &args);
    assert!(matches!(result, Err(FormatError::TypeMismatch { .. })));
}

#[test]
fn missing_argument_is_error() {
    let parts = parse_format_string("{} {}").unwrap();
    let result = render(&parts, &ints(&[10]));
    assert!(matches!(result, Err(FormatError::MissingArgument { .. })));
}

#[test]
fn unused_argument_is_error() {
    let parts = parse_format_string("{}").unwrap();
    let result = render(&parts, &ints(&[10, 20]));
    assert!(matches!(result, Err(FormatError::UnusedArgument { .. })));
}

#[test]
fn explicit_reuse_counts_as_used() {
    assert_eq!(render_str("{0} {0}", &ints(&[10])), "10 10");
}

#[test]
fn out_of_range_argument_index_is_error() {
    let parts = parse_format_string("{1}").unwrap();
    let result = render(&parts, &ints(&[10]));
    assert!(matches!(result, Err(FormatError::MissingArgument { .. })));
}

#[test]
fn i64_minimum_renders_in_decimal() {
    assert_eq!(render_str("{}", &ints(&[i64::MIN])), "-9223372036854775808");
}
