//! Human-readable messages for every error of the pipeline.
use vstd::prelude::*;
use crate::error::{
    BackendError, EvalError, ExpandError, FormatError, LexError, LispError, LowerError, MacroExpandError, ParseError,
    VerifyError,
};
use crate::text::{push_str, push_u64_decimal, radix_digits, string_from_chars};

verus! {

pub open spec fn dec_text(n: nat) -> Seq<char> {
    radix_digits(n, 10, false)
}

/// `names[i..]` joined with ` -> `.
pub open spec fn joined_text(names: Seq<String>, i: int) -> Seq<char>
    decreases names.len() - i,
{
    if i < 0 || i >= names.len() {
        Seq::empty()
    } else if i == 0 {
        names[0]@ + joined_text(names, 1)
    } else {
        " -> "@ + names[i]@ + joined_text(names, i + 1)
    }
}

fn push_joined(out: &mut Vec<char>, names: &Vec<String>)
    ensures
        final(out)@ == old(out)@ + joined_text(names@, 0),
{
    let ghost start = out@;
    let mut i: usize = 0;
    while i < names.len()
        invariant
            i <= names@.len(),
            out@ + joined_text(names@, i as int) == start + joined_text(names@, 0),
        decreases names@.len() - i,
    {
        let ghost prev = out@;
        if i > 0 {
            push_str(out, " -> ");
        }
        push_str(out, names[i].as_str());
        assert(out@ + joined_text(names@, i + 1) =~= prev + joined_text(names@, i as int));
        i += 1;
    }
    assert(out@ =~= start + joined_text(names@, 0));
}

/// The message of a `LexError`.
pub open spec fn lex_error_text(e: LexError) -> Seq<char>
    decreases e,
{
    match e {
        LexError::UnrecognizedCharacter { ch, span } => "unrecognized character '"@ + seq![ch] + "' at byte "@ + dec_text(span.start as nat),
        LexError::InvalidInteger { text, span } => "invalid integer '"@ + text@ + "' at byte "@ + dec_text(span.start as nat),
        LexError::IntegerOutOfRange { text, span } => "integer '"@ + text@ + "' out of i64 range at byte "@ + dec_text(span.start as nat),
        LexError::MalformedRadixLiteral { text, span } => "malformed radix integer literal '"@ + text@ + "' at byte "@ + dec_text(span.start as nat),
        LexError::UnterminatedString { span } => "unterminated string literal starting at byte "@ + dec_text(span.start as nat),
        LexError::InvalidEscape { ch, span } => "invalid string escape '\\"@ + seq![ch] + "' at byte "@ + dec_text(span.start as nat),
    }
}

fn push_lex_error(out: &mut Vec<char>, e: &LexError)
    ensures
        final(out)@ == old(out)@ + lex_error_text(*e),
    decreases e,
{
    let ghost start = out@;
    match e {
        LexError::UnrecognizedCharacter { ch, span } => {
            push_str(out, "unrecognized character '");
            out.push(*ch);
            push_str(out, "' at byte ");
            push_u64_decimal(span.start as u64, out);
            assert(out@ =~= start + lex_error_text(*e));
        },
        LexError::InvalidInteger { text, span } => {
            push_str(out, "invalid integer '");
            push_str(out, text.as_str());
            push_str(out, "' at byte ");
            push_u64_decimal(span.start as u64, out);
            assert(out@ =~= start + lex_error_text(*e));
        },
        LexError::IntegerOutOfRange { text, span } => {
            push_str(out, "integer '");
            push_str(out, text.as_str());
            push_str(out, "' out of i64 range at byte ");
            push_u64_decimal(span.start as u64, out);
            assert(out@ =~= start + lex_error_text(*e));
        },
        LexError::MalformedRadixLiteral { text, span } => {
            push_str(out, "malformed radix integer literal '");
            push_str(out, text.as_str());
            push_str(out, "' at byte ");
            push_u64_decimal(span.start as u64, out);
            assert(out@ =~= start + lex_error_text(*e));
        },
        LexError::UnterminatedString { span } => {
            push_str(out, "unterminated string literal starting at byte ");
            push_u64_decimal(span.start as u64, out);
            assert(out@ =~= start + lex_error_text(*e));
        },
        LexError::InvalidEscape { ch, span } => {
            push_str(out, "invalid string escape '\\");
            out.push(*ch);
            push_str(out, "' at byte ");
            push_u64_decimal(span.start as u64, out);
            assert(out@ =~= start + lex_error_text(*e));
        },
    }
}

/// The message of a `LexError`, as its `Display` text reads.
pub fn lex_error_message(e: &LexError) -> (r: String)
    ensures
        r@ == lex_error_text(*e),
{
    let mut out: Vec<char> = Vec::new();
    push_lex_error(&mut out, e);
    string_from_chars(out.as_slice())
}

/// The message of a `ParseError`.
pub open spec fn parse_error_text(e: ParseError) -> Seq<char>
    decreases e,
{
    match e {
        ParseError::UnexpectedEof => "unexpected end of input"@,
        ParseError::UnmatchedOpenParen { span } => "unmatched opening parenthesis at byte "@ + dec_text(span.start as nat),
        ParseError::UnmatchedCloseParen { span } => "unmatched closing parenthesis at byte "@ + dec_text(span.start as nat),
        ParseError::EmptyInput => "input is empty"@,
        ParseError::ExtraTokensAfterExpression { span } => "extra top-level expression starting at byte "@ + dec_text(span.start as nat),
    }
}

fn push_parse_error(out: &mut Vec<char>, e: &ParseError)
    ensures
        final(out)@ == old(out)@ + parse_error_text(*e),
    decreases e,
{
    let ghost start = out@;
    match e {
        ParseError::UnexpectedEof => {
            push_str(out, "unexpected end of input");
            assert(out@ =~= start + parse_error_text(*e));
        },
        ParseError::UnmatchedOpenParen { span } => {
            push_str(out, "unmatched opening parenthesis at byte ");
            push_u64_decimal(span.start as u64, out);
            assert(out@ =~= start + parse_error_text(*e));
        },
        ParseError::UnmatchedCloseParen { span } => {
            push_str(out, "unmatched closing parenthesis at byte ");
            push_u64_decimal(span.start as u64, out);
            assert(out@ =~= start + parse_error_text(*e));
        },
        ParseError::EmptyInput => {
            push_str(out, "input is empty");
            assert(out@ =~= start + parse_error_text(*e));
        },
        ParseError::ExtraTokensAfterExpression { span } => {
            push_str(out, "extra top-level expression starting at byte ");
            push_u64_decimal(span.start as u64, out);
            assert(out@ =~= start + parse_error_text(*e));
        },
    }
}

/// The message of a `ParseError`, as its `Display` text reads.
pub fn parse_error_message(e: &ParseError) -> (r: String)
    ensures
        r@ == parse_error_text(*e),
{
    let mut out: Vec<char> = Vec::new();
    push_parse_error(&mut out, e);
    string_from_chars(out.as_slice())
}

/// The message of a `FormatError`.
pub open spec fn format_error_text(e: FormatError) -> Seq<char>
    decreases e,
{
    match e {
        FormatError::UnmatchedOpenBrace => "unmatched '{' in format string"@,
        FormatError::UnmatchedCloseBrace => "unmatched '}' in format string"@,
        FormatError::MissingArgument { index } => "missing format argument at index "@ + dec_text(index as nat),
        FormatError::UnusedArgument { index } => "unused format argument at index "@ + dec_text(index as nat),
        FormatError::UnsupportedFormatType { type_char } => "unsupported format type '"@ + seq![type_char] + "'"@,
        FormatError::TypeMismatch { format_type, value_type } => "format type '"@ + format_type@ + "' cannot be applied to a "@ + value_type@ + " value"@,
    }
}

fn push_format_error(out: &mut Vec<char>, e: &FormatError)
    ensures
        final(out)@ == old(out)@ + format_error_text(*e),
    decreases e,
{
    let ghost start = out@;
    match e {
        FormatError::UnmatchedOpenBrace => {
            push_str(out, "unmatched '{' in format string");
            assert(out@ =~= start + format_error_text(*e));
        },
        FormatError::UnmatchedCloseBrace => {
            push_str(out, "unmatched '}' in format string");
            assert(out@ =~= start + format_error_text(*e));
        },
        FormatError::MissingArgument { index } => {
            push_str(out, "missing format argument at index ");
            push_u64_decimal(*index as u64, out);
            assert(out@ =~= start + format_error_text(*e));
        },
        FormatError::UnusedArgument { index } => {
            push_str(out, "unused format argument at index ");
            push_u64_decimal(*index as u64, out);
            assert(out@ =~= start + format_error_text(*e));
        },
        FormatError::UnsupportedFormatType { type_char } => {
            push_str(out, "unsupported format type '");
            out.push(*type_char);
            push_str(out, "'");
            assert(out@ =~= start + format_error_text(*e));
        },
        FormatError::TypeMismatch { format_type, value_type } => {
            push_str(out, "format type '");
            push_str(out, *format_type);
            push_str(out, "' cannot be applied to a ");
            push_str(out, *value_type);
            push_str(out, " value");
            assert(out@ =~= start + format_error_text(*e));
        },
    }
}

/// The message of a `FormatError`, as its `Display` text reads.
pub fn format_error_message(e: &FormatError) -> (r: String)
    ensures
        r@ == format_error_text(*e),
{
    let mut out: Vec<char> = Vec::new();
    push_format_error(&mut out, e);
    string_from_chars(out.as_slice())
}

/// The message of a `EvalError`.
pub open spec fn eval_error_text(e: EvalError) -> Seq<char>
    decreases e,
{
    match e {
        EvalError::Break(_) => "break"@,
        EvalError::InvalidBreakSyntax => "malformed break expression"@,
        EvalError::UndefinedSymbol(name) => "undefined symbol: "@ + name@,
        EvalError::EmptyApplication => "cannot evaluate empty list"@,
        EvalError::NotCallable(repr) => "value is not callable: "@ + repr@,
        EvalError::WrongArgCount { expected, got } => "wrong number of arguments: expected "@ + dec_text(expected as nat) + ", got "@ + dec_text(got as nat),
        EvalError::NonIntegerArgument => "arithmetic requires integer arguments"@,
        EvalError::InvalidIfSyntax => "malformed if expression"@,
        EvalError::InvalidGeneralLoopSyntax => "malformed general loop expression"@,
        EvalError::InvalidLoopStateBinding => "malformed loop state binding"@,
        EvalError::DuplicateLoopState(n) => "duplicate loop state: "@ + n@,
        EvalError::InvalidLoopStateUpdate => "invalid loop state update"@,
        EvalError::NonBooleanCondition(t) => "if condition must be boolean, got "@ + t@,
        EvalError::ComparisonTypeMismatch { left, right } => "cannot compare "@ + left@ + " with "@ + right@,
        EvalError::UnorderableType(t) => "ordering requires integers, got "@ + t@,
        EvalError::DivisionByZero => "division by zero"@,
        EvalError::IntegerOverflow => "integer overflow"@,
        EvalError::MalformedFn => "malformed fn expression"@,
        EvalError::MalformedFnParams => "malformed fn parameter list"@,
        EvalError::DuplicateParameter(name) => "duplicate parameter name: "@ + name@,
        EvalError::MalformedLet => "malformed let expression"@,
        EvalError::MalformedLetBinding => "malformed let binding"@,
        EvalError::DuplicateBinding(name) => "duplicate let binding name: "@ + name@,
        EvalError::NonStringFormatArgument => "print requires a string as its first argument"@,
        EvalError::Format(inner) => "format error: "@ + format_error_text(inner),
        EvalError::Io { message } => "I/O error: "@ + message@,
        EvalError::InvalidLoopSyntax => "malformed loop expression"@,
        EvalError::InvalidLoopBinding => "malformed loop binding"@,
        EvalError::NonIntegerLoopBound => "loop bounds must be integers"@,
        EvalError::ZeroLoopStep => "loop step must not be zero"@,
        EvalError::LoopCounterOverflow => "loop counter overflow"@,
        EvalError::InvalidDefSyntax => "malformed def expression"@,
        EvalError::InvalidDefName => "def name must be a symbol"@,
        EvalError::ReservedDefName(name) => "'"@ + name@ + "' is a reserved special-form name and cannot be defined"@,
        EvalError::DefOutsideTopLevel => "def is only allowed at top level"@,
        EvalError::CannotConvertToDatum(actual) => "unquote result cannot be converted to datum: "@ + actual@,
        EvalError::InvalidGensymPrefix(actual) => "gensym prefix must be an interned symbol datum, got "@ + actual@,
        EvalError::GensymIdOverflow => "gensym ID overflow"@,
        EvalError::CallDepthExceeded => "call depth limit exceeded"@,
    }
}

fn push_eval_error(out: &mut Vec<char>, e: &EvalError)
    ensures
        final(out)@ == old(out)@ + eval_error_text(*e),
    decreases e,
{
    let ghost start = out@;
    match e {
        EvalError::Break(_) => {
            push_str(out, "break");
            assert(out@ =~= start + eval_error_text(*e));
        },
        EvalError::InvalidBreakSyntax => {
            push_str(out, "malformed break expression");
            assert(out@ =~= start + eval_error_text(*e));
        },
        EvalError::UndefinedSymbol(name) => {
            push_str(out, "undefined symbol: ");
            push_str(out, name.as_str());
            assert(out@ =~= start + eval_error_text(*e));
        },
        EvalError::EmptyApplication => {
            push_str(out, "cannot evaluate empty list");
            assert(out@ =~= start + eval_error_text(*e));
        },
        EvalError::NotCallable(repr) => {
            push_str(out, "value is not callable: ");
            push_str(out, repr.as_str());
            assert(out@ =~= start + eval_error_text(*e));
        },
        EvalError::WrongArgCount { expected, got } => {
            push_str(out, "wrong number of arguments: expected ");
            push_u64_decimal(*expected as u64, out);
            push_str(out, ", got ");
            push_u64_decimal(*got as u64, out);
            assert(out@ =~= start + eval_error_text(*e));
        },
        EvalError::NonIntegerArgument => {
            push_str(out, "arithmetic requires integer arguments");
            assert(out@ =~= start + eval_error_text(*e));
        },
        EvalError::InvalidIfSyntax => {
            push_str(out, "malformed if expression");
            assert(out@ =~= start + eval_error_text(*e));
        },
        EvalError::InvalidGeneralLoopSyntax => {
            push_str(out, "malformed general loop expression");
            assert(out@ =~= start + eval_error_text(*e));
        },
        EvalError::InvalidLoopStateBinding => {
            push_str(out, "malformed loop state binding");
            assert(out@ =~= start + eval_error_text(*e));
        },
        EvalError::DuplicateLoopState(n) => {
            push_str(out, "duplicate loop state: ");
            push_str(out, n.as_str());
            assert(out@ =~= start + eval_error_text(*e));
        },
        EvalError::InvalidLoopStateUpdate => {
            push_str(out, "invalid loop state update");
            assert(out@ =~= start + eval_error_text(*e));
        },
        EvalError::NonBooleanCondition(t) => {
            push_str(out, "if condition must be boolean, got ");
            push_str(out, *t);
            assert(out@ =~= start + eval_error_text(*e));
        },
        EvalError::ComparisonTypeMismatch { left, right } => {
            push_str(out, "cannot compare ");
            push_str(out, *left);
            push_str(out, " with ");
            push_str(out, *right);
            assert(out@ =~= start + eval_error_text(*e));
        },
        EvalError::UnorderableType(t) => {
            push_str(out, "ordering requires integers, got ");
            push_str(out, *t);
            assert(out@ =~= start + eval_error_text(*e));
        },
        EvalError::DivisionByZero => {
            push_str(out, "division by zero");
            assert(out@ =~= start + eval_error_text(*e));
        },
        EvalError::IntegerOverflow => {
            push_str(out, "integer overflow");
            assert(out@ =~= start + eval_error_text(*e));
        },
        EvalError::MalformedFn => {
            push_str(out, "malformed fn expression");
            assert(out@ =~= start + eval_error_text(*e));
        },
        EvalError::MalformedFnParams => {
            push_str(out, "malformed fn parameter list");
            assert(out@ =~= start + eval_error_text(*e));
        },
        EvalError::DuplicateParameter(name) => {
            push_str(out, "duplicate parameter name: ");
            push_str(out, name.as_str());
            assert(out@ =~= start + eval_error_text(*e));
        },
        EvalError::MalformedLet => {
            push_str(out, "malformed let expression");
            assert(out@ =~= start + eval_error_text(*e));
        },
        EvalError::MalformedLetBinding => {
            push_str(out, "malformed let binding");
            assert(out@ =~= start + eval_error_text(*e));
        },
        EvalError::DuplicateBinding(name) => {
            push_str(out, "duplicate let binding name: ");
            push_str(out, name.as_str());
            assert(out@ =~= start + eval_error_text(*e));
        },
        EvalError::NonStringFormatArgument => {
            push_str(out, "print requires a string as its first argument");
            assert(out@ =~= start + eval_error_text(*e));
        },
        EvalError::Format(inner) => {
            push_str(out, "format error: ");
            push_format_error(out, inner);
            assert(out@ =~= start + eval_error_text(*e));
        },
        EvalError::Io { message } => {
            push_str(out, "I/O error: ");
            push_str(out, message.as_str());
            assert(out@ =~= start + eval_error_text(*e));
        },
        EvalError::InvalidLoopSyntax => {
            push_str(out, "malformed loop expression");
            assert(out@ =~= start + eval_error_text(*e));
        },
        EvalError::InvalidLoopBinding => {
            push_str(out, "malformed loop binding");
            assert(out@ =~= start + eval_error_text(*e));
        },
        EvalError::NonIntegerLoopBound => {
            push_str(out, "loop bounds must be integers");
            assert(out@ =~= start + eval_error_text(*e));
        },
        EvalError::ZeroLoopStep => {
            push_str(out, "loop step must not be zero");
            assert(out@ =~= start + eval_error_text(*e));
        },
        EvalError::LoopCounterOverflow => {
            push_str(out, "loop counter overflow");
            assert(out@ =~= start + eval_error_text(*e));
        },
        EvalError::InvalidDefSyntax => {
            push_str(out, "malformed def expression");
            assert(out@ =~= start + eval_error_text(*e));
        },
        EvalError::InvalidDefName => {
            push_str(out, "def name must be a symbol");
            assert(out@ =~= start + eval_error_text(*e));
        },
        EvalError::ReservedDefName(name) => {
            push_str(out, "'");
            push_str(out, name.as_str());
            push_str(out, "' is a reserved special-form name and cannot be defined");
            assert(out@ =~= start + eval_error_text(*e));
        },
        EvalError::DefOutsideTopLevel => {
            push_str(out, "def is only allowed at top level");
            assert(out@ =~= start + eval_error_text(*e));
        },
        EvalError::CannotConvertToDatum(actual) => {
            push_str(out, "unquote result cannot be converted to datum: ");
            push_str(out, *actual);
            assert(out@ =~= start + eval_error_text(*e));
        },
        EvalError::InvalidGensymPrefix(actual) => {
            push_str(out, "gensym prefix must be an interned symbol datum, got ");
            push_str(out, *actual);
            assert(out@ =~= start + eval_error_text(*e));
        },
        EvalError::GensymIdOverflow => {
            push_str(out, "gensym ID overflow");
            assert(out@ =~= start + eval_error_text(*e));
        },
        EvalError::CallDepthExceeded => {
            push_str(out, "call depth limit exceeded");
            assert(out@ =~= start + eval_error_text(*e));
        },
    }
}

/// The message of a `EvalError`, as its `Display` text reads.
pub fn eval_error_message(e: &EvalError) -> (r: String)
    ensures
        r@ == eval_error_text(*e),
{
    let mut out: Vec<char> = Vec::new();
    push_eval_error(&mut out, e);
    string_from_chars(out.as_slice())
}

/// The message of a `ExpandError`.
pub open spec fn expand_error_text(e: ExpandError) -> Seq<char>
    decreases e,
{
    match e {
        ExpandError::InvalidMetaSyntax => "malformed meta expression"@,
        ExpandError::MetaPropertiesNotList => "meta properties must be a list"@,
        ExpandError::InvalidMetaProperty => "each meta property must be a two-element list"@,
        ExpandError::InvalidMetaPropertyKey => "meta property keys must be symbols"@,
        ExpandError::DuplicatePropertyKey(key) => "duplicate property key: "@ + key@,
        ExpandError::InvalidForSyntax => "malformed for expression"@,
        ExpandError::InvalidForBinding => "malformed for binding"@,
        ExpandError::NonConstantForBound => "for bounds must be expansion-time integer constants; use loop for runtime ranges"@,
        ExpandError::NonIntegerForBound => "for bounds must be integer constants"@,
        ExpandError::ZeroForStep => "for step must not be zero"@,
        ExpandError::ForExpansionLimitExceeded => "for expansion exceeded the maximum iteration limit"@,
        ExpandError::ConstantDivisionByZero => "division by zero in a for expansion-time constant expression"@,
        ExpandError::ConstantRemainderByZero => "remainder by zero in a for expansion-time constant expression"@,
        ExpandError::ConstantIntegerOverflow => "integer overflow in a for expansion-time constant expression"@,
        ExpandError::InvalidQuoteSyntax { got } => "quote expects exactly 1 argument, got "@ + dec_text(got as nat),
        ExpandError::InvalidQuasiquoteSyntax { got } => "quasiquote expects exactly 1 argument, got "@ + dec_text(got as nat),
        ExpandError::InvalidUnquoteSyntax { got } => "unquote expects exactly 1 argument, got "@ + dec_text(got as nat),
        ExpandError::UnquoteOutsideQuasiquote => "unquote may only be used inside quasiquote"@,
    }
}

fn push_expand_error(out: &mut Vec<char>, e: &ExpandError)
    ensures
        final(out)@ == old(out)@ + expand_error_text(*e),
    decreases e,
{
    let ghost start = out@;
    match e {
        ExpandError::InvalidMetaSyntax => {
            push_str(out, "malformed meta expression");
            assert(out@ =~= start + expand_error_text(*e));
        },
        ExpandError::MetaPropertiesNotList => {
            push_str(out, "meta properties must be a list");
            assert(out@ =~= start + expand_error_text(*e));
        },
        ExpandError::InvalidMetaProperty => {
            push_str(out, "each meta property must be a two-element list");
            assert(out@ =~= start + expand_error_text(*e));
        },
        ExpandError::InvalidMetaPropertyKey => {
            push_str(out, "meta property keys must be symbols");
            assert(out@ =~= start + expand_error_text(*e));
        },
        ExpandError::DuplicatePropertyKey(key) => {
            push_str(out, "duplicate property key: ");
            push_str(out, key.as_str());
            assert(out@ =~= start + expand_error_text(*e));
        },
        ExpandError::InvalidForSyntax => {
            push_str(out, "malformed for expression");
            assert(out@ =~= start + expand_error_text(*e));
        },
        ExpandError::InvalidForBinding => {
            push_str(out, "malformed for binding");
            assert(out@ =~= start + expand_error_text(*e));
        },
        ExpandError::NonConstantForBound => {
            push_str(out, "for bounds must be expansion-time integer constants; use loop for runtime ranges");
            assert(out@ =~= start + expand_error_text(*e));
        },
        ExpandError::NonIntegerForBound => {
            push_str(out, "for bounds must be integer constants");
            assert(out@ =~= start + expand_error_text(*e));
        },
        ExpandError::ZeroForStep => {
            push_str(out, "for step must not be zero");
            assert(out@ =~= start + expand_error_text(*e));
        },
        ExpandError::ForExpansionLimitExceeded => {
            push_str(out, "for expansion exceeded the maximum iteration limit");
            assert(out@ =~= start + expand_error_text(*e));
        },
        ExpandError::ConstantDivisionByZero => {
            push_str(out, "division by zero in a for expansion-time constant expression");
            assert(out@ =~= start + expand_error_text(*e));
        },
        ExpandError::ConstantRemainderByZero => {
            push_str(out, "remainder by zero in a for expansion-time constant expression");
            assert(out@ =~= start + expand_error_text(*e));
        },
        ExpandError::ConstantIntegerOverflow => {
            push_str(out, "integer overflow in a for expansion-time constant expression");
            assert(out@ =~= start + expand_error_text(*e));
        },
        ExpandError::InvalidQuoteSyntax { got } => {
            push_str(out, "quote expects exactly 1 argument, got ");
            push_u64_decimal(*got as u64, out);
            assert(out@ =~= start + expand_error_text(*e));
        },
        ExpandError::InvalidQuasiquoteSyntax { got } => {
            push_str(out, "quasiquote expects exactly 1 argument, got ");
            push_u64_decimal(*got as u64, out);
            assert(out@ =~= start + expand_error_text(*e));
        },
        ExpandError::InvalidUnquoteSyntax { got } => {
            push_str(out, "unquote expects exactly 1 argument, got ");
            push_u64_decimal(*got as u64, out);
            assert(out@ =~= start + expand_error_text(*e));
        },
        ExpandError::UnquoteOutsideQuasiquote => {
            push_str(out, "unquote may only be used inside quasiquote");
            assert(out@ =~= start + expand_error_text(*e));
        },
    }
}

/// The message of a `ExpandError`, as its `Display` text reads.
pub fn expand_error_message(e: &ExpandError) -> (r: String)
    ensures
        r@ == expand_error_text(*e),
{
    let mut out: Vec<char> = Vec::new();
    push_expand_error(&mut out, e);
    string_from_chars(out.as_slice())
}

/// The message of a `LowerError`.
pub open spec fn lower_error_text(e: LowerError) -> Seq<char>
    decreases e,
{
    match e {
        LowerError::BreakOutsideRuntimeLoop => "break used outside of an enclosing runtime loop"@,
        LowerError::DefOutsideDirectTopLevel => "def is only allowed at top level"@,
        LowerError::ReservedDefinitionName(name) => "'"@ + name@ + "' is a reserved special-form name and cannot be defined"@,
        LowerError::InvalidCoreForm => "malformed core expression"@,
        LowerError::DuplicateParameter(name) => "duplicate parameter name: "@ + name@,
        LowerError::DuplicateBinding(name) => "duplicate let binding name: "@ + name@,
        LowerError::DuplicateLoopState(name) => "duplicate loop state name: "@ + name@,
        LowerError::TooManyLocals => "too many local variables in one function"@,
        LowerError::TooManyCaptures => "too many captured variables in one closure"@,
        LowerError::TooManyFunctions => "too many functions in one module"@,
        LowerError::TooManyLoops => "too many runtime loops in one function"@,
        LowerError::TooManyGlobals => "too many global names"@,
        LowerError::InvalidGensymSyntax { got } => "gensym expects 0 or 1 arguments, got "@ + dec_text(got as nat),
        LowerError::UnboundGeneratedSymbol(name) => "unbound generated symbol: "@ + name@,
    }
}

fn push_lower_error(out: &mut Vec<char>, e: &LowerError)
    ensures
        final(out)@ == old(out)@ + lower_error_text(*e),
    decreases e,
{
    let ghost start = out@;
    match e {
        LowerError::BreakOutsideRuntimeLoop => {
            push_str(out, "break used outside of an enclosing runtime loop");
            assert(out@ =~= start + lower_error_text(*e));
        },
        LowerError::DefOutsideDirectTopLevel => {
            push_str(out, "def is only allowed at top level");
            assert(out@ =~= start + lower_error_text(*e));
        },
        LowerError::ReservedDefinitionName(name) => {
            push_str(out, "'");
            push_str(out, name.as_str());
            push_str(out, "' is a reserved special-form name and cannot be defined");
            assert(out@ =~= start + lower_error_text(*e));
        },
        LowerError::InvalidCoreForm => {
            push_str(out, "malformed core expression");
            assert(out@ =~= start + lower_error_text(*e));
        },
        LowerError::DuplicateParameter(name) => {
            push_str(out, "duplicate parameter name: ");
            push_str(out, name.as_str());
            assert(out@ =~= start + lower_error_text(*e));
        },
        LowerError::DuplicateBinding(name) => {
            push_str(out, "duplicate let binding name: ");
            push_str(out, name.as_str());
            assert(out@ =~= start + lower_error_text(*e));
        },
        LowerError::DuplicateLoopState(name) => {
            push_str(out, "duplicate loop state name: ");
            push_str(out, name.as_str());
            assert(out@ =~= start + lower_error_text(*e));
        },
        LowerError::TooManyLocals => {
            push_str(out, "too many local variables in one function");
            assert(out@ =~= start + lower_error_text(*e));
        },
        LowerError::TooManyCaptures => {
            push_str(out, "too many captured variables in one closure");
            assert(out@ =~= start + lower_error_text(*e));
        },
        LowerError::TooManyFunctions => {
            push_str(out, "too many functions in one module");
            assert(out@ =~= start + lower_error_text(*e));
        },
        LowerError::TooManyLoops => {
            push_str(out, "too many runtime loops in one function");
            assert(out@ =~= start + lower_error_text(*e));
        },
        LowerError::TooManyGlobals => {
            push_str(out, "too many global names");
            assert(out@ =~= start + lower_error_text(*e));
        },
        LowerError::InvalidGensymSyntax { got } => {
            push_str(out, "gensym expects 0 or 1 arguments, got ");
            push_u64_decimal(*got as u64, out);
            assert(out@ =~= start + lower_error_text(*e));
        },
        LowerError::UnboundGeneratedSymbol(name) => {
            push_str(out, "unbound generated symbol: ");
            push_str(out, name.as_str());
            assert(out@ =~= start + lower_error_text(*e));
        },
    }
}

/// The message of a `LowerError`, as its `Display` text reads.
pub fn lower_error_message(e: &LowerError) -> (r: String)
    ensures
        r@ == lower_error_text(*e),
{
    let mut out: Vec<char> = Vec::new();
    push_lower_error(&mut out, e);
    string_from_chars(out.as_slice())
}

/// The message of a `VerifyError`.
pub open spec fn verify_error_text(e: VerifyError) -> Seq<char>
    decreases e,
{
    match e {
        VerifyError::InvalidFunctionId(id) => "invalid function id: "@ + dec_text(id.0 as nat),
        VerifyError::InvalidGlobalId(id) => "invalid global id: "@ + dec_text(id.0 as nat),
        VerifyError::InvalidLocalSlot(slot) => "invalid local slot: "@ + dec_text(slot.0 as nat),
        VerifyError::InvalidCaptureSlot(slot) => "invalid capture slot: "@ + dec_text(slot.0 as nat),
        VerifyError::CaptureCountMismatch { expected, got } => "closure capture count mismatch: expected "@ + dec_text(expected as nat) + ", got "@ + dec_text(got as nat),
        VerifyError::DuplicateLoopId(id) => "duplicate loop id: "@ + dec_text(id.0 as nat),
        VerifyError::BreakTargetNotEnclosing(id) => "break target loop id "@ + dec_text(id.0 as nat) + " is not enclosing"@,
        VerifyError::InvalidStateLoopUpdate => "state loop update does not match declared state slots"@,
        VerifyError::InvalidParameterCount => "function parameter count exceeds its local count"@,
    }
}

fn push_verify_error(out: &mut Vec<char>, e: &VerifyError)
    ensures
        final(out)@ == old(out)@ + verify_error_text(*e),
    decreases e,
{
    let ghost start = out@;
    match e {
        VerifyError::InvalidFunctionId(id) => {
            push_str(out, "invalid function id: ");
            push_u64_decimal(id.0 as u64, out);
            assert(out@ =~= start + verify_error_text(*e));
        },
        VerifyError::InvalidGlobalId(id) => {
            push_str(out, "invalid global id: ");
            push_u64_decimal(id.0 as u64, out);
            assert(out@ =~= start + verify_error_text(*e));
        },
        VerifyError::InvalidLocalSlot(slot) => {
            push_str(out, "invalid local slot: ");
            push_u64_decimal(slot.0 as u64, out);
            assert(out@ =~= start + verify_error_text(*e));
        },
        VerifyError::InvalidCaptureSlot(slot) => {
            push_str(out, "invalid capture slot: ");
            push_u64_decimal(slot.0 as u64, out);
            assert(out@ =~= start + verify_error_text(*e));
        },
        VerifyError::CaptureCountMismatch { expected, got } => {
            push_str(out, "closure capture count mismatch: expected ");
            push_u64_decimal(*expected as u64, out);
            push_str(out, ", got ");
            push_u64_decimal(*got as u64, out);
            assert(out@ =~= start + verify_error_text(*e));
        },
        VerifyError::DuplicateLoopId(id) => {
            push_str(out, "duplicate loop id: ");
            push_u64_decimal(id.0 as u64, out);
            assert(out@ =~= start + verify_error_text(*e));
        },
        VerifyError::BreakTargetNotEnclosing(id) => {
            push_str(out, "break target loop id ");
            push_u64_decimal(id.0 as u64, out);
            push_str(out, " is not enclosing");
            assert(out@ =~= start + verify_error_text(*e));
        },
        VerifyError::InvalidStateLoopUpdate => {
            push_str(out, "state loop update does not match declared state slots");
            assert(out@ =~= start + verify_error_text(*e));
        },
        VerifyError::InvalidParameterCount => {
            push_str(out, "function parameter count exceeds its local count");
            assert(out@ =~= start + verify_error_text(*e));
        },
    }
}

/// The message of a `VerifyError`, as its `Display` text reads.
pub fn verify_error_message(e: &VerifyError) -> (r: String)
    ensures
        r@ == verify_error_text(*e),
{
    let mut out: Vec<char> = Vec::new();
    push_verify_error(&mut out, e);
    string_from_chars(out.as_slice())
}

/// The message of a `BackendError`.
pub open spec fn backend_error_text(e: BackendError) -> Seq<char>
    decreases e,
{
    match e {
        BackendError::Unsupported(what) => "backend does not support: "@ + what@,
    }
}

fn push_backend_error(out: &mut Vec<char>, e: &BackendError)
    ensures
        final(out)@ == old(out)@ + backend_error_text(*e),
    decreases e,
{
    let ghost start = out@;
    match e {
        BackendError::Unsupported(what) => {
            push_str(out, "backend does not support: ");
            push_str(out, what.as_str());
            assert(out@ =~= start + backend_error_text(*e));
        },
    }
}

/// The message of a `BackendError`, as its `Display` text reads.
pub fn backend_error_message(e: &BackendError) -> (r: String)
    ensures
        r@ == backend_error_text(*e),
{
    let mut out: Vec<char> = Vec::new();
    push_backend_error(&mut out, e);
    string_from_chars(out.as_slice())
}

/// The message of a `MacroExpandError`.
pub open spec fn macro_error_text(e: MacroExpandError) -> Seq<char>
    decreases e,
{
    match e {
        MacroExpandError::InvalidMacroDefinition => "invalid defmacro definition"@,
        MacroExpandError::InvalidMacroName => "macro name must be an interned symbol"@,
        MacroExpandError::InvalidMacroParameterList => "macro parameters must be a list of interned symbols"@,
        MacroExpandError::DuplicateMacroParameter(name) => "duplicate macro parameter: "@ + name@,
        MacroExpandError::DuplicateMacroDefinition(name) => "duplicate macro definition: "@ + name@,
        MacroExpandError::ReservedMacroName(name) => "reserved special form cannot be redefined as a macro: "@ + name@,
        MacroExpandError::NestedMacroDefinition => "defmacro is only allowed as a directly written top-level form"@,
        MacroExpandError::GeneratedMacroDefinition => "a macro expansion may not generate defmacro"@,
        MacroExpandError::ForbiddenMacroOperation(name) => "operation is not available during macro evaluation: "@ + name@,
        MacroExpandError::MacroArityMismatch { name, expected, got } => "macro "@ + name@ + " expects "@ + dec_text(expected as nat) + " arguments, got "@ + dec_text(got as nat),
        MacroExpandError::MacroEvaluationFailed { name, cause, stack } => "macro "@ + name@ + " evaluation failed (stack: "@ + joined_text(stack@, 0) + "): "@ + cause@,
        MacroExpandError::MacroResultIsNotDatum { name, actual, stack } => "macro "@ + name@ + " must return a Datum, got "@ + actual@ + " (stack: "@ + joined_text(stack@, 0) + ")"@,
        MacroExpandError::MacroExpansionDepthExceeded { stack } => "macro expansion depth exceeded (stack: "@ + joined_text(stack@, 0) + ")"@,
        MacroExpandError::MacroExpansionBudgetExceeded { stack } => "macro expansion invocation budget exceeded (stack: "@ + joined_text(stack@, 0) + ")"@,
        MacroExpandError::InvalidDatumToExprConversion => "macro result cannot be converted from Datum to syntax"@,
    }
}

fn push_macro_error(out: &mut Vec<char>, e: &MacroExpandError)
    ensures
        final(out)@ == old(out)@ + macro_error_text(*e),
    decreases e,
{
    let ghost start = out@;
    match e {
        MacroExpandError::InvalidMacroDefinition => {
            push_str(out, "invalid defmacro definition");
            assert(out@ =~= start + macro_error_text(*e));
        },
        MacroExpandError::InvalidMacroName => {
            push_str(out, "macro name must be an interned symbol");
            assert(out@ =~= start + macro_error_text(*e));
        },
        MacroExpandError::InvalidMacroParameterList => {
            push_str(out, "macro parameters must be a list of interned symbols");
            assert(out@ =~= start + macro_error_text(*e));
        },
        MacroExpandError::DuplicateMacroParameter(name) => {
            push_str(out, "duplicate macro parameter: ");
            push_str(out, name.as_str());
            assert(out@ =~= start + macro_error_text(*e));
        },
        MacroExpandError::DuplicateMacroDefinition(name) => {
            push_str(out, "duplicate macro definition: ");
            push_str(out, name.as_str());
            assert(out@ =~= start + macro_error_text(*e));
        },
        MacroExpandError::ReservedMacroName(name) => {
            push_str(out, "reserved special form cannot be redefined as a macro: ");
            push_str(out, name.as_str());
            assert(out@ =~= start + macro_error_text(*e));
        },
        MacroExpandError::NestedMacroDefinition => {
            push_str(out, "defmacro is only allowed as a directly written top-level form");
            assert(out@ =~= start + macro_error_text(*e));
        },
        MacroExpandError::GeneratedMacroDefinition => {
            push_str(out, "a macro expansion may not generate defmacro");
            assert(out@ =~= start + macro_error_text(*e));
        },
        MacroExpandError::ForbiddenMacroOperation(name) => {
            push_str(out, "operation is not available during macro evaluation: ");
            push_str(out, name.as_str());
            assert(out@ =~= start + macro_error_text(*e));
        },
        MacroExpandError::MacroArityMismatch { name, expected, got } => {
            push_str(out, "macro ");
            push_str(out, name.as_str());
            push_str(out, " expects ");
            push_u64_decimal(*expected as u64, out);
            push_str(out, " arguments, got ");
            push_u64_decimal(*got as u64, out);
            assert(out@ =~= start + macro_error_text(*e));
        },
        MacroExpandError::MacroEvaluationFailed { name, cause, stack } => {
            push_str(out, "macro ");
            push_str(out, name.as_str());
            push_str(out, " evaluation failed (stack: ");
            push_joined(out, stack);
            push_str(out, "): ");
            push_str(out, cause.as_str());
            assert(out@ =~= start + macro_error_text(*e));
        },
        MacroExpandError::MacroResultIsNotDatum { name, actual, stack } => {
            push_str(out, "macro ");
            push_str(out, name.as_str());
            push_str(out, " must return a Datum, got ");
            push_str(out, actual.as_str());
            push_str(out, " (stack: ");
            push_joined(out, stack);
            push_str(out, ")");
            assert(out@ =~= start + macro_error_text(*e));
        },
        MacroExpandError::MacroExpansionDepthExceeded { stack } => {
            push_str(out, "macro expansion depth exceeded (stack: ");
            push_joined(out, stack);
            push_str(out, ")");
            assert(out@ =~= start + macro_error_text(*e));
        },
        MacroExpandError::MacroExpansionBudgetExceeded { stack } => {
            push_str(out, "macro expansion invocation budget exceeded (stack: ");
            push_joined(out, stack);
            push_str(out, ")");
            assert(out@ =~= start + macro_error_text(*e));
        },
        MacroExpandError::InvalidDatumToExprConversion => {
            push_str(out, "macro result cannot be converted from Datum to syntax");
            assert(out@ =~= start + macro_error_text(*e));
        },
    }
}

/// The message of a `MacroExpandError`, as its `Display` text reads.
pub fn macro_error_message(e: &MacroExpandError) -> (r: String)
    ensures
        r@ == macro_error_text(*e),
{
    let mut out: Vec<char> = Vec::new();
    push_macro_error(&mut out, e);
    string_from_chars(out.as_slice())
}

/// The message of a `LispError`.
pub open spec fn lisp_error_text(e: LispError) -> Seq<char>
    decreases e,
{
    match e {
        LispError::Lex(inner) => "lex error: "@ + lex_error_text(inner),
        LispError::Parse(inner) => "parse error: "@ + parse_error_text(inner),
        LispError::Expand(inner) => "expand error: "@ + expand_error_text(inner),
        LispError::Lower(inner) => "lower error: "@ + lower_error_text(inner),
        LispError::Verify(inner) => "verify error: "@ + verify_error_text(inner),
        LispError::Eval(inner) => "eval error: "@ + eval_error_text(inner),
        LispError::Backend(inner) => "backend error: "@ + backend_error_text(inner),
        LispError::Macro(inner) => "macro expansion error: "@ + macro_error_text(inner),
    }
}

fn push_lisp_error(out: &mut Vec<char>, e: &LispError)
    ensures
        final(out)@ == old(out)@ + lisp_error_text(*e),
    decreases e,
{
    let ghost start = out@;
    match e {
        LispError::Lex(inner) => {
            push_str(out, "lex error: ");
            push_lex_error(out, inner);
            assert(out@ =~= start + lisp_error_text(*e));
        },
        LispError::Parse(inner) => {
            push_str(out, "parse error: ");
            push_parse_error(out, inner);
            assert(out@ =~= start + lisp_error_text(*e));
        },
        LispError::Expand(inner) => {
            push_str(out, "expand error: ");
            push_expand_error(out, inner);
            assert(out@ =~= start + lisp_error_text(*e));
        },
        LispError::Lower(inner) => {
            push_str(out, "lower error: ");
            push_lower_error(out, inner);
            assert(out@ =~= start + lisp_error_text(*e));
        },
        LispError::Verify(inner) => {
            push_str(out, "verify error: ");
            push_verify_error(out, inner);
            assert(out@ =~= start + lisp_error_text(*e));
        },
        LispError::Eval(inner) => {
            push_str(out, "eval error: ");
            push_eval_error(out, inner);
            assert(out@ =~= start + lisp_error_text(*e));
        },
        LispError::Backend(inner) => {
            push_str(out, "backend error: ");
            push_backend_error(out, inner);
            assert(out@ =~= start + lisp_error_text(*e));
        },
        LispError::Macro(inner) => {
            push_str(out, "macro expansion error: ");
            push_macro_error(out, inner);
            assert(out@ =~= start + lisp_error_text(*e));
        },
    }
}

/// The message of a `LispError`, as its `Display` text reads.
pub fn lisp_error_message(e: &LispError) -> (r: String)
    ensures
        r@ == lisp_error_text(*e),
{
    let mut out: Vec<char> = Vec::new();
    push_lisp_error(&mut out, e);
    string_from_chars(out.as_slice())
}

} // verus!
