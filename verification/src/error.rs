//! Error types for every phase of the pipeline, plus byte spans locating
//! reader errors in the source text.
use vstd::prelude::*;
use crate::ids::{CaptureSlot, FunctionId, GlobalId, LocalSlot, LoopId};
use crate::value::Value;

verus! {

/// A byte range `[start, end)` in the UTF-8 source text.
#[derive(Debug, Clone, Copy, PartialEq, Eq, Structural)]
pub struct Span {
    pub start: usize,
    pub end: usize,
}

impl Span {
    pub fn new(start: usize, end: usize) -> (r: Self)
        ensures
            r == (Span { start, end }),
    {
        Span { start, end }
    }
}

#[derive(Debug, Clone, PartialEq, Eq)]
pub enum LexError {
    UnrecognizedCharacter { ch: char, span: Span },
    InvalidInteger { text: String, span: Span },
    IntegerOutOfRange { text: String, span: Span },
    MalformedRadixLiteral { text: String, span: Span },
    UnterminatedString { span: Span },
    InvalidEscape { ch: char, span: Span },
}

#[derive(Debug, Clone, PartialEq, Eq, Structural)]
pub enum ParseError {
    UnexpectedEof,
    UnmatchedOpenParen { span: Span },
    UnmatchedCloseParen { span: Span },
    EmptyInput,
    ExtraTokensAfterExpression { span: Span },
}

#[derive(Debug, Clone)]
pub enum EvalError {
    Break(Value),
    InvalidBreakSyntax,
    UndefinedSymbol(String),
    EmptyApplication,
    NotCallable(String),
    WrongArgCount { expected: usize, got: usize },
    NonIntegerArgument,
    InvalidIfSyntax,
    InvalidGeneralLoopSyntax,
    InvalidLoopStateBinding,
    DuplicateLoopState(String),
    InvalidLoopStateUpdate,
    NonBooleanCondition(&'static str),
    ComparisonTypeMismatch { left: &'static str, right: &'static str },
    UnorderableType(&'static str),
    DivisionByZero,
    IntegerOverflow,
    MalformedFn,
    MalformedFnParams,
    DuplicateParameter(String),
    MalformedLet,
    MalformedLetBinding,
    DuplicateBinding(String),
    NonStringFormatArgument,
    Format(FormatError),
    Io { message: String },
    InvalidLoopSyntax,
    InvalidLoopBinding,
    NonIntegerLoopBound,
    ZeroLoopStep,
    LoopCounterOverflow,
    InvalidDefSyntax,
    InvalidDefName,
    ReservedDefName(String),
    DefOutsideTopLevel,
    CannotConvertToDatum(&'static str),
    InvalidGensymPrefix(&'static str),
    GensymIdOverflow,
    CallDepthExceeded,
}

/// Errors produced while parsing or applying a `print` format string.
#[derive(Debug, Clone, PartialEq, Eq)]
pub enum FormatError {
    UnmatchedOpenBrace,
    UnmatchedCloseBrace,
    MissingArgument { index: usize },
    UnusedArgument { index: usize },
    UnsupportedFormatType { type_char: char },
    TypeMismatch { format_type: &'static str, value_type: &'static str },
}

/// Errors produced while expanding reader S-expressions into core expressions.
#[derive(Debug, Clone, PartialEq, Eq)]
pub enum ExpandError {
    InvalidMetaSyntax,
    MetaPropertiesNotList,
    InvalidMetaProperty,
    InvalidMetaPropertyKey,
    DuplicatePropertyKey(String),
    InvalidForSyntax,
    InvalidForBinding,
    NonConstantForBound,
    NonIntegerForBound,
    ZeroForStep,
    ForExpansionLimitExceeded,
    ConstantDivisionByZero,
    ConstantRemainderByZero,
    ConstantIntegerOverflow,
    InvalidQuoteSyntax { got: usize },
    InvalidQuasiquoteSyntax { got: usize },
    InvalidUnquoteSyntax { got: usize },
    UnquoteOutsideQuasiquote,
}

/// Errors produced while lowering a core expression into IR.
#[derive(Debug, Clone, PartialEq, Eq)]
pub enum LowerError {
    BreakOutsideRuntimeLoop,
    DefOutsideDirectTopLevel,
    ReservedDefinitionName(String),
    InvalidCoreForm,
    DuplicateParameter(String),
    DuplicateBinding(String),
    DuplicateLoopState(String),
    TooManyLocals,
    TooManyCaptures,
    TooManyFunctions,
    TooManyLoops,
    TooManyGlobals,
    InvalidGensymSyntax { got: usize },
    UnboundGeneratedSymbol(String),
}

/// Errors produced while checking that IR is internally consistent.
#[derive(Debug, Clone, PartialEq, Eq, Structural)]
pub enum VerifyError {
    InvalidFunctionId(FunctionId),
    InvalidGlobalId(GlobalId),
    InvalidLocalSlot(LocalSlot),
    InvalidCaptureSlot(CaptureSlot),
    CaptureCountMismatch { expected: u32, got: u32 },
    DuplicateLoopId(LoopId),
    BreakTargetNotEnclosing(LoopId),
    InvalidStateLoopUpdate,
    InvalidParameterCount,
}

/// Errors a backend may report while translating verified IR.
#[derive(Debug, Clone, PartialEq, Eq)]
pub enum BackendError {
    Unsupported(String),
}

#[derive(Debug, Clone)]
pub enum LispError {
    Lex(LexError),
    Parse(ParseError),
    Expand(ExpandError),
    Lower(LowerError),
    Verify(VerifyError),
    Eval(EvalError),
    Backend(BackendError),
    Macro(MacroExpandError),
}

#[derive(Debug, Clone, PartialEq, Eq)]
pub enum MacroExpandError {
    InvalidMacroDefinition,
    InvalidMacroName,
    InvalidMacroParameterList,
    DuplicateMacroParameter(String),
    DuplicateMacroDefinition(String),
    ReservedMacroName(String),
    NestedMacroDefinition,
    GeneratedMacroDefinition,
    ForbiddenMacroOperation(String),
    MacroArityMismatch { name: String, expected: usize, got: usize },
    MacroEvaluationFailed { name: String, cause: String, stack: Vec<String> },
    MacroResultIsNotDatum { name: String, actual: String, stack: Vec<String> },
    MacroExpansionDepthExceeded { stack: Vec<String> },
    MacroExpansionBudgetExceeded { stack: Vec<String> },
    InvalidDatumToExprConversion,
}

impl From<LexError> for LispError {
    fn from(e: LexError) -> (r: Self)
        ensures
            r == LispError::Lex(e),
    {
        LispError::Lex(e)
    }
}

impl vstd::std_specs::convert::FromSpecImpl<LexError> for LispError {
    open spec fn obeys_from_spec() -> bool {
        true
    }

    open spec fn from_spec(e: LexError) -> Self {
        LispError::Lex(e)
    }
}

impl From<ParseError> for LispError {
    fn from(e: ParseError) -> (r: Self)
        ensures
            r == LispError::Parse(e),
    {
        LispError::Parse(e)
    }
}

impl vstd::std_specs::convert::FromSpecImpl<ParseError> for LispError {
    open spec fn obeys_from_spec() -> bool {
        true
    }

    open spec fn from_spec(e: ParseError) -> Self {
        LispError::Parse(e)
    }
}

impl From<ExpandError> for LispError {
    fn from(e: ExpandError) -> (r: Self)
        ensures
            r == LispError::Expand(e),
    {
        LispError::Expand(e)
    }
}

impl vstd::std_specs::convert::FromSpecImpl<ExpandError> for LispError {
    open spec fn obeys_from_spec() -> bool {
        true
    }

    open spec fn from_spec(e: ExpandError) -> Self {
        LispError::Expand(e)
    }
}

impl From<LowerError> for LispError {
    fn from(e: LowerError) -> (r: Self)
        ensures
            r == LispError::Lower(e),
    {
        LispError::Lower(e)
    }
}

impl vstd::std_specs::convert::FromSpecImpl<LowerError> for LispError {
    open spec fn obeys_from_spec() -> bool {
        true
    }

    open spec fn from_spec(e: LowerError) -> Self {
        LispError::Lower(e)
    }
}

impl From<VerifyError> for LispError {
    fn from(e: VerifyError) -> (r: Self)
        ensures
            r == LispError::Verify(e),
    {
        LispError::Verify(e)
    }
}

impl vstd::std_specs::convert::FromSpecImpl<VerifyError> for LispError {
    open spec fn obeys_from_spec() -> bool {
        true
    }

    open spec fn from_spec(e: VerifyError) -> Self {
        LispError::Verify(e)
    }
}

impl From<EvalError> for LispError {
    fn from(e: EvalError) -> (r: Self)
        ensures
            r == LispError::Eval(e),
    {
        LispError::Eval(e)
    }
}

impl vstd::std_specs::convert::FromSpecImpl<EvalError> for LispError {
    open spec fn obeys_from_spec() -> bool {
        true
    }

    open spec fn from_spec(e: EvalError) -> Self {
        LispError::Eval(e)
    }
}

impl From<BackendError> for LispError {
    fn from(e: BackendError) -> (r: Self)
        ensures
            r == LispError::Backend(e),
    {
        LispError::Backend(e)
    }
}

impl vstd::std_specs::convert::FromSpecImpl<BackendError> for LispError {
    open spec fn obeys_from_spec() -> bool {
        true
    }

    open spec fn from_spec(e: BackendError) -> Self {
        LispError::Backend(e)
    }
}

impl From<MacroExpandError> for LispError {
    fn from(e: MacroExpandError) -> (r: Self)
        ensures
            r == LispError::Macro(e),
    {
        LispError::Macro(e)
    }
}

impl vstd::std_specs::convert::FromSpecImpl<MacroExpandError> for LispError {
    open spec fn obeys_from_spec() -> bool {
        true
    }

    open spec fn from_spec(e: MacroExpandError) -> Self {
        LispError::Macro(e)
    }
}

} // verus!
