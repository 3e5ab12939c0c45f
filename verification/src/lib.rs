//! A small Lisp with a compiler-style pipeline: source text is read into
//! syntax, macros are expanded, `for` forms are unrolled, names are
//! resolved into a structured IR, the IR is checked and then evaluated;
//! `module` forms can also be lowered to a hardware IR and printed as
//! SystemVerilog.
pub mod text;
pub mod ids;
pub mod symbol;
pub mod order;
pub mod ast;
pub mod property;
pub mod value;
pub mod error;
pub mod lexer;
pub mod parser;
pub mod format;
pub mod builtin;
pub mod datum;
pub mod ir;
pub mod capture;
pub mod globals;
pub mod core_expr;
pub mod expand;
pub mod verify;
pub mod text_ir;
pub mod lower_shape;
pub mod lower;
pub mod semantics;
pub mod ir_eval;
pub mod interpreter;
pub mod compiler;
pub mod backend;
pub mod hardware;
pub mod messages;
pub mod macro_expand;

use vstd::prelude::*;
use crate::core_expr::CoreExpr;
use crate::expand::ExpansionContext;
use crate::ir::IrTopLevel;
use crate::lexer::{lex, tokens_view, SpannedToken};
use crate::lower::{extends_names, LowerContext};
use crate::parser::{read_error_matches, read_one, read_program, ReadError};
use crate::text::byte_len;
use crate::ast::{exprs_view, ExprV};

pub use crate::ast::{Expr, ExprKind};
pub use crate::error::{
    BackendError, EvalError, ExpandError, FormatError, LexError, LispError, LowerError, MacroExpandError, ParseError,
    VerifyError,
};
pub use crate::expand::{ExpansionLimits, ForConstantSource};
pub use crate::globals::{GlobalRegistry, GlobalStore, RuntimeConstants};
pub use crate::interpreter::{FrontendSession, Interpreter};
pub use crate::ir::IrModule;
pub use crate::lexer::Token;
pub use crate::property::{Properties, PropertyValue};
pub use crate::value::{Builtin, Closure, Value};

verus! {

/// Splits `source` into tokens.
pub fn tokenize(source: &str) -> (r: Result<Vec<SpannedToken>, LispError>)
    requires
        byte_len(source@) <= usize::MAX,
    ensures
        match lex(source@) {
            Ok(ts) => r matches Ok(v) && tokens_view(v@) == ts,
            Err(e) => r matches Err(LispError::Lex(x)) && x@ == e,
        },
{
    match crate::lexer::tokenize(source) {
        Ok(tokens) => Ok(tokens),
        Err(e) => Err(LispError::Lex(e)),
    }
}

/// Reads exactly one expression from `source`.
pub fn parse_one(source: &str) -> (r: Result<Expr, LispError>)
    requires
        byte_len(source@) <= usize::MAX,
    ensures
        match r {
            Ok(e) => read_one(source@) == Ok::<ExprV, ReadError>(e@),
            Err(e) => read_one(source@) matches Err(re) && read_error_matches(re, e),
        },
{
    crate::parser::parse_one(source)
}

/// Reads every top-level expression of `source`, in order.
pub fn parse_program(source: &str) -> (r: Result<Vec<Expr>, LispError>)
    requires
        byte_len(source@) <= usize::MAX,
    ensures
        match r {
            Ok(es) => read_program(source@) == Ok::<Seq<ExprV>, ReadError>(exprs_view(es@, es@.len() as int)),
            Err(e) => read_program(source@) matches Err(re) && read_error_matches(re, e),
        },
{
    crate::parser::parse_program(source)
}

/// Expands one reader expression into a core expression, unrolling any
/// `for` forms it contains.
pub fn expand<C: ForConstantSource>(expr: &Expr, context: &mut ExpansionContext<C>) -> (r: Result<CoreExpr, LispError>)
    ensures
        final(context).spec_for_vars() == old(context).spec_for_vars(),
        final(context).spec_constants() == old(context).spec_constants(),
        final(context).spec_limits() == old(context).spec_limits(),
        match crate::expand::expand_spec(expr@, old(context).spec_for_vars(), old(context).spec_constants(), old(context).spec_budget()) {
            Ok((c, left)) => r matches Ok(x) && x@ == c && final(context).spec_budget() == left,
            Err(err) => r matches Err(LispError::Expand(e)) && crate::expand::expand_error_matches(e, err),
        },
{
    match crate::expand::expand(expr, context) {
        Ok(core) => Ok(core),
        Err(e) => Err(LispError::Expand(e)),
    }
}

/// Lowers a core expression into IR, resolving names against `globals`
/// and appending the functions it defines to `module`; on failure the
/// module is left as it was. It succeeds exactly on well-formed forms,
/// unless a counter runs out.
pub fn lower_top_level(core: &CoreExpr, globals: &mut GlobalRegistry, module: &mut IrModule) -> (r: Result<IrTopLevel, LispError>)
    ensures
        extends_names(old(globals)@, final(globals)@),
        final(module).functions@.len() >= old(module).functions@.len(),
        final(module).functions@.take(old(module).functions@.len() as int) == old(module).functions@,
        forall|i: int| old(module).functions@.len() <= i < final(module).functions@.len()
            ==> (#[trigger] final(module).functions@[i]).id.0 == i,
        r is Err ==> final(module).functions@ == old(module).functions@,
        (*core is Int || *core is Bool || *core is String) && old(module).functions@.len() <= u32::MAX ==> r is Ok,
        r matches Ok(t) ==> crate::lower_shape::top_level_lowered_from(core@, t,
            final(module).functions@.map_values(|f: crate::ir::IrFunction| Some(f)), 0, final(globals)@),
        r matches Err(x) ==> (x matches LispError::Lower(e)
            && (crate::lower_shape::top_lowerable(core@) ==> crate::lower_shape::limit_error(e))),
        r is Ok ==> crate::lower_shape::top_lowerable(core@),
{
    let base = module.functions.len();
    if base > u32::MAX as usize {
        proof {
            assert(module.functions@.take(base as int) =~= module.functions@);
        }
        return Err(LispError::Lower(LowerError::TooManyFunctions));
    }
    let mut context = LowerContext::with_next_ids(base as u32, 0);
    match crate::lower::lower_top_level(core, &mut context, globals) {
        Ok((top_level, functions)) => {
            let ghost added = functions@;
            crate::interpreter::append_functions(&mut module.functions, functions);
            proof {
                assert(module.functions@.take(base as int) =~= old(module).functions@);
                let small = added.map_values(|f: crate::ir::IrFunction| Some(f));
                let all = module.functions@.map_values(|f: crate::ir::IrFunction| Some(f));
                assert forall|id: int| (#[trigger] crate::lower_shape::fn_entry(small, base as int, id)) is Some
                    implies crate::lower_shape::fn_entry(all, 0, id) == crate::lower_shape::fn_entry(small, base as int, id) by {
                    assert(module.functions@[id] == added[id - base]);
                }
                crate::lower_shape::lemma_top_level_grows(core@, top_level, small, all, base as int, 0, globals@, globals@);
            }
            Ok(top_level)
        },
        Err(e) => {
            proof {
                assert(module.functions@.take(base as int) =~= module.functions@);
            }
            Err(LispError::Lower(e))
        },
    }
}

/// Checks a lowered top-level form, then every function of `module`,
/// before either is run or handed to a backend.
pub fn verify_top_level(top_level: &IrTopLevel, module: &IrModule, globals: &GlobalRegistry) -> (r: Result<(), LispError>)
    ensures
        match crate::verify::check_top_level(*top_level, module.functions@, globals@.len()) {
            Err(e) => r matches Err(LispError::Verify(x)) && x == e,
            Ok(()) => match crate::verify::check_functions(module.functions@, 0, module.functions@, globals@.len()) {
                Err(e) => r matches Err(LispError::Verify(x)) && x == e,
                Ok(()) => r is Ok,
            },
        },
{
    match crate::verify::verify_top_level(top_level, module, globals) {
        Ok(()) => {},
        Err(e) => {
            return Err(LispError::Verify(e));
        },
    }
    match crate::verify::verify_module(module, globals) {
        Ok(()) => Ok(()),
        Err(e) => Err(LispError::Verify(e)),
    }
}

/// The text of a whole IR module: its function table, in order.
pub fn format_ir_module(module: &IrModule, globals: &GlobalRegistry) -> (r: String)
    ensures
        r@ == crate::text_ir::functions_text(module.functions@, 0, globals@),
{
    crate::text_ir::format_ir_module(module, globals)
}

/// The text of one top-level form's IR.
pub fn format_top_level(top_level: &IrTopLevel, module: &IrModule, globals: &GlobalRegistry) -> (r: String)
    ensures
        r@ == crate::text_ir::top_level_text(*top_level, globals@),
{
    crate::text_ir::format_top_level(top_level, module, globals)
}

} // verus!
