//! Deterministic, human-readable text for IR: `@n` for globals, `fn#n`
//! for functions, `%n` for locals, `^n` for captures and `loop#n` for loop
//! ids. A dedicated printer, so the shape stays stable whatever the
//! structs look like.
use vstd::prelude::*;
use crate::datum::datum_text;
use crate::globals::GlobalRegistry;
use crate::ids::GlobalId;
use crate::ir::{
    IrCaptureSource, IrConst, IrExpr, IrExprKind, IrFunction, IrLetBinding, IrModule, IrQuasiDatum,
    IrStateBinding, IrStateUpdate, IrTopLevel,
};
use crate::text::{debug_quote, debug_quoted, int_decimal, push_i64_decimal, push_str, push_u64_decimal, radix_digits, string_from_chars};

verus! {

broadcast use vstd::std_specs::vec::group_vec_axioms;

pub open spec fn num_text(n: u32) -> Seq<char> {
    radix_digits(n as nat, 10, false)
}

/// The name a global id is printed with, `?` for an unknown id.
pub open spec fn global_name(globals: Seq<Seq<char>>, id: GlobalId) -> Seq<char> {
    if (id.0 as int) < globals.len() {
        globals[id.0 as int]
    } else {
        "?"@
    }
}

pub open spec fn const_text(c: IrConst) -> Seq<char> {
    match c {
        IrConst::Int(n) => "const(int "@ + int_decimal(n as int) + ")"@,
        IrConst::Bool(b) => "const(bool "@ + (if b { "true"@ } else { "false"@ }) + ")"@,
        IrConst::String(s) => "const(string "@ + debug_quoted(s@) + ")"@,
        IrConst::Unit => "const(unit)"@,
    }
}

pub open spec fn source_text(s: IrCaptureSource) -> Seq<char> {
    match s {
        IrCaptureSource::Local(slot) => "local %"@ + num_text(slot.0),
        IrCaptureSource::Capture(slot) => "capture ^"@ + num_text(slot.0),
    }
}

pub open spec fn sep_text(i: int, sep: Seq<char>) -> Seq<char> {
    if i == 0 {
        Seq::empty()
    } else {
        sep
    }
}

pub open spec fn sources_text(items: Seq<IrCaptureSource>, i: int) -> Seq<char>
    decreases items.len() - i,
{
    if i < 0 || i >= items.len() {
        Seq::empty()
    } else {
        sep_text(i, ", "@) + source_text(items[i]) + sources_text(items, i + 1)
    }
}

/// An expression on a line of its own, indented by `ind`.
pub open spec fn line_text(e: IrExpr, g: Seq<Seq<char>>, ind: Seq<char>) -> Seq<char>
    decreases e, 1int,
{
    ind + inline_text(e, g, ind) + "\n"@
}

/// An expression printed where it stands, nested lines indented past
/// the indentation `ind`.
pub open spec fn inline_text(e: IrExpr, g: Seq<Seq<char>>, ind: Seq<char>) -> Seq<char>
    decreases e, 0int,
{
    match e.kind {
        IrExprKind::Const(c) => const_text(c),
        IrExprKind::Quote(d) => "quote "@ + datum_text(d@),
        IrExprKind::QuasiQuote(q) => "quasiquote "@ + quasi_text(q, g, ind),
        IrExprKind::Gensym { prefix } => "gensym"@ + match prefix {
            Some(p) => "("@ + inline_text(*p, g, ind) + ")"@,
            None => Seq::empty(),
        },
        IrExprKind::LoadLocal(slot) => "local %"@ + num_text(slot.0),
        IrExprKind::LoadCapture(slot) => "capture ^"@ + num_text(slot.0),
        IrExprKind::LoadGlobal(id) => "global @"@ + num_text(id.0) + " \""@ + global_name(g, id) + "\""@,
        IrExprKind::Let { bindings, body } => "let("@ + lets_text(bindings@, 0, g, ind) + ") {\n"@ + line_text(*body, g, ind + "  "@)
            + ind + "}"@,
        IrExprKind::MakeClosure { function, captures } => "closure fn#"@ + num_text(function.0) + " captures=["@
            + sources_text(captures@, 0) + "]"@,
        IrExprKind::Call { callee, arguments } => "call(\n"@ + (ind + "  "@) + inline_text(*callee, g, ind + "  "@) + "\n"@
            + args_text(arguments@, 0, g, ind + "  "@) + ind + ")"@,
        IrExprKind::If { condition, then_expr, else_expr } => "if(\n"@ + (ind + "  "@) + inline_text(*condition, g, ind + "  "@)
            + "\n"@ + ind + ") then {\n"@ + line_text(*then_expr, g, ind + "  "@) + ind + "} else {\n"@
            + line_text(*else_expr, g, ind + "  "@) + ind + "}"@,
        IrExprKind::RangeLoop { loop_id, variable, start, end, step, body } => "range_loop loop#"@ + num_text(loop_id.0) + " %"@
            + num_text(variable.0) + " start="@ + inline_text(*start, g, ind) + " end="@ + inline_text(*end, g, ind)
            + " step="@ + inline_text(*step, g, ind) + " {\n"@ + line_text(*body, g, ind + "  "@) + ind + "}"@,
        IrExprKind::StateLoop { loop_id, states, condition, updates, body } => "state_loop loop#"@ + num_text(loop_id.0)
            + " states=["@ + states_text(states@, 0, g, ind) + "] while(\n"@ + (ind + "  "@)
            + inline_text(*condition, g, ind + "  "@) + "\n"@ + ind + ") do {\n"@ + line_text(*body, g, ind + "  "@)
            + ind + "} next=["@ + updates_text(updates@, 0, g, ind) + "]"@,
        IrExprKind::Break { target, value } => "break loop#"@ + num_text(target.0) + match value {
            Some(v) => " value="@ + inline_text(*v, g, ind),
            None => Seq::empty(),
        },
        IrExprKind::Sequence(items) => "sequence {\n"@ + lines_text(items@, 0, g, ind + "  "@) + ind + "}"@,
        IrExprKind::Do(items) => "do {"@ + (if items@.len() > 0 {
            "\n"@ + lines_text(items@, 0, g, ind + "  "@) + ind
        } else {
            Seq::empty()
        }) + "}"@,
    }
}

pub open spec fn lets_text(items: Seq<IrLetBinding>, i: int, g: Seq<Seq<char>>, ind: Seq<char>) -> Seq<char>
    decreases items, items.len() - i,
{
    if i < 0 || i >= items.len() {
        Seq::empty()
    } else {
        sep_text(i, ", "@) + "%"@ + num_text(items[i].target.0) + " = "@ + inline_text(items[i].initializer, g, ind)
            + lets_text(items, i + 1, g, ind)
    }
}

pub open spec fn states_text(items: Seq<IrStateBinding>, i: int, g: Seq<Seq<char>>, ind: Seq<char>) -> Seq<char>
    decreases items, items.len() - i,
{
    if i < 0 || i >= items.len() {
        Seq::empty()
    } else {
        sep_text(i, ", "@) + "%"@ + num_text(items[i].target.0) + " = "@ + inline_text(items[i].initializer, g, ind)
            + states_text(items, i + 1, g, ind)
    }
}

pub open spec fn updates_text(items: Seq<IrStateUpdate>, i: int, g: Seq<Seq<char>>, ind: Seq<char>) -> Seq<char>
    decreases items, items.len() - i,
{
    if i < 0 || i >= items.len() {
        Seq::empty()
    } else {
        sep_text(i, ", "@) + "%"@ + num_text(items[i].target.0) + " = "@ + inline_text(items[i].value, g, ind)
            + updates_text(items, i + 1, g, ind)
    }
}

/// Call arguments, each on its own line, indented by `ind`.
pub open spec fn args_text(items: Seq<IrExpr>, i: int, g: Seq<Seq<char>>, ind: Seq<char>) -> Seq<char>
    decreases items, items.len() - i,
{
    if i < 0 || i >= items.len() {
        Seq::empty()
    } else {
        ind + inline_text(items[i], g, ind) + "\n"@ + args_text(items, i + 1, g, ind)
    }
}

pub open spec fn lines_text(items: Seq<IrExpr>, i: int, g: Seq<Seq<char>>, ind: Seq<char>) -> Seq<char>
    decreases items, items.len() - i,
{
    if i < 0 || i >= items.len() {
        Seq::empty()
    } else {
        line_text(items[i], g, ind) + lines_text(items, i + 1, g, ind)
    }
}

pub open spec fn quasi_text(q: IrQuasiDatum, g: Seq<Seq<char>>, ind: Seq<char>) -> Seq<char>
    decreases q, 0int,
{
    match q {
        IrQuasiDatum::Datum(d) => datum_text(d@),
        IrQuasiDatum::List(items) => "("@ + quasis_text(items@, 0, g, ind) + ")"@,
        IrQuasiDatum::Evaluate(e) => "(evaluate "@ + inline_text(*e, g, ind) + ")"@,
        IrQuasiDatum::Splice(e) => "(splice "@ + inline_text(*e, g, ind) + ")"@,
    }
}

pub open spec fn quasis_text(items: Seq<IrQuasiDatum>, i: int, g: Seq<Seq<char>>, ind: Seq<char>) -> Seq<char>
    decreases items, items.len() - i,
{
    if i < 0 || i >= items.len() {
        Seq::empty()
    } else {
        sep_text(i, " "@) + quasi_text(items[i], g, ind) + quasis_text(items, i + 1, g, ind)
    }
}

pub open spec fn function_text(f: IrFunction, g: Seq<Seq<char>>) -> Seq<char> {
    "fn#"@ + num_text(f.id.0) + "(params="@ + num_text(f.parameter_count) + " captures="@ + num_text(f.capture_count)
        + " locals="@ + num_text(f.local_count) + ") {\n"@ + line_text(f.body, g, "  "@) + "}\n"@
}

pub open spec fn functions_text(fs: Seq<IrFunction>, i: int, g: Seq<Seq<char>>) -> Seq<char>
    decreases fs.len() - i,
{
    if i < 0 || i >= fs.len() {
        Seq::empty()
    } else {
        function_text(fs[i], g) + functions_text(fs, i + 1, g)
    }
}

pub open spec fn top_level_text(t: IrTopLevel, g: Seq<Seq<char>>) -> Seq<char> {
    match t {
        IrTopLevel::Expr { body, .. } => "top.expr(locals="@ + num_text(body.local_count) + ") {\n"@ + line_text(body.expr, g, "  "@)
            + "}\n"@,
        IrTopLevel::Define { target, initializer, .. } => "top.define @"@ + num_text(target.0) + " \""@ + global_name(g, target)
            + "\" (locals="@ + num_text(initializer.local_count) + ") {\n"@ + line_text(initializer.expr, g, "  "@) + "}\n"@,
    }
}

fn deeper(ind: &Vec<char>) -> (r: Vec<char>)
    ensures
        r@ == ind@ + "  "@,
{
    let mut r: Vec<char> = Vec::new();
    crate::text::push_all(&mut r, ind.as_slice());
    push_str(&mut r, "  ");
    r
}

fn push_num(out: &mut Vec<char>, n: u32)
    ensures
        final(out)@ == old(out)@ + num_text(n),
{
    push_u64_decimal(n as u64, out);
}

fn push_global_name(out: &mut Vec<char>, globals: &GlobalRegistry, id: GlobalId)
    ensures
        final(out)@ == old(out)@ + global_name(globals@, id),
{
    match globals.name(id) {
        Some(name) => push_str(out, name),
        None => push_str(out, "?"),
    }
}

fn format_const(out: &mut Vec<char>, c: &IrConst)
    ensures
        final(out)@ == old(out)@ + const_text(*c),
{
    match c {
        IrConst::Int(n) => {
            push_str(out, "const(int ");
            push_i64_decimal(*n, out);
            push_str(out, ")");
        },
        IrConst::Bool(b) => {
            push_str(out, "const(bool ");
            if *b {
                push_str(out, "true");
            } else {
                push_str(out, "false");
            }
            push_str(out, ")");
        },
        IrConst::String(s) => {
            push_str(out, "const(string ");
            let q = debug_quote(s.as_str());
            push_str(out, q.as_str());
            push_str(out, ")");
        },
        IrConst::Unit => push_str(out, "const(unit)"),
    }
    proof {
        assert(out@ =~= old(out)@ + const_text(*c));
    }
}

fn format_expr_line(out: &mut Vec<char>, expr: &IrExpr, module: &IrModule, globals: &GlobalRegistry, ind: &Vec<char>)
    ensures
        final(out)@ == old(out)@ + line_text(*expr, globals@, ind@),
    decreases expr, 3int,
{
    crate::text::push_all(out, ind.as_slice());
    format_expr_inline(out, expr, module, globals, ind);
    push_str(out, "\n");
    proof {
        assert(out@ =~= old(out)@ + line_text(*expr, globals@, ind@));
    }
}

/// Appends the text of `expr` as it stands inside a line indented by `ind`.
fn format_expr_inline(out: &mut Vec<char>, expr: &IrExpr, module: &IrModule, globals: &GlobalRegistry, ind: &Vec<char>)
    ensures
        final(out)@ == old(out)@ + inline_text(*expr, globals@, ind@),
    decreases expr, 2int,
{
    let ghost g = globals@;
    proof {
        assert(decreases_to!(*expr => expr.kind));
    }
    match &expr.kind {
        IrExprKind::Const(c) => format_const(out, c),
        IrExprKind::Quote(datum) => {
            push_str(out, "quote ");
            datum.push_text(out);
        },
        IrExprKind::QuasiQuote(template) => {
            push_str(out, "quasiquote ");
            format_quasi_datum(out, template, module, globals, ind);
        },
        IrExprKind::Gensym { prefix } => {
            push_str(out, "gensym");
            if let Some(prefix) = prefix {
                push_str(out, "(");
                format_expr_inline(out, prefix, module, globals, ind);
                push_str(out, ")");
            }
        },
        IrExprKind::LoadLocal(slot) => {
            push_str(out, "local %");
            push_num(out, slot.0);
        },
        IrExprKind::LoadCapture(slot) => {
            push_str(out, "capture ^");
            push_num(out, slot.0);
        },
        IrExprKind::LoadGlobal(id) => {
            push_str(out, "global @");
            push_num(out, id.0);
            push_str(out, " \"");
            push_global_name(out, globals, *id);
            push_str(out, "\"");
        },
        IrExprKind::Let { .. } => format_let(out, expr, module, globals, ind),
        IrExprKind::MakeClosure { .. } => format_closure(out, expr, module, globals, ind),
        IrExprKind::Call { .. } => format_call(out, expr, module, globals, ind),
        IrExprKind::If { .. } => format_if(out, expr, module, globals, ind),
        IrExprKind::RangeLoop { .. } => format_range_loop(out, expr, module, globals, ind),
        IrExprKind::StateLoop { .. } => format_state_loop(out, expr, module, globals, ind),
        IrExprKind::Break { target, value } => {
            push_str(out, "break loop#");
            push_num(out, target.0);
            if let Some(value) = value {
                push_str(out, " value=");
                format_expr_inline(out, value, module, globals, ind);
            }
        },
        IrExprKind::Sequence(items) => {
            push_str(out, "sequence {\n");
            let inner = deeper(ind);
            format_lines(out, items, module, globals, &inner, Ghost(*expr));
            crate::text::push_all(out, ind.as_slice());
            push_str(out, "}");
        },
        IrExprKind::Do(items) => {
            push_str(out, "do {");
            if items.len() > 0 {
                push_str(out, "\n");
                let inner = deeper(ind);
                format_lines(out, items, module, globals, &inner, Ghost(*expr));
                crate::text::push_all(out, ind.as_slice());
            }
            push_str(out, "}");
        },
    }
    proof {
        assert(out@ =~= old(out)@ + inline_text(*expr, globals@, ind@));
    }
}

#[verifier::spinoff_prover]
fn format_let(out: &mut Vec<char>, expr: &IrExpr, module: &IrModule, globals: &GlobalRegistry, ind: &Vec<char>)
    requires
        expr.kind is Let,
    ensures
        final(out)@ == old(out)@ + inline_text(*expr, globals@, ind@),
    decreases expr, 1int,
{
    let ghost g = globals@;
    match &expr.kind {
        IrExprKind::Let { bindings, body } => {
            push_str(out, "let(");
            let ghost start = out@;
            let mut i: usize = 0;
            while i < bindings.len()
                invariant
                    expr.kind == (IrExprKind::Let { bindings: *bindings, body: *body }),
                    g == globals@,
                    i <= bindings@.len(),
                    start + lets_text(bindings@, 0, g, ind@) == out@ + lets_text(bindings@, i as int, g, ind@),
                decreases bindings@.len() - i,
            {
                proof {
                    assert(decreases_to!(*expr => expr.kind));
                    assert(decreases_to!(expr.kind => (expr.kind)->bindings));
                    assert(decreases_to!(*bindings => bindings[i as int]));
                    assert(decreases_to!(bindings[i as int] => bindings[i as int].initializer));
                }
                let ghost before = out@;
                if i > 0 {
                    push_str(out, ", ");
                }
                push_str(out, "%");
                push_num(out, bindings[i].target.0);
                push_str(out, " = ");
                format_expr_inline(out, &bindings[i].initializer, module, globals, ind);
                proof {
                    assert(before + lets_text(bindings@, i as int, g, ind@) =~= out@ + lets_text(bindings@, i + 1, g, ind@));
                }
                i += 1;
            }
            push_str(out, ") {\n");
            let inner = deeper(ind);
            format_expr_line(out, body, module, globals, &inner);
            crate::text::push_all(out, ind.as_slice());
            push_str(out, "}");
        
            proof {
                assert(out@ =~= old(out)@ + inline_text(*expr, globals@, ind@));
            }
        },
        _ => {},
    }
}

#[verifier::spinoff_prover]
fn format_closure(out: &mut Vec<char>, expr: &IrExpr, module: &IrModule, globals: &GlobalRegistry, ind: &Vec<char>)
    requires
        expr.kind is MakeClosure,
    ensures
        final(out)@ == old(out)@ + inline_text(*expr, globals@, ind@),
    decreases expr, 1int,
{
    let ghost g = globals@;
    match &expr.kind {
        IrExprKind::MakeClosure { function, captures } => {
            push_str(out, "closure fn#");
            push_num(out, function.0);
            push_str(out, " captures=[");
            let ghost start = out@;
            let mut i: usize = 0;
            while i < captures.len()
                invariant
                    i <= captures@.len(),
                    start + sources_text(captures@, 0) == out@ + sources_text(captures@, i as int),
                decreases captures@.len() - i,
            {
                let ghost before = out@;
                if i > 0 {
                    push_str(out, ", ");
                }
                match captures[i] {
                    IrCaptureSource::Local(slot) => {
                        push_str(out, "local %");
                        push_num(out, slot.0);
                    },
                    IrCaptureSource::Capture(slot) => {
                        push_str(out, "capture ^");
                        push_num(out, slot.0);
                    },
                }
                proof {
                    assert(before + sources_text(captures@, i as int) =~= out@ + sources_text(captures@, i + 1));
                }
                i += 1;
            }
            push_str(out, "]");
        
            proof {
                assert(out@ =~= old(out)@ + inline_text(*expr, globals@, ind@));
            }
        },
        _ => {},
    }
}

#[verifier::spinoff_prover]
fn format_call(out: &mut Vec<char>, expr: &IrExpr, module: &IrModule, globals: &GlobalRegistry, ind: &Vec<char>)
    requires
        expr.kind is Call,
    ensures
        final(out)@ == old(out)@ + inline_text(*expr, globals@, ind@),
    decreases expr, 1int,
{
    let ghost g = globals@;
    match &expr.kind {
        IrExprKind::Call { callee, arguments } => {
            let inner = deeper(ind);
            push_str(out, "call(\n");
            crate::text::push_all(out, inner.as_slice());
            format_expr_inline(out, callee, module, globals, &inner);
            push_str(out, "\n");
            let ghost start = out@;
            let mut i: usize = 0;
            while i < arguments.len()
                invariant
                    expr.kind == (IrExprKind::Call { callee: *callee, arguments: *arguments }),
                    g == globals@,
                    inner@ == ind@ + "  "@,
                    i <= arguments@.len(),
                    start + args_text(arguments@, 0, g, inner@) == out@ + args_text(arguments@, i as int, g, inner@),
                decreases arguments@.len() - i,
            {
                proof {
                    assert(decreases_to!(*expr => expr.kind));
                    assert(decreases_to!(expr.kind => (expr.kind)->arguments));
                    assert(decreases_to!(*arguments => arguments[i as int]));
                }
                let ghost before = out@;
                crate::text::push_all(out, inner.as_slice());
                format_expr_inline(out, &arguments[i], module, globals, &inner);
                push_str(out, "\n");
                proof {
                    assert(before + args_text(arguments@, i as int, g, inner@) =~= out@ + args_text(arguments@, i + 1, g, inner@));
                }
                i += 1;
            }
            crate::text::push_all(out, ind.as_slice());
            push_str(out, ")");
        
            proof {
                assert(out@ =~= old(out)@ + inline_text(*expr, globals@, ind@));
            }
        },
        _ => {},
    }
}

#[verifier::spinoff_prover]
fn format_if(out: &mut Vec<char>, expr: &IrExpr, module: &IrModule, globals: &GlobalRegistry, ind: &Vec<char>)
    requires
        expr.kind is If,
    ensures
        final(out)@ == old(out)@ + inline_text(*expr, globals@, ind@),
    decreases expr, 1int,
{
    let ghost g = globals@;
    match &expr.kind {
        IrExprKind::If { condition, then_expr, else_expr } => {
            let inner = deeper(ind);
            push_str(out, "if(\n");
            crate::text::push_all(out, inner.as_slice());
            format_expr_inline(out, condition, module, globals, &inner);
            push_str(out, "\n");
            crate::text::push_all(out, ind.as_slice());
            push_str(out, ") then {\n");
            format_expr_line(out, then_expr, module, globals, &inner);
            crate::text::push_all(out, ind.as_slice());
            push_str(out, "} else {\n");
            format_expr_line(out, else_expr, module, globals, &inner);
            crate::text::push_all(out, ind.as_slice());
            push_str(out, "}");
        
            proof {
                assert(out@ =~= old(out)@ + inline_text(*expr, globals@, ind@));
            }
        },
        _ => {},
    }
}

#[verifier::spinoff_prover]
fn format_range_loop(out: &mut Vec<char>, expr: &IrExpr, module: &IrModule, globals: &GlobalRegistry, ind: &Vec<char>)
    requires
        expr.kind is RangeLoop,
    ensures
        final(out)@ == old(out)@ + inline_text(*expr, globals@, ind@),
    decreases expr, 1int,
{
    let ghost g = globals@;
    match &expr.kind {
        IrExprKind::RangeLoop { loop_id, variable, start, end, step, body } => {
            push_str(out, "range_loop loop#");
            push_num(out, loop_id.0);
            push_str(out, " %");
            push_num(out, variable.0);
            push_str(out, " start=");
            format_expr_inline(out, start, module, globals, ind);
            push_str(out, " end=");
            format_expr_inline(out, end, module, globals, ind);
            push_str(out, " step=");
            format_expr_inline(out, step, module, globals, ind);
            push_str(out, " {\n");
            let inner = deeper(ind);
            format_expr_line(out, body, module, globals, &inner);
            crate::text::push_all(out, ind.as_slice());
            push_str(out, "}");
        
            proof {
                assert(out@ =~= old(out)@ + inline_text(*expr, globals@, ind@));
            }
        },
        _ => {},
    }
}

#[verifier::spinoff_prover]
fn format_state_loop(out: &mut Vec<char>, expr: &IrExpr, module: &IrModule, globals: &GlobalRegistry, ind: &Vec<char>)
    requires
        expr.kind is StateLoop,
    ensures
        final(out)@ == old(out)@ + inline_text(*expr, globals@, ind@),
    decreases expr, 1int,
{
    let ghost g = globals@;
    match &expr.kind {
        IrExprKind::StateLoop { loop_id, states, condition, updates, body } => {
            push_str(out, "state_loop loop#");
            push_num(out, loop_id.0);
            push_str(out, " states=[");
            let ghost start1 = out@;
            let mut i: usize = 0;
            while i < states.len()
                invariant
                    expr.kind == (IrExprKind::StateLoop { loop_id: *loop_id, states: *states, condition: *condition, updates: *updates, body: *body }),
                    g == globals@,
                    i <= states@.len(),
                    start1 + states_text(states@, 0, g, ind@) == out@ + states_text(states@, i as int, g, ind@),
                decreases states@.len() - i,
            {
                proof {
                    assert(decreases_to!(*expr => expr.kind));
                    assert(decreases_to!(expr.kind => (expr.kind)->states));
                    assert(decreases_to!(*states => states[i as int]));
                    assert(decreases_to!(states[i as int] => states[i as int].initializer));
                }
                let ghost before = out@;
                if i > 0 {
                    push_str(out, ", ");
                }
                push_str(out, "%");
                push_num(out, states[i].target.0);
                push_str(out, " = ");
                format_expr_inline(out, &states[i].initializer, module, globals, ind);
                proof {
                    assert(before + states_text(states@, i as int, g, ind@) =~= out@ + states_text(states@, i + 1, g, ind@));
                }
                i += 1;
            }
            let inner = deeper(ind);
            push_str(out, "] while(\n");
            crate::text::push_all(out, inner.as_slice());
            format_expr_inline(out, condition, module, globals, &inner);
            push_str(out, "\n");
            crate::text::push_all(out, ind.as_slice());
            push_str(out, ") do {\n");
            format_expr_line(out, body, module, globals, &inner);
            crate::text::push_all(out, ind.as_slice());
            push_str(out, "} next=[");
            let ghost start2 = out@;
            let mut j: usize = 0;
            while j < updates.len()
                invariant
                    expr.kind == (IrExprKind::StateLoop { loop_id: *loop_id, states: *states, condition: *condition, updates: *updates, body: *body }),
                    g == globals@,
                    j <= updates@.len(),
                    start2 + updates_text(updates@, 0, g, ind@) == out@ + updates_text(updates@, j as int, g, ind@),
                decreases updates@.len() - j,
            {
                proof {
                    assert(decreases_to!(*expr => expr.kind));
                    assert(decreases_to!(expr.kind => (expr.kind)->updates));
                    assert(decreases_to!(*updates => updates[j as int]));
                    assert(decreases_to!(updates[j as int] => updates[j as int].value));
                }
                let ghost before = out@;
                if j > 0 {
                    push_str(out, ", ");
                }
                push_str(out, "%");
                push_num(out, updates[j].target.0);
                push_str(out, " = ");
                format_expr_inline(out, &updates[j].value, module, globals, ind);
                proof {
                    assert(before + updates_text(updates@, j as int, g, ind@) =~= out@ + updates_text(updates@, j + 1, g, ind@));
                }
                j += 1;
            }
            push_str(out, "]");
        
            proof {
                assert(out@ =~= old(out)@ + inline_text(*expr, globals@, ind@));
            }
        },
        _ => {},
    }
}

/// Appends each of `items` on a line of its own.
fn format_lines(out: &mut Vec<char>, items: &Vec<IrExpr>, module: &IrModule, globals: &GlobalRegistry, ind: &Vec<char>, parent: Ghost<IrExpr>)
    requires
        parent@.kind == IrExprKind::Sequence(*items) || parent@.kind == IrExprKind::Do(*items),
    ensures
        final(out)@ == old(out)@ + lines_text(items@, 0, globals@, ind@),
    decreases parent@.kind, 0int,
{
    let ghost start = out@;
    let mut i: usize = 0;
    while i < items.len()
        invariant
            parent@.kind == IrExprKind::Sequence(*items) || parent@.kind == IrExprKind::Do(*items),
            i <= items@.len(),
            start == old(out)@,
            start + lines_text(items@, 0, globals@, ind@) == out@ + lines_text(items@, i as int, globals@, ind@),
        decreases items@.len() - i,
    {
        proof {
            if parent@.kind is Sequence {
                assert(decreases_to!(parent@.kind => (parent@.kind)->Sequence_0));
            } else {
                assert(decreases_to!(parent@.kind => (parent@.kind)->Do_0));
            }
            assert(decreases_to!(*items => items[i as int]));
        }
        let ghost before = out@;
        format_expr_line(out, &items[i], module, globals, ind);
        proof {
            assert(before + lines_text(items@, i as int, globals@, ind@) =~= out@ + lines_text(items@, i + 1, globals@, ind@));
        }
        i += 1;
    }
    proof {
        assert(out@ =~= old(out)@ + lines_text(items@, 0, globals@, ind@));
    }
}

fn format_quasi_datum(out: &mut Vec<char>, template: &IrQuasiDatum, module: &IrModule, globals: &GlobalRegistry, ind: &Vec<char>)
    ensures
        final(out)@ == old(out)@ + quasi_text(*template, globals@, ind@),
    decreases template, 0int,
{
    match template {
        IrQuasiDatum::Datum(datum) => datum.push_text(out),
        IrQuasiDatum::List(items) => {
            push_str(out, "(");
            let ghost start = out@;
            let mut i: usize = 0;
            while i < items.len()
                invariant
                    *template == IrQuasiDatum::List(*items),
                    i <= items@.len(),
                    start + quasis_text(items@, 0, globals@, ind@) == out@ + quasis_text(items@, i as int, globals@, ind@),
                decreases items@.len() - i,
            {
                proof {
                    assert(decreases_to!(*template => (*template)->List_0));
                    assert(decreases_to!(*items => items[i as int]));
                }
                let ghost before = out@;
                if i > 0 {
                    push_str(out, " ");
                }
                format_quasi_datum(out, &items[i], module, globals, ind);
                proof {
                    assert(before + quasis_text(items@, i as int, globals@, ind@) =~= out@ + quasis_text(items@, i + 1, globals@, ind@));
                }
                i += 1;
            }
            push_str(out, ")");
        },
        IrQuasiDatum::Evaluate(e) => {
            push_str(out, "(evaluate ");
            format_expr_inline(out, e, module, globals, ind);
            push_str(out, ")");
        },
        IrQuasiDatum::Splice(e) => {
            push_str(out, "(splice ");
            format_expr_inline(out, e, module, globals, ind);
            push_str(out, ")");
        },
    }
    proof {
        assert(out@ =~= old(out)@ + quasi_text(*template, globals@, ind@));
    }
}

fn two_spaces() -> (r: Vec<char>)
    ensures
        r@ == "  "@,
{
    let mut r: Vec<char> = Vec::new();
    push_str(&mut r, "  ");
    r
}

fn format_function(out: &mut Vec<char>, function: &IrFunction, module: &IrModule, globals: &GlobalRegistry)
    ensures
        final(out)@ == old(out)@ + function_text(*function, globals@),
{
    push_str(out, "fn#");
    push_num(out, function.id.0);
    push_str(out, "(params=");
    push_num(out, function.parameter_count);
    push_str(out, " captures=");
    push_num(out, function.capture_count);
    push_str(out, " locals=");
    push_num(out, function.local_count);
    push_str(out, ") {\n");
    let ind = two_spaces();
    format_expr_line(out, &function.body, module, globals, &ind);
    push_str(out, "}\n");
    proof {
        assert(out@ =~= old(out)@ + function_text(*function, globals@));
    }
}

/// The text of every function in `module`, in order.
pub fn format_ir_module(module: &IrModule, globals: &GlobalRegistry) -> (r: String)
    ensures
        r@ == functions_text(module.functions@, 0, globals@),
{
    let mut out: Vec<char> = Vec::new();
    let mut i: usize = 0;
    while i < module.functions.len()
        invariant
            i <= module.functions@.len(),
            functions_text(module.functions@, 0, globals@) == out@ + functions_text(module.functions@, i as int, globals@),
        decreases module.functions@.len() - i,
    {
        let ghost before = out@;
        format_function(&mut out, &module.functions[i], module, globals);
        proof {
            assert(before + functions_text(module.functions@, i as int, globals@) =~= out@ + functions_text(module.functions@, i + 1, globals@));
        }
        i += 1;
    }
    proof {
        assert(functions_text(module.functions@, 0, globals@) =~= out@);
    }
    string_from_chars(out.as_slice())
}

/// The text of one top-level form's IR.
pub fn format_top_level(top_level: &IrTopLevel, module: &IrModule, globals: &GlobalRegistry) -> (r: String)
    ensures
        r@ == top_level_text(*top_level, globals@),
{
    let mut out: Vec<char> = Vec::new();
    let ind = two_spaces();
    match top_level {
        IrTopLevel::Expr { body, .. } => {
            push_str(&mut out, "top.expr(locals=");
            push_num(&mut out, body.local_count);
            push_str(&mut out, ") {\n");
            format_expr_line(&mut out, &body.expr, module, globals, &ind);
            push_str(&mut out, "}\n");
        },
        IrTopLevel::Define { target, initializer, .. } => {
            push_str(&mut out, "top.define @");
            push_num(&mut out, target.0);
            push_str(&mut out, " \"");
            push_global_name(&mut out, globals, *target);
            push_str(&mut out, "\" (locals=");
            push_num(&mut out, initializer.local_count);
            push_str(&mut out, ") {\n");
            format_expr_line(&mut out, &initializer.expr, module, globals, &ind);
            push_str(&mut out, "}\n");
        },
    }
    proof {
        assert(out@ =~= top_level_text(*top_level, globals@));
    }
    string_from_chars(out.as_slice())
}

} // verus!
