//! What lowering produces, form by form: the IR that a core expression
//! lowers to has the same structure (calls, branches, bindings, loops,
//! closures and the bodies of their functions), the same constants and the
//! same quoted data, and every global it loads is the one its symbol names.
//! Which local or capture slot a bound symbol gets is left to the
//! lowering context.
use vstd::prelude::*;
use crate::core_expr::CoreExprV;
use crate::datum::DatumV;
use crate::ir::{IrConst, IrExpr, IrExprKind, IrFunction, IrQuasiDatum, IrTopLevel};
use crate::symbol::SymbolV;

verus! {

broadcast use vstd::std_specs::vec::group_vec_axioms;

/// The datum a quoted core form spells: symbols are interned; a sequence is
/// not data.
pub open spec fn core_datum(c: CoreExprV) -> Option<DatumV>
    decreases c, 1int,
{
    match c {
        CoreExprV::Int(n) => Some(DatumV::Integer(n)),
        CoreExprV::Bool(b) => Some(DatumV::Bool(b)),
        CoreExprV::String(s) => Some(DatumV::String(s)),
        CoreExprV::Symbol(name) => Some(DatumV::Symbol(SymbolV::Interned(name))),
        CoreExprV::Sequence(_) => None,
        CoreExprV::List(items) => match core_data(items, items.len() as int) {
            Some(ds) => Some(DatumV::List(ds)),
            None => None,
        },
    }
}

/// The data the first `n` of `items` spell, if each is data.
pub open spec fn core_data(items: Seq<CoreExprV>, n: int) -> Option<Seq<DatumV>>
    decreases items, 0int, n,
{
    if n <= 0 || n > items.len() {
        Some(Seq::empty())
    } else {
        match core_data(items, n - 1) {
            None => None,
            Some(ds) => match core_datum(items[n - 1]) {
                None => None,
                Some(d) => Some(ds.push(d)),
            },
        }
    }
}

/// The function with id `id` in a table whose first entry has id `base`.
pub open spec fn fn_entry(fs: Seq<Option<IrFunction>>, base: int, id: int) -> Option<IrFunction> {
    if base <= id < base + fs.len() {
        fs[id - base]
    } else {
        None
    }
}

/// Whether `c` is the symbol `name`.
pub open spec fn is_sym(c: CoreExprV, name: Seq<char>) -> bool {
    c == CoreExprV::Symbol(name)
}

/// Whether a `loop` form (with its head) is the general state loop
/// `(loop states (while cond) (next updates) (do body))`.
pub open spec fn is_general_loop(items: Seq<CoreExprV>) -> bool {
    &&& items.len() == 5
    &&& items[2] is List
    &&& items[2]->List_0.len() == 2
    &&& is_sym(items[2]->List_0[0], "while"@)
}

/// `e` is the IR that `c` lowers to, given the function table `fs` (whose
/// first entry has id `base`) and the global names `g`.
pub open spec fn lowered_from(c: CoreExprV, e: IrExpr, fs: Seq<Option<IrFunction>>, base: int, g: Seq<Seq<char>>) -> bool
    decreases c, 3int,
{
    match c {
        CoreExprV::Int(n) => e.kind == IrExprKind::Const(IrConst::Int(n)),
        CoreExprV::Bool(b) => e.kind == IrExprKind::Const(IrConst::Bool(b)),
        CoreExprV::String(s) => e.kind matches IrExprKind::Const(IrConst::String(t)) && t@ == s,
        CoreExprV::Symbol(name) => e.kind is LoadLocal || e.kind is LoadCapture || (e.kind matches IrExprKind::LoadGlobal(id)
            && (id.0 as int) < g.len() && g[id.0 as int] == name),
        CoreExprV::Sequence(items) => e.kind matches IrExprKind::Sequence(xs) && lowered_each(items, 0, xs@, fs, base, g),
        CoreExprV::List(items) => list_lowered_from(items, e, fs, base, g),
    }
}

/// Each `cs[k + offset]` lowers to `es[k]`, and there are as many of each.
pub open spec fn lowered_each(cs: Seq<CoreExprV>, offset: int, es: Seq<IrExpr>, fs: Seq<Option<IrFunction>>, base: int, g: Seq<Seq<char>>) -> bool
    decreases cs, 0int,
{
    &&& 0 <= offset <= cs.len()
    &&& es.len() == cs.len() - offset
    &&& forall|k: int| 0 <= k < es.len() ==> lowered_from(#[trigger] cs[k + offset], es[k], fs, base, g)
}

/// Each binding `(name init)` of `bs` has its initializer lowered to the
/// matching `inits[k]`.
pub open spec fn inits_lowered(bs: Seq<CoreExprV>, inits: Seq<IrExpr>, fs: Seq<Option<IrFunction>>, base: int, g: Seq<Seq<char>>) -> bool
    decreases bs, 0int,
{
    &&& inits.len() == bs.len()
    &&& forall|k: int| 0 <= k < bs.len() ==> (#[trigger] bs[k]) is List && bs[k]->List_0.len() == 2
        && lowered_from(bs[k]->List_0[1], inits[k], fs, base, g)
}

/// `e` is the IR the list form `items` lowers to.
pub open spec fn list_lowered_from(items: Seq<CoreExprV>, e: IrExpr, fs: Seq<Option<IrFunction>>, base: int, g: Seq<Seq<char>>) -> bool
    decreases items, 2int,
{
    if items.len() == 0 {
        e.kind matches IrExprKind::Call { callee, arguments } && callee.kind == IrExprKind::Const(IrConst::Unit) && arguments@.len() == 0
    } else if is_sym(items[0], "fn"@) {
        &&& items.len() == 3
        &&& items[1] is List
        &&& e.kind matches IrExprKind::MakeClosure { function, .. } && fn_entry(fs, base, function.0 as int) matches Some(f)
            && f.id == function && f.parameter_count == items[1]->List_0.len() && lowered_from(items[2], f.body, fs, base, g)
    } else if is_sym(items[0], "let"@) {
        &&& items.len() == 3
        &&& items[1] is List
        &&& e.kind matches IrExprKind::Let { bindings, body } && lowered_from(items[2], *body, fs, base, g)
            && inits_lowered(items[1]->List_0, bindings@.map_values(|b: crate::ir::IrLetBinding| b.initializer), fs, base, g)
    } else if is_sym(items[0], "if"@) {
        &&& items.len() == 4
        &&& e.kind matches IrExprKind::If { condition, then_expr, else_expr } && lowered_from(items[1], *condition, fs, base, g)
            && lowered_from(items[2], *then_expr, fs, base, g) && lowered_from(items[3], *else_expr, fs, base, g)
    } else if is_sym(items[0], "break"@) {
        &&& e.kind matches IrExprKind::Break { value, .. } && match value {
            None => items.len() == 1,
            Some(v) => items.len() == 2 && lowered_from(items[1], *v, fs, base, g),
        }
    } else if is_sym(items[0], "loop"@) {
        if is_general_loop(items) {
            &&& items[1] is List
            &&& items[3] is List && items[3]->List_0.len() == 2 && items[3]->List_0[1] is List
            &&& items[4] is List && items[4]->List_0.len() == 2
            &&& e.kind matches IrExprKind::StateLoop { states, condition, updates, body, .. }
                && inits_lowered(items[1]->List_0, states@.map_values(|s: crate::ir::IrStateBinding| s.initializer), fs, base, g)
                && lowered_from(items[2]->List_0[1], *condition, fs, base, g)
                && inits_lowered(items[3]->List_0[1]->List_0, updates@.map_values(|u: crate::ir::IrStateUpdate| u.value), fs, base, g)
                && lowered_from(items[4]->List_0[1], *body, fs, base, g)
        } else {
            &&& items.len() == 3
            &&& items[1] is List
            &&& (items[1]->List_0.len() == 3 || items[1]->List_0.len() == 4)
            &&& e.kind matches IrExprKind::RangeLoop { start, end, step, body, .. }
                && lowered_from(items[1]->List_0[1], *start, fs, base, g)
                && lowered_from(items[1]->List_0[2], *end, fs, base, g)
                && (if items[1]->List_0.len() == 4 {
                    lowered_from(items[1]->List_0[3], *step, fs, base, g)
                } else {
                    step.kind == IrExprKind::Const(IrConst::Int(1))
                })
                && lowered_from(items[2], *body, fs, base, g)
        }
    } else if is_sym(items[0], "gensym"@) {
        &&& e.kind matches IrExprKind::Gensym { prefix } && match prefix {
            None => items.len() == 1,
            Some(p) => items.len() == 2 && lowered_from(items[1], *p, fs, base, g),
        }
    } else if is_sym(items[0], "do"@) {
        &&& e.kind matches IrExprKind::Do(xs) && lowered_each(items, 1, xs@, fs, base, g)
    } else if is_sym(items[0], "def"@) || is_sym(items[0], "unquote"@) || is_sym(items[0], "unquote-splicing"@) {
        false
    } else if is_sym(items[0], "quote"@) {
        &&& items.len() == 2
        &&& e.kind matches IrExprKind::Quote(d) && core_datum(items[1]) == Some(d@)
    } else if is_sym(items[0], "quasiquote"@) {
        &&& items.len() == 2
        &&& e.kind matches IrExprKind::QuasiQuote(q) && quasi_lowered_from(items[1], 1, q, fs, base, g)
    } else {
        &&& e.kind matches IrExprKind::Call { callee, arguments } && lowered_from(items[0], *callee, fs, base, g)
            && lowered_each(items, 1, arguments@, fs, base, g)
    }
}

/// Whether the list form `items` starts with the symbol `name`.
pub open spec fn headed(items: Seq<CoreExprV>, name: Seq<char>) -> bool {
    items.len() > 0 && is_sym(items[0], name)
}

/// `q` is what the quasiquote template `t` at nesting `depth` lowers to:
/// `(unquote e)` and `(unquote-splicing e)` at depth 1 evaluate `e`, a
/// nested `quasiquote` goes one level deeper and an `unquote` below depth
/// 1 one level back, a `quote` form is data as a whole; everything else is
/// data.
pub open spec fn quasi_lowered_from(t: CoreExprV, depth: nat, q: IrQuasiDatum, fs: Seq<Option<IrFunction>>, base: int, g: Seq<Seq<char>>) -> bool
    decreases t, 1int,
{
    match t {
        CoreExprV::List(items) => {
            let unquote = headed(items, "unquote"@);
            let splice = headed(items, "unquote-splicing"@);
            if headed(items, "quote"@) {
                q matches IrQuasiDatum::Datum(d) && core_datum(t) == Some(d@)
            } else if (unquote || splice) && depth == 1 {
                &&& items.len() == 2
                &&& if unquote {
                    q matches IrQuasiDatum::Evaluate(x) && lowered_from(items[1], *x, fs, base, g)
                } else {
                    q matches IrQuasiDatum::Splice(x) && lowered_from(items[1], *x, fs, base, g)
                }
            } else {
                let nested: nat = if headed(items, "quasiquote"@) {
                    depth + 1
                } else if unquote || splice {
                    (depth - 1) as nat
                } else {
                    depth
                };
                &&& q matches IrQuasiDatum::List(qs) && qs@.len() == items.len()
                    && forall|k: int| 0 <= k < items.len() ==> quasi_lowered_from(#[trigger] items[k], nested, qs@[k], fs, base, g)
            }
        },
        _ => q matches IrQuasiDatum::Datum(d) && core_datum(t) == Some(d@),
    }
}

/// `b` keeps every complete function of `a` and may add more.
pub open spec fn fns_extend(a: Seq<Option<IrFunction>>, b: Seq<Option<IrFunction>>) -> bool {
    &&& a.len() <= b.len()
    &&& forall|i: int| 0 <= i < a.len() && (#[trigger] a[i]) is Some ==> b[i] == a[i]
}

/// `t` is what the top-level form `c` lowers to: a definition's
/// initializer is the lowered value of `(def name value)`, anything else is
/// lowered as an expression.
pub open spec fn top_level_lowered_from(c: CoreExprV, t: IrTopLevel, fs: Seq<Option<IrFunction>>, base: int, g: Seq<Seq<char>>) -> bool {
    match t {
        IrTopLevel::Define { initializer, .. } => c matches CoreExprV::List(items) && items.len() == 3
            && lowered_from(items[2], initializer.expr, fs, base, g),
        IrTopLevel::Expr { body, .. } => lowered_from(c, body.expr, fs, base, g),
    }
}

/// What a top-level form lowered to stays so as the function table and
/// the global names grow.
pub proof fn lemma_top_level_grows(c: CoreExprV, t: IrTopLevel, fs: Seq<Option<IrFunction>>, fs2: Seq<Option<IrFunction>>, base: int, base2: int, g: Seq<Seq<char>>, g2: Seq<Seq<char>>)
    requires
        top_level_lowered_from(c, t, fs, base, g),
        table_extends(fs, base, fs2, base2),
        names_extend(g, g2),
    ensures
        top_level_lowered_from(c, t, fs2, base2, g2),
{
    match t {
        IrTopLevel::Define { initializer, .. } => {
            if let CoreExprV::List(items) = c {
                lemma_lowered_grows(items[2], initializer.expr, fs, fs2, base, base2, g, g2);
            }
        },
        IrTopLevel::Expr { body, .. } => lemma_lowered_grows(c, body.expr, fs, fs2, base, base2, g, g2),
    }
}

/// Every complete function of the table `a` (whose first entry has id
/// `base_a`) is, under the same id, in the table `b` (first id `base_b`).
pub open spec fn table_extends(a: Seq<Option<IrFunction>>, base_a: int, b: Seq<Option<IrFunction>>, base_b: int) -> bool {
    forall|id: int| (#[trigger] fn_entry(a, base_a, id)) is Some ==> fn_entry(b, base_b, id) == fn_entry(a, base_a, id)
}

/// A table that grows at its end keeps its entries.
pub proof fn lemma_fns_extend_table(a: Seq<Option<IrFunction>>, b: Seq<Option<IrFunction>>, base: int)
    requires
        fns_extend(a, b),
    ensures
        table_extends(a, base, b, base),
{
    assert forall|id: int| (#[trigger] fn_entry(a, base, id)) is Some implies fn_entry(b, base, id) == fn_entry(a, base, id) by {
        assert(a[id - base] is Some);
    }
}

/// `b` keeps every global name of `a` under the same id.
pub open spec fn names_extend(a: Seq<Seq<char>>, b: Seq<Seq<char>>) -> bool {
    a.len() <= b.len() && forall|i: int| 0 <= i < a.len() ==> b[i] == a[i]
}

/// What a form lowered to stays what it lowered to as the function table
/// and the global names grow.
pub proof fn lemma_lowered_grows(c: CoreExprV, e: IrExpr, fs: Seq<Option<IrFunction>>, fs2: Seq<Option<IrFunction>>, base: int, base2: int, g: Seq<Seq<char>>, g2: Seq<Seq<char>>)
    requires
        lowered_from(c, e, fs, base, g),
        table_extends(fs, base, fs2, base2),
        names_extend(g, g2),
    ensures
        lowered_from(c, e, fs2, base2, g2),
    decreases c, 3int,
{
    match c {
        CoreExprV::Sequence(items) => {
            if let IrExprKind::Sequence(xs) = e.kind {
                lemma_each_grows(items, 0, xs@, fs, fs2, base, base2, g, g2);
            }
        },
        CoreExprV::List(items) => lemma_list_grows(items, e, fs, fs2, base, base2, g, g2),
        _ => {},
    }
}

pub proof fn lemma_each_grows(cs: Seq<CoreExprV>, offset: int, es: Seq<IrExpr>, fs: Seq<Option<IrFunction>>, fs2: Seq<Option<IrFunction>>, base: int, base2: int, g: Seq<Seq<char>>, g2: Seq<Seq<char>>)
    requires
        lowered_each(cs, offset, es, fs, base, g),
        table_extends(fs, base, fs2, base2),
        names_extend(g, g2),
    ensures
        lowered_each(cs, offset, es, fs2, base2, g2),
    decreases cs, 0int,
{
    assert forall|k: int| 0 <= k < es.len() implies lowered_from(#[trigger] cs[k + offset], es[k], fs2, base2, g2) by {
        lemma_lowered_grows(cs[k + offset], es[k], fs, fs2, base, base2, g, g2);
    }
}

pub proof fn lemma_inits_grow(bs: Seq<CoreExprV>, inits: Seq<IrExpr>, fs: Seq<Option<IrFunction>>, fs2: Seq<Option<IrFunction>>, base: int, base2: int, g: Seq<Seq<char>>, g2: Seq<Seq<char>>)
    requires
        inits_lowered(bs, inits, fs, base, g),
        table_extends(fs, base, fs2, base2),
        names_extend(g, g2),
    ensures
        inits_lowered(bs, inits, fs2, base2, g2),
    decreases bs, 0int,
{
    assert forall|k: int| 0 <= k < bs.len() implies (#[trigger] bs[k]) is List && bs[k]->List_0.len() == 2
        && lowered_from(bs[k]->List_0[1], inits[k], fs2, base2, g2) by {
        lemma_lowered_grows(bs[k]->List_0[1], inits[k], fs, fs2, base, base2, g, g2);
    }
}

proof fn lemma_list_grows(items: Seq<CoreExprV>, e: IrExpr, fs: Seq<Option<IrFunction>>, fs2: Seq<Option<IrFunction>>, base: int, base2: int, g: Seq<Seq<char>>, g2: Seq<Seq<char>>)
    requires
        list_lowered_from(items, e, fs, base, g),
        table_extends(fs, base, fs2, base2),
        names_extend(g, g2),
    ensures
        list_lowered_from(items, e, fs2, base2, g2),
    decreases items, 2int,
{
    if items.len() == 0 {
    } else if is_sym(items[0], "fn"@) {
        if let IrExprKind::MakeClosure { function, .. } = e.kind {
            let f = fn_entry(fs, base, function.0 as int)->Some_0;
            assert(fn_entry(fs2, base2, function.0 as int) == Some(f));
            lemma_lowered_grows(items[2], f.body, fs, fs2, base, base2, g, g2);
        }
    } else if is_sym(items[0], "let"@) {
        if let IrExprKind::Let { bindings, body } = e.kind {
            lemma_lowered_grows(items[2], *body, fs, fs2, base, base2, g, g2);
            lemma_inits_grow(items[1]->List_0, bindings@.map_values(|b: crate::ir::IrLetBinding| b.initializer), fs, fs2, base, base2, g, g2);
        }
    } else if is_sym(items[0], "if"@) {
        if let IrExprKind::If { condition, then_expr, else_expr } = e.kind {
            lemma_lowered_grows(items[1], *condition, fs, fs2, base, base2, g, g2);
            lemma_lowered_grows(items[2], *then_expr, fs, fs2, base, base2, g, g2);
            lemma_lowered_grows(items[3], *else_expr, fs, fs2, base, base2, g, g2);
        }
    } else if is_sym(items[0], "break"@) {
        if let IrExprKind::Break { value: Some(v), .. } = e.kind {
            lemma_lowered_grows(items[1], *v, fs, fs2, base, base2, g, g2);
        }
    } else if is_sym(items[0], "loop"@) {
        if is_general_loop(items) {
            if let IrExprKind::StateLoop { states, condition, updates, body, .. } = e.kind {
                lemma_inits_grow(items[1]->List_0, states@.map_values(|s: crate::ir::IrStateBinding| s.initializer), fs, fs2, base, base2, g, g2);
                lemma_lowered_grows(items[2]->List_0[1], *condition, fs, fs2, base, base2, g, g2);
                lemma_inits_grow(items[3]->List_0[1]->List_0, updates@.map_values(|u: crate::ir::IrStateUpdate| u.value), fs, fs2, base, base2, g, g2);
                lemma_lowered_grows(items[4]->List_0[1], *body, fs, fs2, base, base2, g, g2);
            }
        } else {
            if let IrExprKind::RangeLoop { start, end, step, body, .. } = e.kind {
                lemma_lowered_grows(items[1]->List_0[1], *start, fs, fs2, base, base2, g, g2);
                lemma_lowered_grows(items[1]->List_0[2], *end, fs, fs2, base, base2, g, g2);
                if items[1]->List_0.len() == 4 {
                    lemma_lowered_grows(items[1]->List_0[3], *step, fs, fs2, base, base2, g, g2);
                }
                lemma_lowered_grows(items[2], *body, fs, fs2, base, base2, g, g2);
            }
        }
    } else if is_sym(items[0], "gensym"@) {
        if let IrExprKind::Gensym { prefix: Some(p) } = e.kind {
            lemma_lowered_grows(items[1], *p, fs, fs2, base, base2, g, g2);
        }
    } else if is_sym(items[0], "do"@) {
        if let IrExprKind::Do(xs) = e.kind {
            lemma_each_grows(items, 1, xs@, fs, fs2, base, base2, g, g2);
        }
    } else if is_sym(items[0], "def"@) || is_sym(items[0], "unquote"@) || is_sym(items[0], "unquote-splicing"@) {
    } else if is_sym(items[0], "quote"@) {
    } else if is_sym(items[0], "quasiquote"@) {
        if let IrExprKind::QuasiQuote(q) = e.kind {
            lemma_quasi_grows(items[1], 1, q, fs, fs2, base, base2, g, g2);
        }
    } else {
        if let IrExprKind::Call { callee, arguments } = e.kind {
            lemma_lowered_grows(items[0], *callee, fs, fs2, base, base2, g, g2);
            lemma_each_grows(items, 1, arguments@, fs, fs2, base, base2, g, g2);
        }
    }
}

pub proof fn lemma_quasi_grows(t: CoreExprV, depth: nat, q: IrQuasiDatum, fs: Seq<Option<IrFunction>>, fs2: Seq<Option<IrFunction>>, base: int, base2: int, g: Seq<Seq<char>>, g2: Seq<Seq<char>>)
    requires
        quasi_lowered_from(t, depth, q, fs, base, g),
        table_extends(fs, base, fs2, base2),
        names_extend(g, g2),
    ensures
        quasi_lowered_from(t, depth, q, fs2, base2, g2),
    decreases t, 1int,
{
    if let CoreExprV::List(items) = t {
        let unquote = headed(items, "unquote"@);
        let splice = headed(items, "unquote-splicing"@);
        if headed(items, "quote"@) {
        } else if (unquote || splice) && depth == 1 {
            match q {
                IrQuasiDatum::Evaluate(x) => lemma_lowered_grows(items[1], *x, fs, fs2, base, base2, g, g2),
                IrQuasiDatum::Splice(x) => lemma_lowered_grows(items[1], *x, fs, fs2, base, base2, g, g2),
                _ => {},
            }
        } else {
            let nested: nat = if headed(items, "quasiquote"@) {
                depth + 1
            } else if unquote || splice {
                (depth - 1) as nat
            } else {
                depth
            };
            if let IrQuasiDatum::List(qs) = q {
                assert forall|k: int| 0 <= k < items.len() implies quasi_lowered_from(#[trigger] items[k], nested, qs@[k], fs2, base2, g2) by {
                    lemma_quasi_grows(items[k], nested, qs@[k], fs, fs2, base, base2, g, g2);
                }
            }
        }
    }
}


/// Whether a lowering error only says that a counter of the lowering
/// context (locals, captures, functions, loops or globals) ran out.
pub open spec fn limit_error(e: crate::error::LowerError) -> bool {
    e is TooManyLocals || e is TooManyCaptures || e is TooManyFunctions || e is TooManyLoops || e is TooManyGlobals
}

/// Every item is a symbol.
pub open spec fn symbol_names(items: Seq<CoreExprV>) -> bool {
    forall|k: int| 0 <= k < items.len() ==> (#[trigger] items[k]) is Symbol
}

/// No item occurs twice.
pub open spec fn distinct_symbols(items: Seq<CoreExprV>) -> bool {
    forall|i: int, j: int| 0 <= i < j < items.len() ==> (#[trigger] items[i]) != (#[trigger] items[j])
}

/// The first elements of a list of `(name value)` pairs.
pub open spec fn pair_names(pairs: Seq<CoreExprV>) -> Seq<CoreExprV> {
    pairs.map_values(|p: CoreExprV| p->List_0[0])
}

/// Every item is a `(symbol value)` pair, no symbol occurs twice, and every
/// value is lowerable (with `in_loop` saying whether a runtime loop encloses
/// it in its function).
pub open spec fn pairs_lowerable(pairs: Seq<CoreExprV>, in_loop: bool) -> bool
    decreases pairs, 0int,
{
    &&& forall|k: int| 0 <= k < pairs.len() ==> (#[trigger] pairs[k]) is List && pairs[k]->List_0.len() == 2
        && pairs[k]->List_0[0] is Symbol && lowerable(pairs[k]->List_0[1], in_loop)
    &&& distinct_symbols(pair_names(pairs))
}

/// Whether the core form `c` lowers without a malformed-form error, in a
/// function where a runtime loop encloses it exactly when `in_loop`:
/// every special form has its shape, names bound together are distinct,
/// `break` stands inside a runtime loop, `def` only at top level, quoted
/// data is data, and so on for every sub-form.
pub open spec fn lowerable(c: CoreExprV, in_loop: bool) -> bool
    decreases c, 3int,
{
    match c {
        CoreExprV::Sequence(items) => each_lowerable(items, in_loop),
        CoreExprV::List(items) => list_lowerable(items, in_loop),
        _ => true,
    }
}

/// Every item is lowerable.
pub open spec fn each_lowerable(items: Seq<CoreExprV>, in_loop: bool) -> bool
    decreases items, 2int,
{
    forall|k: int| 0 <= k < items.len() ==> lowerable(#[trigger] items[k], in_loop)
}

/// What [`lowerable`] asks of a list form.
pub open spec fn list_lowerable(items: Seq<CoreExprV>, in_loop: bool) -> bool
    decreases items, 2int,
{
    if items.len() == 0 {
        true
    } else if is_sym(items[0], "fn"@) {
        &&& items.len() == 3
        &&& items[1] is List
        &&& symbol_names(items[1]->List_0)
        &&& distinct_symbols(items[1]->List_0)
        &&& lowerable(items[2], false)
    } else if is_sym(items[0], "let"@) {
        &&& items.len() == 3
        &&& items[1] is List
        &&& pairs_lowerable(items[1]->List_0, in_loop)
        &&& lowerable(items[2], in_loop)
    } else if is_sym(items[0], "if"@) {
        &&& items.len() == 4
        &&& lowerable(items[1], in_loop)
        &&& lowerable(items[2], in_loop)
        &&& lowerable(items[3], in_loop)
    } else if is_sym(items[0], "break"@) {
        &&& in_loop
        &&& (items.len() == 1 || (items.len() == 2 && lowerable(items[1], in_loop)))
    } else if is_sym(items[0], "loop"@) {
        if is_general_loop(items) {
            &&& items[1] is List
            &&& pairs_lowerable(items[1]->List_0, in_loop)
            &&& lowerable(items[2]->List_0[1], in_loop)
            &&& items[3] is List && items[3]->List_0.len() == 2 && items[3]->List_0[1] is List
            &&& items[4] is List && items[4]->List_0.len() == 2
            &&& pairs_lowerable(items[3]->List_0[1]->List_0, in_loop)
            &&& pair_names(items[3]->List_0[1]->List_0) == pair_names(items[1]->List_0)
            &&& lowerable(items[4]->List_0[1], true)
        } else {
            &&& items.len() == 3
            &&& items[1] is List
            &&& (items[1]->List_0.len() == 3 || items[1]->List_0.len() == 4)
            &&& items[1]->List_0[0] is Symbol
            &&& forall|k: int| 1 <= k < items[1]->List_0.len() ==> lowerable(#[trigger] items[1]->List_0[k], in_loop)
            &&& lowerable(items[2], true)
        }
    } else if is_sym(items[0], "gensym"@) {
        items.len() == 1 || (items.len() == 2 && lowerable(items[1], in_loop))
    } else if is_sym(items[0], "do"@) {
        forall|k: int| 1 <= k < items.len() ==> lowerable(#[trigger] items[k], in_loop)
    } else if is_sym(items[0], "def"@) || is_sym(items[0], "unquote"@) || is_sym(items[0], "unquote-splicing"@) {
        false
    } else if is_sym(items[0], "quote"@) {
        items.len() == 2 && core_datum(items[1]) is Some
    } else if is_sym(items[0], "quasiquote"@) {
        items.len() == 2 && quasi_lowerable(items[1], 1, in_loop)
    } else {
        forall|k: int| 0 <= k < items.len() ==> lowerable(#[trigger] items[k], in_loop)
    }
}

/// What [`lowerable`] asks of a quasiquote template at nesting `depth`.
pub open spec fn quasi_lowerable(t: CoreExprV, depth: nat, in_loop: bool) -> bool
    decreases t, 1int,
{
    match t {
        CoreExprV::List(items) => {
            let unquote = headed(items, "unquote"@);
            let splice = headed(items, "unquote-splicing"@);
            if headed(items, "quote"@) {
                core_datum(t) is Some
            } else if (unquote || splice) && depth == 1 {
                items.len() == 2 && lowerable(items[1], in_loop)
            } else {
                let nested: nat = if headed(items, "quasiquote"@) {
                    depth + 1
                } else if unquote || splice {
                    (depth - 1) as nat
                } else {
                    depth
                };
                &&& (headed(items, "quasiquote"@) ==> depth + 1 < usize::MAX)
                &&& forall|k: int| 0 <= k < items.len() ==> quasi_lowerable(#[trigger] items[k], nested, in_loop)
            }
        },
        _ => core_datum(t) is Some,
    }
}

/// Whether a top-level form lowers without a malformed-form error: a
/// `(def name value)` with a name that is no special form and a lowerable
/// value, or any other lowerable form.
pub open spec fn top_lowerable(c: CoreExprV) -> bool {
    match c {
        CoreExprV::List(items) => if items.len() > 0 && is_sym(items[0], "def"@) {
            &&& items.len() == 3
            &&& items[1] is Symbol
            &&& !crate::lower::is_reserved_name(items[1]->Symbol_0)
            &&& lowerable(items[2], false)
        } else {
            lowerable(c, false)
        },
        _ => lowerable(c, false),
    }
}

/// A list form is lowerable exactly when [`list_lowerable`] holds of its
/// items.
pub proof fn lemma_lowerable_list(items: Seq<CoreExprV>)
    ensures
        forall|b: bool| #[trigger] lowerable(CoreExprV::List(items), b) == list_lowerable(items, b),
{
}

/// Every item of a lowerable sequence form is lowerable.
pub proof fn lemma_lowerable_sequence(items: Seq<CoreExprV>, b: bool)
    requires
        lowerable(CoreExprV::Sequence(items), b),
    ensures
        forall|k: int| 0 <= k < items.len() ==> lowerable(#[trigger] items[k], b),
{
    assert(each_lowerable(items, b));
}

/// What [`pairs_lowerable`] says of each pair, unfolded.
pub proof fn lemma_pairs_lowerable(pairs: Seq<CoreExprV>, b: bool)
    requires
        pairs_lowerable(pairs, b),
    ensures
        forall|k: int| 0 <= k < pairs.len() ==> (#[trigger] pairs[k]) is List && pairs[k]->List_0.len() == 2
            && pairs[k]->List_0[0] is Symbol && lowerable(pairs[k]->List_0[1], b),
        distinct_symbols(pair_names(pairs)),
        pair_names(pairs).len() == pairs.len(),
        forall|k: int| 0 <= k < pairs.len() ==> #[trigger] pair_names(pairs)[k] == pairs[k]->List_0[0],
{
}

/// [`pairs_lowerable`] from what it says of each pair.
pub proof fn lemma_pairs_lowerable_intro(pairs: Seq<CoreExprV>, b: bool)
    requires
        forall|k: int| 0 <= k < pairs.len() ==> (#[trigger] pairs[k]) is List && pairs[k]->List_0.len() == 2
            && pairs[k]->List_0[0] is Symbol && lowerable(pairs[k]->List_0[1], b),
        distinct_symbols(pair_names(pairs)),
    ensures
        pairs_lowerable(pairs, b),
{
}

/// Pairs whose names are, index by index, `Symbol(names[k])` for distinct
/// `names` have distinct pair names.
pub proof fn lemma_pair_names_distinct(pairs: Seq<CoreExprV>, names: Seq<Seq<char>>)
    requires
        pairs.len() == names.len(),
        forall|k: int| 0 <= k < pairs.len() ==> (#[trigger] pairs[k]) is List && pairs[k]->List_0.len() == 2
            && pairs[k]->List_0[0] == CoreExprV::Symbol(names[k]),
        forall|a: int, b: int| 0 <= a < b < names.len() ==> (#[trigger] names[a]) != (#[trigger] names[b]),
    ensures
        distinct_symbols(pair_names(pairs)),
        pair_names(pairs).len() == pairs.len(),
        forall|k: int| 0 <= k < pairs.len() ==> #[trigger] pair_names(pairs)[k] == CoreExprV::Symbol(names[k]),
{
    assert forall|k: int| 0 <= k < pairs.len() implies #[trigger] pair_names(pairs)[k] == CoreExprV::Symbol(names[k]) by {
        assert(pairs[k]->List_0[0] == CoreExprV::Symbol(names[k]));
    }
    assert forall|a: int, b: int| 0 <= a < b < pair_names(pairs).len() implies (#[trigger] pair_names(pairs)[a]) != (#[trigger] pair_names(pairs)[b]) by {
        assert(pair_names(pairs)[a] == CoreExprV::Symbol(names[a]));
        assert(pair_names(pairs)[b] == CoreExprV::Symbol(names[b]));
    }
}

} // verus!
