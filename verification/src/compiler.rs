//! A compile-only front end: turns source into verified IR without ever
//! running user code. Since nothing runs, `for` ranges resolve against a
//! restricted constant environment that only top-level `def`s provably
//! constant from their source shape populate: `(def count (+ 2 2))` counts,
//! but `(def count (print "4"))`, `(def count ((fn () 4)))` and
//! `(def count (loop (i 0 4) i))` do not.
use vstd::prelude::*;
use crate::ast::{exprs_view, lemma_exprs_view_all, Expr, ExprKind, ExprKindV, ExprV};
use crate::core_expr::{CoreExpr, CoreExprV};
use crate::error::{LispError, LowerError};
use crate::expand::{constant_apply, constant_apply_exec, expand, expand_spec, is_constant_operator, lookup_for_var, ExpansionContext, ForConstantSource, DEFAULT_MAX_FOR_EXPANSIONS};
use crate::globals::GlobalRegistry;
use crate::interpreter::registry_with_builtins;
use crate::ir::{IrFunction, IrModule, IrTopLevel};
use crate::lower_shape::{fn_entry, limit_error, top_level_lowered_from, top_lowerable};
use crate::lower::{extends_names, lower_top_level, LowerContext};
use crate::parser::parse_program;
use crate::text::{byte_len, copy_string, str_eq};
use crate::verify::{
    check_function, check_top_level, functions_check, lemma_function_grows, lemma_top_level_grows, verify_function,
    verify_top_level,
};

verus! {

broadcast use vstd::std_specs::vec::group_vec_axioms;

/// The globals the compiler can prove are constant integers, and the
/// names a `def` may have redefined (so folding through them as operators
/// is no longer sound). Later entries override earlier ones; `None` marks
/// a name that is no longer a known constant.
pub struct ConstantEnv {
    integers: Vec<(String, Option<i64>)>,
    redefined: Vec<String>,
}

/// The known integer value of `name` in `entries`, latest entry first.
pub open spec fn env_int(entries: Seq<(Seq<char>, Option<i64>)>, name: Seq<char>) -> Option<i64>
    decreases entries.len(),
{
    if entries.len() == 0 {
        None
    } else if entries.last().0 == name {
        entries.last().1
    } else {
        env_int(entries.drop_last(), name)
    }
}

impl ConstantEnv {
    pub closed spec fn spec_integers(&self) -> Seq<(Seq<char>, Option<i64>)> {
        self.integers@.map_values(|p: (String, Option<i64>)| (p.0@, p.1))
    }

    pub closed spec fn spec_redefined(&self) -> Seq<Seq<char>> {
        self.redefined@.map_values(|s: String| s@)
    }

    pub fn new() -> (r: Self)
        ensures
            r.spec_integers() == Seq::<(Seq<char>, Option<i64>)>::empty(),
            r.spec_redefined() == Seq::<Seq<char>>::empty(),
    {
        let r = ConstantEnv { integers: Vec::new(), redefined: Vec::new() };
        proof {
            assert(r.spec_integers() =~= Seq::<(Seq<char>, Option<i64>)>::empty());
            assert(r.spec_redefined() =~= Seq::<Seq<char>>::empty());
        }
        r
    }

    fn set_int(&mut self, name: &str, value: i64)
        ensures
            final(self).spec_integers() == old(self).spec_integers().push((name@, Some(value))),
            final(self).spec_redefined() == old(self).spec_redefined(),
    {
        self.integers.push((name.to_owned(), Some(value)));
        proof {
            assert(self.spec_integers() =~= old(self).spec_integers().push((name@, Some(value))));
        }
    }

    fn invalidate(&mut self, name: &str)
        ensures
            final(self).spec_integers() == old(self).spec_integers().push((name@, None)),
            final(self).spec_redefined() == old(self).spec_redefined(),
    {
        self.integers.push((name.to_owned(), None));
        proof {
            assert(self.spec_integers() =~= old(self).spec_integers().push((name@, None)));
        }
    }

    /// Records that `name` may no longer mean its builtin operator.
    fn mark_possibly_redefined(&mut self, name: &str)
        ensures
            final(self).spec_integers() == old(self).spec_integers(),
            final(self).spec_redefined() == old(self).spec_redefined().push(name@),
    {
        self.redefined.push(name.to_owned());
        proof {
            assert(self.spec_redefined() =~= old(self).spec_redefined().push(name@));
        }
    }

    fn operator_is_foldable(&self, name: &str) -> (r: bool)
        ensures
            r == !self.spec_redefined().contains(name@),
    {
        let mut i: usize = 0;
        while i < self.redefined.len()
            invariant
                i <= self.redefined@.len(),
                forall|k: int| 0 <= k < i ==> self.redefined@[k]@ != name@,
            decreases self.redefined@.len() - i,
        {
            if str_eq(self.redefined[i].as_str(), name) {
                assert(self.spec_redefined()[i as int] == name@);
                return false;
            }
            i += 1;
        }
        proof {
            if self.spec_redefined().contains(name@) {
                let k = choose|k: int| 0 <= k < self.spec_redefined().len() && self.spec_redefined()[k] == name@;
                assert(self.redefined@[k]@ == name@);
            }
        }
        true
    }
}

impl Default for ConstantEnv {
    fn default() -> (r: Self)
        ensures
            r.spec_integers() == Seq::<(Seq<char>, Option<i64>)>::empty(),
            r.spec_redefined() == Seq::<Seq<char>>::empty(),
    {
        ConstantEnv::new()
    }
}

impl ForConstantSource for ConstantEnv {
    open spec fn constant_of(&self, name: Seq<char>) -> Option<i64> {
        env_int(self.spec_integers(), name)
    }

    fn integer_constant(&self, name: &str) -> (r: Option<i64>) {
        let mut i: usize = self.integers.len();
        proof {
            assert(self.spec_integers().take(i as int) =~= self.spec_integers());
        }
        while i > 0
            invariant
                i <= self.integers@.len(),
                env_int(self.spec_integers(), name@) == env_int(self.spec_integers().take(i as int), name@),
            decreases i,
        {
            proof {
                assert(self.spec_integers().take(i as int).drop_last() =~= self.spec_integers().take(i - 1));
            }
            if str_eq(self.integers[i - 1].0.as_str(), name) {
                return self.integers[i - 1].1;
            }
            i -= 1;
        }
        None
    }
}

pub open spec fn is_comparison(op: Seq<char>) -> bool {
    op == "="@ || op == "!="@ || op == "<"@ || op == "<="@ || op == ">"@ || op == ">="@
}

pub open spec fn compare(op: Seq<char>, a: i64, b: i64) -> bool {
    if op == "="@ {
        a == b
    } else if op == "!="@ {
        a != b
    } else if op == "<"@ {
        a < b
    } else if op == "<="@ {
        a <= b
    } else if op == ">"@ {
        a > b
    } else {
        a >= b
    }
}

/// Checked arithmetic for folding; `None` where evaluation would fail.
pub open spec fn fold_arith(op: Seq<char>, a: i64, b: i64) -> Option<i64> {
    match constant_apply(op, a, b) {
        Ok(v) => Some(v),
        Err(_) => None,
    }
}

/// The integer `e` provably evaluates to, from source shape alone:
/// literals, `let`-bound and known-constant names, an `if` whose condition
/// folds, and arithmetic through operators not redefined.
pub open spec fn fold_int(e: ExprV, ints: Seq<(Seq<char>, Option<i64>)>, redefined: Seq<Seq<char>>, locals: Seq<(Seq<char>, i64)>) -> Option<i64>
    decreases e, 1int,
{
    match e.kind {
        ExprKindV::Int(n) => Some(n),
        ExprKindV::Symbol(name) => match lookup_for_var(locals, name) {
            Some(v) => Some(v),
            None => env_int(ints, name),
        },
        ExprKindV::List(items) => fold_application(items, ints, redefined, locals),
        _ => None,
    }
}

pub open spec fn fold_bool(e: ExprV, ints: Seq<(Seq<char>, Option<i64>)>, redefined: Seq<Seq<char>>, locals: Seq<(Seq<char>, i64)>) -> Option<bool>
    decreases e, 1int,
{
    match e.kind {
        ExprKindV::Bool(b) => Some(b),
        ExprKindV::List(items) => fold_bool_application(items, ints, redefined, locals),
        _ => None,
    }
}

pub open spec fn fold_application(items: Seq<ExprV>, ints: Seq<(Seq<char>, Option<i64>)>, redefined: Seq<Seq<char>>, locals: Seq<(Seq<char>, i64)>) -> Option<i64>
    decreases items, 0int,
{
    if items.len() == 3 && items[0].kind is Symbol && is_constant_operator(items[0].kind->Symbol_0)
        && !redefined.contains(items[0].kind->Symbol_0) {
        match fold_int(items[1], ints, redefined, locals) {
            None => None,
            Some(a) => match fold_int(items[2], ints, redefined, locals) {
                None => None,
                Some(b) => fold_arith(items[0].kind->Symbol_0, a, b),
            },
        }
    } else if items.len() == 3 && items[0].kind == ExprKindV::Symbol("let"@) && items[1].kind is List {
        match fold_bindings(items[1].kind->List_0, 0, ints, redefined, locals) {
            None => None,
            Some(computed) => fold_int(items[2], ints, redefined, locals + computed),
        }
    } else if items.len() == 4 && items[0].kind == ExprKindV::Symbol("if"@) {
        match fold_bool(items[1], ints, redefined, locals) {
            None => None,
            Some(c) => if c {
                fold_int(items[2], ints, redefined, locals)
            } else {
                fold_int(items[3], ints, redefined, locals)
            },
        }
    } else {
        None
    }
}

/// The values of `let` bindings from `j` on, each folded in the outer
/// scope.
pub open spec fn fold_bindings(bs: Seq<ExprV>, j: int, ints: Seq<(Seq<char>, Option<i64>)>, redefined: Seq<Seq<char>>, locals: Seq<(Seq<char>, i64)>) -> Option<Seq<(Seq<char>, i64)>>
    decreases bs, bs.len() - j,
{
    if j < 0 || j >= bs.len() {
        Some(Seq::empty())
    } else if bs[j].kind is List && bs[j].kind->List_0.len() == 2 && bs[j].kind->List_0[0].kind is Symbol {
        match fold_int(bs[j].kind->List_0[1], ints, redefined, locals) {
            None => None,
            Some(v) => match fold_bindings(bs, j + 1, ints, redefined, locals) {
                None => None,
                Some(rest) => Some(seq![(bs[j].kind->List_0[0].kind->Symbol_0, v)] + rest),
            },
        }
    } else {
        None
    }
}

pub open spec fn fold_bool_application(items: Seq<ExprV>, ints: Seq<(Seq<char>, Option<i64>)>, redefined: Seq<Seq<char>>, locals: Seq<(Seq<char>, i64)>) -> Option<bool>
    decreases items, 0int,
{
    if items.len() == 3 && items[0].kind is Symbol && !redefined.contains(items[0].kind->Symbol_0)
        && is_comparison(items[0].kind->Symbol_0) {
        match fold_int(items[1], ints, redefined, locals) {
            None => None,
            Some(a) => match fold_int(items[2], ints, redefined, locals) {
                None => None,
                Some(b) => Some(compare(items[0].kind->Symbol_0, a, b)),
            },
        }
    } else if items.len() == 4 && items[0].kind == ExprKindV::Symbol("if"@) {
        match fold_bool(items[1], ints, redefined, locals) {
            None => None,
            Some(c) => if c {
                fold_bool(items[2], ints, redefined, locals)
            } else {
                fold_bool(items[3], ints, redefined, locals)
            },
        }
    } else {
        None
    }
}

pub open spec fn prepend_bindings(prefix: Seq<(Seq<char>, i64)>, r: Option<Seq<(Seq<char>, i64)>>) -> Option<Seq<(Seq<char>, i64)>> {
    match r {
        Some(rest) => Some(prefix + rest),
        None => None,
    }
}

pub open spec fn locals_view(locals: Seq<(String, i64)>) -> Seq<(Seq<char>, i64)> {
    locals.map_values(|p: (String, i64)| (p.0@, p.1))
}

proof fn lemma_locals_view_push(s: Seq<(String, i64)>, x: (String, i64))
    ensures
        locals_view(s.push(x)) == locals_view(s).push((x.0@, x.1)),
{
    assert(locals_view(s.push(x)) =~= locals_view(s).push((x.0@, x.1)));
}

fn lookup_local(locals: &Vec<(String, i64)>, name: &str) -> (r: Option<i64>)
    ensures
        r == lookup_for_var(locals_view(locals@), name@),
{
    let mut i: usize = locals.len();
    proof {
        assert(locals_view(locals@).take(i as int) =~= locals_view(locals@));
    }
    while i > 0
        invariant
            i <= locals@.len(),
            lookup_for_var(locals_view(locals@), name@) == lookup_for_var(locals_view(locals@).take(i as int), name@),
        decreases i,
    {
        proof {
            assert(locals_view(locals@).take(i as int).drop_last() =~= locals_view(locals@).take(i - 1));
        }
        if str_eq(locals[i - 1].0.as_str(), name) {
            return Some(locals[i - 1].1);
        }
        i -= 1;
    }
    None
}

fn is_symbol(e: &Expr, name: &str) -> (r: bool)
    ensures
        r == (e@.kind == ExprKindV::Symbol(name@)),
{
    match &e.kind {
        ExprKind::Symbol(s) => str_eq(s.as_str(), name),
        _ => false,
    }
}

fn is_arith(op: &str) -> (r: bool)
    ensures
        r == is_constant_operator(op@),
{
    proof {
        reveal_strlit("+");
        reveal_strlit("-");
        reveal_strlit("*");
        reveal_strlit("/");
        reveal_strlit("%");
        assert("+"@ =~= seq!['+']);
        assert("-"@ =~= seq!['-']);
        assert("*"@ =~= seq!['*']);
        assert("/"@ =~= seq!['/']);
        assert("%"@ =~= seq!['%']);
    }
    str_eq(op, "+") || str_eq(op, "-") || str_eq(op, "*") || str_eq(op, "/") || str_eq(op, "%")
}

fn is_comparison_op(op: &str) -> (r: bool)
    ensures
        r == is_comparison(op@),
{
    str_eq(op, "=") || str_eq(op, "!=") || str_eq(op, "<") || str_eq(op, "<=") || str_eq(op, ">") || str_eq(op, ">=")
}

fn compare_exec(op: &str, a: i64, b: i64) -> (r: bool)
    ensures
        r == compare(op@, a, b),
{
    if str_eq(op, "=") {
        a == b
    } else if str_eq(op, "!=") {
        a != b
    } else if str_eq(op, "<") {
        a < b
    } else if str_eq(op, "<=") {
        a <= b
    } else if str_eq(op, ">") {
        a > b
    } else {
        a >= b
    }
}

/// Folds `expr` to a known integer, or `None` when it cannot be proven
/// constant from its shape.
fn try_fold_int(expr: &Expr, env: &ConstantEnv, locals: &Vec<(String, i64)>) -> (r: Option<i64>)
    ensures
        r == fold_int(expr@, env.spec_integers(), env.spec_redefined(), locals_view(locals@)),
    decreases expr, 2int,
{
    match &expr.kind {
        ExprKind::Int(n) => Some(*n),
        ExprKind::Bool(_) | ExprKind::String(_) | ExprKind::GeneratedSymbol(_) => None,
        ExprKind::Symbol(name) => match lookup_local(locals, name.as_str()) {
            Some(v) => Some(v),
            None => env.integer_constant(name.as_str()),
        },
        ExprKind::List(items) => try_fold_application(expr, items, env, locals),
    }
}

fn try_fold_bool(expr: &Expr, env: &ConstantEnv, locals: &Vec<(String, i64)>) -> (r: Option<bool>)
    ensures
        r == fold_bool(expr@, env.spec_integers(), env.spec_redefined(), locals_view(locals@)),
    decreases expr, 2int,
{
    match &expr.kind {
        ExprKind::Bool(b) => Some(*b),
        ExprKind::List(items) => try_fold_bool_application(expr, items, env, locals),
        _ => None,
    }
}

fn try_fold_application(parent: &Expr, items: &Vec<Expr>, env: &ConstantEnv, locals: &Vec<(String, i64)>) -> (r: Option<i64>)
    requires
        parent.kind == ExprKind::List(*items),
    ensures
        r == fold_application(exprs_view(items@, items@.len() as int), env.spec_integers(), env.spec_redefined(), locals_view(locals@)),
    decreases parent, 1int,
{
    let ghost iv = exprs_view(items@, items@.len() as int);
    let ghost ints = env.spec_integers();
    let ghost red = env.spec_redefined();
    let ghost lv = locals_view(locals@);
    proof {
        lemma_exprs_view_all(items@);
        assert(decreases_to!(*parent => parent.kind));
        assert(decreases_to!(parent.kind => (parent.kind)->List_0));
    }
    if items.len() == 3 {
        if let ExprKind::Symbol(op) = &items[0].kind {
            if is_arith(op.as_str()) && env.operator_is_foldable(op.as_str()) {
                proof {
                    assert(decreases_to!(*items => items[1]));
                    assert(decreases_to!(*items => items[2]));
                }
                let a = match try_fold_int(&items[1], env, locals) {
                    Some(a) => a,
                    None => {
                        return None;
                    },
                };
                let b = match try_fold_int(&items[2], env, locals) {
                    Some(b) => b,
                    None => {
                        return None;
                    },
                };
                return match constant_apply_exec(op, a, b) {
                    Ok(v) => Some(v),
                    Err(_) => None,
                };
            }
        }
    }
    if items.len() == 3 && is_symbol(&items[0], "let") {
        if let ExprKind::List(bs) = &items[1].kind {
            let ghost bv = exprs_view(bs@, bs@.len() as int);
            proof {
                lemma_exprs_view_all(bs@);
                assert(iv[1].kind == ExprKindV::List(bv));
            }
            proof {
                assert(fold_application(iv, ints, red, lv) == (match fold_bindings(bv, 0, ints, red, lv) {
                    None => None,
                    Some(c) => fold_int(iv[2], ints, red, lv + c),
                }));
            }
            let mut computed: Vec<(String, i64)> = Vec::new();
            let mut j: usize = 0;
            while j < bs.len()
                invariant
                    fold_application(iv, ints, red, lv) == (match fold_bindings(bv, 0, ints, red, lv) {
                        None => None,
                        Some(c) => fold_int(iv[2], ints, red, lv + c),
                    }),
                    iv == exprs_view(items@, items@.len() as int),
                    iv[2] == items@[2]@,
                    parent.kind == ExprKind::List(*items),
                    items@.len() == 3,
                    items@[1].kind == ExprKind::List(*bs),
                    bv == exprs_view(bs@, bs@.len() as int),
                    bv.len() == bs@.len(),
                    forall|k: int| 0 <= k < bs@.len() ==> #[trigger] bv[k] == bs@[k]@,
                    ints == env.spec_integers(),
                    red == env.spec_redefined(),
                    lv == locals_view(locals@),
                    j <= bs@.len(),
                    fold_bindings(bv, 0, ints, red, lv) == prepend_bindings(locals_view(computed@), fold_bindings(bv, j as int, ints, red, lv)),
                decreases bs@.len() - j,
            {
                let pair = match &bs[j].kind {
                    ExprKind::List(p) => p,
                    _ => {
                        return None;
                    },
                };
                proof {
                    lemma_exprs_view_all(pair@);
                }
                if pair.len() != 2 {
                    return None;
                }
                let name = match &pair[0].kind {
                    ExprKind::Symbol(n) => n,
                    _ => {
                        return None;
                    },
                };
                proof {
                    assert(decreases_to!(*parent => parent.kind));
                    assert(decreases_to!(parent.kind => (parent.kind)->List_0));
                    assert(decreases_to!(*items => items[1]));
                    assert(decreases_to!(items[1] => items[1].kind));
                    assert(decreases_to!(items[1].kind => (items[1].kind)->List_0));
                    assert(decreases_to!(*bs => bs[j as int]));
                    assert(decreases_to!(bs[j as int] => bs[j as int].kind));
                    assert(decreases_to!(bs[j as int].kind => (bs[j as int].kind)->List_0));
                    assert(decreases_to!(*pair => pair[1]));
                }
                let v = match try_fold_int(&pair[1], env, locals) {
                    Some(v) => v,
                    None => {
                        return None;
                    },
                };
                let ghost before = locals_view(computed@);
                computed.push((copy_string(name), v));
                proof {
                    assert(locals_view(computed@) =~= before.push((name@, v)));
                    match fold_bindings(bv, j + 1, ints, red, lv) {
                        Some(rest) => {
                            assert(before + (seq![(name@, v)] + rest) =~= before.push((name@, v)) + rest);
                        },
                        None => {},
                    }
                }
                j += 1;
            }
            let mut new_locals: Vec<(String, i64)> = Vec::new();
            let mut k: usize = 0;
            while k < locals.len()
                invariant
                    k <= locals@.len(),
                    locals_view(new_locals@) == locals_view(locals@).take(k as int),
                decreases locals@.len() - k,
            {
                let ghost before = new_locals@;
                new_locals.push((copy_string(&locals[k].0), locals[k].1));
                proof {
                    lemma_locals_view_push(before, new_locals@.last());
                    assert(new_locals@ == before.push(new_locals@.last()));
                    assert(locals_view(locals@)[k as int] == (locals@[k as int].0@, locals@[k as int].1));
                    assert(locals_view(new_locals@) =~= locals_view(locals@).take(k + 1));
                }
                k += 1;
            }
            let mut m: usize = 0;
            while m < computed.len()
                invariant
                    m <= computed@.len(),
                    locals_view(new_locals@) == locals_view(locals@) + locals_view(computed@).take(m as int),
                decreases computed@.len() - m,
            {
                let ghost before = new_locals@;
                new_locals.push((copy_string(&computed[m].0), computed[m].1));
                proof {
                    lemma_locals_view_push(before, new_locals@.last());
                    assert(new_locals@ == before.push(new_locals@.last()));
                    assert(locals_view(computed@)[m as int] == (computed@[m as int].0@, computed@[m as int].1));
                    assert(locals_view(new_locals@) =~= locals_view(locals@) + locals_view(computed@).take(m + 1));
                }
                m += 1;
            }
            proof {
                assert(locals_view(computed@).take(computed@.len() as int) =~= locals_view(computed@));
                assert(locals_view(computed@) + Seq::<(Seq<char>, i64)>::empty() =~= locals_view(computed@));
                assert(decreases_to!(*items => items[2]));
            }
            return try_fold_int(&items[2], env, &new_locals);
        }
    }
    if items.len() == 4 && is_symbol(&items[0], "if") {
        proof {
            assert(decreases_to!(*items => items[1]));
            assert(decreases_to!(*items => items[2]));
            assert(decreases_to!(*items => items[3]));
        }
        let c = match try_fold_bool(&items[1], env, locals) {
            Some(c) => c,
            None => {
                return None;
            },
        };
        return if c {
            try_fold_int(&items[2], env, locals)
        } else {
            try_fold_int(&items[3], env, locals)
        };
    }
    None
}

fn try_fold_bool_application(parent: &Expr, items: &Vec<Expr>, env: &ConstantEnv, locals: &Vec<(String, i64)>) -> (r: Option<bool>)
    requires
        parent.kind == ExprKind::List(*items),
    ensures
        r == fold_bool_application(exprs_view(items@, items@.len() as int), env.spec_integers(), env.spec_redefined(), locals_view(locals@)),
    decreases parent, 1int,
{
    proof {
        lemma_exprs_view_all(items@);
        assert(decreases_to!(*parent => parent.kind));
        assert(decreases_to!(parent.kind => (parent.kind)->List_0));
    }
    if items.len() == 3 {
        if let ExprKind::Symbol(op) = &items[0].kind {
            if env.operator_is_foldable(op.as_str()) && is_comparison_op(op.as_str()) {
                proof {
                    assert(decreases_to!(*items => items[1]));
                    assert(decreases_to!(*items => items[2]));
                }
                let a = match try_fold_int(&items[1], env, locals) {
                    Some(a) => a,
                    None => {
                        return None;
                    },
                };
                let b = match try_fold_int(&items[2], env, locals) {
                    Some(b) => b,
                    None => {
                        return None;
                    },
                };
                return Some(compare_exec(op.as_str(), a, b));
            }
        }
    }
    if items.len() == 4 && is_symbol(&items[0], "if") {
        proof {
            assert(decreases_to!(*items => items[1]));
            assert(decreases_to!(*items => items[2]));
            assert(decreases_to!(*items => items[3]));
        }
        let c = match try_fold_bool(&items[1], env, locals) {
            Some(c) => c,
            None => {
                return None;
            },
        };
        return if c {
            try_fold_bool(&items[2], env, locals)
        } else {
            try_fold_bool(&items[3], env, locals)
        };
    }
    None
}

/// A compile-only front end: the registry and function table a normal
/// interpreter keeps, plus the compile-time constant environment, but no
/// runtime values and no output.
pub struct Compiler {
    globals: GlobalRegistry,
    module: IrModule,
    constants: ConstantEnv,
    next_loop_id: u32,
}

/// What `expand_only` records for a top-level form: a `(def name value)`
/// marks `name` as possibly redefined and remembers whether `value` folds
/// to an integer.
pub open spec fn record_def(e: ExprV, ints: Seq<(Seq<char>, Option<i64>)>, redefined: Seq<Seq<char>>) -> (Seq<(Seq<char>, Option<i64>)>, Seq<Seq<char>>) {
    match e.kind {
        ExprKindV::List(items) => if items.len() == 3 && items[0].kind == ExprKindV::Symbol("def"@) && items[1].kind is Symbol {
            let name = items[1].kind->Symbol_0;
            let red = redefined.push(name);
            (ints.push((name, fold_int(items[2], ints, red, Seq::empty()))), red)
        } else {
            (ints, redefined)
        },
        _ => (ints, redefined),
    }
}

/// `ts` is what the forms `es` compiled to: form `k` expanded, with the
/// compile-time constants `envs[k]` known when it was compiled, to
/// `cs[k]`, which `ts[k]` is the lowering of (see [`top_level_lowered_from`])
/// in the function table `fs` with the global names `names`.
pub open spec fn compiled_from(
    es: Seq<ExprV>,
    ts: Seq<IrTopLevel>,
    cs: Seq<CoreExprV>,
    envs: Seq<ConstantEnv>,
    fs: Seq<IrFunction>,
    names: Seq<Seq<char>>,
) -> bool {
    &&& cs.len() == ts.len()
    &&& envs.len() == ts.len()
    &&& forall|k: int| 0 <= k < cs.len() ==> {
        &&& expand_spec(es[k], Seq::empty(), envs[k], DEFAULT_MAX_FOR_EXPANSIONS as nat) matches Ok((c, _)) && c == cs[k]
        &&& top_level_lowered_from(#[trigger] cs[k], ts[k], fs.map_values(|f: IrFunction| Some(f)), 0, names)
    }
}

/// The compile-time constants known before form `k` of `es` is compiled,
/// when compiling starts from `ints` and `redefined`: every earlier form
/// records what its `def` makes known, as [`record_def`] says.
pub open spec fn constants_before(es: Seq<ExprV>, k: int, ints: Seq<(Seq<char>, Option<i64>)>, redefined: Seq<Seq<char>>) -> (Seq<(Seq<char>, Option<i64>)>, Seq<Seq<char>>)
    decreases k,
{
    if k <= 0 {
        (ints, redefined)
    } else {
        let before = constants_before(es, k - 1, ints, redefined);
        record_def(es[k - 1], before.0, before.1)
    }
}

/// How compiling the form `e` with the compile-time constants `env` can
/// fail with `err`: expansion fails exactly as [`expand_spec`] says; a
/// lowering error on a well-formed expansion (see [`top_lowerable`]) only
/// reports an exhausted counter; and a verification error only comes after
/// the form expanded.
pub open spec fn form_error(e: ExprV, env: ConstantEnv, err: LispError) -> bool {
    match expand_spec(e, Seq::empty(), env, DEFAULT_MAX_FOR_EXPANSIONS as nat) {
        Err(x) => err matches LispError::Expand(y) && crate::expand::expand_error_matches(y, x),
        Ok((c, _)) => (err matches LispError::Lower(l) && (top_lowerable(c) ==> limit_error(l))) || (err is Verify && top_lowerable(c)),
    }
}

impl Compiler {
    pub closed spec fn spec_constants(&self) -> ConstantEnv {
        self.constants
    }

    pub closed spec fn spec_function_count(&self) -> nat {
        self.module.functions@.len()
    }

    /// The interned global names.
    pub closed spec fn spec_names(&self) -> Seq<Seq<char>> {
        self.globals@
    }

    /// The function table built so far.
    pub closed spec fn spec_functions(&self) -> Seq<IrFunction> {
        self.module.functions@
    }

    /// Every function of the table checks against the table and the
    /// globals named so far.
    pub closed spec fn spec_verified(&self) -> bool {
        functions_check(self.module.functions@, self.module.functions@, self.globals@.len())
    }

    pub fn new() -> (r: Self)
        ensures
            r.spec_function_count() == 0,
            r.spec_verified(),
            r.spec_names() == crate::interpreter::builtin_names(),
            r.spec_constants().spec_integers() == Seq::<(Seq<char>, Option<i64>)>::empty(),
            r.spec_constants().spec_redefined() == Seq::<Seq<char>>::empty(),
    {
        Compiler { globals: registry_with_builtins(), module: IrModule::new(), constants: ConstantEnv::new(), next_loop_id: 0 }
    }

    /// The table's functions, checked against its earlier globals, still
    /// check against the current ones.
    proof fn lemma_old_functions_still_check(&self, fs0: Seq<IrFunction>, g0: nat)
        requires
            self.module.functions@ == fs0,
            g0 <= self.globals@.len(),
            functions_check(fs0, fs0, g0),
        ensures
            self.spec_verified(),
            forall|k: int| 0 <= k < fs0.len() ==> #[trigger] check_function(fs0[k], fs0, self.globals@.len()) is Ok,
    {
        assert forall|k: int| 0 <= k < fs0.len() implies #[trigger] check_function(fs0[k], fs0, self.globals@.len()) is Ok by {
            assert(check_function(fs0[k], fs0, g0) is Ok);
            lemma_function_grows(fs0[k], fs0, fs0, g0, self.globals@.len());
        }
    }

    /// Compiles every top-level form of `source` into verified IR, in
    /// order, without executing any of it: each form as
    /// [`compile_step`] says, stopping at the first that fails, whose
    /// functions are not kept.
    pub fn compile_source(&mut self, source: &str) -> (r: Result<Vec<IrTopLevel>, LispError>)
        requires
            byte_len(source@) <= usize::MAX,
        ensures
            r matches Ok(ts) ==> (crate::parser::read_program(source@) matches Ok(es) && ts@.len() == es.len()),
            old(self).spec_verified() ==> final(self).spec_verified(),
            old(self).spec_verified() ==> (r matches Ok(ts) ==> forall|i: int| 0 <= i < ts@.len()
                ==> #[trigger] check_top_level(ts@[i], final(self).spec_functions(), final(self).spec_names().len()) is Ok),
            r matches Ok(ts) ==> exists|cs: Seq<CoreExprV>, envs: Seq<ConstantEnv>|
                #[trigger] compiled_from(crate::parser::read_program(source@)->Ok_0, ts@, cs, envs, final(self).spec_functions(), final(self).spec_names())
                && (envs.len() > 0 ==> envs[0] == old(self).spec_constants())
                && forall|k: int| 0 <= k < envs.len() ==> (#[trigger] envs[k].spec_integers(), envs[k].spec_redefined())
                    == constants_before(crate::parser::read_program(source@)->Ok_0, k,
                        old(self).spec_constants().spec_integers(), old(self).spec_constants().spec_redefined()),
            r is Ok ==> (final(self).spec_constants().spec_integers(), final(self).spec_constants().spec_redefined())
                == constants_before(crate::parser::read_program(source@)->Ok_0, crate::parser::read_program(source@)->Ok_0.len() as int,
                    old(self).spec_constants().spec_integers(), old(self).spec_constants().spec_redefined()),
            crate::parser::read_program(source@) is Ok ==> exists|states: Seq<Compiler>, rs: Seq<Result<IrTopLevel, LispError>>|
                #[trigger] compiled_in_order(crate::parser::read_program(source@)->Ok_0, states, rs)
                && states[0] == *old(self) && states.last() == *final(self)
                && match r {
                    Ok(ts) => rs.len() == ts@.len() && forall|k: int| 0 <= k < rs.len() ==> #[trigger] rs[k] == Ok::<IrTopLevel, LispError>(ts@[k]),
                    Err(e) => rs.len() > 0 && rs.last() == Err::<IrTopLevel, LispError>(e),
                },
            r matches Err(err) ==> match crate::parser::read_program(source@) {
                Err(re) => crate::parser::read_error_matches(re, err) && final(self).spec_functions() == old(self).spec_functions(),
                Ok(es) => exists|k: int, env: ConstantEnv| 0 <= k < es.len()
                    && env.spec_integers() == constants_before(es, k, old(self).spec_constants().spec_integers(), old(self).spec_constants().spec_redefined()).0
                    && #[trigger] form_error(es[k], env, err)
                    && (k == 0 ==> final(self).spec_functions() == old(self).spec_functions()),
            },
    {
        let exprs = match parse_program(source) {
            Ok(es) => es,
            Err(err) => {
                return Err(err);
            },
        };
        proof {
            lemma_exprs_view_all(exprs@);
        }
        let mut top_levels: Vec<IrTopLevel> = Vec::new();
        let ghost mut states: Seq<Compiler> = seq![*self];
        let ghost mut rs: Seq<Result<IrTopLevel, LispError>> = Seq::empty();
        let ghost mut cs: Seq<CoreExprV> = Seq::empty();
        let ghost mut envs: Seq<ConstantEnv> = Seq::empty();
        let ghost es = exprs_view(exprs@, exprs@.len() as int);
        let mut i: usize = 0;
        while i < exprs.len()
            invariant
                i <= exprs@.len(),
                top_levels@.len() == i,
                es == exprs_view(exprs@, exprs@.len() as int),
                es.len() == exprs@.len(),
                crate::parser::read_program(source@) == Ok::<Seq<ExprV>, crate::parser::ReadError>(es),
                compiled_in_order(es, states, rs),
                rs.len() == i,
                states[0] == *old(self),
                states.last() == *self,
                forall|k: int| 0 <= k < i ==> #[trigger] rs[k] == Ok::<IrTopLevel, LispError>(top_levels@[k]),
                forall|k: int| 0 <= k < exprs@.len() ==> #[trigger] es[k] == exprs@[k]@,
                cs.len() == i,
                envs.len() == i,
                i > 0 ==> envs[0] == old(self).spec_constants(),
                i == 0 ==> self.spec_constants() == old(self).spec_constants(),
                i == 0 ==> self.spec_functions() == old(self).spec_functions(),
                (self.spec_constants().spec_integers(), self.spec_constants().spec_redefined())
                    == constants_before(es, i as int, old(self).spec_constants().spec_integers(), old(self).spec_constants().spec_redefined()),
                forall|k: int| 0 <= k < i ==> (#[trigger] envs[k].spec_integers(), envs[k].spec_redefined())
                    == constants_before(es, k, old(self).spec_constants().spec_integers(), old(self).spec_constants().spec_redefined()),
                forall|k: int| 0 <= k < i ==> {
                    &&& expand_spec(es[k], Seq::empty(), envs[k], DEFAULT_MAX_FOR_EXPANSIONS as nat)
                        matches Ok((c, _)) && c == cs[k]
                    &&& top_level_lowered_from(#[trigger] cs[k], top_levels@[k], self.spec_functions().map_values(|f: IrFunction| Some(f)),
                        0, self.spec_names())
                },
                old(self).spec_verified() ==> self.spec_verified(),
                old(self).spec_verified() ==> forall|k: int| 0 <= k < i
                    ==> #[trigger] check_top_level(top_levels@[k], self.spec_functions(), self.spec_names().len()) is Ok,
            decreases exprs@.len() - i,
        {
            let ghost fs0 = self.module.functions@;
            let ghost g0 = self.globals@;
            let ghost prev_ok = forall|k: int| 0 <= k < i ==> #[trigger] check_top_level(top_levels@[k], fs0, g0.len()) is Ok;
            proof {
                if old(self).spec_verified() {
                    assert forall|k: int| 0 <= k < i implies #[trigger] check_top_level(top_levels@[k], fs0, g0.len()) is Ok by {
                        assert(check_top_level(top_levels@[k], self.spec_functions(), self.spec_names().len()) is Ok);
                    }
                }
            }
            let ghost env_now = self.spec_constants();
            let ghost fns_before = self.spec_functions();
            let ghost names_before = self.spec_names();
            let compiled = self.compile_expr(&exprs[i]);
            proof {
                let rs0 = rs;
                let st0 = states;
                rs = rs.push(compiled);
                states = states.push(*self);
                assert(compile_step(states[i as int], es[i as int], rs[i as int], states[i as int + 1]));
                assert forall|k: int| 0 <= k < rs.len() implies #[trigger] compile_step(states[k], es[k], rs[k], states[k + 1]) by {
                    if k < i {
                        assert(st0[k] == states[k] && st0[k + 1] == states[k + 1] && rs0[k] == rs[k]);
                    }
                }
            }
            match compiled {
                Ok(t) => {
                    proof {
                        let a = fns_before.map_values(|f: IrFunction| Some(f));
                        let b = self.spec_functions().map_values(|f: IrFunction| Some(f));
                        assert(crate::lower_shape::fns_extend(a, b));
                        crate::lower_shape::lemma_fns_extend_table(a, b, 0);
                        assert forall|k: int| 0 <= k < i implies {
                            &&& expand_spec(es[k], Seq::empty(), envs[k], DEFAULT_MAX_FOR_EXPANSIONS as nat)
                                matches Ok((c, _)) && c == cs[k]
                            &&& top_level_lowered_from(#[trigger] cs[k], top_levels@[k], b, 0, self.spec_names())
                        } by {
                            crate::lower_shape::lemma_top_level_grows(cs[k], top_levels@[k], a, b, 0, 0, names_before, self.spec_names());
                        }
                        let c = expand_spec(es[i as int], Seq::empty(), env_now, DEFAULT_MAX_FOR_EXPANSIONS as nat)->Ok_0.0;
                        cs = cs.push(c);
                        envs = envs.push(env_now);
                    }
                    proof {
                        if old(self).spec_verified() {
                            assert(prev_ok);
                            assert forall|k: int| 0 <= k < i implies #[trigger] check_top_level(top_levels@[k], self.spec_functions(), self.spec_names().len()) is Ok by {
                                assert(check_top_level(top_levels@[k], fs0, g0.len()) is Ok);
                                lemma_top_level_grows(top_levels@[k], fs0, self.module.functions@, g0.len(), self.globals@.len());
                            }
                        }
                    }
                    top_levels.push(t);
                    proof {
                        assert forall|k: int| 0 <= k < i + 1 implies #[trigger] rs[k] == Ok::<IrTopLevel, LispError>(top_levels@[k]) by {}
                    }
                },
                Err(err) => {
                    proof {
                        assert(env_now.spec_integers() == constants_before(es, i as int, old(self).spec_constants().spec_integers(), old(self).spec_constants().spec_redefined()).0);
                        assert(i == 0 ==> self.spec_functions() == old(self).spec_functions());
                        assert(crate::parser::read_program(source@)->Ok_0 == es);
                        assert(es.len() == exprs@.len());
                        assert(form_error(crate::parser::read_program(source@)->Ok_0[i as int], env_now, err));
                        assert(compiled_in_order(es, states, rs));
                        assert(rs.last() == Err::<IrTopLevel, LispError>(err));
                    }
                    return Err(err);
                },
            }
            i += 1;
        }
        proof {
            assert(compiled_from(es, top_levels@, cs, envs, self.spec_functions(), self.spec_names()));
            assert(crate::parser::read_program(source@)->Ok_0 == es);
            assert(envs.len() > 0 ==> envs[0] == old(self).spec_constants());
            assert(compiled_from(crate::parser::read_program(source@)->Ok_0, top_levels@, cs, envs, self.spec_functions(), self.spec_names())
                && (envs.len() > 0 ==> envs[0] == old(self).spec_constants()));
        }
        Ok(top_levels)
    }

    fn compile_expr(&mut self, expr: &Expr) -> (r: Result<IrTopLevel, LispError>)
        ensures
            (r matches Err(LispError::Lower(_))) || (r matches Err(LispError::Verify(_))) ==> final(self).spec_function_count() == old(self).spec_function_count(),
            old(self).module.functions@.len() <= final(self).module.functions@.len(),
            forall|i: int| 0 <= i < old(self).module.functions@.len() ==> #[trigger] final(self).module.functions@[i] == old(self).module.functions@[i],
            old(self).globals@.len() <= final(self).globals@.len(),
            old(self).spec_verified() ==> final(self).spec_verified(),
            r matches Ok(t) ==> check_top_level(t, final(self).module.functions@, final(self).globals@.len()) is Ok,
            extends_names(old(self).spec_names(), final(self).spec_names()),
            r matches Ok(t) ==> expand_spec(expr@, Seq::empty(), old(self).spec_constants(), DEFAULT_MAX_FOR_EXPANSIONS as nat) matches Ok((c, _))
                && top_level_lowered_from(c, t, final(self).spec_functions().map_values(|f: IrFunction| Some(f)), 0, final(self).spec_names()),
            r matches Err(err) ==> form_error(expr@, old(self).spec_constants(), err),
            r is Err ==> final(self).spec_functions() == old(self).spec_functions(),
            expand_spec(expr@, Seq::empty(), old(self).spec_constants(), DEFAULT_MAX_FOR_EXPANSIONS as nat) is Ok
                ==> (final(self).spec_constants().spec_integers(), final(self).spec_constants().spec_redefined())
                    == record_def(expr@, old(self).spec_constants().spec_integers(), old(self).spec_constants().spec_redefined()),
            expand_spec(expr@, Seq::empty(), old(self).spec_constants(), DEFAULT_MAX_FOR_EXPANSIONS as nat) is Err
                ==> final(self).spec_constants() == old(self).spec_constants(),
            compile_step(*old(self), expr@, r, *final(self)),
    {
        let core = match self.expand_only(expr) {
            Ok(c) => c,
            Err(err) => {
                return Err(err);
            },
        };
        let ghost consts1 = self.spec_constants();
        let ghost fs0 = self.module.functions@;
        let ghost g0 = self.globals@;
        let base = self.module.functions.len();
        if base > u32::MAX as usize {
            return Err(LispError::Lower(LowerError::TooManyFunctions));
        }
        let mut lower_context = LowerContext::with_next_ids(base as u32, self.next_loop_id);
        let lowered = lower_top_level(&core, &mut lower_context, &mut self.globals);
        proof {
            if old(self).spec_verified() {
                self.lemma_old_functions_still_check(fs0, g0.len());
            }
        }
        let (top_level, new_functions) = match lowered {
            Ok(result) => result,
            Err(err) => {
                return Err(LispError::Lower(err));
            },
        };
        let ghost added = new_functions@;
        let ghost g1 = self.globals@;
        self.next_loop_id = lower_context.next_loop_id();
        crate::interpreter::append_functions(&mut self.module.functions, new_functions);
        let ghost fall = self.module.functions@;
        proof {
            let small = added.map_values(|f: IrFunction| Some(f));
            let all = fall.map_values(|f: IrFunction| Some(f));
            assert forall|id: int| (#[trigger] fn_entry(small, base as int, id)) is Some
                implies fn_entry(all, 0, id) == fn_entry(small, base as int, id) by {
                assert(fall[id] == added[id - base]);
            }
            crate::lower_shape::lemma_top_level_grows(core@, top_level, small, all, base as int, 0, g1, g1);
            assert(fall.take(base as int) =~= fs0);
        }
        if let Err(err) = verify_top_level(&top_level, &self.module, &self.globals) {
            truncate(&mut self.module.functions, base);
            proof {
                assert(self.module.functions@ =~= fs0);
            }
            return Err(LispError::Verify(err));
        }
        let mut i: usize = base;
        while i < self.module.functions.len()
            invariant
                base <= i <= self.module.functions@.len(),
                base == old(self).module.functions@.len(),
                fs0 == old(self).module.functions@,
                g0 == old(self).globals@,
                self.module.functions@.take(base as int) == fs0,
                g0.len() <= self.globals@.len(),
                old(self).spec_verified() ==> forall|k: int| 0 <= k < base ==> #[trigger] check_function(fs0[k], fs0, self.globals@.len()) is Ok,
                forall|k: int| base <= k < i ==> #[trigger] check_function(self.module.functions@[k], self.module.functions@, self.globals@.len()) is Ok,
                check_top_level(top_level, self.module.functions@, self.globals@.len()) is Ok,
                self.module.functions@ == fall,
                self.globals@ == g1,
                extends_names(g0, g1),
                self.spec_constants() == consts1,
                expand_spec(expr@, Seq::empty(), old(self).spec_constants(), DEFAULT_MAX_FOR_EXPANSIONS as nat) matches Ok((c, _)) && c == core@,
                top_lowerable(core@),
                (consts1.spec_integers(), consts1.spec_redefined())
                    == record_def(expr@, old(self).spec_constants().spec_integers(), old(self).spec_constants().spec_redefined()),
            decreases self.module.functions@.len() - i,
        {
            if let Err(err) = verify_function(&self.module.functions[i], &self.module, &self.globals) {
                truncate(&mut self.module.functions, base);
                proof {
                    assert(self.module.functions@ =~= fs0);
                }
                return Err(LispError::Verify(err));
            }
            i += 1;
        }
        proof {
            if old(self).spec_verified() {
                assert forall|k: int| 0 <= k < self.module.functions@.len() implies #[trigger] check_function(self.module.functions@[k], self.module.functions@, self.globals@.len()) is Ok by {
                    if k < base {
                        assert(self.module.functions@.take(base as int)[k] == fs0[k]);
                        assert(self.module.functions@[k] == fs0[k]);
                        lemma_function_grows(fs0[k], fs0, self.module.functions@, self.globals@.len(), self.globals@.len());
                    }
                }
            }
            assert forall|k: int| 0 <= k < fs0.len() implies #[trigger] self.module.functions@[k] == fs0[k] by {
                assert(self.module.functions@.take(base as int)[k] == fs0[k]);
            }
        }
        Ok(top_level)
    }

    /// Expands one reader expression to core form and records what a
    /// top-level `def` makes known for later `for` ranges, without
    /// lowering, verifying or executing anything.
    pub fn expand_only(&mut self, expr: &Expr) -> (r: Result<CoreExpr, LispError>)
        ensures
            match expand_spec(expr@, Seq::empty(), old(self).spec_constants(), DEFAULT_MAX_FOR_EXPANSIONS as nat) {
                Ok((c, _)) => r matches Ok(x) && x@ == c,
                Err(e) => r matches Err(LispError::Expand(x)) && crate::expand::expand_error_matches(x, e),
            },
            r is Ok ==> (final(self).spec_constants().spec_integers(), final(self).spec_constants().spec_redefined())
                == record_def(expr@, old(self).spec_constants().spec_integers(), old(self).spec_constants().spec_redefined()),
            r is Err ==> final(self).spec_constants() == old(self).spec_constants(),
            final(self).spec_function_count() == old(self).spec_function_count(),
            final(self).spec_functions() == old(self).spec_functions(),
            final(self).spec_names() == old(self).spec_names(),
    {
        let core = {
            let mut context = ExpansionContext::new(&self.constants);
            match expand(expr, &mut context) {
                Ok(c) => c,
                Err(err) => {
                    return Err(LispError::Expand(err));
                },
            }
        };
        let ghost ints = self.constants.spec_integers();
        let ghost red = self.constants.spec_redefined();
        if let ExprKind::List(items) = &expr.kind {
            proof {
                lemma_exprs_view_all(items@);
            }
            if items.len() == 3 && is_symbol(&items[0], "def") {
                if let ExprKind::Symbol(name) = &items[1].kind {
                    self.constants.mark_possibly_redefined(name.as_str());
                    let empty: Vec<(String, i64)> = Vec::new();
                    proof {
                        assert(locals_view(empty@) =~= Seq::<(Seq<char>, i64)>::empty());
                    }
                    match try_fold_int(&items[2], &self.constants, &empty) {
                        Some(n) => self.constants.set_int(name.as_str(), n),
                        None => self.constants.invalidate(name.as_str()),
                    }
                    return Ok(core);
                }
            }
        }
        Ok(core)
    }

    pub fn globals(&self) -> (r: &GlobalRegistry)
        ensures
            r@ == self.spec_names(),
    {
        &self.globals
    }

    pub fn module(&self) -> (r: &IrModule)
        ensures
            r.functions@.len() == self.spec_function_count(),
    {
        &self.module
    }
}

impl Default for Compiler {
    fn default() -> (r: Self)
        ensures
            r.spec_function_count() == 0,
    {
        Compiler::new()
    }
}

fn append(functions: &mut Vec<IrFunction>, extra: Vec<IrFunction>)
    ensures
        final(functions)@.len() == old(functions)@.len() + extra@.len(),
        final(functions)@.take(old(functions)@.len() as int) == old(functions)@,
{
    let mut extra = extra;
    let ghost start = functions@;
    let ghost n = extra@.len();
    while extra.len() > 0
        invariant
            functions@.len() + extra@.len() == start.len() + n,
            functions@.take(start.len() as int) == start,
            start.len() <= functions@.len(),
        decreases extra@.len(),
    {
        let f = extra.remove(0);
        functions.push(f);
        proof {
            assert(functions@.take(start.len() as int) =~= start);
        }
    }
}

fn truncate(functions: &mut Vec<IrFunction>, len: usize)
    requires
        len <= old(functions)@.len(),
    ensures
        final(functions)@ == old(functions)@.take(len as int),
{
    while functions.len() > len
        invariant
            len <= functions@.len() <= old(functions)@.len(),
            functions@ == old(functions)@.take(functions@.len() as int),
        decreases functions@.len(),
    {
        functions.pop();
        proof {
            assert(functions@ =~= old(functions)@.take(functions@.len() as int));
        }
    }
}

/// What compiling the reader expression `e` as a top-level form does when
/// the compiler goes from `s` to `s2` with the result `r`: earlier
/// functions and names are kept, a compiled form is the checked lowering of
/// its expansion, a form that fails fails as [`form_error`] says and leaves
/// the function table as it was, and a form that expands records what its
/// `def` makes known.
pub open spec fn compile_step(s: Compiler, e: ExprV, r: Result<IrTopLevel, LispError>, s2: Compiler) -> bool {
    &&& s2.spec_functions().len() >= s.spec_functions().len()
    &&& s2.spec_functions().take(s.spec_functions().len() as int) =~= s.spec_functions()
    &&& extends_names(s.spec_names(), s2.spec_names())
    &&& s.spec_verified() ==> s2.spec_verified()
    &&& match r {
        Ok(t) => expand_spec(e, Seq::empty(), s.spec_constants(), DEFAULT_MAX_FOR_EXPANSIONS as nat) matches Ok((c, _))
            && top_lowerable(c)
            && top_level_lowered_from(c, t, s2.spec_functions().map_values(|f: IrFunction| Some(f)), 0, s2.spec_names())
            && check_top_level(t, s2.spec_functions(), s2.spec_names().len()) is Ok,
        Err(err) => form_error(e, s.spec_constants(), err) && s2.spec_functions() =~= s.spec_functions(),
    }
    &&& expand_spec(e, Seq::empty(), s.spec_constants(), DEFAULT_MAX_FOR_EXPANSIONS as nat) is Ok
        ==> (s2.spec_constants().spec_integers(), s2.spec_constants().spec_redefined())
            == record_def(e, s.spec_constants().spec_integers(), s.spec_constants().spec_redefined())
    &&& expand_spec(e, Seq::empty(), s.spec_constants(), DEFAULT_MAX_FOR_EXPANSIONS as nat) is Err
        ==> s2.spec_constants() == s.spec_constants()
}

/// Compiling the forms `es` in order: `states[k]` is the compiler before
/// form `k` and `states[k + 1]` after it, `rs[k]` is what form `k` gave,
/// and only the last of them may be an error.
pub open spec fn compiled_in_order(es: Seq<ExprV>, states: Seq<Compiler>, rs: Seq<Result<IrTopLevel, LispError>>) -> bool {
    &&& states.len() == rs.len() + 1
    &&& rs.len() <= es.len()
    &&& forall|k: int| 0 <= k < rs.len() ==> #[trigger] compile_step(states[k], es[k], rs[k], states[k + 1])
    &&& forall|k: int| 0 <= k < rs.len() - 1 ==> (#[trigger] rs[k]) is Ok
}

} // verus!
