//! The expansion phase between parsing and lowering. Its one job is to
//! unroll `for` into a `Sequence` of `let`-wrapped iterations; every other
//! form is copied structurally, properties dropped.
use vstd::prelude::*;
use crate::ast::{exprs_view, lemma_exprs_view_all, Expr, ExprKind, ExprKindV, ExprV};
use crate::builtin::{trunc_div, trunc_rem};
use crate::core_expr::{cores_view, lemma_cores_view_all, CoreExpr, CoreExprV};
use crate::error::ExpandError;
use crate::text::str_eq;

verus! {

broadcast use vstd::std_specs::vec::group_vec_axioms;

/// What the expander consults to resolve a global name to a known integer
/// constant.
pub trait ForConstantSource {
    /// The integer currently known for the global called `name`.
    spec fn constant_of(&self, name: Seq<char>) -> Option<i64>;

    /// Returns the current known integer value of global `name`, if it is
    /// interned and currently resolvable as a constant integer.
    fn integer_constant(&self, name: &str) -> (r: Option<i64>)
        ensures
            r == self.constant_of(name@),
    ;
}

/// The default limit on how many iterations all the `for` forms of one
/// top-level expression may unroll to together.
pub const DEFAULT_MAX_FOR_EXPANSIONS: usize = 65536;

#[derive(Debug, Clone, Copy)]
pub struct ExpansionLimits {
    pub max_for_expansions: usize,
}

impl Default for ExpansionLimits {
    fn default() -> (r: Self)
        ensures
            r.max_for_expansions == DEFAULT_MAX_FOR_EXPANSIONS,
    {
        ExpansionLimits { max_for_expansions: DEFAULT_MAX_FOR_EXPANSIONS }
    }
}

/// Expansion-time context: where global integer constants come from, the
/// enclosing `for` variables (innermost last), and the iteration budget
/// that every `for` of one top-level expression draws from.
pub struct ExpansionContext<'a, C: ForConstantSource> {
    constants: &'a C,
    limits: ExpansionLimits,
    for_vars: Vec<(String, i64)>,
    budget: usize,
}

impl<'a, C: ForConstantSource> ExpansionContext<'a, C> {
    pub closed spec fn spec_constants(&self) -> C {
        *self.constants
    }

    /// The enclosing `for` variables and their values, innermost last.
    pub closed spec fn spec_for_vars(&self) -> Seq<(Seq<char>, i64)> {
        self.for_vars@.map_values(|p: (String, i64)| (p.0@, p.1))
    }

    /// Iterations still available to unroll.
    pub closed spec fn spec_budget(&self) -> nat {
        self.budget as nat
    }

    pub closed spec fn spec_limits(&self) -> ExpansionLimits {
        self.limits
    }

    pub fn new(constants: &'a C) -> (r: Self)
        ensures
            r.spec_constants() == *constants,
            r.spec_for_vars() == Seq::<(Seq<char>, i64)>::empty(),
            r.spec_budget() == DEFAULT_MAX_FOR_EXPANSIONS,
    {
        ExpansionContext::with_limits(constants, ExpansionLimits::default())
    }

    pub fn with_limits(constants: &'a C, limits: ExpansionLimits) -> (r: Self)
        ensures
            r.spec_constants() == *constants,
            r.spec_limits() == limits,
            r.spec_for_vars() == Seq::<(Seq<char>, i64)>::empty(),
            r.spec_budget() == limits.max_for_expansions,
    {
        let r = ExpansionContext { constants, limits, for_vars: Vec::new(), budget: limits.max_for_expansions };
        proof {
            assert(r.spec_for_vars() =~= Seq::<(Seq<char>, i64)>::empty());
        }
        r
    }
}

/// The value of the innermost `for` variable called `name`.
pub open spec fn lookup_for_var(vars: Seq<(Seq<char>, i64)>, name: Seq<char>) -> Option<i64>
    decreases vars.len(),
{
    if vars.len() == 0 {
        None
    } else if vars.last().0 == name {
        Some(vars.last().1)
    } else {
        lookup_for_var(vars.drop_last(), name)
    }
}

pub open spec fn sym_for() -> Seq<char> {
    seq!['f', 'o', 'r']
}

pub open spec fn sym_let() -> Seq<char> {
    seq!['l', 'e', 't']
}

/// The operators a constant `for` bound may apply.
pub open spec fn is_constant_operator(op: Seq<char>) -> bool {
    op == seq!['+'] || op == seq!['-'] || op == seq!['*'] || op == seq!['/'] || op == seq!['%']
}

/// Applies a constant operator with checked arithmetic.
pub open spec fn constant_apply(op: Seq<char>, a: i64, b: i64) -> Result<i64, ExpandError> {
    let v: int = if op == seq!['+'] {
        a + b
    } else if op == seq!['-'] {
        a - b
    } else if op == seq!['*'] {
        a * b
    } else if op == seq!['/'] {
        trunc_div(a as int, b as int)
    } else {
        trunc_rem(a as int, b as int)
    };
    if op == seq!['/'] && b == 0 {
        Err(ExpandError::ConstantDivisionByZero)
    } else if op == seq!['%'] && b == 0 {
        Err(ExpandError::ConstantRemainderByZero)
    } else if op == seq!['%'] && a == i64::MIN && b == -1 {
        Err(ExpandError::ConstantIntegerOverflow)
    } else if i64::MIN <= v <= i64::MAX {
        Ok(v as i64)
    } else {
        Err(ExpandError::ConstantIntegerOverflow)
    }
}

/// The value of an expansion-time integer constant: a literal, an
/// enclosing `for` variable, a known global integer, or a checked
/// `+ - * / %` of two such constants.
pub open spec fn constant_int<C: ForConstantSource>(e: ExprV, vars: Seq<(Seq<char>, i64)>, src: C) -> Result<i64, ExpandError>
    decreases e,
{
    match e.kind {
        ExprKindV::Int(n) => Ok(n),
        ExprKindV::Bool(_) => Err(ExpandError::NonConstantForBound),
        ExprKindV::String(_) => Err(ExpandError::NonIntegerForBound),
        ExprKindV::GeneratedSymbol(_) => Err(ExpandError::NonConstantForBound),
        ExprKindV::Symbol(name) => match lookup_for_var(vars, name) {
            Some(v) => Ok(v),
            None => match src.constant_of(name) {
                Some(v) => Ok(v),
                None => Err(ExpandError::NonConstantForBound),
            },
        },
        ExprKindV::List(items) => {
            if items.len() == 3 && items[0].kind is Symbol && is_constant_operator(items[0].kind->Symbol_0) {
                match constant_int(items[1], vars, src) {
                    Err(err) => Err(err),
                    Ok(a) => match constant_int(items[2], vars, src) {
                        Err(err) => Err(err),
                        Ok(b) => constant_apply(items[0].kind->Symbol_0, a, b),
                    },
                }
            } else {
                Err(ExpandError::NonConstantForBound)
            }
        },
    }
}

/// Number of iterations of the half-open range `[start, end)` walked by
/// `step` (`start > end` walked downwards for a negative step).
pub open spec fn iteration_count(start: int, end: int, step: int) -> int {
    if step > 0 {
        if start >= end {
            0
        } else {
            (end - start) / step + if (end - start) % step == 0 { 0int } else { 1int }
        }
    } else {
        if start <= end {
            0
        } else {
            (start - end) / (-step) + if (start - end) % (-step) == 0 { 0int } else { 1int }
        }
    }
}

/// The iteration `(let ((name value)) body)`.
pub open spec fn let_wrapped(name: Seq<char>, value: i64, body: CoreExprV) -> CoreExprV {
    CoreExprV::List(
        seq![
            CoreExprV::Symbol(sym_let()),
            CoreExprV::List(seq![CoreExprV::List(seq![CoreExprV::Symbol(name), CoreExprV::Int(value)])]),
            body,
        ],
    )
}

/// The name of the `meta` form.
pub open spec fn sym_meta() -> Seq<char> {
    seq!['m', 'e', 't', 'a']
}

/// A string spelled `k` (one exists for every sequence of characters).
pub open spec fn key_string(k: Seq<char>) -> String {
    choose|s: String| s@ == k
}

/// Whether an error that came back is the error the expansion gives: the
/// same error, or, for a duplicate property key, one naming the same key.
pub open spec fn expand_error_matches(actual: ExpandError, expected: ExpandError) -> bool {
    match expected {
        ExpandError::DuplicatePropertyKey(k) => actual matches ExpandError::DuplicatePropertyKey(a) && a@ == k@,
        _ => actual == expected,
    }
}

/// The keys of the first `n` entries of a `meta` property list, each entry
/// a `(key value)` pair whose key is a symbol not used before.
pub open spec fn meta_keys_spec(entries: Seq<ExprV>, n: int) -> Result<Seq<Seq<char>>, ExpandError>
    decreases n,
{
    if n <= 0 || n > entries.len() {
        Ok(Seq::empty())
    } else {
        match meta_keys_spec(entries, n - 1) {
            Err(err) => Err(err),
            Ok(keys) => {
                let entry = entries[n - 1];
                if !(entry.kind is List) || entry.kind->List_0.len() != 2 {
                    Err(ExpandError::InvalidMetaProperty)
                } else if !(entry.kind->List_0[0].kind is Symbol) {
                    Err(ExpandError::InvalidMetaPropertyKey)
                } else if keys.contains(entry.kind->List_0[0].kind->Symbol_0) {
                    Err(ExpandError::DuplicatePropertyKey(key_string(entry.kind->List_0[0].kind->Symbol_0)))
                } else {
                    Ok(keys.push(entry.kind->List_0[0].kind->Symbol_0))
                }
            },
        }
    }
}

/// Whether a `meta` form `(meta ((key value) ...) expr)` is well formed.
pub open spec fn meta_check_spec(items: Seq<ExprV>) -> Result<(), ExpandError> {
    if items.len() != 3 {
        Err(ExpandError::InvalidMetaSyntax)
    } else if !(items[1].kind is List) {
        Err(ExpandError::MetaPropertiesNotList)
    } else {
        match meta_keys_spec(items[1].kind->List_0, items[1].kind->List_0.len() as int) {
            Err(err) => Err(err),
            Ok(_) => Ok(()),
        }
    }
}

/// What reader syntax expands to: `(for ...)` is unrolled, `(meta props
/// expr)` is checked and expands to `expr` (its properties are inert), and
/// everything else keeps its shape. Expands `e` with `budget` iterations
/// available and gives the core form and the budget left over.
pub open spec fn expand_spec<C: ForConstantSource>(e: ExprV, vars: Seq<(Seq<char>, i64)>, src: C, budget: nat) -> Result<(CoreExprV, nat), ExpandError>
    decreases e, 0int,
{
    match e.kind {
        ExprKindV::Int(n) => Ok((CoreExprV::Int(n), budget)),
        ExprKindV::Bool(b) => Ok((CoreExprV::Bool(b), budget)),
        ExprKindV::String(s) => Ok((CoreExprV::String(s), budget)),
        ExprKindV::Symbol(s) => Ok((CoreExprV::Symbol(s), budget)),
        ExprKindV::GeneratedSymbol(s) => Ok((CoreExprV::Symbol(crate::datum::symbol_expr_text(s)), budget)),
        ExprKindV::List(items) => {
            if items.len() > 0 && items[0].kind == ExprKindV::Symbol(sym_for()) {
                expand_for_spec(items, vars, src, budget)
            } else if items.len() > 0 && items[0].kind == ExprKindV::Symbol(sym_meta()) {
                match meta_check_spec(items) {
                    Err(err) => Err(err),
                    Ok(_) => expand_spec(items[2], vars, src, budget),
                }
            } else {
                match expand_items_spec(items, items.len() as int, vars, src, budget) {
                    Ok((cores, left)) => Ok((CoreExprV::List(cores), left)),
                    Err(err) => Err(err),
                }
            }
        },
    }
}

/// Expands the first `n` of `items`, left to right.
pub open spec fn expand_items_spec<C: ForConstantSource>(items: Seq<ExprV>, n: int, vars: Seq<(Seq<char>, i64)>, src: C, budget: nat) -> Result<(Seq<CoreExprV>, nat), ExpandError>
    decreases items, n,
{
    if n <= 0 || n > items.len() {
        Ok((Seq::empty(), budget))
    } else {
        match expand_items_spec(items, n - 1, vars, src, budget) {
            Err(err) => Err(err),
            Ok((cores, left)) => match expand_spec(items[n - 1], vars, src, left) {
                Err(err) => Err(err),
                Ok((c, left2)) => Ok((cores.push(c), left2)),
            },
        }
    }
}

/// The header of `(for (name start end [step]) body)`, given the whole
/// list: the variable's name and the constant start, end and step.
pub open spec fn for_header_spec<C: ForConstantSource>(items: Seq<ExprV>, vars: Seq<(Seq<char>, i64)>, src: C) -> Result<(Seq<char>, i64, i64, i64), ExpandError> {
    if items.len() != 3 {
        Err(ExpandError::InvalidForSyntax)
    } else if !(items[1].kind is List) {
        Err(ExpandError::InvalidForBinding)
    } else {
        let binding = items[1].kind->List_0;
        if binding.len() != 3 && binding.len() != 4 {
            Err(ExpandError::InvalidForBinding)
        } else if !(binding[0].kind is Symbol) {
            Err(ExpandError::InvalidForBinding)
        } else {
            match constant_int(binding[1], vars, src) {
                Err(err) => Err(err),
                Ok(start) => match constant_int(binding[2], vars, src) {
                    Err(err) => Err(err),
                    Ok(end) => match (if binding.len() == 4 { constant_int(binding[3], vars, src) } else { Ok(1i64) }) {
                        Err(err) => Err(err),
                        Ok(step) => if step == 0 {
                            Err(ExpandError::ZeroForStep)
                        } else {
                            Ok((binding[0].kind->Symbol_0, start, end, step))
                        },
                    },
                },
            }
        }
    }
}

/// `(for (name start end [step]) body)`, given the whole list.
pub open spec fn expand_for_spec<C: ForConstantSource>(items: Seq<ExprV>, vars: Seq<(Seq<char>, i64)>, src: C, budget: nat) -> Result<(CoreExprV, nat), ExpandError>
    decreases items, 0int,
{
    match for_header_spec(items, vars, src) {
        Err(err) => Err(err),
        Ok((name, start, end, step)) => {
            let count = iteration_count(start as int, end as int, step as int);
            if count > budget {
                Err(ExpandError::ForExpansionLimitExceeded)
            } else if items.len() == 3 {
                match iterations_spec(items[2], name, start as int, step as int, count, vars, src, (budget - count) as nat) {
                    Err(err) => Err(err),
                    Ok((iters, left)) => Ok((CoreExprV::Sequence(iters), left)),
                }
            } else {
                Err(ExpandError::InvalidForSyntax)
            }
        },
    }
}

/// The `count` iterations starting at `current`, each expanding `body` with
/// `name` bound to its value.
pub open spec fn iterations_spec<C: ForConstantSource>(
    body: ExprV,
    name: Seq<char>,
    current: int,
    step: int,
    count: int,
    vars: Seq<(Seq<char>, i64)>,
    src: C,
    budget: nat,
) -> Result<(Seq<CoreExprV>, nat), ExpandError>
    decreases body, count,
{
    if count <= 0 {
        Ok((Seq::empty(), budget))
    } else {
        match expand_spec(body, vars.push((name, current as i64)), src, budget) {
            Err(err) => Err(err),
            Ok((c, left)) => match iterations_spec(body, name, current + step, step, count - 1, vars, src, left) {
                Err(err) => Err(err),
                Ok((rest, left2)) => Ok((seq![let_wrapped(name, current as i64, c)] + rest, left2)),
            },
        }
    }
}


/// A `for` range `[start, end)` walked by `step` runs exactly through the
/// values `start + k * step` that lie in the range: every one of the first
/// `iteration_count` values lies in it, and the value after the last one
/// lies outside it (at or beyond `end` in the direction of `step`).
pub proof fn law_iteration_count_is_exact(start: int, end: int, step: int)
    requires
        step != 0,
    ensures
        iteration_count(start, end, step) >= 0,
        forall|k: int| 0 <= k < iteration_count(start, end, step) ==>
            (step > 0 ==> start <= #[trigger] (start + k * step) < end) && (step < 0 ==> end < start + k * step <= start),
        step > 0 ==> start + iteration_count(start, end, step) * step >= end,
        step < 0 ==> start + iteration_count(start, end, step) * step <= end,
{
    assert forall|k: int| 0 <= k < iteration_count(start, end, step) implies
        (step > 0 ==> start <= #[trigger] (start + k * step) < end) && (step < 0 ==> end < start + k * step <= start) by {
        lemma_iteration_in_range(start, end, step, k);
    }
    let n = iteration_count(start, end, step);
    let m: int = if step > 0 { step } else { -step };
    let span: int = if step > 0 { end - start } else { start - end };
    if span > 0 {
        let q = span / m;
        let r = span % m;
        vstd::arithmetic::div_mod::lemma_fundamental_div_mod(span, m);
        vstd::arithmetic::div_mod::lemma_mod_pos_bound(span, m);
        vstd::arithmetic::div_mod::lemma_div_pos_is_pos(span, m);
        assert(span == m * q + r);
        assert(n == q + if r == 0 { 0int } else { 1int });
        assert(n * m >= span) by (nonlinear_arith)
            requires
                span == m * q + r,
                0 <= r < m,
                n == q + if r == 0 { 0int } else { 1int },
        ;
        if step < 0 {
            assert(n * step == -(n * m)) by (nonlinear_arith)
                requires
                    m == -step,
            ;
        }
    } else {
        assert(n == 0);
        assert(n * step == 0);
    }
}

/// The name and value a one-binding `let` form binds, read off the form.
pub open spec fn single_let_binding(e: CoreExprV) -> Option<(Seq<char>, i64)> {
    match e {
        CoreExprV::List(items) => if items.len() == 3 && items[0] == CoreExprV::Symbol(sym_let()) && items[1] is List
            && items[1]->List_0.len() == 1 && items[1]->List_0[0] is List && items[1]->List_0[0]->List_0.len() == 2
            && items[1]->List_0[0]->List_0[0] is Symbol && items[1]->List_0[0]->List_0[1] is Int {
            Some((items[1]->List_0[0]->List_0[0]->Symbol_0, items[1]->List_0[0]->List_0[1]->Int_0))
        } else {
            None
        },
        _ => None,
    }
}

/// The `k`-th of the iterations starting at `current` binds `name` to
/// `current + k * step`, and there are `count` of them.
pub proof fn lemma_iteration_values<C: ForConstantSource>(
    body: ExprV,
    name: Seq<char>,
    current: int,
    step: int,
    count: int,
    vars: Seq<(Seq<char>, i64)>,
    src: C,
    budget: nat,
)
    ensures
        iterations_spec(body, name, current, step, count, vars, src, budget) matches Ok((cs, _)) ==> {
            &&& cs.len() == (if count <= 0 { 0 } else { count })
            &&& forall|k: int| 0 <= k < cs.len() ==> single_let_binding(#[trigger] cs[k]) == Some((name, (current + k * step) as i64))
        },
    decreases count,
{
    if count > 0 {
        match expand_spec(body, vars.push((name, current as i64)), src, budget) {
            Err(_) => {},
            Ok((c, left)) => {
                lemma_iteration_values(body, name, current + step, step, count - 1, vars, src, left);
                if let Ok((cs, _)) = iterations_spec(body, name, current, step, count, vars, src, budget) {
                    let rest = iterations_spec(body, name, current + step, step, count - 1, vars, src, left)->Ok_0.0;
                    assert(cs == seq![let_wrapped(name, current as i64, c)] + rest);
                    assert forall|k: int| 0 <= k < cs.len() implies single_let_binding(#[trigger] cs[k]) == Some((name, (current + k * step) as i64)) by {
                        if k == 0 {
                            assert(cs[0] == let_wrapped(name, current as i64, c));
                            assert(current + 0 * step == current);
                        } else {
                            assert(cs[k] == rest[k - 1]);
                            assert(current + step + (k - 1) * step == current + k * step) by (nonlinear_arith);
                        }
                    }
                }
            },
        }
    }
}

/// A `for` form unrolls to one `let` per value of its range, in order: the
/// `k`-th binds the loop variable to `start + k * step`, which lies in the
/// half-open range, and the value after the last one lies outside it.
pub proof fn law_for_unrolls_each_value_of_its_range<C: ForConstantSource>(items: Seq<ExprV>, vars: Seq<(Seq<char>, i64)>, src: C, budget: nat)
    requires
        for_header_spec(items, vars, src) is Ok,
    ensures
        ({
            let (name, start, end, step) = for_header_spec(items, vars, src)->Ok_0;
            expand_for_spec(items, vars, src, budget) matches Ok((CoreExprV::Sequence(iters), _)) ==> {
                &&& forall|k: int| 0 <= k < iters.len() ==> single_let_binding(#[trigger] iters[k]) == Some((name, (start + k * step) as i64))
                &&& forall|k: int| 0 <= k < iters.len() ==>
                    (step > 0 ==> start <= #[trigger] (start + k * step) < end) && (step < 0 ==> end < start + k * step <= start)
                &&& step > 0 ==> start + iters.len() * step >= end
                &&& step < 0 ==> start + iters.len() * step <= end
            }
        }),
{
    let (name, start, end, step) = for_header_spec(items, vars, src)->Ok_0;
    let count = iteration_count(start as int, end as int, step as int);
    law_iteration_count_is_exact(start as int, end as int, step as int);
    if count <= budget && items.len() == 3 {
        lemma_iteration_values(items[2], name, start as int, step as int, count, vars, src, (budget - count) as nat);
    }
}

/// Every iteration value of a `for` range lies within the range.
pub proof fn lemma_iteration_in_range(start: int, end: int, step: int, k: int)
    requires
        step != 0,
        0 <= k < iteration_count(start, end, step),
    ensures
        step > 0 ==> start <= start + k * step < end,
        step < 0 ==> end < start + k * step <= start,
{
    let m: int = if step > 0 { step } else { -step };
    let span: int = if step > 0 { end - start } else { start - end };
    let q = span / m;
    let r = span % m;
    vstd::arithmetic::div_mod::lemma_fundamental_div_mod(span, m);
    vstd::arithmetic::div_mod::lemma_mod_pos_bound(span, m);
    assert(span == m * q + r);
    if r == 0 {
        assert(k <= q - 1);
        vstd::arithmetic::mul::lemma_mul_inequality(k, q - 1, m);
        assert((q - 1) * m == q * m - m) by (nonlinear_arith);
    } else {
        assert(k <= q);
        vstd::arithmetic::mul::lemma_mul_inequality(k, q, m);
    }
    assert(q * m == m * q) by (nonlinear_arith);
    assert(k * m >= 0) by (nonlinear_arith)
        requires
            k >= 0,
            m > 0,
    ;
    if step < 0 {
        assert(k * step == -(k * m)) by (nonlinear_arith)
            requires
                m == -step,
        ;
    }
}

/// Once an item fails to expand, expanding a longer prefix fails the same
/// way.
proof fn lemma_items_error_persists<C: ForConstantSource>(items: Seq<ExprV>, i: int, n: int, vars: Seq<(Seq<char>, i64)>, src: C, budget: nat)
    requires
        0 <= i <= n <= items.len(),
        expand_items_spec(items, i, vars, src, budget) is Err,
    ensures
        expand_items_spec(items, n, vars, src, budget) == expand_items_spec(items, i, vars, src, budget),
    decreases n - i,
{
    if n > i {
        lemma_items_error_persists(items, i, n - 1, vars, src, budget);
    }
}

/// Prepends already expanded iterations to the result for the rest.
pub open spec fn prepend_iterations(prefix: Seq<CoreExprV>, r: Result<(Seq<CoreExprV>, nat), ExpandError>) -> Result<(Seq<CoreExprV>, nat), ExpandError> {
    match r {
        Ok((rest, left)) => Ok((prefix + rest, left)),
        Err(err) => Err(err),
    }
}

impl<'a, C: ForConstantSource> ExpansionContext<'a, C> {
    /// The value of the innermost enclosing `for` variable called `name`.
    fn lookup_var(&self, name: &str) -> (r: Option<i64>)
        ensures
            r == lookup_for_var(self.spec_for_vars(), name@),
    {
        let mut i: usize = self.for_vars.len();
        proof {
            assert(self.spec_for_vars().take(i as int) =~= self.spec_for_vars());
        }
        while i > 0
            invariant
                i <= self.for_vars@.len(),
                lookup_for_var(self.spec_for_vars(), name@) == lookup_for_var(self.spec_for_vars().take(i as int), name@),
            decreases i,
        {
            proof {
                let vars = self.spec_for_vars().take(i as int);
                assert(vars.drop_last() =~= self.spec_for_vars().take(i - 1));
            }
            if str_eq(self.for_vars[i - 1].0.as_str(), name) {
                return Some(self.for_vars[i - 1].1);
            }
            i -= 1;
        }
        None
    }

    fn push_var(&mut self, name: &String, value: i64)
        ensures
            final(self).spec_for_vars() == old(self).spec_for_vars().push((name@, value)),
            final(self).spec_constants() == old(self).spec_constants(),
            final(self).spec_budget() == old(self).spec_budget(),
            final(self).spec_limits() == old(self).spec_limits(),
            final(self).for_vars@.len() == old(self).for_vars@.len() + 1,
    {
        self.for_vars.push((name.clone(), value));
        proof {
            assert(self.spec_for_vars() =~= old(self).spec_for_vars().push((name@, value)));
        }
    }

    fn pop_var(&mut self)
        requires
            old(self).for_vars@.len() > 0,
        ensures
            final(self).spec_for_vars() == old(self).spec_for_vars().drop_last(),
            final(self).spec_constants() == old(self).spec_constants(),
            final(self).spec_budget() == old(self).spec_budget(),
            final(self).spec_limits() == old(self).spec_limits(),
    {
        self.for_vars.pop();
        proof {
            assert(self.spec_for_vars() =~= old(self).spec_for_vars().drop_last());
        }
    }
}

/// Evaluates an expansion-time integer constant.
fn eval_constant_int<C: ForConstantSource>(expr: &Expr, context: &ExpansionContext<C>) -> (r: Result<i64, ExpandError>)
    ensures
        r == constant_int(expr@, context.spec_for_vars(), context.spec_constants()),
    decreases expr,
{
    match &expr.kind {
        ExprKind::Int(n) => Ok(*n),
        ExprKind::Bool(_) => Err(ExpandError::NonConstantForBound),
        ExprKind::String(_) => Err(ExpandError::NonIntegerForBound),
        ExprKind::GeneratedSymbol(_) => Err(ExpandError::NonConstantForBound),
        ExprKind::Symbol(name) => {
            if let Some(value) = context.lookup_var(name.as_str()) {
                return Ok(value);
            }
            match context.constants.integer_constant(name.as_str()) {
                Some(v) => Ok(v),
                None => Err(ExpandError::NonConstantForBound),
            }
        },
        ExprKind::List(items) => {
            proof {
                lemma_exprs_view_all(items@);
                reveal_strlit("+");
                reveal_strlit("-");
                reveal_strlit("*");
                reveal_strlit("/");
                reveal_strlit("%");
                assert("+"@ =~= seq!['+']);
                assert("-"@ =~= seq!['-']);
                assert("*"@ =~= seq!['*']);
                assert("/"@ =~= seq!['/']);
                assert("%"@ =~= seq!['%']);
            }
            if items.len() != 3 {
                return Err(ExpandError::NonConstantForBound);
            }
            let op = match &items[0].kind {
                ExprKind::Symbol(op) => op,
                _ => {
                    return Err(ExpandError::NonConstantForBound);
                },
            };
            let known = str_eq(op.as_str(), "+") || str_eq(op.as_str(), "-") || str_eq(op.as_str(), "*")
                || str_eq(op.as_str(), "/") || str_eq(op.as_str(), "%");
            if !known {
                proof {
                    assert(exprs_view(items@, items@.len() as int)[0] == items@[0]@);
                }
                return Err(ExpandError::NonConstantForBound);
            }
            proof {
                let ev = exprs_view(items@, items@.len() as int);
                assert(ev[0] == items@[0]@);
                assert(ev[0].kind == ExprKindV::Symbol(op@));
                assert(is_constant_operator(op@));
                assert(ev[1] == items@[1]@);
                assert(ev[2] == items@[2]@);
                assert(decreases_to!(*expr => expr.kind));
                assert(decreases_to!(expr.kind => (expr.kind)->List_0));
                assert(decreases_to!(*items => items[1]));
                assert(decreases_to!(*items => items[2]));
            }
            let a = match eval_constant_int(&items[1], context) {
                Ok(a) => a,
                Err(err) => {
                    return Err(err);
                },
            };
            let b = match eval_constant_int(&items[2], context) {
                Ok(b) => b,
                Err(err) => {
                    return Err(err);
                },
            };
            constant_apply_exec(op, a, b)
        },
    }
}

proof fn lemma_single_chars_differ(c: char, d: char)
    requires
        c != d,
    ensures
        seq![c] != seq![d],
{
    assert(seq![c][0] != seq![d][0]);
}

/// The five constant operators are pairwise distinct.
proof fn lemma_operators_differ()
    ensures
        seq!['+'] != seq!['-'], seq!['+'] != seq!['*'], seq!['+'] != seq!['/'], seq!['+'] != seq!['%'],
        seq!['-'] != seq!['*'], seq!['-'] != seq!['/'], seq!['-'] != seq!['%'],
        seq!['*'] != seq!['/'], seq!['*'] != seq!['%'],
        seq!['/'] != seq!['%'],
{
    lemma_single_chars_differ('+', '-');
    lemma_single_chars_differ('+', '*');
    lemma_single_chars_differ('+', '/');
    lemma_single_chars_differ('+', '%');
    lemma_single_chars_differ('-', '*');
    lemma_single_chars_differ('-', '/');
    lemma_single_chars_differ('-', '%');
    lemma_single_chars_differ('*', '/');
    lemma_single_chars_differ('*', '%');
    lemma_single_chars_differ('/', '%');
}

#[verifier::spinoff_prover]
pub(crate) fn constant_apply_exec(op: &String, a: i64, b: i64) -> (r: Result<i64, ExpandError>)
    requires
        is_constant_operator(op@),
    ensures
        r == constant_apply(op@, a, b),
{
    proof {
        reveal_strlit("+");
        reveal_strlit("-");
        reveal_strlit("*");
        reveal_strlit("/");
        assert("+"@ =~= seq!['+']);
        assert("-"@ =~= seq!['-']);
        assert("*"@ =~= seq!['*']);
        assert("/"@ =~= seq!['/']);
        lemma_operators_differ();
    }
    let r = if str_eq(op.as_str(), "+") {
        match a.checked_add(b) {
            Some(v) => Ok(v),
            None => Err(ExpandError::ConstantIntegerOverflow),
        }
    } else if str_eq(op.as_str(), "-") {
        match a.checked_sub(b) {
            Some(v) => Ok(v),
            None => Err(ExpandError::ConstantIntegerOverflow),
        }
    } else if str_eq(op.as_str(), "*") {
        let r = match a.checked_mul(b) {
            Some(v) => Ok(v),
            None => Err(ExpandError::ConstantIntegerOverflow),
        };
        assert(r == constant_apply(op@, a, b));
        r
    } else if str_eq(op.as_str(), "/") {
        if b == 0 {
            return Err(ExpandError::ConstantDivisionByZero);
        }
        proof {
            lemma_trunc_div_range(a as int, b as int);
        }
        let r = match a.checked_div(b) {
            Some(v) => Ok(v),
            None => Err(ExpandError::ConstantIntegerOverflow),
        };
        assert(r == constant_apply(op@, a, b));
        r
    } else {
        if b == 0 {
            return Err(ExpandError::ConstantRemainderByZero);
        }
        let r = match a.checked_rem(b) {
            Some(v) => {
                proof {
                    lemma_trunc_rem_range(a as int, b as int);
                }
                Ok(v)
            },
            None => Err(ExpandError::ConstantIntegerOverflow),
        };
        assert(r == constant_apply(op@, a, b));
        r
    };
    r
}

/// Truncating division of `i64`s overflows only for `MIN / -1`.
pub proof fn lemma_trunc_div_range(a: int, b: int)
    requires
        i64::MIN <= a <= i64::MAX,
        i64::MIN <= b <= i64::MAX,
        b != 0,
    ensures
        (i64::MIN <= trunc_div(a, b) <= i64::MAX) <==> !(a == i64::MIN && b == -1),
{
    let n: int = if a < 0 { -a } else { a };
    let d: int = if b < 0 { -b } else { b };
    assert(0 <= n / d <= n) by (nonlinear_arith)
        requires
            n >= 0,
            d >= 1,
    ;
    if d == 1 {
        assert(n / d == n) by (nonlinear_arith)
            requires
                d == 1,
        ;
    } else {
        assert(n / d <= n / 2) by (nonlinear_arith)
            requires
                n >= 0,
                d >= 2,
        ;
    }
}

/// The truncating remainder of `i64`s always fits.
pub proof fn lemma_trunc_rem_range(a: int, b: int)
    requires
        i64::MIN <= a <= i64::MAX,
        i64::MIN <= b <= i64::MAX,
        b != 0,
    ensures
        i64::MIN <= trunc_rem(a, b) <= i64::MAX,
{
    let n: int = if a < 0 { -a } else { a };
    let d: int = if b < 0 { -b } else { b };
    vstd::arithmetic::div_mod::lemma_mod_pos_bound(n, d);
}

proof fn lemma_div_ceil_fits(span: u64, m: u64)
    requires
        m >= 1,
    ensures
        span / m + (if span % m == 0 { 0int } else { 1int }) <= u64::MAX,
{
    if m == 1 {
        assert(span % m == 0) by (nonlinear_arith)
            requires
                m == 1,
        ;
        assert(span / m == span) by (nonlinear_arith)
            requires
                m == 1,
        ;
    } else {
        assert(span / m <= span / 2) by (nonlinear_arith)
            requires
                m >= 2,
        ;
    }
}

/// Iteration count of `[start, end)` by `step`, in `u64` so it cannot
/// overflow even at the `i64` extremes.
fn compute_iterations(start: i64, end: i64, step: i64) -> (r: u64)
    requires
        step != 0,
    ensures
        r == iteration_count(start as int, end as int, step as int),
{
    if step > 0 {
        if start >= end {
            return 0;
        }
        let span: u64 = (end as i128 - start as i128) as u64;
        let m: u64 = step as u64;
        proof {
            lemma_div_ceil_fits(span, m);
        }
        span / m + if span % m == 0 { 0 } else { 1 }
    } else {
        if start <= end {
            return 0;
        }
        let span: u64 = (start as i128 - end as i128) as u64;
        let m: u64 = (-(step as i128)) as u64;
        proof {
            lemma_div_ceil_fits(span, m);
        }
        span / m + if span % m == 0 { 0 } else { 1 }
    }
}

/// Reads the header of a `for` form.
fn for_header<C: ForConstantSource>(items: &Vec<Expr>, context: &ExpansionContext<C>) -> (r: Result<(String, i64, i64, i64), ExpandError>)
    ensures
        match for_header_spec(exprs_view(items@, items@.len() as int), context.spec_for_vars(), context.spec_constants()) {
            Ok((name, start, end, step)) => r matches Ok(x) && x.0@ == name && x.1 == start && x.2 == end && x.3 == step,
            Err(err) => r == Err::<(String, i64, i64, i64), ExpandError>(err),
        },
{
    proof {
        lemma_exprs_view_all(items@);
    }
    if items.len() != 3 {
        return Err(ExpandError::InvalidForSyntax);
    }
    let binding = match &items[1].kind {
        ExprKind::List(binding) => binding,
        _ => {
            return Err(ExpandError::InvalidForBinding);
        },
    };
    proof {
        lemma_exprs_view_all(binding@);
    }
    if binding.len() != 3 && binding.len() != 4 {
        return Err(ExpandError::InvalidForBinding);
    }
    let name = match &binding[0].kind {
        ExprKind::Symbol(name) => name,
        _ => {
            return Err(ExpandError::InvalidForBinding);
        },
    };
    let start = match eval_constant_int(&binding[1], context) {
        Ok(v) => v,
        Err(err) => {
            return Err(err);
        },
    };
    let end = match eval_constant_int(&binding[2], context) {
        Ok(v) => v,
        Err(err) => {
            return Err(err);
        },
    };
    let step = if binding.len() == 4 {
        match eval_constant_int(&binding[3], context) {
            Ok(v) => v,
            Err(err) => {
                return Err(err);
            },
        }
    } else {
        1
    };
    if step == 0 {
        return Err(ExpandError::ZeroForStep);
    }
    Ok((name.clone(), start, end, step))
}

/// Builds `(let ((name value)) body)`.
fn let_wrap(name: &String, value: i64, body: CoreExpr) -> (r: CoreExpr)
    ensures
        r@ == let_wrapped(name@, value, body@),
{
    let pair = vec![CoreExpr::Symbol(name.clone()), CoreExpr::Int(value)];
    let ghost pair_view = cores_view(pair@, pair@.len() as int);
    proof {
        lemma_cores_view_all(pair@);
        assert(pair_view =~= seq![CoreExprV::Symbol(name@), CoreExprV::Int(value)]);
    }
    let bindings = vec![CoreExpr::List(pair)];
    proof {
        lemma_cores_view_all(bindings@);
        assert(cores_view(bindings@, 1) =~= seq![CoreExprV::List(seq![CoreExprV::Symbol(name@), CoreExprV::Int(value)])]);
        reveal_strlit("let");
        assert("let"@ =~= sym_let());
    }
    let ghost body_view = body@;
    let form = vec![CoreExpr::Symbol("let".to_owned()), CoreExpr::List(bindings), body];
    proof {
        lemma_cores_view_all(form@);
        assert(cores_view(form@, 3) =~= let_wrapped(name@, value, body_view)->List_0);
    }
    CoreExpr::List(form)
}

proof fn lemma_meta_keys_error_persists(entries: Seq<ExprV>, i: int, n: int)
    requires
        0 <= i <= n <= entries.len(),
        meta_keys_spec(entries, i) is Err,
    ensures
        meta_keys_spec(entries, n) == meta_keys_spec(entries, i),
    decreases n - i,
{
    if n > i {
        lemma_meta_keys_error_persists(entries, i, n - 1);
    }
}

proof fn lemma_meta_error(iv: Seq<ExprV>, ev: Seq<ExprV>, i: int)
    requires
        iv.len() == 3,
        iv[1].kind == ExprKindV::List(ev),
        0 <= i < ev.len(),
        meta_keys_spec(ev, i + 1) is Err,
    ensures
        meta_check_spec(iv) == Err::<(), ExpandError>(meta_keys_spec(ev, i + 1)->Err_0),
{
    lemma_meta_keys_error_persists(ev, i + 1, ev.len() as int);
}

fn key_taken(keys: &Vec<String>, key: &String) -> (r: bool)
    ensures
        r == keys@.map_values(|k: String| k@).contains(key@),
{
    let mut i: usize = 0;
    while i < keys.len()
        invariant
            i <= keys@.len(),
            forall|j: int| 0 <= j < i ==> (#[trigger] keys@[j])@ != key@,
        decreases keys@.len() - i,
    {
        if str_eq(keys[i].as_str(), key.as_str()) {
            proof {
                assert(keys@.map_values(|k: String| k@)[i as int] == key@);
            }
            return true;
        }
        i += 1;
    }
    proof {
        let kv = keys@.map_values(|k: String| k@);
        if kv.contains(key@) {
            let j = choose|j: int| 0 <= j < kv.len() && #[trigger] kv[j] == key@;
            assert(keys@[j]@ == key@);
        }
    }
    false
}

/// Checks the shape of a `meta` form (see [`meta_check_spec`]).
fn check_meta(items: &Vec<Expr>) -> (r: Result<(), ExpandError>)
    ensures
        match meta_check_spec(exprs_view(items@, items@.len() as int)) {
            Ok(_) => r is Ok,
            Err(err) => r matches Err(x) && expand_error_matches(x, err),
        },
{
    proof {
        lemma_exprs_view_all(items@);
    }
    if items.len() != 3 {
        return Err(ExpandError::InvalidMetaSyntax);
    }
    let entries = match &items[1].kind {
        ExprKind::List(e) => e,
        _ => {
            return Err(ExpandError::MetaPropertiesNotList);
        },
    };
    let ghost ev = exprs_view(entries@, entries@.len() as int);
    proof {
        lemma_exprs_view_all(entries@);
        assert(exprs_view(items@, items@.len() as int)[1].kind == ExprKindV::List(ev));
    }
    let mut keys: Vec<String> = Vec::new();
    proof {
        assert(keys@.map_values(|k: String| k@) =~= Seq::<Seq<char>>::empty());
    }
    let mut i: usize = 0;
    while i < entries.len()
        invariant
            i <= entries@.len(),
            ev == exprs_view(entries@, entries@.len() as int),
            ev.len() == entries@.len(),
            forall|k: int| 0 <= k < entries@.len() ==> #[trigger] ev[k] == entries@[k]@,
            meta_keys_spec(ev, i as int) == Ok::<Seq<Seq<char>>, ExpandError>(keys@.map_values(|k: String| k@)),
            exprs_view(items@, items@.len() as int)[1].kind == ExprKindV::List(ev),
            exprs_view(items@, items@.len() as int).len() == 3,
            items@.len() == 3,
        decreases entries@.len() - i,
    {
        let ghost item = ev[i as int];
        let pair = match &entries[i].kind {
            ExprKind::List(p) => p,
            _ => {
                proof {
                    assert(meta_keys_spec(ev, i + 1) == Err::<Seq<Seq<char>>, ExpandError>(ExpandError::InvalidMetaProperty));
                    lemma_meta_error(exprs_view(items@, items@.len() as int), ev, i as int);
                }
                return Err(ExpandError::InvalidMetaProperty);
            },
        };
        proof {
            lemma_exprs_view_all(pair@);
        }
        if pair.len() != 2 {
            proof {
                assert(meta_keys_spec(ev, i + 1) == Err::<Seq<Seq<char>>, ExpandError>(ExpandError::InvalidMetaProperty));
                lemma_meta_error(exprs_view(items@, items@.len() as int), ev, i as int);
            }
            return Err(ExpandError::InvalidMetaProperty);
        }
        let key = match &pair[0].kind {
            ExprKind::Symbol(k) => k,
            _ => {
                proof {
                    assert(meta_keys_spec(ev, i + 1) == Err::<Seq<Seq<char>>, ExpandError>(ExpandError::InvalidMetaPropertyKey));
                    lemma_meta_error(exprs_view(items@, items@.len() as int), ev, i as int);
                }
                return Err(ExpandError::InvalidMetaPropertyKey);
            },
        };
        if key_taken(&keys, key) {
            let named = key.clone();
            proof {
                assert(named@ == key@);
                assert(exists|t: String| #[trigger] t@ == key@);
                assert(key_string(key@)@ == key@);
                assert(meta_keys_spec(ev, i + 1) == Err::<Seq<Seq<char>>, ExpandError>(ExpandError::DuplicatePropertyKey(key_string(key@))));
                lemma_meta_error(exprs_view(items@, items@.len() as int), ev, i as int);
            }
            return Err(ExpandError::DuplicatePropertyKey(named));
        }
        let ghost before = keys@;
        keys.push(key.clone());
        proof {
            assert(keys@.map_values(|k: String| k@) =~= before.map_values(|k: String| k@).push(key@));
        }
        i += 1;
    }
    Ok(())
}

/// Unrolls a `for` form (see [`expand_for_spec`]).
#[verifier::spinoff_prover]
#[verifier::rlimit(100)]
fn expand_for<C: ForConstantSource>(expr: &Expr, items: &Vec<Expr>, context: &mut ExpansionContext<C>) -> (r: Result<CoreExpr, ExpandError>)
    requires
        expr.kind == ExprKind::List(*items),
        items@.len() > 0,
        items@[0]@.kind == ExprKindV::Symbol(sym_for()),
    ensures
        final(context).spec_for_vars() == old(context).spec_for_vars(),
        final(context).spec_constants() == old(context).spec_constants(),
        final(context).spec_limits() == old(context).spec_limits(),
        match expand_for_spec(exprs_view(items@, items@.len() as int), old(context).spec_for_vars(), old(context).spec_constants(), old(context).spec_budget()) {
            Ok((c, left)) => r matches Ok(x) && x@ == c && final(context).spec_budget() == left,
            Err(err) => r matches Err(x) && expand_error_matches(x, err),
        },
    decreases expr, 0int,
{
    let ghost iv = exprs_view(items@, items@.len() as int);
    let ghost vars = context.spec_for_vars();
    let ghost src = context.spec_constants();
    let ghost b0 = context.spec_budget();
    proof {
        lemma_exprs_view_all(items@);
    }
        let (name, start, end, step) = match for_header(items, context) {
            Ok(h) => h,
            Err(err) => {
                return Err(err);
            },
        };
        let count = compute_iterations(start, end, step);
        if count > context.budget as u64 {
            return Err(ExpandError::ForExpansionLimitExceeded);
        }
        context.budget = context.budget - count as usize;
        let mut out: Vec<CoreExpr> = Vec::new();
        let mut current: i64 = start;
        let mut k: u64 = 0;
        while k < count
            invariant
                expr.kind == ExprKind::List(*items),
                items@.len() == 3,
                iv == exprs_view(items@, items@.len() as int),
                iv[2] == items@[2]@,
                iv.len() > 0 && iv[0].kind == ExprKindV::Symbol(sym_for()),
                for_header_spec(iv, vars, src) == Ok::<(Seq<char>, i64, i64, i64), ExpandError>((name@, start, end, step)),
                count <= b0,
                step != 0,
                count == iteration_count(start as int, end as int, step as int),
                k <= count,
                k < count ==> current as int == start + k * step,
                context.spec_for_vars() == vars,
                context.spec_constants() == src,
                vars == old(context).spec_for_vars(),
                src == old(context).spec_constants(),
                b0 == old(context).spec_budget(),
                context.spec_limits() == old(context).spec_limits(),
                iterations_spec(iv[2], name@, start as int, step as int, count as int, vars, src, (b0 - count) as nat)
                    == prepend_iterations(cores_view(out@, out@.len() as int), iterations_spec(iv[2], name@, start + k * step, step as int, count - k, vars, src, context.spec_budget())),
            decreases count - k,
        {
            proof {
                assert(decreases_to!(*expr => expr.kind));
                assert(decreases_to!(expr.kind => (expr.kind)->List_0));
                assert(decreases_to!(*items => items[2]));
                lemma_iteration_in_range(start as int, end as int, step as int, k as int);
            }
            let ghost before = context.spec_budget();
            let ghost cur: int = start + k * step;
            context.push_var(&name, current);
            let result = expand(&items[2], context);
            proof {
                assert(context.spec_for_vars() == vars.push((name@, current)));
                assert(context.for_vars@.len() == context.spec_for_vars().len());
            }
            context.pop_var();
            proof {
                assert(vars.push((name@, current)).drop_last() =~= vars);
            }
            let c = match result {
                Ok(c) => c,
                Err(err) => {
                    proof {
                        assert(cur as i64 == current);
                        assert(iterations_spec(iv[2], name@, cur, step as int, count - k, vars, src, before)
                            == Err::<(Seq<CoreExprV>, nat), ExpandError>(expand_spec(iv[2], vars.push((name@, current)), src, before)->Err_0));
                    }
                    return Err(err);
                },
            };
            let ghost out_before = cores_view(out@, out@.len() as int);
            let ghost seq_before = out@;
            let w = let_wrap(&name, current, c);
            let ghost wv = w@;
            out.push(w);
            proof {
                lemma_cores_view_all(out@);
                lemma_cores_view_all(seq_before);
                assert(cores_view(out@, out@.len() as int) =~= out_before.push(wv));
                assert(cur + step == start + (k + 1) * step) by (nonlinear_arith)
                    requires
                        cur == start + k * step,
                ;
                let rest = iterations_spec(iv[2], name@, cur + step, step as int, count - k - 1, vars, src, context.spec_budget());
                match rest {
                    Ok((tail, l)) => {
                        assert(out_before + (seq![wv] + tail) =~= out_before.push(wv) + tail);
                    },
                    Err(_) => {},
                }
            }
            if k + 1 < count {
                proof {
                    lemma_iteration_in_range(start as int, end as int, step as int, k + 1);
                    assert(start + (k + 1) * step == cur + step) by (nonlinear_arith)
                        requires
                            cur == start + k * step,
                    ;
                }
                current = current + step;
            }
            k += 1;
        }
        Ok(CoreExpr::Sequence(out))
}

/// Expands a single reader expression into a core expression: `for` forms
/// are unrolled, a `meta` form is checked and replaced by the expression it
/// annotates, everything else is copied structurally without its
/// properties. The iteration budget of `context` is drawn down by every
/// `for`, nested ones included.
#[verifier::spinoff_prover]
#[verifier::rlimit(100)]
pub fn expand<C: ForConstantSource>(expr: &Expr, context: &mut ExpansionContext<C>) -> (r: Result<CoreExpr, ExpandError>)
    ensures
        final(context).spec_for_vars() == old(context).spec_for_vars(),
        final(context).spec_constants() == old(context).spec_constants(),
        final(context).spec_limits() == old(context).spec_limits(),
        match expand_spec(expr@, old(context).spec_for_vars(), old(context).spec_constants(), old(context).spec_budget()) {
            Ok((c, left)) => r matches Ok(x) && x@ == c && final(context).spec_budget() == left,
            Err(err) => r matches Err(x) && expand_error_matches(x, err),
        },
    decreases expr, 1int,
{
    match &expr.kind {
        ExprKind::Int(n) => Ok(CoreExpr::Int(*n)),
        ExprKind::Bool(b) => Ok(CoreExpr::Bool(*b)),
        ExprKind::String(s) => Ok(CoreExpr::String(s.clone())),
        ExprKind::Symbol(s) => Ok(CoreExpr::Symbol(s.clone())),
        ExprKind::GeneratedSymbol(s) => Ok(CoreExpr::Symbol(crate::datum::symbol_name(s))),
        ExprKind::List(items) => {
            let ghost iv = exprs_view(items@, items@.len() as int);
            let ghost vars = context.spec_for_vars();
            let ghost src = context.spec_constants();
            let ghost b0 = context.spec_budget();
            proof {
                lemma_exprs_view_all(items@);
                reveal_strlit("for");
                assert("for"@ =~= sym_for());
            }
            let is_for = items.len() > 0 && match &items[0].kind {
                ExprKind::Symbol(name) => str_eq(name.as_str(), "for"),
                _ => false,
            };
            proof {
                reveal_strlit("meta");
                assert("meta"@ =~= sym_meta());
            }
            let is_meta = items.len() > 0 && match &items[0].kind {
                ExprKind::Symbol(name) => str_eq(name.as_str(), "meta"),
                _ => false,
            };
            if is_meta {
                match check_meta(items) {
                    Ok(()) => {},
                    Err(err) => {
                        return Err(err);
                    },
                }
                proof {
                    assert(decreases_to!(*expr => expr.kind));
                    assert(decreases_to!(expr.kind => (expr.kind)->List_0));
                    assert(decreases_to!(*items => items[2]));
                }
                return expand(&items[2], context);
            }
            if is_for {
                return expand_for(expr, items, context);
            } else {
                let mut out: Vec<CoreExpr> = Vec::new();
                let mut i: usize = 0;
                while i < items.len()
                    invariant
                        expr.kind == ExprKind::List(*items),
                        iv == exprs_view(items@, items@.len() as int),
                        iv.len() == items@.len(),
                        forall|k: int| 0 <= k < items@.len() ==> #[trigger] iv[k] == items@[k]@,
                        !(iv.len() > 0 && iv[0].kind == ExprKindV::Symbol(sym_for())),
                        !(iv.len() > 0 && iv[0].kind == ExprKindV::Symbol(sym_meta())),
                        vars == old(context).spec_for_vars(),
                        src == old(context).spec_constants(),
                        b0 == old(context).spec_budget(),
                        i <= items@.len(),
                        context.spec_for_vars() == vars,
                        context.spec_constants() == src,
                        vars == old(context).spec_for_vars(),
                        src == old(context).spec_constants(),
                        b0 == old(context).spec_budget(),
                        context.spec_limits() == old(context).spec_limits(),
                        expand_items_spec(iv, i as int, vars, src, b0) == Ok::<(Seq<CoreExprV>, nat), ExpandError>((cores_view(out@, out@.len() as int), context.spec_budget())),
                    decreases items@.len() - i,
                {
                    proof {
                        assert(decreases_to!(*expr => expr.kind));
                        assert(decreases_to!(expr.kind => (expr.kind)->List_0));
                        assert(decreases_to!(*items => items[i as int]));
                    }
                    let c = match expand(&items[i], context) {
                        Ok(c) => c,
                        Err(err) => {
                            proof {
                                lemma_items_error_persists(iv, i + 1, iv.len() as int, vars, src, b0);
                            }
                            return Err(err);
                        },
                    };
                    let ghost out_before = cores_view(out@, out@.len() as int);
                    let ghost seq_before = out@;
                    let ghost cv = c@;
                    out.push(c);
                    proof {
                        lemma_cores_view_all(out@);
                        lemma_cores_view_all(seq_before);
                        assert(cores_view(out@, out@.len() as int) =~= out_before.push(cv));
                    }
                    i += 1;
                }
                proof {
                    assert(!is_for);
                }
                Ok(CoreExpr::List(out))
            }
        },
    }
}


/// Whether some list in `e` is a `for` or a `meta` form.
pub open spec fn mentions_for_or_meta(e: ExprV) -> bool
    decreases e,
{
    match e.kind {
        ExprKindV::List(items) => (items.len() > 0 && (items[0].kind == ExprKindV::Symbol(sym_for())
            || items[0].kind == ExprKindV::Symbol(sym_meta())))
            || exists|k: int| 0 <= k < items.len() && mentions_for_or_meta(#[trigger] items[k]),
        _ => false,
    }
}

/// The core form with the same shape as `e`, without its properties.
pub open spec fn plain_core(e: ExprV) -> CoreExprV
    decreases e, 1int,
{
    match e.kind {
        ExprKindV::Int(n) => CoreExprV::Int(n),
        ExprKindV::Bool(b) => CoreExprV::Bool(b),
        ExprKindV::String(s) => CoreExprV::String(s),
        ExprKindV::Symbol(s) => CoreExprV::Symbol(s),
        ExprKindV::GeneratedSymbol(s) => CoreExprV::Symbol(crate::datum::symbol_expr_text(s)),
        ExprKindV::List(items) => CoreExprV::List(plain_cores(items, items.len() as int)),
    }
}

pub open spec fn plain_cores(items: Seq<ExprV>, n: int) -> Seq<CoreExprV>
    decreases items, 0int, n,
{
    if n <= 0 || n > items.len() {
        Seq::empty()
    } else {
        plain_cores(items, n - 1).push(plain_core(items[n - 1]))
    }
}

/// Expanding a form that holds no `for` and no `meta` copies its shape (dropping
/// properties) and leaves the iteration budget untouched, whatever the
/// enclosing `for` variables and the known constants.
pub proof fn law_expansion_without_for_is_structural<C: ForConstantSource>(e: ExprV, vars: Seq<(Seq<char>, i64)>, src: C, budget: nat)
    requires
        !mentions_for_or_meta(e),
    ensures
        expand_spec(e, vars, src, budget) == Ok::<(CoreExprV, nat), ExpandError>((plain_core(e), budget)),
    decreases e, 1int,
{
    match e.kind {
        ExprKindV::List(items) => {
            assert forall|k: int| 0 <= k < items.len() implies !mentions_for_or_meta(#[trigger] items[k]) by {
                if mentions_for_or_meta(items[k]) {
                    assert(exists|j: int| 0 <= j < items.len() && mentions_for_or_meta(#[trigger] items[j]));
                }
            }
            lemma_items_without_for(items, items.len() as int, vars, src, budget);
        },
        _ => {},
    }
}

proof fn lemma_items_without_for<C: ForConstantSource>(items: Seq<ExprV>, n: int, vars: Seq<(Seq<char>, i64)>, src: C, budget: nat)
    requires
        forall|k: int| 0 <= k < items.len() ==> !mentions_for_or_meta(#[trigger] items[k]),
        n <= items.len(),
    ensures
        expand_items_spec(items, n, vars, src, budget) == Ok::<(Seq<CoreExprV>, nat), ExpandError>((plain_cores(items, n), budget)),
    decreases items, 0int, n,
{
    if n > 0 {
        lemma_items_without_for(items, n - 1, vars, src, budget);
        law_expansion_without_for_is_structural(items[n - 1], vars, src, budget);
    }
}


/// Whether `a` and `b` are the same syntax once every property is ignored.
pub open spec fn same_but_properties(a: ExprV, b: ExprV) -> bool
    decreases a,
{
    match a.kind {
        ExprKindV::List(xs) => {
            &&& b.kind is List
            &&& xs.len() == b.kind->List_0.len()
            &&& forall|k: int| 0 <= k < xs.len() ==> same_but_properties(#[trigger] xs[k], b.kind->List_0[k])
        },
        _ => a.kind == b.kind,
    }
}

/// Whether two lists of syntax agree item by item once properties are ignored.
pub open spec fn same_items_but_properties(xs: Seq<ExprV>, ys: Seq<ExprV>) -> bool {
    &&& xs.len() == ys.len()
    &&& forall|k: int| 0 <= k < xs.len() ==> same_but_properties(#[trigger] xs[k], ys[k])
}

proof fn lemma_constant_int_ignores_properties<C: ForConstantSource>(a: ExprV, b: ExprV, vars: Seq<(Seq<char>, i64)>, src: C)
    requires
        same_but_properties(a, b),
    ensures
        constant_int(a, vars, src) == constant_int(b, vars, src),
    decreases a,
{
    if let ExprKindV::List(xs) = a.kind {
        let ys = b.kind->List_0;
        if xs.len() == 3 {
            assert(same_but_properties(xs[0], ys[0]));
            assert(same_but_properties(xs[1], ys[1]));
            assert(same_but_properties(xs[2], ys[2]));
            assert(xs[0].kind is Symbol <==> ys[0].kind is Symbol);
            lemma_constant_int_ignores_properties(xs[1], ys[1], vars, src);
            lemma_constant_int_ignores_properties(xs[2], ys[2], vars, src);
        }
    }
}

proof fn lemma_for_header_ignores_properties<C: ForConstantSource>(xs: Seq<ExprV>, ys: Seq<ExprV>, vars: Seq<(Seq<char>, i64)>, src: C)
    requires
        same_items_but_properties(xs, ys),
    ensures
        for_header_spec(xs, vars, src) == for_header_spec(ys, vars, src),
{
    if xs.len() == 3 {
        assert(same_but_properties(xs[1], ys[1]));
        if xs[1].kind is List {
            let bx = xs[1].kind->List_0;
            let by = ys[1].kind->List_0;
            if bx.len() == 3 || bx.len() == 4 {
                assert(same_but_properties(bx[0], by[0]));
                assert(same_but_properties(bx[1], by[1]));
                assert(same_but_properties(bx[2], by[2]));
                lemma_constant_int_ignores_properties(bx[1], by[1], vars, src);
                lemma_constant_int_ignores_properties(bx[2], by[2], vars, src);
                if bx.len() == 4 {
                    assert(same_but_properties(bx[3], by[3]));
                    lemma_constant_int_ignores_properties(bx[3], by[3], vars, src);
                }
            }
        }
    }
}

/// Properties never change what a form expands to: two forms that differ
/// only in their properties expand to the same core form, fail with the
/// same error, and use the same number of iterations. Since every later
/// stage works on the core form alone, properties affect neither the IR
/// nor evaluation.
pub proof fn law_expansion_ignores_properties<C: ForConstantSource>(a: ExprV, b: ExprV, vars: Seq<(Seq<char>, i64)>, src: C, budget: nat)
    requires
        same_but_properties(a, b),
    ensures
        expand_spec(a, vars, src, budget) == expand_spec(b, vars, src, budget),
    decreases a, 0int,
{
    if let ExprKindV::List(xs) = a.kind {
        let ys = b.kind->List_0;
        if xs.len() > 0 {
            assert(same_but_properties(xs[0], ys[0]));
            assert((xs[0].kind == ExprKindV::Symbol(sym_for())) <==> (ys[0].kind == ExprKindV::Symbol(sym_for())));
        }
        if xs.len() > 0 {
            assert((xs[0].kind == ExprKindV::Symbol(sym_meta())) <==> (ys[0].kind == ExprKindV::Symbol(sym_meta())));
        }
        if xs.len() > 0 && xs[0].kind == ExprKindV::Symbol(sym_for()) {
            lemma_for_ignores_properties(xs, ys, vars, src, budget);
        } else if xs.len() > 0 && xs[0].kind == ExprKindV::Symbol(sym_meta()) {
            lemma_meta_check_ignores_properties(xs, ys);
            if xs.len() == 3 {
                assert(same_but_properties(xs[2], ys[2]));
                law_expansion_ignores_properties(xs[2], ys[2], vars, src, budget);
            }
        } else {
            lemma_items_ignore_properties(xs, ys, xs.len() as int, vars, src, budget);
        }
    }
}

proof fn lemma_meta_keys_ignore_properties(es: Seq<ExprV>, fs: Seq<ExprV>, n: int)
    requires
        same_items_but_properties(es, fs),
    ensures
        meta_keys_spec(es, n) == meta_keys_spec(fs, n),
    decreases n,
{
    if n > 0 && n <= es.len() {
        lemma_meta_keys_ignore_properties(es, fs, n - 1);
        let e = es[n - 1];
        let f = fs[n - 1];
        assert(same_but_properties(e, f));
        if e.kind is List && e.kind->List_0.len() == 2 {
            assert(same_but_properties(e.kind->List_0[0], f.kind->List_0[0]));
        }
    }
}

proof fn lemma_meta_check_ignores_properties(xs: Seq<ExprV>, ys: Seq<ExprV>)
    requires
        same_items_but_properties(xs, ys),
    ensures
        meta_check_spec(xs) == meta_check_spec(ys),
{
    if xs.len() == 3 {
        assert(same_but_properties(xs[1], ys[1]));
        if xs[1].kind is List {
            lemma_meta_keys_ignore_properties(xs[1].kind->List_0, ys[1].kind->List_0, xs[1].kind->List_0.len() as int);
        }
    }
}

proof fn lemma_items_ignore_properties<C: ForConstantSource>(xs: Seq<ExprV>, ys: Seq<ExprV>, n: int, vars: Seq<(Seq<char>, i64)>, src: C, budget: nat)
    requires
        same_items_but_properties(xs, ys),
    ensures
        expand_items_spec(xs, n, vars, src, budget) == expand_items_spec(ys, n, vars, src, budget),
    decreases xs, n,
{
    if n > 0 && n <= xs.len() {
        lemma_items_ignore_properties(xs, ys, n - 1, vars, src, budget);
        assert(same_but_properties(xs[n - 1], ys[n - 1]));
        match expand_items_spec(xs, n - 1, vars, src, budget) {
            Ok((_, left)) => {
                law_expansion_ignores_properties(xs[n - 1], ys[n - 1], vars, src, left);
            },
            Err(_) => {},
        }
    }
}

proof fn lemma_for_ignores_properties<C: ForConstantSource>(xs: Seq<ExprV>, ys: Seq<ExprV>, vars: Seq<(Seq<char>, i64)>, src: C, budget: nat)
    requires
        same_items_but_properties(xs, ys),
    ensures
        expand_for_spec(xs, vars, src, budget) == expand_for_spec(ys, vars, src, budget),
    decreases xs, 0int,
{
    lemma_for_header_ignores_properties(xs, ys, vars, src);
    match for_header_spec(xs, vars, src) {
        Ok((name, start, end, step)) => {
            let count = iteration_count(start as int, end as int, step as int);
            if count <= budget && xs.len() == 3 {
                assert(same_but_properties(xs[2], ys[2]));
                lemma_iterations_ignore_properties(xs[2], ys[2], name, start as int, step as int, count, vars, src, (budget - count) as nat);
            }
        },
        Err(_) => {},
    }
}

proof fn lemma_iterations_ignore_properties<C: ForConstantSource>(
    a: ExprV,
    b: ExprV,
    name: Seq<char>,
    current: int,
    step: int,
    count: int,
    vars: Seq<(Seq<char>, i64)>,
    src: C,
    budget: nat,
)
    requires
        same_but_properties(a, b),
    ensures
        iterations_spec(a, name, current, step, count, vars, src, budget) == iterations_spec(b, name, current, step, count, vars, src, budget),
    decreases a, count,
{
    if count > 0 {
        law_expansion_ignores_properties(a, b, vars.push((name, current as i64)), src, budget);
        match expand_spec(a, vars.push((name, current as i64)), src, budget) {
            Ok((_, left)) => {
                lemma_iterations_ignore_properties(a, b, name, current + step, step, count - 1, vars, src, left);
            },
            Err(_) => {},
        }
    }
}

} // verus!
