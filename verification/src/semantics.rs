//! The meaning of IR: what evaluating an expression gives, and how it
//! changes the evaluation state, written as spec functions over value
//! views. The interpreter in `ir_eval` is proved to compute exactly this.
use vstd::prelude::*;
use crate::builtin::{builtin_value, print_spec, EvalFailure};
use crate::datum::DatumV;
use crate::ids::{GlobalId, LocalSlot, LoopId};
use crate::ir::{IrBody, IrCaptureSource, IrConst, IrExpr, IrExprKind, IrLetBinding, IrModule, IrQuasiDatum, IrStateBinding, IrStateUpdate};
use crate::symbol::{GensymId, SymbolV};
use crate::value::{kind_name_v, value_text_v, Builtin, ValueV};

verus! {

broadcast use vstd::std_specs::vec::group_vec_axioms;

/// 2^64: more than any loop's remaining iteration count.
pub open spec fn iteration_bound() -> int {
    0x1_0000_0000_0000_0000
}

/// What evaluation reads and never changes: the values the current closure
/// captured, the global values, and how many iterations one loop may run.
pub struct EvalEnv {
    pub captures: Seq<ValueV>,
    pub globals: Seq<Option<ValueV>>,
    pub max_iterations: u64,
}

/// What evaluation changes: the local slots of the current frame, the text
/// printed so far and the next generated-symbol id.
pub struct EvalState {
    pub locals: Seq<Option<ValueV>>,
    pub output: Seq<char>,
    pub gensym: u64,
}

/// How an evaluation ends: with a result, with a `break` still travelling
/// to the loop it targets, or with a failure.
pub enum Outcome<T> {
    Done(T),
    Broke(LoopId, ValueV),
    Failed(EvalFailure),
}

/// The value a constant denotes.
pub open spec fn const_view(c: IrConst) -> ValueV {
    match c {
        IrConst::Int(n) => ValueV::Int(n),
        IrConst::Bool(b) => ValueV::Bool(b),
        IrConst::String(s) => ValueV::String(s@),
        IrConst::Unit => ValueV::Unit,
    }
}

/// `v` stored in local slot `slot`; `None` if the frame has no such slot.
pub open spec fn store_spec(locals: Seq<Option<ValueV>>, slot: LocalSlot, v: ValueV) -> Option<Seq<Option<ValueV>>> {
    if (slot.0 as int) < locals.len() {
        Some(locals.update(slot.0 as int, Some(v)))
    } else {
        None
    }
}

pub open spec fn with_locals(st: EvalState, locals: Seq<Option<ValueV>>) -> EvalState {
    EvalState { locals, output: st.output, gensym: st.gensym }
}

/// A fresh generated symbol with the given hint: the next id is used up,
/// and fails once every id has been.
pub open spec fn gensym_spec(hint: Option<Seq<char>>, st: EvalState) -> (Outcome<ValueV>, EvalState) {
    if st.gensym == u64::MAX {
        (Outcome::Failed(EvalFailure::GensymIdOverflow), st)
    } else {
        (
            Outcome::Done(ValueV::Datum(DatumV::Symbol(SymbolV::Generated { id: GensymId(st.gensym), hint }))),
            EvalState { locals: st.locals, output: st.output, gensym: (st.gensym + 1) as u64 },
        )
    }
}

/// The value of global `id`; undefined globals fail.
pub open spec fn load_global_spec(globals: Seq<Option<ValueV>>, id: GlobalId) -> Outcome<ValueV> {
    if (id.0 as int) < globals.len() && globals[id.0 as int] is Some {
        Outcome::Done(globals[id.0 as int]->Some_0)
    } else {
        Outcome::Failed(EvalFailure::UndefinedGlobal(id.0))
    }
}

/// The datum an unquoted value stands for inside a quasiquote.
pub open spec fn value_to_datum_spec(v: ValueV) -> Outcome<DatumV> {
    match v {
        ValueV::Int(n) => Outcome::Done(DatumV::Integer(n)),
        ValueV::Bool(b) => Outcome::Done(DatumV::Bool(b)),
        ValueV::Datum(d) => Outcome::Done(d),
        _ => Outcome::Failed(EvalFailure::CannotConvertToDatum(kind_name_v(v))),
    }
}

/// The values a closure captures, read from the enclosing frame for the
/// sources `sources[i..]`, after `acc`; `None` if a source is missing.
pub open spec fn capture_values_spec(sources: Seq<IrCaptureSource>, i: int, locals: Seq<Option<ValueV>>, captures: Seq<ValueV>, acc: Seq<ValueV>) -> Option<Seq<ValueV>>
    decreases sources.len() - i,
{
    if i < 0 || i >= sources.len() {
        Some(acc)
    } else {
        match sources[i] {
            IrCaptureSource::Local(slot) => if (slot.0 as int) < locals.len() && locals[slot.0 as int] is Some {
                capture_values_spec(sources, i + 1, locals, captures, acc.push(locals[slot.0 as int]->Some_0))
            } else {
                None
            },
            IrCaptureSource::Capture(slot) => if (slot.0 as int) < captures.len() {
                capture_values_spec(sources, i + 1, locals, captures, acc.push(captures[slot.0 as int]))
            } else {
                None
            },
        }
    }
}

/// A `break` that reached loop `loop_id`: the loop's value if it targets
/// that loop, otherwise it travels on.
pub open spec fn finish_break_spec(loop_id: LoopId, target: LoopId, v: ValueV) -> Outcome<ValueV> {
    if target == loop_id {
        Outcome::Done(v)
    } else {
        Outcome::Broke(target, v)
    }
}

/// Evaluates `e` with `depth` closure calls still allowed to nest. Every
/// subexpression is evaluated left to right; a failure or a travelling
/// `break` ends the evaluation of every enclosing expression up to the
/// loop the `break` targets.
pub open spec fn eval_spec(e: IrExpr, m: IrModule, env: EvalEnv, st: EvalState, depth: nat) -> (Outcome<ValueV>, EvalState)
    decreases depth, 1int, e, iteration_bound() + 1,
{
    match e.kind {
        IrExprKind::Const(c) => (Outcome::Done(const_view(c)), st),
        IrExprKind::Quote(d) => (Outcome::Done(ValueV::Datum(d@)), st),
        IrExprKind::QuasiQuote(t) => {
            let (o, s1) = quasi_spec(t, m, env, st, depth);
            match o {
                Outcome::Done(d) => (Outcome::Done(ValueV::Datum(d)), s1),
                Outcome::Broke(target, v) => (Outcome::Broke(target, v), s1),
                Outcome::Failed(f) => (Outcome::Failed(f), s1),
            }
        },
        IrExprKind::Gensym { prefix } => match prefix {
            None => gensym_spec(None, st),
            Some(p) => {
                let (o, s1) = eval_spec(*p, m, env, st, depth);
                match o {
                    Outcome::Done(v) => match v {
                        ValueV::Datum(DatumV::Symbol(SymbolV::Interned(name))) => gensym_spec(Some(name), s1),
                        _ => (Outcome::Failed(EvalFailure::InvalidGensymPrefix(kind_name_v(v))), s1),
                    },
                    Outcome::Broke(target, v) => (Outcome::Broke(target, v), s1),
                    Outcome::Failed(f) => (Outcome::Failed(f), s1),
                }
            },
        },
        IrExprKind::LoadLocal(slot) => if (slot.0 as int) < st.locals.len() && st.locals[slot.0 as int] is Some {
            (Outcome::Done(st.locals[slot.0 as int]->Some_0), st)
        } else {
            (Outcome::Failed(EvalFailure::Internal), st)
        },
        IrExprKind::LoadCapture(slot) => if (slot.0 as int) < env.captures.len() {
            (Outcome::Done(env.captures[slot.0 as int]), st)
        } else {
            (Outcome::Failed(EvalFailure::Internal), st)
        },
        IrExprKind::LoadGlobal(id) => (load_global_spec(env.globals, id), st),
        IrExprKind::Let { bindings, body } => {
            let (o, s1) = let_values_spec(bindings, 0, m, env, st, depth, Seq::empty());
            match o {
                Outcome::Done(vs) => match let_stores_spec(bindings, 0, vs, s1.locals) {
                    Err(partial) => (Outcome::Failed(EvalFailure::Internal), with_locals(s1, partial)),
                    Ok(locals) => eval_spec(*body, m, env, with_locals(s1, locals), depth),
                },
                Outcome::Broke(target, v) => (Outcome::Broke(target, v), s1),
                Outcome::Failed(f) => (Outcome::Failed(f), s1),
            }
        },
        IrExprKind::MakeClosure { function, captures } => match capture_values_spec(captures@, 0, st.locals, env.captures, Seq::empty()) {
            None => (Outcome::Failed(EvalFailure::Internal), st),
            Some(vs) => (Outcome::Done(ValueV::Closure { function, captures: vs }), st),
        },
        IrExprKind::Call { callee, arguments } => {
            let (o, s1) = eval_spec(*callee, m, env, st, depth);
            match o {
                Outcome::Done(f) => {
                    let (oa, s2) = arguments_spec(arguments, 0, m, env, s1, depth, Seq::empty());
                    match oa {
                        Outcome::Done(args) => apply_spec(f, args, m, env.globals, env.max_iterations, s2, depth),
                        Outcome::Broke(target, v) => (Outcome::Broke(target, v), s2),
                        Outcome::Failed(fl) => (Outcome::Failed(fl), s2),
                    }
                },
                Outcome::Broke(target, v) => (Outcome::Broke(target, v), s1),
                Outcome::Failed(fl) => (Outcome::Failed(fl), s1),
            }
        },
        IrExprKind::If { condition, then_expr, else_expr } => {
            let (o, s1) = eval_spec(*condition, m, env, st, depth);
            match o {
                Outcome::Done(ValueV::Bool(true)) => eval_spec(*then_expr, m, env, s1, depth),
                Outcome::Done(ValueV::Bool(false)) => eval_spec(*else_expr, m, env, s1, depth),
                Outcome::Done(v) => (Outcome::Failed(EvalFailure::NonBooleanCondition(kind_name_v(v))), s1),
                Outcome::Broke(target, v) => (Outcome::Broke(target, v), s1),
                Outcome::Failed(f) => (Outcome::Failed(f), s1),
            }
        },
        IrExprKind::RangeLoop { .. } => range_loop_spec(e, m, env, st, depth),
        IrExprKind::StateLoop { .. } => state_loop_spec(e, m, env, st, depth),
        IrExprKind::Break { target, value } => match value {
            None => (Outcome::Broke(target, ValueV::Unit), st),
            Some(x) => {
                let (o, s1) = eval_spec(*x, m, env, st, depth);
                match o {
                    Outcome::Done(v) => (Outcome::Broke(target, v), s1),
                    Outcome::Broke(t, v) => (Outcome::Broke(t, v), s1),
                    Outcome::Failed(f) => (Outcome::Failed(f), s1),
                }
            },
        },
        IrExprKind::Sequence(items) => {
            let (o, s1) = items_spec(items, 0, m, env, st, depth, ValueV::Unit);
            match o {
                Outcome::Done(_) => (Outcome::Done(ValueV::Unit), s1),
                other => (other, s1),
            }
        },
        IrExprKind::Do(items) => items_spec(items, 0, m, env, st, depth, ValueV::Unit),
    }
}

/// Evaluates `items[i..]` in order, each for effect; the last value.
pub open spec fn items_spec(items: Vec<IrExpr>, i: int, m: IrModule, env: EvalEnv, st: EvalState, depth: nat, last: ValueV) -> (Outcome<ValueV>, EvalState)
    decreases depth, 1int, items, items@.len() - i,
{
    if i < 0 || i >= items@.len() {
        (Outcome::Done(last), st)
    } else {
        let (o, s1) = eval_spec(items@[i], m, env, st, depth);
        match o {
            Outcome::Done(v) => items_spec(items, i + 1, m, env, s1, depth, v),
            other => (other, s1),
        }
    }
}

/// The values of `arguments[i..]`, in order, after `acc`.
pub open spec fn arguments_spec(arguments: Vec<IrExpr>, i: int, m: IrModule, env: EvalEnv, st: EvalState, depth: nat, acc: Seq<ValueV>) -> (Outcome<Seq<ValueV>>, EvalState)
    decreases depth, 1int, arguments, arguments@.len() - i,
{
    if i < 0 || i >= arguments@.len() {
        (Outcome::Done(acc), st)
    } else {
        let (o, s1) = eval_spec(arguments@[i], m, env, st, depth);
        match o {
            Outcome::Done(v) => arguments_spec(arguments, i + 1, m, env, s1, depth, acc.push(v)),
            Outcome::Broke(target, v) => (Outcome::Broke(target, v), s1),
            Outcome::Failed(f) => (Outcome::Failed(f), s1),
        }
    }
}

/// The values of the initializers of `bindings[i..]`, in order, after
/// `acc`; none is stored until all are computed.
pub open spec fn let_values_spec(bindings: Vec<IrLetBinding>, i: int, m: IrModule, env: EvalEnv, st: EvalState, depth: nat, acc: Seq<ValueV>) -> (Outcome<Seq<ValueV>>, EvalState)
    decreases depth, 1int, bindings, bindings@.len() - i,
{
    if i < 0 || i >= bindings@.len() {
        (Outcome::Done(acc), st)
    } else {
        let (o, s1) = eval_spec(bindings@[i].initializer, m, env, st, depth);
        match o {
            Outcome::Done(v) => let_values_spec(bindings, i + 1, m, env, s1, depth, acc.push(v)),
            Outcome::Broke(target, v) => (Outcome::Broke(target, v), s1),
            Outcome::Failed(f) => (Outcome::Failed(f), s1),
        }
    }
}

/// Stores `vs[k..]` into the targets of `bindings[k..]`, in order; on a
/// missing slot, the locals as far as they were stored.
pub open spec fn let_stores_spec(bindings: Vec<IrLetBinding>, k: int, vs: Seq<ValueV>, locals: Seq<Option<ValueV>>) -> Result<Seq<Option<ValueV>>, Seq<Option<ValueV>>>
    decreases bindings@.len() - k,
{
    if k < 0 || k >= bindings@.len() || k >= vs.len() {
        Ok(locals)
    } else {
        match store_spec(locals, bindings@[k].target, vs[k]) {
            None => Err(locals),
            Some(l2) => let_stores_spec(bindings, k + 1, vs, l2),
        }
    }
}

/// Calls `callee` with `args`. A builtin applies directly (only `print`
/// touches the output); a closure runs its function's body in a fresh
/// frame whose first slots hold the arguments, with one call less allowed
/// to nest; the caller's locals are unchanged.
pub open spec fn apply_spec(callee: ValueV, args: Seq<ValueV>, m: IrModule, globals: Seq<Option<ValueV>>, max_iterations: u64, st: EvalState, depth: nat) -> (Outcome<ValueV>, EvalState)
    decreases depth, 0int, callee, 0int,
{
    match callee {
        ValueV::Builtin(b) => if b == Builtin::Print {
            match print_spec(args) {
                Ok(text) => (Outcome::Done(ValueV::Unit), EvalState { locals: st.locals, output: st.output + text, gensym: st.gensym }),
                Err(f) => (Outcome::Failed(f), st),
            }
        } else {
            match builtin_value(b, args) {
                Ok(v) => (Outcome::Done(v), st),
                Err(f) => (Outcome::Failed(f), st),
            }
        },
        ValueV::Closure { function, captures } => if (function.0 as int) >= m.functions@.len() {
            (Outcome::Failed(EvalFailure::Internal), st)
        } else {
            let f = m.functions@[function.0 as int];
            if args.len() != f.parameter_count {
                (Outcome::Failed(EvalFailure::WrongArgCount { expected: f.parameter_count as usize, got: args.len() as usize }), st)
            } else if depth == 0 {
                (Outcome::Failed(EvalFailure::CallDepthExceeded), st)
            } else if args.len() > f.local_count {
                (Outcome::Failed(EvalFailure::Internal), st)
            } else {
                let locals = Seq::new(f.local_count as nat, |k: int| if k < args.len() { Some(args[k]) } else { None });
                let (o, s1) = eval_spec(
                    f.body,
                    m,
                    EvalEnv { captures, globals, max_iterations },
                    EvalState { locals, output: st.output, gensym: st.gensym },
                    (depth - 1) as nat,
                );
                let back = EvalState { locals: st.locals, output: s1.output, gensym: s1.gensym };
                match o {
                    Outcome::Done(v) => (Outcome::Done(v), back),
                    Outcome::Broke(_, _) => (Outcome::Failed(EvalFailure::Internal), back),
                    Outcome::Failed(fl) => (Outcome::Failed(fl), back),
                }
            }
        },
        _ => (Outcome::Failed(EvalFailure::NotCallable(value_text_v(callee))), st),
    }
}

/// A loop bound's value: it must be an integer.
pub open spec fn loop_bound_spec(o: Outcome<ValueV>) -> Outcome<i64> {
    match o {
        Outcome::Done(ValueV::Int(n)) => Outcome::Done(n),
        Outcome::Done(_) => Outcome::Failed(EvalFailure::NonIntegerLoopBound),
        Outcome::Broke(target, v) => Outcome::Broke(target, v),
        Outcome::Failed(f) => Outcome::Failed(f),
    }
}

/// `range_loop`: the start, end and step evaluate once, in that order, to
/// integers (a zero step fails), then the iterations run.
pub open spec fn range_loop_spec(e: IrExpr, m: IrModule, env: EvalEnv, st: EvalState, depth: nat) -> (Outcome<ValueV>, EvalState)
    decreases depth, 1int, e, iteration_bound(),
{
    match e.kind {
        IrExprKind::RangeLoop { start, end, step, .. } => {
            let (o1, s1) = eval_spec(*start, m, env, st, depth);
            match loop_bound_spec(o1) {
                Outcome::Done(a) => {
                    let (o2, s2) = eval_spec(*end, m, env, s1, depth);
                    match loop_bound_spec(o2) {
                        Outcome::Done(b) => {
                            let (o3, s3) = eval_spec(*step, m, env, s2, depth);
                            match loop_bound_spec(o3) {
                                Outcome::Done(c) => if c == 0 {
                                    (Outcome::Failed(EvalFailure::ZeroLoopStep), s3)
                                } else {
                                    range_iter_spec(e, a, b, c, 0, m, env, s3, depth)
                                },
                                Outcome::Broke(target, v) => (Outcome::Broke(target, v), s3),
                                Outcome::Failed(f) => (Outcome::Failed(f), s3),
                            }
                        },
                        Outcome::Broke(target, v) => (Outcome::Broke(target, v), s2),
                        Outcome::Failed(f) => (Outcome::Failed(f), s2),
                    }
                },
                Outcome::Broke(target, v) => (Outcome::Broke(target, v), s1),
                Outcome::Failed(f) => (Outcome::Failed(f), s1),
            }
        },
        _ => (Outcome::Failed(EvalFailure::Internal), st),
    }
}

/// The iterations of a range loop from `current` on, `iterations` of them
/// already run: while `current` has not reached `end` (from below for a
/// positive step, from above for a negative one) the variable is set and
/// the body runs; more than the limit of iterations, or a counter past the
/// `i64` range, fails. A `break` to this loop gives the loop's value.
pub open spec fn range_iter_spec(e: IrExpr, current: i64, end: i64, step: i64, iterations: u64, m: IrModule, env: EvalEnv, st: EvalState, depth: nat) -> (Outcome<ValueV>, EvalState)
    decreases depth, 1int, e, env.max_iterations - iterations,
{
    match e.kind {
        IrExprKind::RangeLoop { loop_id, variable, body, .. } => {
            if !(if step > 0 { current < end } else { current > end }) {
                (Outcome::Done(ValueV::Unit), st)
            } else if iterations >= env.max_iterations {
                (Outcome::Failed(EvalFailure::LoopCounterOverflow), st)
            } else {
                match store_spec(st.locals, variable, ValueV::Int(current)) {
                    None => (Outcome::Failed(EvalFailure::Internal), st),
                    Some(locals) => {
                        let (o, s1) = eval_spec(*body, m, env, with_locals(st, locals), depth);
                        match o {
                            Outcome::Failed(f) => (Outcome::Failed(f), s1),
                            Outcome::Broke(target, v) => (finish_break_spec(loop_id, target, v), s1),
                            Outcome::Done(_) => if current + step < i64::MIN || current + step > i64::MAX {
                                (Outcome::Failed(EvalFailure::LoopCounterOverflow), s1)
                            } else {
                                range_iter_spec(e, (current + step) as i64, end, step, (iterations + 1) as u64, m, env, s1, depth)
                            },
                        }
                    },
                }
            }
        },
        _ => (Outcome::Failed(EvalFailure::Internal), st),
    }
}

/// `state_loop`: the states are initialised in order, each stored before
/// the next initializer runs, then the iterations run.
pub open spec fn state_loop_spec(e: IrExpr, m: IrModule, env: EvalEnv, st: EvalState, depth: nat) -> (Outcome<ValueV>, EvalState)
    decreases depth, 1int, e, iteration_bound(),
{
    match e.kind {
        IrExprKind::StateLoop { states, .. } => {
            let (o, s1) = state_inits_spec(states, 0, m, env, st, depth);
            match o {
                Outcome::Done(_) => state_iter_spec(e, 0, m, env, s1, depth),
                other => (other, s1),
            }
        },
        _ => (Outcome::Failed(EvalFailure::Internal), st),
    }
}

/// Initialises `states[i..]`: each initializer's value is stored in its
/// state's slot before the next one runs.
pub open spec fn state_inits_spec(states: Vec<IrStateBinding>, i: int, m: IrModule, env: EvalEnv, st: EvalState, depth: nat) -> (Outcome<ValueV>, EvalState)
    decreases depth, 1int, states, states@.len() - i,
{
    if i < 0 || i >= states@.len() {
        (Outcome::Done(ValueV::Unit), st)
    } else {
        let (o, s1) = eval_spec(states@[i].initializer, m, env, st, depth);
        match o {
            Outcome::Done(v) => match store_spec(s1.locals, states@[i].target, v) {
                None => (Outcome::Failed(EvalFailure::Internal), s1),
                Some(locals) => state_inits_spec(states, i + 1, m, env, with_locals(s1, locals), depth),
            },
            other => (other, s1),
        }
    }
}

/// The iterations of a state loop, `iterations` of them already run: the
/// condition must be a boolean; while it is true the body runs, then every
/// update value is computed and only then are all of them stored, in
/// order. More than the limit of iterations fails; a `break` to this loop
/// gives the loop's value.
pub open spec fn state_iter_spec(e: IrExpr, iterations: u64, m: IrModule, env: EvalEnv, st: EvalState, depth: nat) -> (Outcome<ValueV>, EvalState)
    decreases depth, 1int, e, env.max_iterations - iterations,
{
    match e.kind {
        IrExprKind::StateLoop { loop_id, condition, updates, body, .. } => {
            let (oc, s1) = eval_spec(*condition, m, env, st, depth);
            match oc {
                Outcome::Done(ValueV::Bool(false)) => (Outcome::Done(ValueV::Unit), s1),
                Outcome::Done(ValueV::Bool(true)) => if iterations >= env.max_iterations {
                    (Outcome::Failed(EvalFailure::LoopCounterOverflow), s1)
                } else {
                    let (ob, s2) = eval_spec(*body, m, env, s1, depth);
                    match ob {
                        Outcome::Failed(f) => (Outcome::Failed(f), s2),
                        Outcome::Broke(target, v) => (finish_break_spec(loop_id, target, v), s2),
                        Outcome::Done(_) => {
                            let (ou, s3) = update_values_spec(updates, 0, m, env, s2, depth, Seq::empty());
                            match ou {
                                Outcome::Done(pairs) => match store_pairs_spec(pairs, s3.locals) {
                                    Err(partial) => (Outcome::Failed(EvalFailure::Internal), with_locals(s3, partial)),
                                    Ok(locals) => state_iter_spec(e, (iterations + 1) as u64, m, env, with_locals(s3, locals), depth),
                                },
                                Outcome::Broke(target, v) => (Outcome::Broke(target, v), s3),
                                Outcome::Failed(f) => (Outcome::Failed(f), s3),
                            }
                        },
                    }
                },
                Outcome::Done(v) => (Outcome::Failed(EvalFailure::NonBooleanCondition(kind_name_v(v))), s1),
                Outcome::Broke(target, v) => (Outcome::Broke(target, v), s1),
                Outcome::Failed(f) => (Outcome::Failed(f), s1),
            }
        },
        _ => (Outcome::Failed(EvalFailure::Internal), st),
    }
}

/// The new values of `updates[u..]`, each paired with its state's slot,
/// after `acc`.
pub open spec fn update_values_spec(
    updates: Vec<IrStateUpdate>,
    u: int,
    m: IrModule,
    env: EvalEnv,
    st: EvalState,
    depth: nat,
    acc: Seq<(LocalSlot, ValueV)>,
) -> (Outcome<Seq<(LocalSlot, ValueV)>>, EvalState)
    decreases depth, 1int, updates, updates@.len() - u,
{
    if u < 0 || u >= updates@.len() {
        (Outcome::Done(acc), st)
    } else {
        let (o, s1) = eval_spec(updates@[u].value, m, env, st, depth);
        match o {
            Outcome::Done(v) => update_values_spec(updates, u + 1, m, env, s1, depth, acc.push((updates@[u].target, v))),
            Outcome::Broke(target, v) => (Outcome::Broke(target, v), s1),
            Outcome::Failed(f) => (Outcome::Failed(f), s1),
        }
    }
}

/// Stores each `(slot, value)` of `pairs` in order; on a missing slot, the
/// locals as far as they were stored.
pub open spec fn store_pairs_spec(pairs: Seq<(LocalSlot, ValueV)>, locals: Seq<Option<ValueV>>) -> Result<Seq<Option<ValueV>>, Seq<Option<ValueV>>>
    decreases pairs.len(),
{
    if pairs.len() == 0 {
        Ok(locals)
    } else {
        match store_spec(locals, pairs[0].0, pairs[0].1) {
            None => Err(locals),
            Some(l2) => store_pairs_spec(pairs.drop_first(), l2),
        }
    }
}

/// Builds the datum a quasiquote template denotes, evaluating its unquoted
/// parts left to right.
pub open spec fn quasi_spec(t: IrQuasiDatum, m: IrModule, env: EvalEnv, st: EvalState, depth: nat) -> (Outcome<DatumV>, EvalState)
    decreases depth, 1int, t, iteration_bound() + 1,
{
    match t {
        IrQuasiDatum::Datum(d) => (Outcome::Done(d@), st),
        IrQuasiDatum::List(items) => {
            let (o, s1) = quasi_items_spec(items, 0, m, env, st, depth, Seq::empty());
            match o {
                Outcome::Done(ds) => (Outcome::Done(DatumV::List(ds)), s1),
                Outcome::Broke(target, v) => (Outcome::Broke(target, v), s1),
                Outcome::Failed(f) => (Outcome::Failed(f), s1),
            }
        },
        IrQuasiDatum::Evaluate(x) => {
            let (o, s1) = eval_spec(*x, m, env, st, depth);
            match o {
                Outcome::Done(v) => (value_to_datum_spec(v), s1),
                Outcome::Broke(target, v) => (Outcome::Broke(target, v), s1),
                Outcome::Failed(f) => (Outcome::Failed(f), s1),
            }
        },
        IrQuasiDatum::Splice(_) => (Outcome::Failed(EvalFailure::Internal), st),
    }
}

/// The data of the template items `items[i..]` after `acc`: a spliced item
/// contributes the elements of the list it evaluates to.
pub open spec fn quasi_items_spec(items: Vec<IrQuasiDatum>, i: int, m: IrModule, env: EvalEnv, st: EvalState, depth: nat, acc: Seq<DatumV>) -> (Outcome<Seq<DatumV>>, EvalState)
    decreases depth, 1int, items, items@.len() - i,
{
    if i < 0 || i >= items@.len() {
        (Outcome::Done(acc), st)
    } else {
        match items@[i] {
            IrQuasiDatum::Splice(x) => {
                let (o, s1) = eval_spec(*x, m, env, st, depth);
                match o {
                    Outcome::Done(ValueV::Datum(DatumV::List(xs))) => quasi_items_spec(items, i + 1, m, env, s1, depth, acc + xs),
                    Outcome::Done(_) => (Outcome::Failed(EvalFailure::Internal), s1),
                    Outcome::Broke(target, v) => (Outcome::Broke(target, v), s1),
                    Outcome::Failed(f) => (Outcome::Failed(f), s1),
                }
            },
            _ => {
                let (o, s1) = quasi_spec(items@[i], m, env, st, depth);
                match o {
                    Outcome::Done(d) => quasi_items_spec(items, i + 1, m, env, s1, depth, acc.push(d)),
                    Outcome::Broke(target, v) => (Outcome::Broke(target, v), s1),
                    Outcome::Failed(f) => (Outcome::Failed(f), s1),
                }
            },
        }
    }
}

/// Runs the body of a top-level form in a fresh frame of empty slots, with
/// `depth` closure calls allowed to nest: its value, or why it failed (a
/// `break` that escapes every loop is an internal failure), with the
/// output and gensym counter it leaves.
pub open spec fn body_spec(body: IrBody, m: IrModule, globals: Seq<Option<ValueV>>, max_iterations: u64, output: Seq<char>, gensym: u64, depth: nat) -> (Result<ValueV, EvalFailure>, Seq<char>, u64) {
    let (o, s) = eval_spec(
        body.expr,
        m,
        EvalEnv { captures: Seq::empty(), globals, max_iterations },
        EvalState { locals: Seq::new(body.local_count as nat, |_k: int| None), output, gensym },
        depth,
    );
    match o {
        Outcome::Done(v) => (Ok(v), s.output, s.gensym),
        Outcome::Broke(_, _) => (Err(EvalFailure::Internal), s.output, s.gensym),
        Outcome::Failed(f) => (Err(f), s.output, s.gensym),
    }
}

} // verus!
