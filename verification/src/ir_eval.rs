//! The IR interpreter: the language's runtime. Every reference is already
//! a local slot, capture slot or global id by the time IR reaches it.
use vstd::prelude::*;
use std::rc::Rc;
use crate::builtin::apply_builtin;
use crate::datum::Datum;
use crate::error::{EvalError, LispError};
use crate::globals::GlobalStore;
use crate::ids::{CaptureSlot, LocalSlot, LoopId};
use crate::ir::{
    IrBody, IrCaptureSource, IrConst, IrExpr, IrExprKind, IrLetBinding, IrModule, IrQuasiDatum, IrStateBinding,
    IrStateUpdate, IrTopLevel,
};
use crate::symbol::{GensymId, Symbol};
use crate::text::{push_str, push_u64_decimal, string_from_chars};
use crate::value::{lemma_values_view_all, lemma_values_view_push, values_view_all, Closure, Value, ValueV};
use crate::builtin::{eval_error_is, EvalFailure};
use crate::datum::{datums_view, lemma_datums_view_all, lemma_datums_view_push, DatumV};
use crate::semantics::{
    apply_spec, arguments_spec, body_spec, range_loop_spec, state_loop_spec, capture_values_spec, const_view, eval_spec, items_spec, let_stores_spec,
    let_values_spec, quasi_items_spec, store_spec, quasi_spec, range_iter_spec, state_inits_spec, state_iter_spec, store_pairs_spec,
    update_values_spec, value_to_datum_spec, with_locals, EvalEnv, EvalState, Outcome,
};

verus! {

broadcast use vstd::std_specs::vec::group_vec_axioms;

/// Limits that guard interactive use against runaway programs.
#[derive(Debug, Clone, Copy)]
pub struct RuntimeLimits {
    /// Upper bound on the iterations one runtime `loop` may execute.
    pub max_loop_iterations: u64,
    /// Upper bound on how deeply closure calls may nest.
    pub max_call_depth: u64,
}

impl Default for RuntimeLimits {
    fn default() -> (r: Self)
        ensures
            r.max_loop_iterations == 10_000_000,
            r.max_call_depth == 10_000,
    {
        RuntimeLimits { max_loop_iterations: 10_000_000, max_call_depth: 10_000 }
    }
}

/// Execution state that outlives one top-level form: global values, the
/// text printed so far, the limits and the gensym counter.
pub struct Runtime {
    pub global_values: GlobalStore,
    pub output: String,
    pub limits: RuntimeLimits,
    next_gensym_id: u64,
}

impl Runtime {
    pub closed spec fn spec_next_gensym_id(&self) -> u64 {
        self.next_gensym_id
    }

    /// The text printed so far.
    pub closed spec fn spec_output(&self) -> Seq<char> {
        self.output@
    }

    pub closed spec fn spec_globals(&self) -> Seq<Option<Value>> {
        self.global_values@
    }

    pub closed spec fn spec_limits(&self) -> RuntimeLimits {
        self.limits
    }

    pub fn new(output: String) -> (r: Self)
        ensures
            r.spec_output() == output@,
            r.spec_globals() == Seq::<Option<Value>>::empty(),
            r.spec_limits().max_loop_iterations == 10_000_000,
            r.spec_limits().max_call_depth == 10_000,
            r.spec_next_gensym_id() == 0,
    {
        Runtime { global_values: GlobalStore::new(), output, limits: RuntimeLimits::default(), next_gensym_id: 0 }
    }

    /// A fresh generated symbol; fails once every id has been used.
    pub fn allocate_gensym(&mut self, hint: Option<String>) -> (r: Result<Symbol, EvalError>)
        ensures
            final(self).spec_globals() == old(self).spec_globals(),
            final(self).spec_output() == old(self).spec_output(),
            final(self).spec_limits() == old(self).spec_limits(),
            old(self).spec_next_gensym_id() == u64::MAX ==> r == Err::<Symbol, EvalError>(EvalError::GensymIdOverflow)
                && final(self).spec_next_gensym_id() == old(self).spec_next_gensym_id(),
            old(self).spec_next_gensym_id() < u64::MAX ==> r == Ok::<Symbol, EvalError>(Symbol::Generated { id: GensymId(old(self).spec_next_gensym_id()), hint })
                && final(self).spec_next_gensym_id() == old(self).spec_next_gensym_id() + 1,
    {
        if self.next_gensym_id == u64::MAX {
            return Err(EvalError::GensymIdOverflow);
        }
        let id = GensymId(self.next_gensym_id);
        self.next_gensym_id = self.next_gensym_id + 1;
        Ok(Symbol::generated(id, hint))
    }

    /// The store holding the globals' values.
    pub closed spec fn spec_store(&self) -> GlobalStore {
        self.global_values
    }

    pub fn global_values(&self) -> (r: &GlobalStore)
        ensures
            r@ == self.spec_globals(),
            *r == self.spec_store(),
    {
        &self.global_values
    }

    /// Binds global `id` to `value`.
    pub fn define_global(&mut self, id: crate::ids::GlobalId, value: Value)
        ensures
            final(self).spec_output() == old(self).spec_output(),
            final(self).spec_limits() == old(self).spec_limits(),
            final(self).spec_next_gensym_id() == old(self).spec_next_gensym_id(),
            final(self).spec_globals()[id.0 as int] == Some(value),
            final(self).spec_globals().len() == if (id.0 as int) < old(self).spec_globals().len() {
                old(self).spec_globals().len() as int
            } else {
                id.0 as int + 1
            },
            forall|i: int| 0 <= i < final(self).spec_globals().len() && i != id.0 ==> #[trigger] final(self).spec_globals()[i]
                == if i < old(self).spec_globals().len() { old(self).spec_globals()[i] } else { None },
    {
        self.global_values.define(id, value);
    }

    pub fn output_text(&self) -> (r: &String)
        ensures
            r@ == self.spec_output(),
    {
        &self.output
    }

    pub fn output_text_mut(&mut self) -> (r: &mut String)
        ensures
            (*r)@ == old(self).spec_output(),
            final(self).spec_output() == (*final(r))@,
    {
        &mut self.output
    }

    pub fn into_output(self) -> (r: String)
        ensures
            r@ == self.spec_output(),
    {
        self.output
    }

    pub fn next_gensym_id(&self) -> (r: u64)
        ensures
            r == self.spec_next_gensym_id(),
    {
        self.next_gensym_id
    }

    pub fn set_next_gensym_id(&mut self, next: u64)
        ensures
            final(self).spec_next_gensym_id() == next,
            final(self).spec_globals() == old(self).spec_globals(),
            final(self).spec_output() == old(self).spec_output(),
            final(self).spec_limits() == old(self).spec_limits(),
    {
        self.next_gensym_id = next;
    }
}

/// One call or top-level frame: local slots, plus the values its closure
/// captured.
struct Frame {
    locals: Vec<Option<Value>>,
    captures: Vec<Value>,
}

fn internal_error(what: &str, n: u32) -> (r: LispError)
    ensures
        r matches LispError::Eval(EvalError::Io { .. }),
{
    let mut text: Vec<char> = Vec::new();
    push_str(&mut text, "internal IR error: ");
    push_str(&mut text, what);
    push_str(&mut text, " ");
    push_u64_decimal(n as u64, &mut text);
    LispError::Eval(EvalError::Io { message: string_from_chars(text.as_slice()) })
}

fn internal(message: &str) -> (r: LispError)
    ensures
        r matches LispError::Eval(EvalError::Io { .. }),
{
    LispError::Eval(EvalError::Io { message: message.to_owned() })
}

impl Frame {
    fn new(local_count: u32, captures: Vec<Value>) -> (r: Self)
        ensures
            r.locals@.len() == local_count,
            forall|i: int| 0 <= i < local_count ==> (#[trigger] r.locals@[i]) is None,
            r.captures@ == captures@,
    {
        let mut locals: Vec<Option<Value>> = Vec::new();
        let mut i: u32 = 0;
        while i < local_count
            invariant
                i <= local_count,
                locals@.len() == i,
                forall|k: int| 0 <= k < i ==> (#[trigger] locals@[k]) is None,
            decreases local_count - i,
        {
            locals.push(None);
            i += 1;
        }
        Frame { locals, captures }
    }

    fn load_local(&self, slot: LocalSlot) -> (r: Result<Value, LispError>)
        ensures
            r matches Err(e) ==> e is Eval,
            (slot.0 as int) < self.locals@.len() && self.locals@[slot.0 as int] is Some ==> r == Ok::<Value, LispError>(self.locals@[slot.0 as int]->Some_0),
            !((slot.0 as int) < self.locals@.len() && self.locals@[slot.0 as int] is Some) ==> r matches Err(LispError::Eval(EvalError::Io { .. })),
    {
        let i = slot.index();
        if i < self.locals.len() {
            if let Some(value) = &self.locals[i] {
                return Ok(value.copy());
            }
        }
        Err(internal_error("uninitialized local slot", slot.0))
    }

    fn store_local(&mut self, slot: LocalSlot, value: Value) -> (r: Result<(), LispError>)
        ensures
            r matches Err(e) ==> e matches LispError::Eval(EvalError::Io { .. }),
            final(self).captures@ == old(self).captures@,
            final(self).locals@.len() == old(self).locals@.len(),
            (slot.0 as int) < old(self).locals@.len() ==> r is Ok && final(self).locals@ == old(self).locals@.update(slot.0 as int, Some(value)),
            (slot.0 as int) >= old(self).locals@.len() ==> r is Err && final(self).locals@ == old(self).locals@,
    {
        let i = slot.index();
        if i < self.locals.len() {
            self.locals.set(i, Some(value));
            Ok(())
        } else {
            Err(internal_error("invalid local slot", slot.0))
        }
    }

    fn load_capture(&self, slot: CaptureSlot) -> (r: Result<Value, LispError>)
        ensures
            r matches Err(e) ==> e is Eval,
            (slot.0 as int) < self.captures@.len() ==> r == Ok::<Value, LispError>(self.captures@[slot.0 as int]),
            (slot.0 as int) >= self.captures@.len() ==> r matches Err(LispError::Eval(EvalError::Io { .. })),
    {
        let i = slot.index();
        if i < self.captures.len() {
            Ok(self.captures[i].copy())
        } else {
            Err(internal_error("invalid capture slot", slot.0))
        }
    }
}

/// An ordinary result, or a `break` still travelling to the loop it
/// targets.
enum Flow {
    Value(Value),
    Break { target: LoopId, value: Value },
}

/// What evaluating an expression may change: locals (not their number),
/// the text printed (only appended to) and the gensym counter (only
/// increased). Captures, global values and limits stay as they were.
spec fn effects(f0: Frame, f1: Frame, r0: Runtime, r1: Runtime) -> bool {
    &&& f1.locals@.len() == f0.locals@.len()
    &&& f1.captures@ == f0.captures@
    &&& r0.output@.is_prefix_of(r1.output@)
    &&& r1.next_gensym_id >= r0.next_gensym_id
    &&& r1.global_values@ == r0.global_values@
    &&& r1.limits == r0.limits
}

/// What a call may change in the runtime (its own frame is separate).
spec fn runtime_effects(r0: Runtime, r1: Runtime) -> bool {
    &&& r0.output@.is_prefix_of(r1.output@)
    &&& r1.next_gensym_id >= r0.next_gensym_id
    &&& r1.global_values@ == r0.global_values@
    &&& r1.limits == r0.limits
}

proof fn lemma_effects_trans(f0: Frame, f1: Frame, f2: Frame, r0: Runtime, r1: Runtime, r2: Runtime)
    requires
        effects(f0, f1, r0, r1),
        effects(f1, f2, r1, r2),
    ensures
        effects(f0, f2, r0, r2),
{
    assert(r0.output@ =~= r2.output@.subrange(0, r0.output@.len() as int));
}

proof fn lemma_effects_refl(f: Frame, r: Runtime)
    ensures
        effects(f, f, r, r),
{
    assert(r.output@.is_prefix_of(r.output@)) by {
        assert(r.output@ =~= r.output@.subrange(0, r.output@.len() as int));
    }
}

/// Views of optional values, slot by slot.
pub open spec fn slots_view(slots: Seq<Option<Value>>) -> Seq<Option<ValueV>> {
    slots.map_values(|o: Option<Value>| match o {
        Some(v) => Some(v@),
        None => None,
    })
}

proof fn lemma_slots_view_update(slots: Seq<Option<Value>>, i: int, v: Value)
    requires
        0 <= i < slots.len(),
    ensures
        slots_view(slots.update(i, Some(v))) == slots_view(slots).update(i, Some(v@)),
{
    assert(slots_view(slots.update(i, Some(v))) =~= slots_view(slots).update(i, Some(v@)));
}

/// What evaluation in `f` reads and never changes.
spec fn env_of(f: Frame, r: Runtime) -> EvalEnv {
    EvalEnv { captures: values_view_all(f.captures@), globals: slots_view(r.global_values@), max_iterations: r.limits.max_loop_iterations }
}

/// What evaluation in `f` changes.
spec fn state_of(f: Frame, r: Runtime) -> EvalState {
    EvalState { locals: slots_view(f.locals@), output: r.output@, gensym: r.next_gensym_id }
}

/// `r` is the outcome `o`.
spec fn flow_matches(r: Result<Flow, LispError>, o: Outcome<ValueV>) -> bool {
    match o {
        Outcome::Done(v) => r matches Ok(Flow::Value(x)) && x@ == v,
        Outcome::Broke(t, v) => r matches Ok(Flow::Break { target, value }) && target == t && value@ == v,
        Outcome::Failed(f) => r matches Err(LispError::Eval(e)) && eval_error_is(f, e),
    }
}

/// An evaluation that started in `f0`, `r0` ended with `r` in `f1`, `r1`
/// as evaluating `e` does.
spec fn evaluated(r: Result<Flow, LispError>, e: IrExpr, m: IrModule, f0: Frame, f1: Frame, r0: Runtime, r1: Runtime, depth: u64) -> bool {
    let res = eval_spec(e, m, env_of(f0, r0), state_of(f0, r0), depth as nat);
    &&& effects(f0, f1, r0, r1)
    &&& flow_matches(r, res.0)
    &&& state_of(f1, r1) == res.1
}

fn const_to_value(c: &IrConst) -> (r: Value)
    ensures
        r@ == const_view(*c),
{
    match c {
        IrConst::Int(n) => Value::Int(*n),
        IrConst::Bool(b) => Value::Bool(*b),
        IrConst::String(s) => Value::String(Rc::new(s.clone())),
        IrConst::Unit => Value::Unit,
    }
}

/// The datum a value stands for inside a quasiquote.
fn value_to_datum(value: Value) -> (r: Result<Datum, EvalError>)
    ensures
        match value_to_datum_spec(value@) {
            Outcome::Done(d) => r matches Ok(x) && x@ == d,
            Outcome::Failed(f) => r matches Err(e) && eval_error_is(f, e),
            Outcome::Broke(_, _) => false,
        },
{
    match value {
        Value::Int(n) => Ok(Datum::Integer(n)),
        Value::Bool(b) => Ok(Datum::Bool(b)),
        Value::Datum(d) => Ok(d.copy()),
        other => Err(EvalError::CannotConvertToDatum(other.kind_name())),
    }
}

/// A loop bound's value.
fn require_int_value(value: Value) -> (r: Result<i64, LispError>)
    ensures
        match value {
            Value::Int(n) => r == Ok::<i64, LispError>(n),
            _ => r == Err::<i64, LispError>(LispError::Eval(EvalError::NonIntegerLoopBound)),
        },
{
    match value {
        Value::Int(n) => Ok(n),
        _ => Err(LispError::Eval(EvalError::NonIntegerLoopBound)),
    }
}

/// Evaluates `expr` in `frame`, exactly as [`eval_spec`] says. `depth` is
/// how many closure calls may still nest.
fn eval_expr(expr: &IrExpr, frame: &mut Frame, module: &IrModule, runtime: &mut Runtime, depth: u64) -> (r: Result<Flow, LispError>)
    ensures
        evaluated(r, *expr, *module, *old(frame), *final(frame), *old(runtime), *final(runtime), depth),
    decreases depth, 1int, expr, 1int,
{
    proof {
        lemma_effects_refl(*frame, *runtime);
        assert(decreases_to!(*expr => expr.kind));
    }
    match &expr.kind {
        IrExprKind::Const(c) => Ok(Flow::Value(const_to_value(c))),
        IrExprKind::Quote(datum) => Ok(Flow::Value(Value::Datum(Rc::new(datum.copy())))),
        IrExprKind::QuasiQuote(template) => eval_quasi_datum(template, frame, module, runtime, depth),
        IrExprKind::Gensym { .. } => eval_gensym(expr, frame, module, runtime, depth),
        IrExprKind::LoadLocal(slot) => match frame.load_local(*slot) {
            Ok(v) => Ok(Flow::Value(v)),
            Err(err) => Err(err),
        },
        IrExprKind::LoadCapture(slot) => {
            proof {
                lemma_values_view_all(frame.captures@);
            }
            match frame.load_capture(*slot) {
                Ok(v) => Ok(Flow::Value(v)),
                Err(err) => Err(err),
            }
        },
        IrExprKind::LoadGlobal(id) => match runtime.global_values.get(*id) {
            Some(v) => Ok(Flow::Value(v)),
            None => {
                let mut text: Vec<char> = Vec::new();
                proof {
                    reveal_strlit("@");
                    assert("@"@ =~= seq!['@']);
                    assert(text@ =~= Seq::<char>::empty());
                }
                push_str(&mut text, "@");
                push_u64_decimal(id.0 as u64, &mut text);
                proof {
                    assert(text@ =~= seq!['@'] + crate::text::radix_digits(id.0 as nat, 10, false));
                }
                Err(LispError::Eval(EvalError::UndefinedSymbol(string_from_chars(text.as_slice()))))
            },
        },
        IrExprKind::Let { .. } => eval_let(expr, frame, module, runtime, depth),
        IrExprKind::MakeClosure { .. } => eval_make_closure(expr, frame, module, runtime, depth),
        IrExprKind::Call { .. } => eval_call(expr, frame, module, runtime, depth),
        IrExprKind::If { .. } => eval_if(expr, frame, module, runtime, depth),
        IrExprKind::RangeLoop { .. } => eval_range_loop(expr, frame, module, runtime, depth),
        IrExprKind::StateLoop { .. } => eval_state_loop(expr, frame, module, runtime, depth),
        IrExprKind::Break { .. } => eval_break(expr, frame, module, runtime, depth),
        IrExprKind::Sequence(_) | IrExprKind::Do(_) => eval_items(expr, frame, module, runtime, depth),
    }
}

/// `(gensym [prefix])`.
fn eval_gensym(expr: &IrExpr, frame: &mut Frame, module: &IrModule, runtime: &mut Runtime, depth: u64) -> (r: Result<Flow, LispError>)
    requires
        expr.kind is Gensym,
    ensures
        evaluated(r, *expr, *module, *old(frame), *final(frame), *old(runtime), *final(runtime), depth),
    decreases depth, 1int, expr, 0int,
{
    proof {
        lemma_effects_refl(*frame, *runtime);
        assert(decreases_to!(*expr => expr.kind));
    }
    let prefix = match &expr.kind {
        IrExprKind::Gensym { prefix } => prefix,
        _ => {
            return Err(internal("internal IR error: not a gensym"));
        },
    };
    let hint = match prefix {
        Some(prefix) => {
            let res = eval_expr(prefix, frame, module, runtime, depth);
            let value = match res {
                Err(err) => {
                    return Err(err);
                },
                Ok(Flow::Break { target, value }) => {
                    return Ok(Flow::Break { target, value });
                },
                Ok(Flow::Value(v)) => v,
            };
            match value {
                Value::Datum(datum) => match &*datum {
                    Datum::Symbol(Symbol::Interned(name)) => Some(name.clone()),
                    _ => {
                        proof {
                            reveal_strlit("datum");
                            assert("datum"@ =~= seq!['d', 'a', 't', 'u', 'm']);
                        }
                        return Err(LispError::Eval(EvalError::InvalidGensymPrefix("datum")));
                    },
                },
                other => {
                    return Err(LispError::Eval(EvalError::InvalidGensymPrefix(other.kind_name())));
                },
            }
        },
        None => None,
    };
    let ghost f1 = *frame;
    let ghost r1 = *runtime;
    let symbol = runtime.allocate_gensym(hint);
    proof {
        lemma_effects_trans(*old(frame), f1, *frame, *old(runtime), r1, *runtime);
    }
    match symbol {
        Ok(s) => Ok(Flow::Value(Value::Datum(Rc::new(Datum::Symbol(s))))),
        Err(err) => Err(LispError::Eval(err)),
    }
}

/// `let`: every initializer is evaluated, in order, before any binding
/// is stored; then the body runs.
fn eval_let(expr: &IrExpr, frame: &mut Frame, module: &IrModule, runtime: &mut Runtime, depth: u64) -> (r: Result<Flow, LispError>)
    requires
        expr.kind is Let,
    ensures
        evaluated(r, *expr, *module, *old(frame), *final(frame), *old(runtime), *final(runtime), depth),
    decreases depth, 1int, expr, 0int,
{
    proof {
        lemma_effects_refl(*frame, *runtime);
        assert(decreases_to!(*expr => expr.kind));
    }
    let ghost env = env_of(*frame, *runtime);
    let ghost st0 = state_of(*frame, *runtime);
    let (bindings, body) = match &expr.kind {
        IrExprKind::Let { bindings, body } => (bindings, body),
        _ => {
            return Err(internal("internal IR error: not a let"));
        },
    };
    let mut computed: Vec<Value> = Vec::new();
    let mut i: usize = 0;
    proof {
        lemma_values_view_all(computed@);
        assert(values_view_all(computed@) =~= Seq::<ValueV>::empty());
    }
    while i < bindings.len()
        invariant
            expr.kind == (IrExprKind::Let { bindings: *bindings, body: *body }),
            i <= bindings@.len(),
            computed@.len() == i,
            effects(*old(frame), *frame, *old(runtime), *runtime),
            env == env_of(*old(frame), *old(runtime)),
            env == env_of(*frame, *runtime),
            st0 == state_of(*old(frame), *old(runtime)),
            let_values_spec(*bindings, 0, *module, env, st0, depth as nat, Seq::empty())
                == let_values_spec(*bindings, i as int, *module, env, state_of(*frame, *runtime), depth as nat, values_view_all(computed@)),
        decreases bindings@.len() - i,
    {
        proof {
            assert(decreases_to!(expr.kind => (expr.kind)->bindings));
            assert(decreases_to!(*bindings => bindings[i as int]));
            assert(decreases_to!(bindings[i as int] => bindings[i as int].initializer));
        }
        let ghost f1 = *frame;
        let ghost r1 = *runtime;
        let res = eval_expr(&bindings[i].initializer, frame, module, runtime, depth);
        proof {
            lemma_effects_trans(*old(frame), f1, *frame, *old(runtime), r1, *runtime);
        }
        let v = match res {
            Err(err) => {
                return Err(err);
            },
            Ok(Flow::Break { target, value }) => {
                return Ok(Flow::Break { target, value });
            },
            Ok(Flow::Value(v)) => v,
        };
        proof {
            lemma_values_view_push(computed@, v);
        }
        computed.push(v);
        i += 1;
    }
    let ghost vs = values_view_all(computed@);
    let ghost s1 = state_of(*frame, *runtime);
    proof {
        lemma_values_view_all(computed@);
        assert(let_values_spec(*bindings, i as int, *module, env, s1, depth as nat, vs) == (Outcome::<Seq<ValueV>>::Done(vs), s1));
        assert(eval_spec(*expr, *module, env, st0, depth as nat) == match let_stores_spec(*bindings, 0, vs, s1.locals) {
            Err(partial) => (Outcome::<ValueV>::Failed(EvalFailure::Internal), with_locals(s1, partial)),
            Ok(locals) => eval_spec(**body, *module, env, with_locals(s1, locals), depth as nat),
        });
    }
    let ghost f1 = *frame;
    let stored = store_bindings(bindings, &computed, frame);
    proof {
        lemma_effects_trans(*old(frame), f1, *frame, *old(runtime), *runtime, *runtime);
    }
    match stored {
        Ok(()) => {},
        Err(err) => {
            return Err(err);
        },
    }
    proof {
        assert(decreases_to!(expr.kind => (expr.kind)->Let_body));
    }
    let ghost f1 = *frame;
    let ghost r1 = *runtime;
    let res = eval_expr(body, frame, module, runtime, depth);
    proof {
        lemma_effects_trans(*old(frame), f1, *frame, *old(runtime), r1, *runtime);
    }
    res
}

/// Stores `values[k]` into the target of `bindings[k]`, for each `k` in
/// order, as [`let_stores_spec`] says; stops at the first missing slot.
fn store_bindings(bindings: &Vec<IrLetBinding>, values: &Vec<Value>, frame: &mut Frame) -> (r: Result<(), LispError>)
    requires
        values@.len() == bindings@.len(),
    ensures
        final(frame).captures@ == old(frame).captures@,
        final(frame).locals@.len() == old(frame).locals@.len(),
        match let_stores_spec(*bindings, 0, values_view_all(values@), slots_view(old(frame).locals@)) {
            Ok(l) => r is Ok && slots_view(final(frame).locals@) == l,
            Err(l) => r matches Err(LispError::Eval(EvalError::Io { .. })) && slots_view(final(frame).locals@) == l,
        },
{
    let ghost vs = values_view_all(values@);
    proof {
        lemma_values_view_all(values@);
    }
    let mut k: usize = 0;
    while k < bindings.len()
        invariant
            k <= bindings@.len(),
            values@.len() == bindings@.len(),
            vs == values_view_all(values@),
            vs.len() == values@.len(),
            forall|q: int| 0 <= q < values@.len() ==> #[trigger] vs[q] == values@[q]@,
            frame.captures@ == old(frame).captures@,
            frame.locals@.len() == old(frame).locals@.len(),
            let_stores_spec(*bindings, 0, vs, slots_view(old(frame).locals@)) == let_stores_spec(*bindings, k as int, vs, slots_view(frame.locals@)),
        decreases bindings@.len() - k,
    {
        let v = values[k].copy();
        let ghost before = frame.locals@;
        let stored = frame.store_local(bindings[k].target, v);
        match stored {
            Ok(()) => {
                proof {
                    lemma_slots_view_update(before, bindings@[k as int].target.0 as int, v);
                }
            },
            Err(err) => {
                return Err(err);
            },
        }
        k += 1;
    }
    Ok(())
}

/// The values of the capture sources, read from `frame`, as
/// [`capture_values_spec`] says.
fn load_captures(captures: &Vec<IrCaptureSource>, frame: &Frame) -> (r: Result<Vec<Value>, LispError>)
    ensures
        match capture_values_spec(captures@, 0, slots_view(frame.locals@), values_view_all(frame.captures@), Seq::empty()) {
            Some(vs) => r matches Ok(v) && values_view_all(v@) == vs,
            None => r matches Err(LispError::Eval(EvalError::Io { .. })),
        },
{
    let ghost locals = slots_view(frame.locals@);
    let ghost caps = values_view_all(frame.captures@);
    proof {
        lemma_values_view_all(frame.captures@);
    }
    let mut values: Vec<Value> = Vec::new();
    proof {
        lemma_values_view_all(values@);
        assert(values_view_all(values@) =~= Seq::<ValueV>::empty());
    }
    let mut i: usize = 0;
    while i < captures.len()
        invariant
            i <= captures@.len(),
            locals == slots_view(frame.locals@),
            caps == values_view_all(frame.captures@),
            caps.len() == frame.captures@.len(),
            forall|q: int| 0 <= q < frame.captures@.len() ==> #[trigger] caps[q] == frame.captures@[q]@,
            capture_values_spec(captures@, 0, locals, caps, Seq::empty()) == capture_values_spec(captures@, i as int, locals, caps, values_view_all(values@)),
        decreases captures@.len() - i,
    {
        let value = match captures[i] {
            IrCaptureSource::Local(slot) => frame.load_local(slot),
            IrCaptureSource::Capture(slot) => frame.load_capture(slot),
        };
        match value {
            Ok(v) => {
                proof {
                    lemma_values_view_push(values@, v);
                }
                values.push(v);
            },
            Err(err) => {
                return Err(err);
            },
        }
        i += 1;
    }
    Ok(values)
}

/// A closure over the current values of its capture sources.
fn eval_make_closure(expr: &IrExpr, frame: &mut Frame, module: &IrModule, runtime: &mut Runtime, depth: u64) -> (r: Result<Flow, LispError>)
    requires
        expr.kind is MakeClosure,
    ensures
        evaluated(r, *expr, *module, *old(frame), *final(frame), *old(runtime), *final(runtime), depth),
{
    proof {
        lemma_effects_refl(*frame, *runtime);
        lemma_values_view_all(frame.captures@);
    }
    let (function, captures) = match &expr.kind {
        IrExprKind::MakeClosure { function, captures } => (function, captures),
        _ => {
            return Err(internal("internal IR error: not a closure"));
        },
    };
    let values = match load_captures(captures, frame) {
        Ok(v) => v,
        Err(err) => {
            return Err(err);
        },
    };
    Ok(Flow::Value(Value::Closure(Rc::new(Closure { function: *function, captures: values }))))
}

/// A call: the callee, then the arguments in order, then the application.
fn eval_call(expr: &IrExpr, frame: &mut Frame, module: &IrModule, runtime: &mut Runtime, depth: u64) -> (r: Result<Flow, LispError>)
    requires
        expr.kind is Call,
    ensures
        evaluated(r, *expr, *module, *old(frame), *final(frame), *old(runtime), *final(runtime), depth),
    decreases depth, 1int, expr, 0int,
{
    proof {
        lemma_effects_refl(*frame, *runtime);
        assert(decreases_to!(*expr => expr.kind));
    }
    let ghost env = env_of(*frame, *runtime);
    let (callee, arguments) = match &expr.kind {
        IrExprKind::Call { callee, arguments } => (callee, arguments),
        _ => {
            return Err(internal("internal IR error: not a call"));
        },
    };
    let res = eval_expr(callee, frame, module, runtime, depth);
    let callee_value = match res {
        Err(err) => {
            return Err(err);
        },
        Ok(Flow::Break { target, value }) => {
            return Ok(Flow::Break { target, value });
        },
        Ok(Flow::Value(v)) => v,
    };
    let ghost s1 = state_of(*frame, *runtime);
    let ghost target = eval_spec(*expr, *module, env, state_of(*old(frame), *old(runtime)), depth as nat);
    proof {
        assert(target == ({
            let (oa, s2) = arguments_spec(*arguments, 0, *module, env, s1, depth as nat, Seq::empty());
            match oa {
                Outcome::Done(args) => apply_spec(callee_value@, args, *module, env.globals, env.max_iterations, s2, depth as nat),
                Outcome::Broke(t, v) => (Outcome::Broke(t, v), s2),
                Outcome::Failed(fl) => (Outcome::Failed(fl), s2),
            }
        }));
    }
    let mut arg_values: Vec<Value> = Vec::new();
    proof {
        lemma_values_view_all(arg_values@);
        assert(values_view_all(arg_values@) =~= Seq::<ValueV>::empty());
    }
    let mut i: usize = 0;
    while i < arguments.len()
        invariant
            expr.kind == (IrExprKind::Call { callee: *callee, arguments: *arguments }),
            i <= arguments@.len(),
            effects(*old(frame), *frame, *old(runtime), *runtime),
            env == env_of(*old(frame), *old(runtime)),
            env == env_of(*frame, *runtime),
            target == eval_spec(*expr, *module, env, state_of(*old(frame), *old(runtime)), depth as nat),
            target == ({
                let (oa, s2) = arguments_spec(*arguments, 0, *module, env, s1, depth as nat, Seq::empty());
                match oa {
                    Outcome::Done(args) => apply_spec(callee_value@, args, *module, env.globals, env.max_iterations, s2, depth as nat),
                    Outcome::Broke(t, v) => (Outcome::Broke(t, v), s2),
                    Outcome::Failed(fl) => (Outcome::Failed(fl), s2),
                }
            }),
            arguments_spec(*arguments, 0, *module, env, s1, depth as nat, Seq::empty())
                == arguments_spec(*arguments, i as int, *module, env, state_of(*frame, *runtime), depth as nat, values_view_all(arg_values@)),
        decreases arguments@.len() - i,
    {
        proof {
            assert(decreases_to!(expr.kind => (expr.kind)->arguments));
            assert(decreases_to!(*arguments => arguments[i as int]));
        }
        let ghost f1 = *frame;
        let ghost r1 = *runtime;
        let res = eval_expr(&arguments[i], frame, module, runtime, depth);
        proof {
            lemma_effects_trans(*old(frame), f1, *frame, *old(runtime), r1, *runtime);
        }
        let v = match res {
            Err(err) => {
                return Err(err);
            },
            Ok(Flow::Break { target, value }) => {
                return Ok(Flow::Break { target, value });
            },
            Ok(Flow::Value(v)) => v,
        };
        proof {
            lemma_values_view_push(arg_values@, v);
        }
        arg_values.push(v);
        i += 1;
    }
    let ghost r1 = *runtime;
    let ghost s2 = state_of(*frame, *runtime);
    let applied = apply(callee_value, arg_values, module, runtime, depth, Ghost(*expr));
    proof {
        lemma_effects_trans(*old(frame), *frame, *frame, *old(runtime), r1, *runtime);
        lemma_apply_keeps_locals(callee_value@, values_view_all(arg_values@), *module, env.globals, env.max_iterations, s2, depth as nat);
    }
    match applied {
        Ok(v) => Ok(Flow::Value(v)),
        Err(err) => Err(err),
    }
}

/// `if`: the condition must be a boolean; then one branch runs.
fn eval_if(expr: &IrExpr, frame: &mut Frame, module: &IrModule, runtime: &mut Runtime, depth: u64) -> (r: Result<Flow, LispError>)
    requires
        expr.kind is If,
    ensures
        evaluated(r, *expr, *module, *old(frame), *final(frame), *old(runtime), *final(runtime), depth),
    decreases depth, 1int, expr, 0int,
{
    proof {
        lemma_effects_refl(*frame, *runtime);
        assert(decreases_to!(*expr => expr.kind));
    }
    let (condition, then_expr, else_expr) = match &expr.kind {
        IrExprKind::If { condition, then_expr, else_expr } => (condition, then_expr, else_expr),
        _ => {
            return Err(internal("internal IR error: not an if"));
        },
    };
    let res = eval_expr(condition, frame, module, runtime, depth);
    let cond = match res {
        Err(err) => {
            return Err(err);
        },
        Ok(Flow::Break { target, value }) => {
            return Ok(Flow::Break { target, value });
        },
        Ok(Flow::Value(v)) => v,
    };
    let branch: &IrExpr = match cond {
        Value::Bool(true) => then_expr,
        Value::Bool(false) => else_expr,
        other => {
            return Err(LispError::Eval(EvalError::NonBooleanCondition(other.kind_name())));
        },
    };
    let ghost f1 = *frame;
    let ghost r1 = *runtime;
    let res = eval_expr(branch, frame, module, runtime, depth);
    proof {
        lemma_effects_trans(*old(frame), f1, *frame, *old(runtime), r1, *runtime);
    }
    res
}

/// `break`: the value (unit when absent) travels to the target loop.
fn eval_break(expr: &IrExpr, frame: &mut Frame, module: &IrModule, runtime: &mut Runtime, depth: u64) -> (r: Result<Flow, LispError>)
    requires
        expr.kind is Break,
    ensures
        evaluated(r, *expr, *module, *old(frame), *final(frame), *old(runtime), *final(runtime), depth),
    decreases depth, 1int, expr, 0int,
{
    proof {
        lemma_effects_refl(*frame, *runtime);
        assert(decreases_to!(*expr => expr.kind));
    }
    let (target, value) = match &expr.kind {
        IrExprKind::Break { target, value } => (target, value),
        _ => {
            return Err(internal("internal IR error: not a break"));
        },
    };
    let v = match value {
        Some(e) => {
            let res = eval_expr(e, frame, module, runtime, depth);
            match res {
                Err(err) => {
                    return Err(err);
                },
                Ok(Flow::Break { target, value }) => {
                    return Ok(Flow::Break { target, value });
                },
                Ok(Flow::Value(v)) => v,
            }
        },
        None => Value::Unit,
    };
    Ok(Flow::Break { target: *target, value: v })
}

/// A sequence or a `do`: the items run in order; a sequence gives unit, a
/// `do` the value of its last item (unit when it has none).
fn eval_items(expr: &IrExpr, frame: &mut Frame, module: &IrModule, runtime: &mut Runtime, depth: u64) -> (r: Result<Flow, LispError>)
    requires
        expr.kind is Sequence || expr.kind is Do,
    ensures
        evaluated(r, *expr, *module, *old(frame), *final(frame), *old(runtime), *final(runtime), depth),
    decreases depth, 1int, expr, 0int,
{
    proof {
        lemma_effects_refl(*frame, *runtime);
        assert(decreases_to!(*expr => expr.kind));
    }
    let ghost env = env_of(*frame, *runtime);
    let ghost st0 = state_of(*frame, *runtime);
    let items = match &expr.kind {
        IrExprKind::Sequence(items) => items,
        IrExprKind::Do(items) => items,
        _ => {
            return Err(internal("internal IR error: not a sequence"));
        },
    };
    let mut last = Value::Unit;
    let mut i: usize = 0;
    while i < items.len()
        invariant
            expr.kind == IrExprKind::Sequence(*items) || expr.kind == IrExprKind::Do(*items),
            i <= items@.len(),
            effects(*old(frame), *frame, *old(runtime), *runtime),
            env == env_of(*old(frame), *old(runtime)),
            env == env_of(*frame, *runtime),
            st0 == state_of(*old(frame), *old(runtime)),
            items_spec(*items, 0, *module, env, st0, depth as nat, ValueV::Unit)
                == items_spec(*items, i as int, *module, env, state_of(*frame, *runtime), depth as nat, last@),
        decreases items@.len() - i,
    {
        proof {
            if expr.kind is Sequence {
                assert(decreases_to!(expr.kind => (expr.kind)->Sequence_0));
            } else {
                assert(decreases_to!(expr.kind => (expr.kind)->Do_0));
            }
            assert(decreases_to!(*items => items[i as int]));
        }
        let ghost f1 = *frame;
        let ghost r1 = *runtime;
        let res = eval_expr(&items[i], frame, module, runtime, depth);
        proof {
            lemma_effects_trans(*old(frame), f1, *frame, *old(runtime), r1, *runtime);
        }
        let v = match res {
            Err(err) => {
                return Err(err);
            },
            Ok(Flow::Break { target, value }) => {
                return Ok(Flow::Break { target, value });
            },
            Ok(Flow::Value(v)) => v,
        };
        last = v;
        i += 1;
    }
    match &expr.kind {
        IrExprKind::Do(_) => Ok(Flow::Value(last)),
        _ => Ok(Flow::Value(Value::Unit)),
    }
}

fn datum_value(d: Datum) -> (r: Flow)
    ensures
        r matches Flow::Value(Value::Datum(x)) && (*x)@ == d@,
{
    Flow::Value(Value::Datum(Rc::new(d)))
}

/// An outcome that gives a datum, as one that gives the datum's value.
pub open spec fn datum_outcome(o: Outcome<DatumV>) -> Outcome<ValueV> {
    match o {
        Outcome::Done(d) => Outcome::Done(ValueV::Datum(d)),
        Outcome::Broke(t, v) => Outcome::Broke(t, v),
        Outcome::Failed(f) => Outcome::Failed(f),
    }
}

/// Builds the datum a quasiquote template denotes, evaluating its
/// unquoted parts, exactly as [`quasi_spec`] says.
fn eval_quasi_datum(template: &IrQuasiDatum, frame: &mut Frame, module: &IrModule, runtime: &mut Runtime, depth: u64) -> (r: Result<Flow, LispError>)
    ensures
        effects(*old(frame), *final(frame), *old(runtime), *final(runtime)),
        flow_matches(r, datum_outcome(quasi_spec(*template, *module, env_of(*old(frame), *old(runtime)), state_of(*old(frame), *old(runtime)), depth as nat).0)),
        state_of(*final(frame), *final(runtime)) == quasi_spec(*template, *module, env_of(*old(frame), *old(runtime)), state_of(*old(frame), *old(runtime)), depth as nat).1,
    decreases depth, 1int, template, 1int,
{
    proof {
        lemma_effects_refl(*frame, *runtime);
    }
    let ghost env = env_of(*frame, *runtime);
    let ghost st0 = state_of(*frame, *runtime);
    match template {
        IrQuasiDatum::Datum(datum) => Ok(datum_value(datum.copy())),
        IrQuasiDatum::List(items) => {
            let mut values: Vec<Datum> = Vec::new();
            proof {
                lemma_datums_view_all(values@);
                assert(datums_view(values@, values@.len() as int) =~= Seq::<DatumV>::empty());
            }
            let mut i: usize = 0;
            while i < items.len()
                invariant
                    *template == IrQuasiDatum::List(*items),
                    i <= items@.len(),
                    effects(*old(frame), *frame, *old(runtime), *runtime),
                    env == env_of(*old(frame), *old(runtime)),
                    env == env_of(*frame, *runtime),
                    st0 == state_of(*old(frame), *old(runtime)),
                    quasi_items_spec(*items, 0, *module, env, st0, depth as nat, Seq::empty())
                        == quasi_items_spec(*items, i as int, *module, env, state_of(*frame, *runtime), depth as nat, datums_view(values@, values@.len() as int)),
                decreases items@.len() - i,
            {
                proof {
                    assert(decreases_to!(*template => (*template)->List_0));
                    assert(decreases_to!(*items => items[i as int]));
                }
                let ghost f1 = *frame;
                let ghost r1 = *runtime;
                if let IrQuasiDatum::Splice(e) = &items[i] {
                    proof {
                        assert(decreases_to!(items[i as int] => (items[i as int])->Splice_0));
                    }
                    let res = eval_expr(e, frame, module, runtime, depth);
                    proof {
                        lemma_effects_trans(*old(frame), f1, *frame, *old(runtime), r1, *runtime);
                    }
                    let spliced = match res {
                        Err(err) => {
                            return Err(err);
                        },
                        Ok(Flow::Break { target, value }) => {
                            return Ok(Flow::Break { target, value });
                        },
                        Ok(Flow::Value(v)) => v,
                    };
                    match spliced {
                        Value::Datum(d) => match &*d {
                            Datum::List(xs) => {
                                let ghost acc = datums_view(values@, values@.len() as int);
                                let mut k: usize = 0;
                                while k < xs.len()
                                    invariant
                                        k <= xs@.len(),
                                        datums_view(values@, values@.len() as int) == acc + datums_view(xs@, k as int),
                                    decreases xs@.len() - k,
                                {
                                    let c = xs[k].copy();
                                    proof {
                                        lemma_datums_view_push(values@, c);
                                        assert(acc + datums_view(xs@, k + 1) =~= (acc + datums_view(xs@, k as int)).push(c@));
                                    }
                                    values.push(c);
                                    k += 1;
                                }
                            },
                            _ => {
                                return Err(internal("internal IR error: unquote-splicing of a non-list"));
                            },
                        },
                        _ => {
                            return Err(internal("internal IR error: unquote-splicing of a non-list"));
                        },
                    }
                } else {
                    let res = eval_quasi_datum(&items[i], frame, module, runtime, depth);
                    proof {
                        lemma_effects_trans(*old(frame), f1, *frame, *old(runtime), r1, *runtime);
                    }
                    let item = match res {
                        Err(err) => {
                            return Err(err);
                        },
                        Ok(Flow::Break { target, value }) => {
                            return Ok(Flow::Break { target, value });
                        },
                        Ok(Flow::Value(v)) => v,
                    };
                    match item {
                        Value::Datum(d) => {
                            let c = d.copy();
                            proof {
                                lemma_datums_view_push(values@, c);
                            }
                            values.push(c);
                        },
                        _ => {
                            return Err(internal("internal IR error: quasiquote produced a non-datum"));
                        },
                    }
                }
                i += 1;
            }
            Ok(datum_value(Datum::List(values)))
        },
        IrQuasiDatum::Evaluate(e) => {
            let res = eval_expr(e, frame, module, runtime, depth);
            let v = match res {
                Err(err) => {
                    return Err(err);
                },
                Ok(Flow::Break { target, value }) => {
                    return Ok(Flow::Break { target, value });
                },
                Ok(Flow::Value(v)) => v,
            };
            match value_to_datum(v) {
                Ok(d) => Ok(datum_value(d)),
                Err(err) => Err(LispError::Eval(err)),
            }
        },
        IrQuasiDatum::Splice(_) => Err(internal("internal IR error: unquote-splicing outside a list")),
    }
}

/// Continues a `break` that does not target `loop_id`; turns one that does
/// into the loop's value.
fn finish_break(loop_id: LoopId, target: LoopId, value: Value) -> (r: Flow)
    ensures
        target == loop_id ==> r == Flow::Value(value),
        target != loop_id ==> r == (Flow::Break { target, value }),
{
    if target == loop_id {
        Flow::Value(value)
    } else {
        Flow::Break { target, value }
    }
}

/// `range_loop`: the bounds evaluate once, then the body runs for each
/// value of the variable from `start` towards `end` by `step`.
fn eval_range_loop(expr: &IrExpr, frame: &mut Frame, module: &IrModule, runtime: &mut Runtime, depth: u64) -> (r: Result<Flow, LispError>)
    requires
        expr.kind is RangeLoop,
    ensures
        evaluated(r, *expr, *module, *old(frame), *final(frame), *old(runtime), *final(runtime), depth),
    decreases depth, 1int, expr, 0int,
{
    proof {
        lemma_effects_refl(*frame, *runtime);
        assert(decreases_to!(*expr => expr.kind));
    }
    let ghost env = env_of(*frame, *runtime);
    let ghost st0 = state_of(*frame, *runtime);
    proof {
        assert(eval_spec(*expr, *module, env, st0, depth as nat) == range_loop_spec(*expr, *module, env, st0, depth as nat));
    }
    let (loop_id, variable, start, end, step, body) = match &expr.kind {
        IrExprKind::RangeLoop { loop_id, variable, start, end, step, body } => (loop_id, variable, start, end, step, body),
        _ => {
            return Err(internal("internal IR error: not a range loop"));
        },
    };
    let res = eval_expr(start, frame, module, runtime, depth);
    let start_value = match res {
        Err(err) => {
            return Err(err);
        },
        Ok(Flow::Break { target, value }) => {
            return Ok(Flow::Break { target, value });
        },
        Ok(Flow::Value(v)) => v,
    };
    let start_int = match require_int_value(start_value) {
        Ok(n) => n,
        Err(err) => {
            return Err(err);
        },
    };
    let ghost f1 = *frame;
    let ghost r1 = *runtime;
    let res = eval_expr(end, frame, module, runtime, depth);
    proof {
        lemma_effects_trans(*old(frame), f1, *frame, *old(runtime), r1, *runtime);
    }
    let end_value = match res {
        Err(err) => {
            return Err(err);
        },
        Ok(Flow::Break { target, value }) => {
            return Ok(Flow::Break { target, value });
        },
        Ok(Flow::Value(v)) => v,
    };
    let end_int = match require_int_value(end_value) {
        Ok(n) => n,
        Err(err) => {
            return Err(err);
        },
    };
    let ghost f1 = *frame;
    let ghost r1 = *runtime;
    let res = eval_expr(step, frame, module, runtime, depth);
    proof {
        lemma_effects_trans(*old(frame), f1, *frame, *old(runtime), r1, *runtime);
    }
    let step_value = match res {
        Err(err) => {
            return Err(err);
        },
        Ok(Flow::Break { target, value }) => {
            return Ok(Flow::Break { target, value });
        },
        Ok(Flow::Value(v)) => v,
    };
    let step_int = match require_int_value(step_value) {
        Ok(n) => n,
        Err(err) => {
            return Err(err);
        },
    };
    if step_int == 0 {
        return Err(LispError::Eval(EvalError::ZeroLoopStep));
    }
    let max = runtime.limits.max_loop_iterations;
    let mut current = start_int;
    let mut iterations: u64 = 0;
    loop
        invariant
            expr.kind == (IrExprKind::RangeLoop { loop_id: *loop_id, variable: *variable, start: *start, end: *end, step: *step, body: *body }),
            effects(*old(frame), *frame, *old(runtime), *runtime),
            env == env_of(*old(frame), *old(runtime)),
            env == env_of(*frame, *runtime),
            st0 == state_of(*old(frame), *old(runtime)),
            max == runtime.limits.max_loop_iterations,
            max == env.max_iterations,
            iterations <= max,
            step_int != 0,
            eval_spec(*expr, *module, env, st0, depth as nat)
                == range_iter_spec(*expr, current, end_int, step_int, iterations, *module, env, state_of(*frame, *runtime), depth as nat),
        decreases max - iterations,
    {
        let should_continue = if step_int > 0 { current < end_int } else { current > end_int };
        if !should_continue {
            return Ok(Flow::Value(Value::Unit));
        }
        if iterations == max {
            return Err(LispError::Eval(EvalError::LoopCounterOverflow));
        }
        iterations = iterations + 1;
        let ghost f0 = *frame;
        let stored = frame.store_local(*variable, Value::Int(current));
        proof {
            lemma_effects_trans(*old(frame), f0, *frame, *old(runtime), *runtime, *runtime);
            if (variable.0 as int) < f0.locals@.len() {
                lemma_slots_view_update(f0.locals@, variable.0 as int, Value::Int(current));
            }
        }
        match stored {
            Ok(()) => {},
            Err(err) => {
                return Err(err);
            },
        }
        proof {
            assert(decreases_to!(*expr => expr.kind));
            assert(decreases_to!(expr.kind => (expr.kind)->RangeLoop_body));
        }
        let ghost f1 = *frame;
        let ghost r1 = *runtime;
        let res = eval_expr(body, frame, module, runtime, depth);
        proof {
            lemma_effects_trans(*old(frame), f1, *frame, *old(runtime), r1, *runtime);
        }
        match res {
            Err(err) => {
                return Err(err);
            },
            Ok(Flow::Break { target, value }) => {
                return Ok(finish_break(*loop_id, target, value));
            },
            Ok(Flow::Value(_)) => {},
        }
        current = match current.checked_add(step_int) {
            Some(c) => c,
            None => {
                return Err(LispError::Eval(EvalError::LoopCounterOverflow));
            },
        };
    }
}

/// The `(slot, value)` pairs of a state loop's updates, viewed.
spec fn pairs_view(ps: Seq<(LocalSlot, Value)>) -> Seq<(LocalSlot, ValueV)> {
    ps.map_values(|p: (LocalSlot, Value)| (p.0, p.1@))
}

/// The new values of a state loop's updates, each paired with its
/// state's slot, as [`update_values_spec`] says; a travelling `break` is
/// handed back as the inner error.
fn eval_updates(updates: &Vec<IrStateUpdate>, frame: &mut Frame, module: &IrModule, runtime: &mut Runtime, depth: u64) -> (r: Result<Result<Vec<(LocalSlot, Value)>, Flow>, LispError>)
    ensures
        effects(*old(frame), *final(frame), *old(runtime), *final(runtime)),
        match update_values_spec(*updates, 0, *module, env_of(*old(frame), *old(runtime)), state_of(*old(frame), *old(runtime)), depth as nat, Seq::empty()).0 {
            Outcome::Done(ps) => r matches Ok(Ok(v)) && pairs_view(v@) == ps,
            Outcome::Broke(t, v) => r matches Ok(Err(Flow::Break { target, value })) && target == t && value@ == v,
            Outcome::Failed(f) => r matches Err(LispError::Eval(e)) && eval_error_is(f, e),
        },
        state_of(*final(frame), *final(runtime)) == update_values_spec(*updates, 0, *module, env_of(*old(frame), *old(runtime)), state_of(*old(frame), *old(runtime)), depth as nat, Seq::empty()).1,
    decreases depth, 1int, updates, 0int,
{
    proof {
        lemma_effects_refl(*frame, *runtime);
    }
    let ghost env = env_of(*frame, *runtime);
    let ghost st0 = state_of(*frame, *runtime);
    let mut computed: Vec<(LocalSlot, Value)> = Vec::new();
    proof {
        assert(pairs_view(computed@) =~= Seq::<(LocalSlot, ValueV)>::empty());
    }
    let mut u: usize = 0;
    while u < updates.len()
        invariant
            u <= updates@.len(),
            effects(*old(frame), *frame, *old(runtime), *runtime),
            env == env_of(*old(frame), *old(runtime)),
            env == env_of(*frame, *runtime),
            st0 == state_of(*old(frame), *old(runtime)),
            update_values_spec(*updates, 0, *module, env, st0, depth as nat, Seq::empty())
                == update_values_spec(*updates, u as int, *module, env, state_of(*frame, *runtime), depth as nat, pairs_view(computed@)),
        decreases updates@.len() - u,
    {
        proof {
            assert(decreases_to!(*updates => updates[u as int]));
            assert(decreases_to!(updates[u as int] => updates[u as int].value));
        }
        let ghost f1 = *frame;
        let ghost r1 = *runtime;
        let res = eval_expr(&updates[u].value, frame, module, runtime, depth);
        proof {
            lemma_effects_trans(*old(frame), f1, *frame, *old(runtime), r1, *runtime);
        }
        let v = match res {
            Err(err) => {
                return Err(err);
            },
            Ok(Flow::Break { target, value }) => {
                return Ok(Err(Flow::Break { target, value }));
            },
            Ok(Flow::Value(v)) => v,
        };
        let ghost before = computed@;
        computed.push((updates[u].target, v));
        proof {
            assert(pairs_view(computed@) =~= pairs_view(before).push((updates@[u as int].target, v@)));
        }
        u += 1;
    }
    Ok(Ok(computed))
}

/// Stores each `(slot, value)` of `pairs` in order, as
/// [`store_pairs_spec`] says; stops at the first missing slot.
fn store_pairs(pairs: &Vec<(LocalSlot, Value)>, frame: &mut Frame) -> (r: Result<(), LispError>)
    ensures
        final(frame).captures@ == old(frame).captures@,
        final(frame).locals@.len() == old(frame).locals@.len(),
        match store_pairs_spec(pairs_view(pairs@), slots_view(old(frame).locals@)) {
            Ok(l) => r is Ok && slots_view(final(frame).locals@) == l,
            Err(l) => r matches Err(LispError::Eval(EvalError::Io { .. })) && slots_view(final(frame).locals@) == l,
        },
{
    let ghost pv = pairs_view(pairs@);
    proof {
        assert(pv.subrange(0, pv.len() as int) =~= pv);
    }
    let mut j: usize = 0;
    while j < pairs.len()
        invariant
            j <= pairs@.len(),
            pv == pairs_view(pairs@),
            pv.len() == pairs@.len(),
            frame.captures@ == old(frame).captures@,
            frame.locals@.len() == old(frame).locals@.len(),
            store_pairs_spec(pv, slots_view(old(frame).locals@)) == store_pairs_spec(pv.subrange(j as int, pv.len() as int), slots_view(frame.locals@)),
        decreases pairs@.len() - j,
    {
        let target = pairs[j].0;
        let value = pairs[j].1.copy();
        let ghost before = frame.locals@;
        proof {
            assert(pv[j as int] == (target, value@));
            assert(pv.subrange(j as int, pv.len() as int).drop_first() =~= pv.subrange(j + 1, pv.len() as int));
        }
        let stored = frame.store_local(target, value);
        match stored {
            Ok(()) => {
                proof {
                    lemma_slots_view_update(before, target.0 as int, value);
                }
            },
            Err(err) => {
                return Err(err);
            },
        }
        j += 1;
    }
    proof {
        assert(pv.subrange(j as int, pv.len() as int) =~= Seq::<(LocalSlot, ValueV)>::empty());
    }
    Ok(())
}

/// Stores the arguments of a call into the first slots of the callee's
/// fresh frame, in order; fails if the frame has fewer slots.
fn store_arguments(arguments: &Vec<Value>, frame: &mut Frame) -> (r: Result<(), LispError>)
    requires
        old(frame).locals@.len() <= u32::MAX,
    ensures
        final(frame).captures@ == old(frame).captures@,
        final(frame).locals@.len() == old(frame).locals@.len(),
        arguments@.len() > old(frame).locals@.len() ==> r matches Err(LispError::Eval(EvalError::Io { .. })),
        arguments@.len() <= old(frame).locals@.len() ==> r is Ok && forall|k: int| 0 <= k < old(frame).locals@.len() ==>
            #[trigger] slots_view(final(frame).locals@)[k] == if k < arguments@.len() { Some(arguments@[k]@) } else { slots_view(old(frame).locals@)[k] },
{
    let mut i: usize = 0;
    while i < arguments.len()
        invariant
            i <= arguments@.len(),
            i <= old(frame).locals@.len(),
            old(frame).locals@.len() <= u32::MAX,
            frame.captures@ == old(frame).captures@,
            frame.locals@.len() == old(frame).locals@.len(),
            forall|k: int| 0 <= k < old(frame).locals@.len() ==>
                #[trigger] slots_view(frame.locals@)[k] == if k < i { Some(arguments@[k]@) } else { slots_view(old(frame).locals@)[k] },
        decreases arguments@.len() - i,
    {
        if i >= frame.locals.len() {
            return Err(internal_error("invalid local slot", i as u32));
        }
        let ghost before = frame.locals@;
        let stored = frame.store_local(LocalSlot(i as u32), arguments[i].copy());
        match stored {
            Ok(()) => {
                proof {
                    lemma_slots_view_update(before, i as int, arguments@[i as int]);
                }
            },
            Err(err) => {
                return Err(err);
            },
        }
        i += 1;
    }
    Ok(())
}

/// `state_loop`: initialise the states, then while the condition holds run
/// the body and update every state in parallel.
fn eval_state_loop(expr: &IrExpr, frame: &mut Frame, module: &IrModule, runtime: &mut Runtime, depth: u64) -> (r: Result<Flow, LispError>)
    requires
        expr.kind is StateLoop,
    ensures
        evaluated(r, *expr, *module, *old(frame), *final(frame), *old(runtime), *final(runtime), depth),
    decreases depth, 1int, expr, 0int,
{
    proof {
        lemma_effects_refl(*frame, *runtime);
        assert(decreases_to!(*expr => expr.kind));
    }
    let ghost env = env_of(*frame, *runtime);
    let ghost st0 = state_of(*frame, *runtime);
    proof {
        assert(eval_spec(*expr, *module, env, st0, depth as nat) == state_loop_spec(*expr, *module, env, st0, depth as nat));
    }
    let (loop_id, states, condition, updates, body) = match &expr.kind {
        IrExprKind::StateLoop { loop_id, states, condition, updates, body } => (loop_id, states, condition, updates, body),
        _ => {
            return Err(internal("internal IR error: not a state loop"));
        },
    };
    let mut i: usize = 0;
    while i < states.len()
        invariant
            expr.kind == (IrExprKind::StateLoop { loop_id: *loop_id, states: *states, condition: *condition, updates: *updates, body: *body }),
            i <= states@.len(),
            effects(*old(frame), *frame, *old(runtime), *runtime),
            env == env_of(*old(frame), *old(runtime)),
            env == env_of(*frame, *runtime),
            st0 == state_of(*old(frame), *old(runtime)),
            eval_spec(*expr, *module, env, st0, depth as nat) == state_loop_spec(*expr, *module, env, st0, depth as nat),
            state_inits_spec(*states, 0, *module, env, st0, depth as nat)
                == state_inits_spec(*states, i as int, *module, env, state_of(*frame, *runtime), depth as nat),
        decreases states@.len() - i,
    {
        proof {
            assert(decreases_to!(expr.kind => (expr.kind)->states));
            assert(decreases_to!(*states => states[i as int]));
            assert(decreases_to!(states[i as int] => states[i as int].initializer));
        }
        let ghost f1 = *frame;
        let ghost r1 = *runtime;
        let res = eval_expr(&states[i].initializer, frame, module, runtime, depth);
        proof {
            lemma_effects_trans(*old(frame), f1, *frame, *old(runtime), r1, *runtime);
        }
        let v = match res {
            Err(err) => {
                return Err(err);
            },
            Ok(Flow::Break { target, value }) => {
                return Ok(Flow::Break { target, value });
            },
            Ok(Flow::Value(v)) => v,
        };
        let ghost f0 = *frame;
        let stored = frame.store_local(states[i].target, v);
        proof {
            lemma_effects_trans(*old(frame), f0, *frame, *old(runtime), *runtime, *runtime);
            if (states@[i as int].target.0 as int) < f0.locals@.len() {
                lemma_slots_view_update(f0.locals@, states@[i as int].target.0 as int, v);
            }
        }
        match stored {
            Ok(()) => {},
            Err(err) => {
                return Err(err);
            },
        }
        i += 1;
    }
    let max = runtime.limits.max_loop_iterations;
    let mut iterations: u64 = 0;
    loop
        invariant
            expr.kind == (IrExprKind::StateLoop { loop_id: *loop_id, states: *states, condition: *condition, updates: *updates, body: *body }),
            effects(*old(frame), *frame, *old(runtime), *runtime),
            env == env_of(*old(frame), *old(runtime)),
            env == env_of(*frame, *runtime),
            st0 == state_of(*old(frame), *old(runtime)),
            max == runtime.limits.max_loop_iterations,
            max == env.max_iterations,
            iterations <= max,
            eval_spec(*expr, *module, env, st0, depth as nat)
                == state_iter_spec(*expr, iterations, *module, env, state_of(*frame, *runtime), depth as nat),
        decreases max - iterations,
    {
        proof {
            assert(decreases_to!(*expr => expr.kind));
            assert(decreases_to!(expr.kind => (expr.kind)->StateLoop_condition));
            assert(decreases_to!(expr.kind => (expr.kind)->StateLoop_body));
        }
        let ghost f1 = *frame;
        let ghost r1 = *runtime;
        let res = eval_expr(condition, frame, module, runtime, depth);
        proof {
            lemma_effects_trans(*old(frame), f1, *frame, *old(runtime), r1, *runtime);
        }
        let cond = match res {
            Err(err) => {
                return Err(err);
            },
            Ok(Flow::Break { target, value }) => {
                return Ok(Flow::Break { target, value });
            },
            Ok(Flow::Value(v)) => v,
        };
        match cond {
            Value::Bool(false) => {
                return Ok(Flow::Value(Value::Unit));
            },
            Value::Bool(true) => {},
            other => {
                return Err(LispError::Eval(EvalError::NonBooleanCondition(other.kind_name())));
            },
        }
        if iterations == max {
            return Err(LispError::Eval(EvalError::LoopCounterOverflow));
        }
        iterations = iterations + 1;
        let ghost f1 = *frame;
        let ghost r1 = *runtime;
        let res = eval_expr(body, frame, module, runtime, depth);
        proof {
            lemma_effects_trans(*old(frame), f1, *frame, *old(runtime), r1, *runtime);
        }
        match res {
            Err(err) => {
                return Err(err);
            },
            Ok(Flow::Break { target, value }) => {
                return Ok(finish_break(*loop_id, target, value));
            },
            Ok(Flow::Value(_)) => {},
        }
        proof {
            assert(decreases_to!(expr.kind => (expr.kind)->updates));
        }
        let ghost f2 = *frame;
        let ghost r2 = *runtime;
        let computed = match eval_updates(updates, frame, module, runtime, depth) {
            Err(err) => {
                return Err(err);
            },
            Ok(Err(flow)) => {
                return Ok(flow);
            },
            Ok(Ok(pairs)) => pairs,
        };
        proof {
            lemma_effects_trans(*old(frame), f2, *frame, *old(runtime), r2, *runtime);
        }
        let ghost f3 = *frame;
        let stored = store_pairs(&computed, frame);
        proof {
            lemma_effects_trans(*old(frame), f3, *frame, *old(runtime), *runtime, *runtime);
        }
        match stored {
            Ok(()) => {},
            Err(err) => {
                return Err(err);
            },
        }
    }
}

fn copy_values(values: &Vec<Value>) -> (r: Vec<Value>)
    ensures
        r@ == values@,
{
    let mut out: Vec<Value> = Vec::new();
    let mut i: usize = 0;
    while i < values.len()
        invariant
            i <= values@.len(),
            out@ == values@.take(i as int),
        decreases values@.len() - i,
    {
        out.push(values[i].copy());
        i += 1;
        assert(out@ =~= values@.take(i as int));
    }
    assert(values@.take(values@.len() as int) =~= values@);
    out
}

/// A value-giving evaluation ended as `o` says.
pub open spec fn value_outcome_matches(r: Result<Value, LispError>, o: Outcome<ValueV>) -> bool {
    match o {
        Outcome::Done(v) => r matches Ok(x) && x@ == v,
        Outcome::Broke(_, _) => false,
        Outcome::Failed(f) => r matches Err(LispError::Eval(e)) && eval_error_is(f, e),
    }
}

/// The state a call starts from, given the runtime.
spec fn call_state(r: Runtime) -> EvalState {
    EvalState { locals: Seq::empty(), output: r.output@, gensym: r.next_gensym_id }
}

/// A call neither reads nor changes the caller's locals.
proof fn lemma_apply_keeps_locals(callee: ValueV, args: Seq<ValueV>, m: IrModule, globals: Seq<Option<ValueV>>, max: u64, st: EvalState, depth: nat)
    ensures
        apply_spec(callee, args, m, globals, max, st, depth).0 == apply_spec(callee, args, m, globals, max, with_locals(st, Seq::empty()), depth).0,
        apply_spec(callee, args, m, globals, max, st, depth).1 == with_locals(apply_spec(callee, args, m, globals, max, with_locals(st, Seq::empty()), depth).1, st.locals),
{
}

/// Calls `callee` with `arguments`: a builtin directly, a closure by
/// running its function's body in a fresh frame, exactly as [`apply_spec`]
/// says.
fn apply(callee: Value, arguments: Vec<Value>, module: &IrModule, runtime: &mut Runtime, depth: u64, site: Ghost<IrExpr>) -> (r: Result<Value, LispError>)
    ensures
        runtime_effects(*old(runtime), *final(runtime)),
        value_outcome_matches(r, apply_spec(callee@, values_view_all(arguments@), *module, slots_view(old(runtime).global_values@), old(runtime).limits.max_loop_iterations, call_state(*old(runtime)), depth as nat).0),
        call_state(*final(runtime)) == apply_spec(callee@, values_view_all(arguments@), *module, slots_view(old(runtime).global_values@), old(runtime).limits.max_loop_iterations, call_state(*old(runtime)), depth as nat).1,
    decreases depth, 0int, site@, 0int,
{
    proof {
        lemma_values_view_all(arguments@);
    }
    match callee {
        Value::Builtin(builtin) => {
            let applied = apply_builtin(builtin, arguments.as_slice(), &mut runtime.output);
            proof {
                assert(old(runtime).output@ =~= runtime.output@.subrange(0, old(runtime).output@.len() as int));
            }
            match applied {
                Ok(v) => Ok(v),
                Err(err) => Err(LispError::Eval(err)),
            }
        },
        Value::Closure(closure) => {
            proof {
                assert(old(runtime).output@ =~= runtime.output@.subrange(0, old(runtime).output@.len() as int));
            }
            let function = match module.function(closure.function) {
                Some(f) => f,
                None => {
                    return Err(internal_error("unknown function id", closure.function.0));
                },
            };
            if arguments.len() != function.parameter_count as usize {
                return Err(LispError::Eval(EvalError::WrongArgCount { expected: function.parameter_count as usize, got: arguments.len() }));
            }
            if depth == 0 {
                return Err(LispError::Eval(EvalError::CallDepthExceeded));
            }
            let mut frame = Frame::new(function.local_count, copy_values(&closure.captures));
            let ghost args = values_view_all(arguments@);
            proof {
                lemma_values_view_all(arguments@);
            }
            match store_arguments(&arguments, &mut frame) {
                Ok(()) => {},
                Err(err) => {
                    return Err(err);
                },
            }
            proof {
                let f = module.functions@[closure.function.0 as int];
                assert(slots_view(frame.locals@) =~= Seq::new(f.local_count as nat, |k: int| if k < args.len() { Some(args[k]) } else { None }));
                lemma_values_view_all(frame.captures@);
            }
            let ghost r1 = *runtime;
            let res = eval_expr(&function.body, &mut frame, module, runtime, depth - 1);
            proof {
                assert(r1.output@.is_prefix_of(runtime.output@));
                assert(old(runtime).output@ =~= runtime.output@.subrange(0, old(runtime).output@.len() as int));
            }
            match res {
                Ok(Flow::Value(v)) => Ok(v),
                Ok(Flow::Break { .. }) => Err(internal("internal IR error: break escaped its enclosing loop")),
                Err(err) => Err(err),
            }
        },
        other => {
            proof {
                assert(old(runtime).output@ =~= runtime.output@.subrange(0, old(runtime).output@.len() as int));
            }
            Err(LispError::Eval(EvalError::NotCallable(other.display_text())))
        },
    }
}

/// A top-level evaluation ended as `x` says.
pub open spec fn result_matches(r: Result<Value, LispError>, x: Result<ValueV, EvalFailure>) -> bool {
    match x {
        Ok(v) => r matches Ok(y) && y@ == v,
        Err(f) => r matches Err(LispError::Eval(e)) && eval_error_is(f, e),
    }
}

/// What running `body` in `runtime` gives, by [`body_spec`].
pub open spec fn run_body(body: IrBody, module: IrModule, runtime: Runtime) -> (Result<ValueV, EvalFailure>, Seq<char>, u64) {
    body_spec(
        body,
        module,
        slots_view(runtime.spec_globals()),
        runtime.spec_limits().max_loop_iterations,
        runtime.spec_output(),
        runtime.spec_next_gensym_id(),
        runtime.spec_limits().max_call_depth as nat,
    )
}

fn eval_body(body: &IrBody, module: &IrModule, runtime: &mut Runtime) -> (r: Result<Value, LispError>)
    ensures
        runtime_effects(*old(runtime), *final(runtime)),
        result_matches(r, run_body(*body, *module, *old(runtime)).0),
        final(runtime).spec_output() == run_body(*body, *module, *old(runtime)).1,
        final(runtime).spec_next_gensym_id() == run_body(*body, *module, *old(runtime)).2,
{
    let mut frame = Frame::new(body.local_count, Vec::new());
    proof {
        lemma_values_view_all(frame.captures@);
        assert(values_view_all(frame.captures@) =~= Seq::<ValueV>::empty());
        assert(slots_view(frame.locals@) =~= Seq::new(body.local_count as nat, |_k: int| None::<ValueV>));
    }
    let depth = runtime.limits.max_call_depth;
    let res = eval_expr(&body.expr, &mut frame, module, runtime, depth);
    match res {
        Ok(Flow::Value(v)) => Ok(v),
        Ok(Flow::Break { .. }) => Err(internal("internal IR error: break escaped its enclosing loop")),
        Err(err) => Err(err),
    }
}

/// Runs one verified top-level form: its body evaluates exactly as
/// [`body_spec`] says, in a fresh frame, with the runtime's globals,
/// limits, output and gensym counter. A definition binds its global to
/// the initializer's value only once that has evaluated successfully; a
/// failed initializer leaves every global as it was.
pub fn eval_ir_top_level(top_level: &IrTopLevel, module: &IrModule, runtime: &mut Runtime) -> (r: Result<Value, LispError>)
    ensures
        old(runtime).spec_output().is_prefix_of(final(runtime).spec_output()),
        final(runtime).spec_next_gensym_id() >= old(runtime).spec_next_gensym_id(),
        final(runtime).spec_limits() == old(runtime).spec_limits(),
        r matches Err(e) ==> e is Eval,
        r is Err ==> final(runtime).spec_globals() == old(runtime).spec_globals(),
        match *top_level {
            IrTopLevel::Expr { body, .. } => {
                &&& result_matches(r, run_body(body, *module, *old(runtime)).0)
                &&& final(runtime).spec_output() == run_body(body, *module, *old(runtime)).1
                &&& final(runtime).spec_next_gensym_id() == run_body(body, *module, *old(runtime)).2
                &&& final(runtime).spec_globals() == old(runtime).spec_globals()
            },
            IrTopLevel::Define { target, initializer, .. } => {
                &&& final(runtime).spec_output() == run_body(initializer, *module, *old(runtime)).1
                &&& final(runtime).spec_next_gensym_id() == run_body(initializer, *module, *old(runtime)).2
                &&& match run_body(initializer, *module, *old(runtime)).0 {
                    Ok(v) => {
                        &&& r == Ok::<Value, LispError>(Value::Unit)
                        &&& (target.0 as int) < final(runtime).spec_globals().len()
                        &&& final(runtime).spec_globals()[target.0 as int] matches Some(x) && x@ == v
                        &&& forall|i: int| 0 <= i < final(runtime).spec_globals().len() && i != target.0 ==> #[trigger] final(runtime).spec_globals()[i]
                            == if i < old(runtime).spec_globals().len() { old(runtime).spec_globals()[i] } else { None }
                    },
                    Err(f) => r matches Err(LispError::Eval(e)) && eval_error_is(f, e),
                }
            },
        },
{
    match top_level {
        IrTopLevel::Expr { body, .. } => eval_body(body, module, runtime),
        IrTopLevel::Define { target, initializer, .. } => {
            let value = match eval_body(initializer, module, runtime) {
                Ok(v) => v,
                Err(err) => {
                    return Err(err);
                },
            };
            runtime.global_values.define(*target, value);
            Ok(Value::Unit)
        },
    }
}

} // verus!
