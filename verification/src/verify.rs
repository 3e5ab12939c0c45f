//! Checks that IR is internally consistent before it is executed or handed
//! to a backend: every slot and id is in bounds, every closure carries as
//! many captures as its function expects, loop ids do not repeat along a
//! nesting path, and every `break` targets an enclosing loop of the same
//! function.
use vstd::prelude::*;
use crate::error::VerifyError;
use crate::globals::GlobalRegistry;
use crate::ids::{LocalSlot, LoopId};
use crate::ir::{
    IrBody, IrCaptureSource, IrExpr, IrExprKind, IrFunction, IrLetBinding, IrModule, IrQuasiDatum,
    IrStateBinding, IrStateUpdate, IrTopLevel,
};

verus! {

broadcast use vstd::std_specs::vec::group_vec_axioms;

/// What a function body may refer to: its frame sizes, the module's
/// functions and the number of interned globals.
pub struct Scope {
    pub local_count: u32,
    pub capture_count: u32,
    pub functions: Seq<IrFunction>,
    pub global_count: nat,
}

/// The outcome of checking `e` within `scope`, with `loops` the loop ids
/// lexically enclosing it (innermost last): the first problem met in a
/// left-to-right walk, or `Ok`.
pub open spec fn check_expr(e: IrExpr, scope: Scope, loops: Seq<LoopId>) -> Result<(), VerifyError>
    decreases e, 0int,
{
    match e.kind {
        IrExprKind::Const(_) => Ok(()),
        IrExprKind::Quote(_) => Ok(()),
        IrExprKind::QuasiQuote(q) => check_quasi(q, scope, loops),
        IrExprKind::Gensym { prefix } => match prefix {
            Some(p) => check_expr(*p, scope, loops),
            None => Ok(()),
        },
        IrExprKind::LoadLocal(slot) => if slot.0 >= scope.local_count {
            Err(VerifyError::InvalidLocalSlot(slot))
        } else {
            Ok(())
        },
        IrExprKind::LoadCapture(slot) => if slot.0 >= scope.capture_count {
            Err(VerifyError::InvalidCaptureSlot(slot))
        } else {
            Ok(())
        },
        IrExprKind::LoadGlobal(id) => if id.0 >= scope.global_count {
            Err(VerifyError::InvalidGlobalId(id))
        } else {
            Ok(())
        },
        IrExprKind::Let { bindings, body } => match check_lets(bindings@, 0, scope, loops) {
            Err(err) => Err(err),
            Ok(()) => check_expr(*body, scope, loops),
        },
        IrExprKind::MakeClosure { function, captures } => {
            if function.0 >= scope.functions.len() {
                Err(VerifyError::InvalidFunctionId(function))
            } else if scope.functions[function.0 as int].capture_count != captures@.len() {
                Err(VerifyError::CaptureCountMismatch {
                    expected: scope.functions[function.0 as int].capture_count,
                    got: captures@.len() as u32,
                })
            } else {
                check_sources(captures@, 0, scope)
            }
        },
        IrExprKind::Call { callee, arguments } => match check_expr(*callee, scope, loops) {
            Err(err) => Err(err),
            Ok(()) => check_exprs(arguments@, 0, scope, loops),
        },
        IrExprKind::If { condition, then_expr, else_expr } => match check_expr(*condition, scope, loops) {
            Err(err) => Err(err),
            Ok(()) => match check_expr(*then_expr, scope, loops) {
                Err(err) => Err(err),
                Ok(()) => check_expr(*else_expr, scope, loops),
            },
        },
        IrExprKind::RangeLoop { loop_id, variable, start, end, step, body } => {
            if loops.contains(loop_id) {
                Err(VerifyError::DuplicateLoopId(loop_id))
            } else if variable.0 >= scope.local_count {
                Err(VerifyError::InvalidLocalSlot(variable))
            } else {
                match check_expr(*start, scope, loops) {
                    Err(err) => Err(err),
                    Ok(()) => match check_expr(*end, scope, loops) {
                        Err(err) => Err(err),
                        Ok(()) => match check_expr(*step, scope, loops) {
                            Err(err) => Err(err),
                            Ok(()) => check_expr(*body, scope, loops.push(loop_id)),
                        },
                    },
                }
            }
        },
        IrExprKind::StateLoop { loop_id, states, condition, updates, body } => {
            if loops.contains(loop_id) {
                Err(VerifyError::DuplicateLoopId(loop_id))
            } else {
                match check_states(states@, 0, scope, loops) {
                    Err(err) => Err(err),
                    Ok(()) => match check_expr(*condition, scope, loops) {
                        Err(err) => Err(err),
                        Ok(()) => match check_expr(*body, scope, loops.push(loop_id)) {
                            Err(err) => Err(err),
                            Ok(()) => if updates@.len() != states@.len() {
                                Err(VerifyError::InvalidStateLoopUpdate)
                            } else {
                                match check_updates(updates@, 0, state_targets(states@), scope, loops) {
                                    Err(err) => Err(err),
                                    Ok(()) => if update_targets(updates@) != state_targets(states@) {
                                        Err(VerifyError::InvalidStateLoopUpdate)
                                    } else {
                                        Ok(())
                                    },
                                }
                            },
                        },
                    },
                }
            }
        },
        IrExprKind::Break { target, value } => {
            if !loops.contains(target) {
                Err(VerifyError::BreakTargetNotEnclosing(target))
            } else {
                match value {
                    Some(v) => check_expr(*v, scope, loops),
                    None => Ok(()),
                }
            }
        },
        IrExprKind::Sequence(items) => check_exprs(items@, 0, scope, loops),
        IrExprKind::Do(items) => check_exprs(items@, 0, scope, loops),
    }
}

/// Checks `items[i..]` in order.
pub open spec fn check_exprs(items: Seq<IrExpr>, i: int, scope: Scope, loops: Seq<LoopId>) -> Result<(), VerifyError>
    decreases items, items.len() - i,
{
    if i < 0 || i >= items.len() {
        Ok(())
    } else {
        match check_expr(items[i], scope, loops) {
            Err(err) => Err(err),
            Ok(()) => check_exprs(items, i + 1, scope, loops),
        }
    }
}

/// Checks `let` bindings from `i` on: each initializer, then its target.
pub open spec fn check_lets(items: Seq<IrLetBinding>, i: int, scope: Scope, loops: Seq<LoopId>) -> Result<(), VerifyError>
    decreases items, items.len() - i,
{
    if i < 0 || i >= items.len() {
        Ok(())
    } else {
        match check_expr(items[i].initializer, scope, loops) {
            Err(err) => Err(err),
            Ok(()) => if items[i].target.0 >= scope.local_count {
                Err(VerifyError::InvalidLocalSlot(items[i].target))
            } else {
                check_lets(items, i + 1, scope, loops)
            },
        }
    }
}

/// Checks loop state bindings from `i` on, as for `let`.
pub open spec fn check_states(items: Seq<IrStateBinding>, i: int, scope: Scope, loops: Seq<LoopId>) -> Result<(), VerifyError>
    decreases items, items.len() - i,
{
    if i < 0 || i >= items.len() {
        Ok(())
    } else {
        match check_expr(items[i].initializer, scope, loops) {
            Err(err) => Err(err),
            Ok(()) => if items[i].target.0 >= scope.local_count {
                Err(VerifyError::InvalidLocalSlot(items[i].target))
            } else {
                check_states(items, i + 1, scope, loops)
            },
        }
    }
}

/// The slots a state loop declares.
pub open spec fn state_targets(items: Seq<IrStateBinding>) -> Set<LocalSlot> {
    Set::new(|s: LocalSlot| exists|k: int| 0 <= k < items.len() && items[k].target == s)
}

/// The slots a state loop's updates write.
pub open spec fn update_targets(items: Seq<IrStateUpdate>) -> Set<LocalSlot> {
    Set::new(|s: LocalSlot| exists|k: int| 0 <= k < items.len() && items[k].target == s)
}

/// Checks state updates from `i` on: each must write a declared slot, and
/// its value must check.
pub open spec fn check_updates(items: Seq<IrStateUpdate>, i: int, declared: Set<LocalSlot>, scope: Scope, loops: Seq<LoopId>) -> Result<(), VerifyError>
    decreases items, items.len() - i,
{
    if i < 0 || i >= items.len() {
        Ok(())
    } else if !declared.contains(items[i].target) {
        Err(VerifyError::InvalidStateLoopUpdate)
    } else {
        match check_expr(items[i].value, scope, loops) {
            Err(err) => Err(err),
            Ok(()) => check_updates(items, i + 1, declared, scope, loops),
        }
    }
}

/// Checks capture sources from `i` on against the enclosing frame.
pub open spec fn check_sources(items: Seq<IrCaptureSource>, i: int, scope: Scope) -> Result<(), VerifyError>
    decreases items.len() - i,
{
    if i < 0 || i >= items.len() {
        Ok(())
    } else {
        match items[i] {
            IrCaptureSource::Local(slot) => if slot.0 >= scope.local_count {
                Err(VerifyError::InvalidLocalSlot(slot))
            } else {
                check_sources(items, i + 1, scope)
            },
            IrCaptureSource::Capture(slot) => if slot.0 >= scope.capture_count {
                Err(VerifyError::InvalidCaptureSlot(slot))
            } else {
                check_sources(items, i + 1, scope)
            },
        }
    }
}

/// Checks the expressions inside a quasiquote template.
pub open spec fn check_quasi(q: IrQuasiDatum, scope: Scope, loops: Seq<LoopId>) -> Result<(), VerifyError>
    decreases q, 0int,
{
    match q {
        IrQuasiDatum::Datum(_) => Ok(()),
        IrQuasiDatum::List(items) => check_quasis(items@, 0, scope, loops),
        IrQuasiDatum::Evaluate(e) => check_expr(*e, scope, loops),
        IrQuasiDatum::Splice(e) => check_expr(*e, scope, loops),
    }
}

pub open spec fn check_quasis(items: Seq<IrQuasiDatum>, i: int, scope: Scope, loops: Seq<LoopId>) -> Result<(), VerifyError>
    decreases items, items.len() - i,
{
    if i < 0 || i >= items.len() {
        Ok(())
    } else {
        match check_quasi(items[i], scope, loops) {
            Err(err) => Err(err),
            Ok(()) => check_quasis(items, i + 1, scope, loops),
        }
    }
}

/// The scope of a body with the given frame sizes.
pub open spec fn scope_of(local_count: u32, capture_count: u32, module: &IrModule, globals: &GlobalRegistry) -> Scope {
    Scope { local_count, capture_count, functions: module.functions@, global_count: globals@.len() }
}

fn contains_loop(loops: &[LoopId], id: LoopId) -> (r: bool)
    ensures
        r == loops@.contains(id),
{
    let mut i: usize = 0;
    while i < loops.len()
        invariant
            i <= loops@.len(),
            forall|k: int| 0 <= k < i ==> loops@[k] != id,
        decreases loops@.len() - i,
    {
        if loops[i] == id {
            return true;
        }
        i += 1;
    }
    false
}

fn pushed(loops: &[LoopId], id: LoopId) -> (r: Vec<LoopId>)
    ensures
        r@ == loops@.push(id),
{
    let mut v: Vec<LoopId> = Vec::new();
    let mut i: usize = 0;
    while i < loops.len()
        invariant
            i <= loops@.len(),
            v@ == loops@.take(i as int),
        decreases loops@.len() - i,
    {
        v.push(loops[i]);
        i += 1;
        assert(v@ =~= loops@.take(i as int));
    }
    v.push(id);
    assert(v@ =~= loops@.push(id));
    v
}

fn is_declared(states: &Vec<IrStateBinding>, slot: LocalSlot) -> (r: bool)
    ensures
        r == state_targets(states@).contains(slot),
{
    let mut i: usize = 0;
    while i < states.len()
        invariant
            i <= states@.len(),
            forall|k: int| 0 <= k < i ==> states@[k].target != slot,
        decreases states@.len() - i,
    {
        if states[i].target == slot {
            assert(state_targets(states@).contains(slot));
            return true;
        }
        i += 1;
    }
    false
}

fn is_updated(updates: &Vec<IrStateUpdate>, slot: LocalSlot) -> (r: bool)
    ensures
        r == update_targets(updates@).contains(slot),
{
    let mut i: usize = 0;
    while i < updates.len()
        invariant
            i <= updates@.len(),
            forall|k: int| 0 <= k < i ==> updates@[k].target != slot,
        decreases updates@.len() - i,
    {
        if updates[i].target == slot {
            assert(update_targets(updates@).contains(slot));
            return true;
        }
        i += 1;
    }
    false
}

/// Whether every declared state slot is written by some update.
fn all_states_updated(states: &Vec<IrStateBinding>, updates: &Vec<IrStateUpdate>) -> (r: bool)
    ensures
        r == state_targets(states@).subset_of(update_targets(updates@)),
{
    let mut i: usize = 0;
    while i < states.len()
        invariant
            i <= states@.len(),
            forall|k: int| 0 <= k < i ==> update_targets(updates@).contains(#[trigger] states@[k].target),
        decreases states@.len() - i,
    {
        if !is_updated(updates, states[i].target) {
            assert(state_targets(states@).contains(states@[i as int].target));
            return false;
        }
        i += 1;
    }
    true
}

fn check_frame_sources(captures: &Vec<IrCaptureSource>, local_count: u32, capture_count: u32, scope: Ghost<Scope>) -> (r: Result<(), VerifyError>)
    requires
        scope@.local_count == local_count,
        scope@.capture_count == capture_count,
    ensures
        r == check_sources(captures@, 0, scope@),
{
    let mut i: usize = 0;
    while i < captures.len()
        invariant
            i <= captures@.len(),
            scope@.local_count == local_count,
            scope@.capture_count == capture_count,
            check_sources(captures@, 0, scope@) == check_sources(captures@, i as int, scope@),
        decreases captures@.len() - i,
    {
        match captures[i] {
            IrCaptureSource::Local(slot) => {
                if slot.0 >= local_count {
                    return Err(VerifyError::InvalidLocalSlot(slot));
                }
            },
            IrCaptureSource::Capture(slot) => {
                if slot.0 >= capture_count {
                    return Err(VerifyError::InvalidCaptureSlot(slot));
                }
            },
        }
        i += 1;
    }
    Ok(())
}

/// Checks one expression of a body whose frame has `local_count` locals
/// and `capture_count` captures, with `enclosing_loops` the loop ids
/// lexically around it in the same function.
pub fn verify_expr(
    expr: &IrExpr,
    local_count: u32,
    capture_count: u32,
    module: &IrModule,
    globals: &GlobalRegistry,
    enclosing_loops: &[LoopId],
) -> (r: Result<(), VerifyError>)
    ensures
        r == check_expr(*expr, scope_of(local_count, capture_count, module, globals), enclosing_loops@),
    decreases expr, 0int,
{
    let ghost scope = scope_of(local_count, capture_count, module, globals);
    match &expr.kind {
        IrExprKind::Const(_) => Ok(()),
        IrExprKind::Quote(_) => Ok(()),
        IrExprKind::QuasiQuote(q) => {
            proof {
                assert(decreases_to!(*expr => expr.kind));
            }
            verify_quasi(q, local_count, capture_count, module, globals, enclosing_loops)
        },
        IrExprKind::Gensym { prefix } => match prefix {
            Some(p) => {
                proof {
                    assert(decreases_to!(*expr => expr.kind));
                }
                verify_expr(p, local_count, capture_count, module, globals, enclosing_loops)
            },
            None => Ok(()),
        },
        IrExprKind::LoadLocal(slot) => {
            if slot.0 >= local_count {
                return Err(VerifyError::InvalidLocalSlot(*slot));
            }
            Ok(())
        },
        IrExprKind::LoadCapture(slot) => {
            if slot.0 >= capture_count {
                return Err(VerifyError::InvalidCaptureSlot(*slot));
            }
            Ok(())
        },
        IrExprKind::LoadGlobal(id) => {
            if id.index() >= globals.len() {
                return Err(VerifyError::InvalidGlobalId(*id));
            }
            Ok(())
        },
        IrExprKind::Let { bindings, body } => {
            let mut i: usize = 0;
            while i < bindings.len()
                invariant
                    expr.kind == (IrExprKind::Let { bindings: *bindings, body: *body }),
                    scope == scope_of(local_count, capture_count, module, globals),
                    i <= bindings@.len(),
                    check_lets(bindings@, 0, scope, enclosing_loops@) == check_lets(bindings@, i as int, scope, enclosing_loops@),
                decreases bindings@.len() - i,
            {
                proof {
                    assert(decreases_to!(*expr => expr.kind));
                    assert(decreases_to!(expr.kind => (expr.kind)->bindings));
                    assert(decreases_to!(*bindings => bindings[i as int]));
                    assert(decreases_to!(bindings[i as int] => bindings[i as int].initializer));
                }
                match verify_expr(&bindings[i].initializer, local_count, capture_count, module, globals, enclosing_loops) {
                    Err(err) => {
                        return Err(err);
                    },
                    Ok(()) => {},
                }
                if bindings[i].target.0 >= local_count {
                    return Err(VerifyError::InvalidLocalSlot(bindings[i].target));
                }
                i += 1;
            }
            proof {
                assert(decreases_to!(*expr => expr.kind));
            }
            verify_expr(body, local_count, capture_count, module, globals, enclosing_loops)
        },
        IrExprKind::MakeClosure { function, captures } => {
            let target = match module.function(*function) {
                Some(f) => f,
                None => {
                    return Err(VerifyError::InvalidFunctionId(*function));
                },
            };
            if target.capture_count as usize != captures.len() {
                return Err(VerifyError::CaptureCountMismatch { expected: target.capture_count, got: captures.len() as u32 });
            }
            check_frame_sources(captures, local_count, capture_count, Ghost(scope))
        },
        IrExprKind::Call { callee, arguments } => {
            proof {
                assert(decreases_to!(*expr => expr.kind));
            }
            let res = verify_expr(callee, local_count, capture_count, module, globals, enclosing_loops);
            if res.is_err() {
                return res;
            }
            let mut i: usize = 0;
            while i < arguments.len()
                invariant
                    expr.kind == (IrExprKind::Call { callee: *callee, arguments: *arguments }),
                    scope == scope_of(local_count, capture_count, module, globals),
                    check_expr(**callee, scope, enclosing_loops@) is Ok,
                    i <= arguments@.len(),
                    check_exprs(arguments@, 0, scope, enclosing_loops@) == check_exprs(arguments@, i as int, scope, enclosing_loops@),
                decreases arguments@.len() - i,
            {
                proof {
                    assert(decreases_to!(*expr => expr.kind));
                    assert(decreases_to!(expr.kind => (expr.kind)->arguments));
                    assert(decreases_to!(*arguments => arguments[i as int]));
                }
                match verify_expr(&arguments[i], local_count, capture_count, module, globals, enclosing_loops) {
                    Err(err) => {
                        return Err(err);
                    },
                    Ok(()) => {},
                }
                i += 1;
            }
            Ok(())
        },
        IrExprKind::If { condition, then_expr, else_expr } => {
            proof {
                assert(decreases_to!(*expr => expr.kind));
            }
            match verify_expr(condition, local_count, capture_count, module, globals, enclosing_loops) {
                Err(err) => {
                    return Err(err);
                },
                Ok(()) => {},
            }
            match verify_expr(then_expr, local_count, capture_count, module, globals, enclosing_loops) {
                Err(err) => {
                    return Err(err);
                },
                Ok(()) => {},
            }
            verify_expr(else_expr, local_count, capture_count, module, globals, enclosing_loops)
        },
        IrExprKind::RangeLoop { loop_id, variable, start, end, step, body } => {
            proof {
                assert(decreases_to!(*expr => expr.kind));
            }
            if contains_loop(enclosing_loops, *loop_id) {
                return Err(VerifyError::DuplicateLoopId(*loop_id));
            }
            if variable.0 >= local_count {
                return Err(VerifyError::InvalidLocalSlot(*variable));
            }
            match verify_expr(start, local_count, capture_count, module, globals, enclosing_loops) {
                Err(err) => {
                    return Err(err);
                },
                Ok(()) => {},
            }
            match verify_expr(end, local_count, capture_count, module, globals, enclosing_loops) {
                Err(err) => {
                    return Err(err);
                },
                Ok(()) => {},
            }
            match verify_expr(step, local_count, capture_count, module, globals, enclosing_loops) {
                Err(err) => {
                    return Err(err);
                },
                Ok(()) => {},
            }
            let nested = pushed(enclosing_loops, *loop_id);
            verify_expr(body, local_count, capture_count, module, globals, nested.as_slice())
        },
        IrExprKind::StateLoop { loop_id, states, condition, updates, body } => {
            if contains_loop(enclosing_loops, *loop_id) {
                return Err(VerifyError::DuplicateLoopId(*loop_id));
            }
            let mut i: usize = 0;
            while i < states.len()
                invariant
                    expr.kind == (IrExprKind::StateLoop { loop_id: *loop_id, states: *states, condition: *condition, updates: *updates, body: *body }),
                    scope == scope_of(local_count, capture_count, module, globals),
                    !enclosing_loops@.contains(*loop_id),
                    i <= states@.len(),
                    check_states(states@, 0, scope, enclosing_loops@) == check_states(states@, i as int, scope, enclosing_loops@),
                decreases states@.len() - i,
            {
                proof {
                    assert(decreases_to!(*expr => expr.kind));
                    assert(decreases_to!(expr.kind => (expr.kind)->states));
                    assert(decreases_to!(*states => states[i as int]));
                    assert(decreases_to!(states[i as int] => states[i as int].initializer));
                }
                match verify_expr(&states[i].initializer, local_count, capture_count, module, globals, enclosing_loops) {
                    Err(err) => {
                        return Err(err);
                    },
                    Ok(()) => {},
                }
                if states[i].target.0 >= local_count {
                    return Err(VerifyError::InvalidLocalSlot(states[i].target));
                }
                i += 1;
            }
            proof {
                assert(decreases_to!(*expr => expr.kind));
            }
            match verify_expr(condition, local_count, capture_count, module, globals, enclosing_loops) {
                Err(err) => {
                    return Err(err);
                },
                Ok(()) => {},
            }
            let nested = pushed(enclosing_loops, *loop_id);
            match verify_expr(body, local_count, capture_count, module, globals, nested.as_slice()) {
                Err(err) => {
                    return Err(err);
                },
                Ok(()) => {},
            }
            if updates.len() != states.len() {
                return Err(VerifyError::InvalidStateLoopUpdate);
            }
            let ghost declared = state_targets(states@);
            let mut j: usize = 0;
            while j < updates.len()
                invariant
                    expr.kind == (IrExprKind::StateLoop { loop_id: *loop_id, states: *states, condition: *condition, updates: *updates, body: *body }),
                    scope == scope_of(local_count, capture_count, module, globals),
                    declared == state_targets(states@),
                    !enclosing_loops@.contains(*loop_id),
                    check_states(states@, 0, scope, enclosing_loops@) is Ok,
                    check_expr(**condition, scope, enclosing_loops@) is Ok,
                    check_expr(**body, scope, enclosing_loops@.push(*loop_id)) is Ok,
                    updates@.len() == states@.len(),
                    j <= updates@.len(),
                    check_updates(updates@, 0, declared, scope, enclosing_loops@) == check_updates(updates@, j as int, declared, scope, enclosing_loops@),
                    forall|k: int| 0 <= k < j ==> declared.contains(#[trigger] updates@[k].target),
                decreases updates@.len() - j,
            {
                if !is_declared(states, updates[j].target) {
                    return Err(VerifyError::InvalidStateLoopUpdate);
                }
                proof {
                    assert(decreases_to!(*expr => expr.kind));
                    assert(decreases_to!(expr.kind => (expr.kind)->updates));
                    assert(decreases_to!(*updates => updates[j as int]));
                    assert(decreases_to!(updates[j as int] => updates[j as int].value));
                }
                match verify_expr(&updates[j].value, local_count, capture_count, module, globals, enclosing_loops) {
                    Err(err) => {
                        return Err(err);
                    },
                    Ok(()) => {},
                }
                j += 1;
            }
            proof {
                assert(update_targets(updates@).subset_of(declared));
            }
            if !all_states_updated(states, updates) {
                return Err(VerifyError::InvalidStateLoopUpdate);
            }
            proof {
                assert(update_targets(updates@) =~= declared);
            }
            Ok(())
        },
        IrExprKind::Break { target, value } => {
            if !contains_loop(enclosing_loops, *target) {
                return Err(VerifyError::BreakTargetNotEnclosing(*target));
            }
            match value {
                Some(v) => {
                    proof {
                        assert(decreases_to!(*expr => expr.kind));
                    }
                    verify_expr(v, local_count, capture_count, module, globals, enclosing_loops)
                },
                None => Ok(()),
            }
        },
        IrExprKind::Sequence(items) | IrExprKind::Do(items) => {
            let mut i: usize = 0;
            while i < items.len()
                invariant
                    expr.kind == IrExprKind::Sequence(*items) || expr.kind == IrExprKind::Do(*items),
                    scope == scope_of(local_count, capture_count, module, globals),
                    i <= items@.len(),
                    check_exprs(items@, 0, scope, enclosing_loops@) == check_exprs(items@, i as int, scope, enclosing_loops@),
                decreases items@.len() - i,
            {
                proof {
                    assert(decreases_to!(*expr => expr.kind));
                    if expr.kind is Sequence {
                        assert(decreases_to!(expr.kind => (expr.kind)->Sequence_0));
                    } else {
                        assert(decreases_to!(expr.kind => (expr.kind)->Do_0));
                    }
                    assert(decreases_to!(*items => items[i as int]));
                }
                match verify_expr(&items[i], local_count, capture_count, module, globals, enclosing_loops) {
                    Err(err) => {
                        return Err(err);
                    },
                    Ok(()) => {},
                }
                i += 1;
            }
            Ok(())
        },
    }
}

fn verify_quasi(
    template: &IrQuasiDatum,
    local_count: u32,
    capture_count: u32,
    module: &IrModule,
    globals: &GlobalRegistry,
    enclosing_loops: &[LoopId],
) -> (r: Result<(), VerifyError>)
    ensures
        r == check_quasi(*template, scope_of(local_count, capture_count, module, globals), enclosing_loops@),
    decreases template, 0int,
{
    let ghost scope = scope_of(local_count, capture_count, module, globals);
    match template {
        IrQuasiDatum::Datum(_) => Ok(()),
        IrQuasiDatum::List(items) => {
            let mut i: usize = 0;
            while i < items.len()
                invariant
                    *template == IrQuasiDatum::List(*items),
                    scope == scope_of(local_count, capture_count, module, globals),
                    i <= items@.len(),
                    check_quasis(items@, 0, scope, enclosing_loops@) == check_quasis(items@, i as int, scope, enclosing_loops@),
                decreases items@.len() - i,
            {
                proof {
                    assert(decreases_to!(*template => (*template)->List_0));
                    assert(decreases_to!(*items => items[i as int]));
                }
                match verify_quasi(&items[i], local_count, capture_count, module, globals, enclosing_loops) {
                    Err(err) => {
                        return Err(err);
                    },
                    Ok(()) => {},
                }
                i += 1;
            }
            Ok(())
        },
        IrQuasiDatum::Evaluate(e) | IrQuasiDatum::Splice(e) => {
            verify_expr(e, local_count, capture_count, module, globals, enclosing_loops)
        },
    }
}

/// Whether a function's own frame is consistent and its body checks.
pub open spec fn check_function(f: IrFunction, functions: Seq<IrFunction>, global_count: nat) -> Result<(), VerifyError> {
    if f.parameter_count > f.local_count {
        Err(VerifyError::InvalidParameterCount)
    } else {
        check_expr(f.body, Scope { local_count: f.local_count, capture_count: f.capture_count, functions, global_count }, Seq::empty())
    }
}

/// Whether a top-level form checks.
pub open spec fn check_top_level(t: IrTopLevel, functions: Seq<IrFunction>, global_count: nat) -> Result<(), VerifyError> {
    match t {
        IrTopLevel::Expr { body, .. } => check_expr(body.expr, Scope { local_count: body.local_count, capture_count: 0, functions, global_count }, Seq::empty()),
        IrTopLevel::Define { target, initializer, .. } => if target.0 >= global_count {
            Err(VerifyError::InvalidGlobalId(target))
        } else {
            check_expr(initializer.expr, Scope { local_count: initializer.local_count, capture_count: 0, functions, global_count }, Seq::empty())
        },
    }
}

/// The first function of `functions[i..]` that fails to check.
pub open spec fn check_functions(functions: Seq<IrFunction>, i: int, all: Seq<IrFunction>, global_count: nat) -> Result<(), VerifyError>
    decreases functions.len() - i,
{
    if i < 0 || i >= functions.len() {
        Ok(())
    } else {
        match check_function(functions[i], all, global_count) {
            Err(err) => Err(err),
            Ok(()) => check_functions(functions, i + 1, all, global_count),
        }
    }
}

/// What checking a lowered top-level form together with the functions it
/// added (those of `fs` from index `from` on) reports: the form's own error
/// first, then that of the first new function that fails.
pub open spec fn check_lowered(t: IrTopLevel, fs: Seq<IrFunction>, from: int, global_count: nat) -> Result<(), VerifyError> {
    match check_top_level(t, fs, global_count) {
        Err(e) => Err(e),
        Ok(()) => check_functions(fs, from, fs, global_count),
    }
}

/// Functions that check can be skipped when looking for the first one
/// that fails.
pub proof fn lemma_check_functions_skip(fs: Seq<IrFunction>, a: int, b: int, all: Seq<IrFunction>, global_count: nat)
    requires
        0 <= a <= b <= fs.len(),
        forall|k: int| a <= k < b ==> #[trigger] check_function(fs[k], all, global_count) is Ok,
    ensures
        check_functions(fs, a, all, global_count) == check_functions(fs, b, all, global_count),
    decreases b - a,
{
    if a < b {
        lemma_check_functions_skip(fs, a + 1, b, all, global_count);
    }
}

pub fn verify_top_level(top_level: &IrTopLevel, module: &IrModule, globals: &GlobalRegistry) -> (r: Result<(), VerifyError>)
    ensures
        r == check_top_level(*top_level, module.functions@, globals@.len()),
{
    match top_level {
        IrTopLevel::Expr { body, .. } => verify_body(body, module, globals),
        IrTopLevel::Define { target, initializer, .. } => {
            if target.index() >= globals.len() {
                return Err(VerifyError::InvalidGlobalId(*target));
            }
            verify_body(initializer, module, globals)
        },
    }
}

/// Checks every function currently in `module`, in order.
pub fn verify_module(module: &IrModule, globals: &GlobalRegistry) -> (r: Result<(), VerifyError>)
    ensures
        r == check_functions(module.functions@, 0, module.functions@, globals@.len()),
{
    let mut i: usize = 0;
    while i < module.functions.len()
        invariant
            i <= module.functions@.len(),
            check_functions(module.functions@, 0, module.functions@, globals@.len())
                == check_functions(module.functions@, i as int, module.functions@, globals@.len()),
        decreases module.functions@.len() - i,
    {
        match verify_function(&module.functions[i], module, globals) {
            Err(err) => {
                return Err(err);
            },
            Ok(()) => {},
        }
        i += 1;
    }
    Ok(())
}

fn verify_body(body: &IrBody, module: &IrModule, globals: &GlobalRegistry) -> (r: Result<(), VerifyError>)
    ensures
        r == check_expr(body.expr, scope_of(body.local_count, 0, module, globals), Seq::empty()),
{
    let empty: Vec<LoopId> = Vec::new();
    proof {
        assert(empty@ =~= Seq::<LoopId>::empty());
    }
    verify_expr(&body.expr, body.local_count, 0, module, globals, empty.as_slice())
}

/// Checks a single function: its parameters fit in its frame and its body
/// checks with an empty loop stack.
pub fn verify_function(function: &IrFunction, module: &IrModule, globals: &GlobalRegistry) -> (r: Result<(), VerifyError>)
    ensures
        r == check_function(*function, module.functions@, globals@.len()),
{
    if function.parameter_count > function.local_count {
        return Err(VerifyError::InvalidParameterCount);
    }
    let empty: Vec<LoopId> = Vec::new();
    proof {
        assert(empty@ =~= Seq::<LoopId>::empty());
    }
    verify_expr(&function.body, function.local_count, function.capture_count, module, globals, empty.as_slice())
}


/// `b` keeps `a`'s frame sizes and every function of `a`'s table, and has
/// at least as many globals.
pub open spec fn scope_grows(a: Scope, b: Scope) -> bool {
    &&& b.local_count == a.local_count
    &&& b.capture_count == a.capture_count
    &&& a.functions.len() <= b.functions.len()
    &&& forall|i: int| 0 <= i < a.functions.len() ==> #[trigger] b.functions[i] == a.functions[i]
    &&& a.global_count <= b.global_count
}

proof fn lemma_sources_same(items: Seq<IrCaptureSource>, i: int, a: Scope, b: Scope)
    requires
        b.local_count == a.local_count,
        b.capture_count == a.capture_count,
    ensures
        check_sources(items, i, b) == check_sources(items, i, a),
    decreases items.len() - i,
{
    if 0 <= i < items.len() {
        lemma_sources_same(items, i + 1, a, b);
    }
}

/// What checks in a scope still checks once the module has gained
/// functions and the registry names: growing the tables never invalidates
/// verified IR.
pub proof fn law_checks_survive_growth(e: IrExpr, a: Scope, b: Scope, loops: Seq<LoopId>)
    requires
        scope_grows(a, b),
        check_expr(e, a, loops) is Ok,
    ensures
        check_expr(e, b, loops) is Ok,
    decreases e, 0int,
{
    match e.kind {
        IrExprKind::QuasiQuote(q) => lemma_quasi_grows(q, a, b, loops),
        IrExprKind::Gensym { prefix } => {
            if let Some(p) = prefix {
                law_checks_survive_growth(*p, a, b, loops);
            }
        },
        IrExprKind::Let { bindings, body } => {
            lemma_lets_grow(bindings@, 0, a, b, loops);
            law_checks_survive_growth(*body, a, b, loops);
        },
        IrExprKind::MakeClosure { function, captures } => {
            lemma_sources_same(captures@, 0, a, b);
        },
        IrExprKind::Call { callee, arguments } => {
            law_checks_survive_growth(*callee, a, b, loops);
            lemma_exprs_grow(arguments@, 0, a, b, loops);
        },
        IrExprKind::If { condition, then_expr, else_expr } => {
            law_checks_survive_growth(*condition, a, b, loops);
            law_checks_survive_growth(*then_expr, a, b, loops);
            law_checks_survive_growth(*else_expr, a, b, loops);
        },
        IrExprKind::RangeLoop { loop_id, start, end, step, body, .. } => {
            if !loops.contains(loop_id) {
                law_checks_survive_growth(*start, a, b, loops);
                law_checks_survive_growth(*end, a, b, loops);
                law_checks_survive_growth(*step, a, b, loops);
                law_checks_survive_growth(*body, a, b, loops.push(loop_id));
            }
        },
        IrExprKind::StateLoop { loop_id, states, condition, updates, body } => {
            if !loops.contains(loop_id) {
                lemma_states_grow(states@, 0, a, b, loops);
                law_checks_survive_growth(*condition, a, b, loops);
                law_checks_survive_growth(*body, a, b, loops.push(loop_id));
                lemma_updates_grow(updates@, 0, state_targets(states@), a, b, loops);
            }
        },
        IrExprKind::Break { value, .. } => {
            if let Some(v) = value {
                law_checks_survive_growth(*v, a, b, loops);
            }
        },
        IrExprKind::Sequence(items) => lemma_exprs_grow(items@, 0, a, b, loops),
        IrExprKind::Do(items) => lemma_exprs_grow(items@, 0, a, b, loops),
        _ => {},
    }
}

proof fn lemma_exprs_grow(items: Seq<IrExpr>, i: int, a: Scope, b: Scope, loops: Seq<LoopId>)
    requires
        scope_grows(a, b),
        check_exprs(items, i, a, loops) is Ok,
    ensures
        check_exprs(items, i, b, loops) is Ok,
    decreases items, items.len() - i,
{
    if 0 <= i < items.len() {
        law_checks_survive_growth(items[i], a, b, loops);
        lemma_exprs_grow(items, i + 1, a, b, loops);
    }
}

proof fn lemma_lets_grow(items: Seq<IrLetBinding>, i: int, a: Scope, b: Scope, loops: Seq<LoopId>)
    requires
        scope_grows(a, b),
        check_lets(items, i, a, loops) is Ok,
    ensures
        check_lets(items, i, b, loops) is Ok,
    decreases items, items.len() - i,
{
    if 0 <= i < items.len() {
        law_checks_survive_growth(items[i].initializer, a, b, loops);
        lemma_lets_grow(items, i + 1, a, b, loops);
    }
}

proof fn lemma_states_grow(items: Seq<IrStateBinding>, i: int, a: Scope, b: Scope, loops: Seq<LoopId>)
    requires
        scope_grows(a, b),
        check_states(items, i, a, loops) is Ok,
    ensures
        check_states(items, i, b, loops) is Ok,
    decreases items, items.len() - i,
{
    if 0 <= i < items.len() {
        law_checks_survive_growth(items[i].initializer, a, b, loops);
        lemma_states_grow(items, i + 1, a, b, loops);
    }
}

proof fn lemma_updates_grow(items: Seq<IrStateUpdate>, i: int, declared: Set<LocalSlot>, a: Scope, b: Scope, loops: Seq<LoopId>)
    requires
        scope_grows(a, b),
        check_updates(items, i, declared, a, loops) is Ok,
    ensures
        check_updates(items, i, declared, b, loops) is Ok,
    decreases items, items.len() - i,
{
    if 0 <= i < items.len() && declared.contains(items[i].target) {
        law_checks_survive_growth(items[i].value, a, b, loops);
        lemma_updates_grow(items, i + 1, declared, a, b, loops);
    }
}

proof fn lemma_quasi_grows(q: IrQuasiDatum, a: Scope, b: Scope, loops: Seq<LoopId>)
    requires
        scope_grows(a, b),
        check_quasi(q, a, loops) is Ok,
    ensures
        check_quasi(q, b, loops) is Ok,
    decreases q, 0int,
{
    match q {
        IrQuasiDatum::List(items) => lemma_quasis_grow(items@, 0, a, b, loops),
        IrQuasiDatum::Evaluate(e) => law_checks_survive_growth(*e, a, b, loops),
        IrQuasiDatum::Splice(e) => law_checks_survive_growth(*e, a, b, loops),
        _ => {},
    }
}

proof fn lemma_quasis_grow(items: Seq<IrQuasiDatum>, i: int, a: Scope, b: Scope, loops: Seq<LoopId>)
    requires
        scope_grows(a, b),
        check_quasis(items, i, a, loops) is Ok,
    ensures
        check_quasis(items, i, b, loops) is Ok,
    decreases items, items.len() - i,
{
    if 0 <= i < items.len() {
        lemma_quasi_grows(items[i], a, b, loops);
        lemma_quasis_grow(items, i + 1, a, b, loops);
    }
}

/// Every function of `fs` checks against the table `all` and `global_count` globals.
pub open spec fn functions_check(fs: Seq<IrFunction>, all: Seq<IrFunction>, global_count: nat) -> bool {
    forall|i: int| 0 <= i < fs.len() ==> #[trigger] check_function(fs[i], all, global_count) is Ok
}

pub proof fn lemma_functions_check(fs: Seq<IrFunction>, i: int, all: Seq<IrFunction>, global_count: nat)
    requires
        0 <= i <= fs.len(),
    ensures
        check_functions(fs, i, all, global_count) is Ok <==> forall|k: int| i <= k < fs.len() ==> #[trigger] check_function(fs[k], all, global_count) is Ok,
    decreases fs.len() - i,
{
    if i < fs.len() {
        lemma_functions_check(fs, i + 1, all, global_count);
    }
}

/// A function that checks against a table still checks against any
/// extension of it with at least as many globals.
pub proof fn lemma_function_grows(f: IrFunction, fa: Seq<IrFunction>, fb: Seq<IrFunction>, ga: nat, gb: nat)
    requires
        check_function(f, fa, ga) is Ok,
        fa.len() <= fb.len(),
        forall|i: int| 0 <= i < fa.len() ==> #[trigger] fb[i] == fa[i],
        ga <= gb,
    ensures
        check_function(f, fb, gb) is Ok,
{
    law_checks_survive_growth(
        f.body,
        Scope { local_count: f.local_count, capture_count: f.capture_count, functions: fa, global_count: ga },
        Scope { local_count: f.local_count, capture_count: f.capture_count, functions: fb, global_count: gb },
        Seq::empty(),
    );
}

/// A top-level form that checks still checks once the tables have grown.
pub proof fn lemma_top_level_grows(t: IrTopLevel, fa: Seq<IrFunction>, fb: Seq<IrFunction>, ga: nat, gb: nat)
    requires
        check_top_level(t, fa, ga) is Ok,
        fa.len() <= fb.len(),
        forall|i: int| 0 <= i < fa.len() ==> #[trigger] fb[i] == fa[i],
        ga <= gb,
    ensures
        check_top_level(t, fb, gb) is Ok,
{
    match t {
        IrTopLevel::Expr { body, .. } => {
            law_checks_survive_growth(
                body.expr,
                Scope { local_count: body.local_count, capture_count: 0, functions: fa, global_count: ga },
                Scope { local_count: body.local_count, capture_count: 0, functions: fb, global_count: gb },
                Seq::empty(),
            );
        },
        IrTopLevel::Define { initializer, .. } => {
            law_checks_survive_growth(
                initializer.expr,
                Scope { local_count: initializer.local_count, capture_count: 0, functions: fa, global_count: ga },
                Scope { local_count: initializer.local_count, capture_count: 0, functions: fb, global_count: gb },
                Seq::empty(),
            );
        },
    }
}

} // verus!
