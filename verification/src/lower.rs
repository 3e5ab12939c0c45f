//! Lowers core expressions into the structured IR: every symbol resolves
//! to a local slot, a capture slot or a global id; local slots are
//! assigned per function (shadowing included); `fn` becomes a
//! function-table entry plus an explicit `MakeClosure`; and every `break`
//! resolves to the innermost enclosing runtime loop of its own function.
//! Lowering never executes user code.
use vstd::prelude::*;
use crate::capture::CaptureList;
use crate::core_expr::{cores_view, lemma_cores_view_all, CoreExpr, CoreExprV};
use crate::lower_shape::{
    core_data, core_datum, fn_entry, fns_extend, inits_lowered, lemma_fns_extend_table, is_general_loop, is_sym, lemma_each_grows, lemma_inits_grow,
    lemma_lowered_grows, lemma_quasi_grows, list_lowered_from, lowered_each, lowered_from, names_extend, quasi_lowered_from, top_level_lowered_from, limit_error, lowerable, list_lowerable,
    quasi_lowerable, top_lowerable, pairs_lowerable, pair_names, symbol_names, distinct_symbols, lemma_lowerable_list, lemma_lowerable_sequence, lemma_pairs_lowerable, each_lowerable, lemma_pairs_lowerable_intro, lemma_pair_names_distinct,
};
use crate::datum::{datums_view, lemma_datums_view_all, lemma_datums_view_push};
use crate::error::{LowerError, Span};
use crate::globals::GlobalRegistry;
use crate::ids::{CaptureSlot, FunctionId, LocalSlot, LoopId};
use crate::ir::{
    IrBody, IrCaptureSource, IrConst, IrExpr, IrExprKind, IrFunction, IrLetBinding, IrQuasiDatum, IrStateBinding,
    IrStateUpdate, IrTopLevel,
};
use crate::datum::Datum;
use crate::symbol::Symbol;
use crate::text::str_eq;

verus! {

broadcast use vstd::std_specs::vec::group_vec_axioms;

/// Whether `b` keeps every name of `a` under the same id.
pub open spec fn extends_names(a: Seq<Seq<char>>, b: Seq<Seq<char>>) -> bool {
    a.len() <= b.len() && forall|i: int| 0 <= i < a.len() ==> b[i] == a[i]
}

/// Special-form names that `def` may never bind.
pub open spec fn is_reserved_name(n: Seq<char>) -> bool {
    n == "fn"@ || n == "let"@ || n == "for"@ || n == "loop"@ || n == "def"@ || n == "if"@ || n == "break"@
        || n == "quote"@ || n == "quasiquote"@ || n == "unquote"@ || n == "unquote-splicing"@ || n == "gensym"@
        || n == "do"@ || n == "true"@ || n == "false"@
}

fn is_reserved(name: &str) -> (r: bool)
    ensures
        r == is_reserved_name(name@),
{
    str_eq(name, "fn") || str_eq(name, "let") || str_eq(name, "for") || str_eq(name, "loop") || str_eq(name, "def")
        || str_eq(name, "if") || str_eq(name, "break") || str_eq(name, "quote") || str_eq(name, "quasiquote")
        || str_eq(name, "unquote") || str_eq(name, "unquote-splicing") || str_eq(name, "gensym") || str_eq(name, "do")
        || str_eq(name, "true") || str_eq(name, "false")
}

fn binding_name(expr: &CoreExpr) -> (r: Option<String>)
    ensures
        match *expr {
            CoreExpr::Symbol(n) => r matches Some(s) && s@ == n@,
            _ => r is None,
        },
{
    match expr {
        CoreExpr::Symbol(name) => Some(name.clone()),
        _ => None,
    }
}

/// Where a resolved name lives, seen from the referencing function.
enum ResolvedBinding {
    Local(LocalSlot),
    Capture(CaptureSlot),
}

/// Per-function lowering state: its block scopes (innermost last), its
/// capture list, its next free local slot and its enclosing runtime loops.
struct FunctionScope {
    scopes: Vec<Vec<(String, LocalSlot)>>,
    captures: CaptureList,
    next_local: u32,
    loop_stack: Vec<LoopId>,
}

impl FunctionScope {
    spec fn wf(&self) -> bool {
        &&& self.scopes@.len() >= 1
        &&& self.captures.wf()
    }

    fn new() -> (r: Self)
        ensures
            r.wf(),
            r.scopes@.len() == 1,
            r.next_local == 0,
            r.loop_stack@.len() == 0,
    {
        let mut scopes: Vec<Vec<(String, LocalSlot)>> = Vec::new();
        scopes.push(Vec::new());
        FunctionScope { scopes, captures: CaptureList::new(), next_local: 0, loop_stack: Vec::new() }
    }

    /// Gives `name` the next local slot in the innermost block.
    fn declare(&mut self, name: &String) -> (r: Result<LocalSlot, LowerError>)
        requires
            old(self).wf(),
        ensures
            final(self).wf(),
            final(self).scopes@.len() == old(self).scopes@.len(),
            final(self).loop_stack@ == old(self).loop_stack@,
            match r {
                Ok(slot) => slot.0 == old(self).next_local && final(self).next_local == old(self).next_local + 1,
                Err(err) => err == LowerError::TooManyLocals && old(self).next_local == u32::MAX,
            },
    {
        if self.next_local == u32::MAX {
            return Err(LowerError::TooManyLocals);
        }
        let slot = LocalSlot(self.next_local);
        self.next_local = self.next_local + 1;
        let mut last = self.scopes.pop().unwrap();
        last.push((name.clone(), slot));
        self.scopes.push(last);
        Ok(slot)
    }

    fn push_scope(&mut self)
        requires
            old(self).wf(),
        ensures
            final(self).wf(),
            final(self).scopes@.len() == old(self).scopes@.len() + 1,
            final(self).loop_stack@ == old(self).loop_stack@,
            final(self).next_local == old(self).next_local,
    {
        self.scopes.push(Vec::new());
    }

    fn pop_scope(&mut self)
        requires
            old(self).wf(),
            old(self).scopes@.len() >= 2,
        ensures
            final(self).wf(),
            final(self).scopes@.len() == old(self).scopes@.len() - 1,
            final(self).loop_stack@ == old(self).loop_stack@,
            final(self).next_local == old(self).next_local,
    {
        self.scopes.pop();
    }

    /// Looks `name` up in this function's own blocks, innermost first.
    fn resolve_own(&self, name: &str) -> (r: Option<LocalSlot>) {
        let mut i: usize = self.scopes.len();
        while i > 0
            invariant
                i <= self.scopes@.len(),
            decreases i,
        {
            let scope = &self.scopes[i - 1];
            let mut j: usize = scope.len();
            while j > 0
                invariant
                    j <= scope@.len(),
                decreases j,
            {
                if str_eq(scope[j - 1].0.as_str(), name) {
                    return Some(scope[j - 1].1);
                }
                j -= 1;
            }
            i -= 1;
        }
        None
    }
}

/// Lowering state for one top-level form: the functions produced so far
/// (slot `i` holds the function with id `base_function_id + i`, once it is
/// complete), the stack of functions being lowered (innermost last), and
/// the next function and loop ids to hand out.
pub struct LowerContext {
    functions: Vec<Option<IrFunction>>,
    base_function_id: u32,
    function_stack: Vec<FunctionScope>,
    next_function_id: u32,
    next_loop_id: u32,
}

/// The block count and enclosing loops of every function being lowered.
spec fn shape(c: LowerContext) -> Seq<(nat, Seq<LoopId>)> {
    c.function_stack@.map_values(|f: FunctionScope| (f.scopes@.len(), f.loop_stack@))
}

/// Whether a runtime loop of the current function encloses the point
/// being lowered.
spec fn in_loop(c: LowerContext) -> bool {
    shape(c).len() > 0 && shape(c).last().1.len() > 0
}

/// How lowering may change the context: it stays well formed, ids only
/// grow, functions allocated earlier are untouched and globals keep their
/// ids.
spec fn ctx_grow(a: LowerContext, b: LowerContext, ga: Seq<Seq<char>>, gb: Seq<Seq<char>>) -> bool {
    &&& b.wf()
    &&& b.base_function_id == a.base_function_id
    &&& b.next_function_id >= a.next_function_id
    &&& b.next_loop_id >= a.next_loop_id
    &&& b.function_stack@.len() == a.function_stack@.len()
    &&& forall|i: int| 0 <= i < a.functions@.len() ==> #[trigger] b.functions@[i] == a.functions@[i]
    &&& extends_names(ga, gb)
}

/// A step of lowering that also leaves the function stack's shape as it
/// was.
spec fn ctx_step(a: LowerContext, b: LowerContext, ga: Seq<Seq<char>>, gb: Seq<Seq<char>>) -> bool {
    &&& ctx_grow(a, b, ga, gb)
    &&& shape(b) == shape(a)
}

/// Every function allocated between `a` and `b` is complete and carries its
/// own id.
spec fn filled(a: LowerContext, b: LowerContext) -> bool {
    forall|i: int| a.functions@.len() <= i < b.functions@.len() ==> (#[trigger] b.functions@[i] matches Some(f) && f.id.0 == b.base_function_id + i)
}

impl LowerContext {
    /// The next function id this context would hand out.
    pub closed spec fn spec_next_function_id(&self) -> u32 {
        self.next_function_id
    }

    pub closed spec fn spec_next_loop_id(&self) -> u32 {
        self.next_loop_id
    }

    /// Ready to lower a top-level form: nothing pending.
    pub closed spec fn is_idle(&self) -> bool {
        &&& self.functions@.len() == 0
        &&& self.function_stack@.len() == 0
        &&& self.base_function_id == self.next_function_id
    }

    spec fn wf(&self) -> bool {
        &&& self.base_function_id <= self.next_function_id
        &&& self.functions@.len() == self.next_function_id - self.base_function_id
        &&& forall|i: int| 0 <= i < self.function_stack@.len() ==> (#[trigger] self.function_stack@[i]).wf()
    }

    pub fn new() -> (r: Self)
        ensures
            r.is_idle(),
            r.spec_next_function_id() == 0,
            r.spec_next_loop_id() == 0,
    {
        LowerContext::with_next_ids(0, 0)
    }

    /// A context that continues function and loop id allocation from the
    /// given values, so ids stay unique across every top-level form of a
    /// session.
    pub fn with_next_ids(next_function_id: u32, next_loop_id: u32) -> (r: Self)
        ensures
            r.is_idle(),
            r.spec_next_function_id() == next_function_id,
            r.spec_next_loop_id() == next_loop_id,
    {
        LowerContext {
            functions: Vec::new(),
            base_function_id: next_function_id,
            function_stack: Vec::new(),
            next_function_id,
            next_loop_id,
        }
    }

    pub fn next_loop_id(&self) -> (r: u32)
        ensures
            r == self.spec_next_loop_id(),
    {
        self.next_loop_id
    }

    fn alloc_function_id(&mut self) -> (r: Result<FunctionId, LowerError>)
        requires
            old(self).wf(),
        ensures
            final(self).wf(),
            final(self).base_function_id == old(self).base_function_id,
            final(self).function_stack@ == old(self).function_stack@,
            final(self).next_loop_id == old(self).next_loop_id,
            match r {
                Ok(id) => id.0 == old(self).next_function_id && final(self).next_function_id == old(self).next_function_id + 1
                    && final(self).functions@ == old(self).functions@.push(None),
                Err(err) => err == LowerError::TooManyFunctions && *final(self) == *old(self),
            },
    {
        if self.next_function_id == u32::MAX {
            return Err(LowerError::TooManyFunctions);
        }
        let id = FunctionId(self.next_function_id);
        self.next_function_id = self.next_function_id + 1;
        self.functions.push(None);
        Ok(id)
    }

    fn alloc_loop_id(&mut self) -> (r: Result<LoopId, LowerError>)
        ensures
            final(self).functions@ == old(self).functions@,
            final(self).base_function_id == old(self).base_function_id,
            final(self).function_stack@ == old(self).function_stack@,
            final(self).next_function_id == old(self).next_function_id,
            match r {
                Ok(id) => id.0 == old(self).next_loop_id && final(self).next_loop_id == old(self).next_loop_id + 1,
                Err(err) => err == LowerError::TooManyLoops && final(self).next_loop_id == old(self).next_loop_id,
            },
    {
        if self.next_loop_id == u32::MAX {
            return Err(LowerError::TooManyLoops);
        }
        let id = LoopId(self.next_loop_id);
        self.next_loop_id = self.next_loop_id + 1;
        Ok(id)
    }

    /// Stores a completed function in the slot its id reserved.
    fn place_function(&mut self, function: IrFunction)
        requires
            old(self).wf(),
            old(self).base_function_id <= function.id.0,
            function.id.0 - old(self).base_function_id < old(self).functions@.len(),
        ensures
            final(self).wf(),
            final(self).base_function_id == old(self).base_function_id,
            final(self).function_stack@ == old(self).function_stack@,
            final(self).next_function_id == old(self).next_function_id,
            final(self).next_loop_id == old(self).next_loop_id,
            final(self).functions@ == old(self).functions@.update(function.id.0 - old(self).base_function_id, Some(function)),
    {
        let index = (function.id.0 - self.base_function_id) as usize;
        self.functions.set(index, Some(function));
    }

    fn push_function(&mut self)
        requires
            old(self).wf(),
        ensures
            final(self).wf(),
            final(self).base_function_id == old(self).base_function_id,
            final(self).functions@ == old(self).functions@,
            final(self).next_function_id == old(self).next_function_id,
            final(self).next_loop_id == old(self).next_loop_id,
            final(self).function_stack@.len() == old(self).function_stack@.len() + 1,
            forall|i: int| 0 <= i < old(self).function_stack@.len() ==> #[trigger] final(self).function_stack@[i] == old(self).function_stack@[i],
            final(self).function_stack@.last().next_local == 0,
            final(self).function_stack@.last().scopes@.len() == 1,
            final(self).function_stack@.last().loop_stack@.len() == 0,
    {
        self.function_stack.push(FunctionScope::new());
    }

    fn pop_function(&mut self) -> (r: FunctionScope)
        requires
            old(self).wf(),
            old(self).function_stack@.len() >= 1,
        ensures
            final(self).wf(),
            r.wf(),
            r == old(self).function_stack@.last(),
            final(self).base_function_id == old(self).base_function_id,
            final(self).functions@ == old(self).functions@,
            final(self).next_function_id == old(self).next_function_id,
            final(self).next_loop_id == old(self).next_loop_id,
            final(self).function_stack@ == old(self).function_stack@.drop_last(),
    {
        let r = self.function_stack.pop().unwrap();
        r
    }

    /// Declares `name` in the innermost block of the current function.
    fn declare(&mut self, name: &String) -> (r: Result<LocalSlot, LowerError>)
        requires
            old(self).wf(),
            old(self).function_stack@.len() >= 1,
        ensures
            ctx_same_shape(*old(self), *final(self)),
            r is Err ==> r == Err::<LocalSlot, LowerError>(LowerError::TooManyLocals),
            r matches Ok(slot) ==> slot.0 == old(self).function_stack@.last().next_local
                && final(self).function_stack@.last().next_local == old(self).function_stack@.last().next_local + 1,
            forall|i: int| 0 <= i < old(self).function_stack@.len() - 1 ==> #[trigger] final(self).function_stack@[i] == old(self).function_stack@[i],
    {
        let mut f = self.function_stack.pop().unwrap();
        let r = f.declare(name);
        self.function_stack.push(f);
        proof {
            assert forall|i: int| 0 <= i < old(self).function_stack@.len() implies #[trigger] self.function_stack@[i].scopes@.len() == old(self).function_stack@[i].scopes@.len()
                && self.function_stack@[i].loop_stack@ == old(self).function_stack@[i].loop_stack@ by {
                if i < old(self).function_stack@.len() - 1 {
                    assert(self.function_stack@[i] == old(self).function_stack@[i]);
                }
            }
        }
        r
    }

    fn push_block(&mut self)
        requires
            old(self).wf(),
            old(self).function_stack@.len() >= 1,
        ensures
            final(self).wf(),
            final(self).base_function_id == old(self).base_function_id,
            final(self).functions@ == old(self).functions@,
            final(self).next_function_id == old(self).next_function_id,
            final(self).next_loop_id == old(self).next_loop_id,
            final(self).function_stack@.len() == old(self).function_stack@.len(),
            forall|i: int| 0 <= i < old(self).function_stack@.len() - 1 ==> #[trigger] final(self).function_stack@[i] == old(self).function_stack@[i],
            final(self).function_stack@.last().scopes@.len() == old(self).function_stack@.last().scopes@.len() + 1,
            final(self).function_stack@.last().loop_stack@ == old(self).function_stack@.last().loop_stack@,
            shape(*final(self)) == shape(*old(self)).update(old(self).function_stack@.len() - 1, (old(self).function_stack@.last().scopes@.len() + 1, old(self).function_stack@.last().loop_stack@)),
    {
        let mut f = self.function_stack.pop().unwrap();
        f.push_scope();
        self.function_stack.push(f);
        proof {
            assert(shape(*self) =~= shape(*old(self)).update(old(self).function_stack@.len() - 1, (old(self).function_stack@.last().scopes@.len() + 1, old(self).function_stack@.last().loop_stack@)));
        }
    }

    fn pop_block(&mut self)
        requires
            old(self).wf(),
            old(self).function_stack@.len() >= 1,
            old(self).function_stack@.last().scopes@.len() >= 2,
        ensures
            final(self).wf(),
            final(self).base_function_id == old(self).base_function_id,
            final(self).functions@ == old(self).functions@,
            final(self).next_function_id == old(self).next_function_id,
            final(self).next_loop_id == old(self).next_loop_id,
            final(self).function_stack@.len() == old(self).function_stack@.len(),
            forall|i: int| 0 <= i < old(self).function_stack@.len() - 1 ==> #[trigger] final(self).function_stack@[i] == old(self).function_stack@[i],
            final(self).function_stack@.last().scopes@.len() == old(self).function_stack@.last().scopes@.len() - 1,
            final(self).function_stack@.last().loop_stack@ == old(self).function_stack@.last().loop_stack@,
            shape(*final(self)) == shape(*old(self)).update(old(self).function_stack@.len() - 1, ((old(self).function_stack@.last().scopes@.len() - 1) as nat, old(self).function_stack@.last().loop_stack@)),
    {
        let mut f = self.function_stack.pop().unwrap();
        f.pop_scope();
        self.function_stack.push(f);
        proof {
            assert(shape(*self) =~= shape(*old(self)).update(old(self).function_stack@.len() - 1, ((old(self).function_stack@.last().scopes@.len() - 1) as nat, old(self).function_stack@.last().loop_stack@)));
        }
    }

    fn push_loop(&mut self, id: LoopId)
        requires
            old(self).wf(),
            old(self).function_stack@.len() >= 1,
        ensures
            final(self).wf(),
            final(self).base_function_id == old(self).base_function_id,
            final(self).functions@ == old(self).functions@,
            final(self).next_function_id == old(self).next_function_id,
            final(self).next_loop_id == old(self).next_loop_id,
            final(self).function_stack@.len() == old(self).function_stack@.len(),
            forall|i: int| 0 <= i < old(self).function_stack@.len() - 1 ==> #[trigger] final(self).function_stack@[i] == old(self).function_stack@[i],
            final(self).function_stack@.last().scopes@.len() == old(self).function_stack@.last().scopes@.len(),
            final(self).function_stack@.last().loop_stack@ == old(self).function_stack@.last().loop_stack@.push(id),
            shape(*final(self)) == shape(*old(self)).update(old(self).function_stack@.len() - 1, (old(self).function_stack@.last().scopes@.len(), old(self).function_stack@.last().loop_stack@.push(id))),
    {
        let mut f = self.function_stack.pop().unwrap();
        f.loop_stack.push(id);
        self.function_stack.push(f);
        proof {
            assert(shape(*self) =~= shape(*old(self)).update(old(self).function_stack@.len() - 1, (old(self).function_stack@.last().scopes@.len(), old(self).function_stack@.last().loop_stack@.push(id))));
        }
    }

    fn pop_loop(&mut self)
        requires
            old(self).wf(),
            old(self).function_stack@.len() >= 1,
            old(self).function_stack@.last().loop_stack@.len() >= 1,
        ensures
            final(self).wf(),
            final(self).base_function_id == old(self).base_function_id,
            final(self).functions@ == old(self).functions@,
            final(self).next_function_id == old(self).next_function_id,
            final(self).next_loop_id == old(self).next_loop_id,
            final(self).function_stack@.len() == old(self).function_stack@.len(),
            forall|i: int| 0 <= i < old(self).function_stack@.len() - 1 ==> #[trigger] final(self).function_stack@[i] == old(self).function_stack@[i],
            final(self).function_stack@.last().scopes@.len() == old(self).function_stack@.last().scopes@.len(),
            final(self).function_stack@.last().loop_stack@ == old(self).function_stack@.last().loop_stack@.drop_last(),
            shape(*final(self)) == shape(*old(self)).update(old(self).function_stack@.len() - 1, (old(self).function_stack@.last().scopes@.len(), old(self).function_stack@.last().loop_stack@.drop_last())),
    {
        let mut f = self.function_stack.pop().unwrap();
        f.loop_stack.pop();
        self.function_stack.push(f);
        proof {
            assert(shape(*self) =~= shape(*old(self)).update(old(self).function_stack@.len() - 1, (old(self).function_stack@.last().scopes@.len(), old(self).function_stack@.last().loop_stack@.drop_last())));
        }
    }

    /// The innermost runtime loop of the current function.
    fn innermost_loop(&self) -> (r: Option<LoopId>)
        requires
            self.function_stack@.len() >= 1,
        ensures
            self.function_stack@.last().loop_stack@.len() == 0 ==> r is None,
            self.function_stack@.last().loop_stack@.len() > 0 ==> r == Some(self.function_stack@.last().loop_stack@.last()),
    {
        let f = &self.function_stack[self.function_stack.len() - 1];
        if f.loop_stack.len() == 0 {
            None
        } else {
            Some(f.loop_stack[f.loop_stack.len() - 1])
        }
    }

    /// Resolves `name` against the current function's own blocks, then
    /// outward through the enclosing functions, threading a capture through
    /// every function in between. `None` means `name` is a global.
    fn resolve(&mut self, name: &str) -> (r: Result<Option<ResolvedBinding>, LowerError>)
        requires
            old(self).wf(),
        ensures
            ctx_same_shape(*old(self), *final(self)),
            r is Err ==> r == Err::<Option<ResolvedBinding>, LowerError>(LowerError::TooManyCaptures),
    {
        let depth = self.function_stack.len();
        if depth == 0 {
            return Ok(None);
        }
        if let Some(slot) = self.function_stack[depth - 1].resolve_own(name) {
            return Ok(Some(ResolvedBinding::Local(slot)));
        }
        let mut found: Option<(usize, LocalSlot)> = None;
        let mut i: usize = depth - 1;
        while i > 0
            invariant
                i < depth,
                depth == self.function_stack@.len(),
                found matches Some(p) ==> p.0 < depth - 1,
            decreases i,
        {
            if let Some(slot) = self.function_stack[i - 1].resolve_own(name) {
                found = Some((i - 1, slot));
                break;
            }
            i -= 1;
        }
        let (found_index, slot) = match found {
            Some(p) => p,
            None => {
                return Ok(None);
            },
        };
        let mut carry = ResolvedBinding::Local(slot);
        let mut k: usize = found_index + 1;
        while k < depth
            invariant
                self.wf(),
                depth == self.function_stack@.len(),
                found_index + 1 <= k <= depth,
                ctx_same_shape(*old(self), *self),
            decreases depth - k,
        {
            let ghost before = *self;
            let mut f = self.function_stack.remove(k);
            let ghost f0 = f;
            let source = match carry {
                ResolvedBinding::Local(local) => IrCaptureSource::Local(local),
                ResolvedBinding::Capture(cap) => IrCaptureSource::Capture(cap),
            };
            if f.captures.find(source).is_none() && f.captures.len() == u32::MAX {
                self.function_stack.insert(k, f);
                proof {
                    assert(self.function_stack@ =~= before.function_stack@);
                }
                return Err(LowerError::TooManyCaptures);
            }
            let captured = match carry {
                ResolvedBinding::Local(local) => f.captures.capture_local(local),
                ResolvedBinding::Capture(cap) => f.captures.capture_capture(cap),
            };
            self.function_stack.insert(k, f);
            proof {
                assert(self.function_stack@ =~= before.function_stack@.update(k as int, f));
                assert(f.scopes == f0.scopes && f.loop_stack == f0.loop_stack);
                assert forall|i: int| 0 <= i < old(self).function_stack@.len() implies #[trigger] self.function_stack@[i].scopes@.len() == old(self).function_stack@[i].scopes@.len()
                    && self.function_stack@[i].loop_stack@ == old(self).function_stack@[i].loop_stack@ by {
                    assert(before.function_stack@[i].scopes@.len() == old(self).function_stack@[i].scopes@.len());
                }
            }
            carry = ResolvedBinding::Capture(captured);
            k += 1;
        }
        Ok(Some(carry))
    }
}

/// Lowering left every id counter and the function table as they were, and
/// the function stack with the same shape (only block contents, capture
/// lists and local counters may have changed).
spec fn ctx_same_shape(a: LowerContext, b: LowerContext) -> bool {
    &&& b.wf()
    &&& b.base_function_id == a.base_function_id
    &&& b.functions@ == a.functions@
    &&& b.next_function_id == a.next_function_id
    &&& b.next_loop_id == a.next_loop_id
    &&& b.function_stack@.len() == a.function_stack@.len()
    &&& forall|i: int| 0 <= i < a.function_stack@.len() ==> #[trigger] b.function_stack@[i].scopes@.len() == a.function_stack@[i].scopes@.len()
        && b.function_stack@[i].loop_stack@ == a.function_stack@[i].loop_stack@
}

proof fn lemma_step_refl(a: LowerContext, g: Seq<Seq<char>>)
    requires
        a.wf(),
    ensures
        ctx_step(a, a, g, g),
        filled(a, a),
{
}

proof fn lemma_shape_step(a: LowerContext, b: LowerContext, g: Seq<Seq<char>>)
    requires
        ctx_same_shape(a, b),
    ensures
        ctx_step(a, b, g, g),
        filled(a, b),
{
    assert(shape(b) =~= shape(a));
}

proof fn lemma_step_trans(a: LowerContext, b: LowerContext, c: LowerContext, ga: Seq<Seq<char>>, gb: Seq<Seq<char>>, gc: Seq<Seq<char>>)
    requires
        a.wf(),
        ctx_grow(a, b, ga, gb),
        ctx_grow(b, c, gb, gc),
    ensures
        ctx_grow(a, c, ga, gc),
        shape(b) == shape(a) && shape(c) == shape(b) ==> ctx_step(a, c, ga, gc),
        filled(a, b) && filled(b, c) ==> filled(a, c),
{
    assert(a.functions@.len() <= b.functions@.len());
    assert forall|i: int| 0 <= i < a.functions@.len() implies #[trigger] c.functions@[i] == a.functions@[i] by {
        assert(b.functions@[i] == a.functions@[i]);
    }
    if filled(a, b) && filled(b, c) {
        assert forall|i: int| a.functions@.len() <= i < c.functions@.len() implies (#[trigger] c.functions@[i] matches Some(f) && f.id.0 == c.base_function_id + i) by {
            if i < b.functions@.len() {
                assert(c.functions@[i] == b.functions@[i]);
            }
        }
    }
}

/// What lowered in context `a` stays lowered as the context grows to `b`.
proof fn lemma_lift(c: CoreExprV, e: IrExpr, a: LowerContext, b: LowerContext, ga: Seq<Seq<char>>, gb: Seq<Seq<char>>)
    requires
        a.wf(),
        ctx_grow(a, b, ga, gb),
        lowered_from(c, e, a.functions@, a.base_function_id as int, ga),
    ensures
        lowered_from(c, e, b.functions@, b.base_function_id as int, gb),
{
    lemma_fns_extend_table(a.functions@, b.functions@, a.base_function_id as int);
    lemma_lowered_grows(c, e, a.functions@, b.functions@, a.base_function_id as int, a.base_function_id as int, ga, gb);
}

proof fn lemma_lift_each(cs: Seq<CoreExprV>, off: int, es: Seq<IrExpr>, a: LowerContext, b: LowerContext, ga: Seq<Seq<char>>, gb: Seq<Seq<char>>)
    requires
        a.wf(),
        ctx_grow(a, b, ga, gb),
        lowered_each(cs, off, es, a.functions@, a.base_function_id as int, ga),
    ensures
        lowered_each(cs, off, es, b.functions@, b.base_function_id as int, gb),
{
    lemma_fns_extend_table(a.functions@, b.functions@, a.base_function_id as int);
    lemma_each_grows(cs, off, es, a.functions@, b.functions@, a.base_function_id as int, a.base_function_id as int, ga, gb);
}

/// One more item lowered, after the first `n` of `cs`.
proof fn lemma_each_push(cs: Seq<CoreExprV>, n: int, off: int, es: Seq<IrExpr>, e: IrExpr, fs: Seq<Option<IrFunction>>, base: int, g: Seq<Seq<char>>)
    requires
        0 <= off <= n < cs.len(),
        lowered_each(cs.take(n), off, es, fs, base, g),
        lowered_from(cs[n], e, fs, base, g),
    ensures
        lowered_each(cs.take(n + 1), off, es.push(e), fs, base, g),
{
    assert forall|k: int| 0 <= k < es.push(e).len() implies lowered_from(#[trigger] cs.take(n + 1)[k + off], es.push(e)[k], fs, base, g) by {
        if k < es.len() {
            assert(cs.take(n)[k + off] == cs.take(n + 1)[k + off]);
        }
    }
}

/// The names of the special forms, spelled out.
/// A runtime loop encloses the point being lowered exactly when the
/// innermost function has an open loop.
proof fn lemma_in_loop(c: LowerContext)
    requires
        c.function_stack@.len() >= 1,
    ensures
        in_loop(c) == (c.function_stack@.last().loop_stack@.len() > 0),
{
    let n = c.function_stack@.len() - 1;
    assert(shape(c)[n] == (c.function_stack@[n].scopes@.len(), c.function_stack@[n].loop_stack@));
}

/// The view of a list form, element by element.
proof fn lemma_list_view(parent: &CoreExpr, items: &Vec<CoreExpr>)
    requires
        *parent == CoreExpr::List(*items),
    ensures
        parent@ == CoreExprV::List(cores_view(items@, items@.len() as int)),
        forall|b: bool| #[trigger] lowerable(parent@, b) == list_lowerable(cores_view(items@, items@.len() as int), b),
        cores_view(items@, items@.len() as int).len() == items@.len(),
        forall|k: int| 0 <= k < items@.len() ==> #[trigger] cores_view(items@, items@.len() as int)[k] == items@[k]@,
{
    lemma_cores_view_all(items@);
    lemma_lowerable_list(cores_view(items@, items@.len() as int));
}

proof fn lemma_form_names()
    ensures
        "fn"@ == seq!['f', 'n'],
        "let"@ == seq!['l', 'e', 't'],
        "if"@ == seq!['i', 'f'],
        "break"@ == seq!['b', 'r', 'e', 'a', 'k'],
        "loop"@ == seq!['l', 'o', 'o', 'p'],
        "gensym"@ == seq!['g', 'e', 'n', 's', 'y', 'm'],
        "do"@ == seq!['d', 'o'],
        "def"@ == seq!['d', 'e', 'f'],
        "unquote"@ == seq!['u', 'n', 'q', 'u', 'o', 't', 'e'],
        "unquote-splicing"@ == seq!['u', 'n', 'q', 'u', 'o', 't', 'e', '-', 's', 'p', 'l', 'i', 'c', 'i', 'n', 'g'],
        "quote"@ == seq!['q', 'u', 'o', 't', 'e'],
        "quasiquote"@ == seq!['q', 'u', 'a', 's', 'i', 'q', 'u', 'o', 't', 'e'],
        "while"@ == seq!['w', 'h', 'i', 'l', 'e'],
{
    reveal_strlit("fn");
    reveal_strlit("let");
    reveal_strlit("if");
    reveal_strlit("break");
    reveal_strlit("loop");
    reveal_strlit("gensym");
    reveal_strlit("do");
    reveal_strlit("def");
    reveal_strlit("unquote");
    reveal_strlit("unquote-splicing");
    reveal_strlit("quote");
    reveal_strlit("quasiquote");
    reveal_strlit("while");
    assert("fn"@ =~= seq!['f', 'n']);
    assert("let"@ =~= seq!['l', 'e', 't']);
    assert("if"@ =~= seq!['i', 'f']);
    assert("break"@ =~= seq!['b', 'r', 'e', 'a', 'k']);
    assert("loop"@ =~= seq!['l', 'o', 'o', 'p']);
    assert("gensym"@ =~= seq!['g', 'e', 'n', 's', 'y', 'm']);
    assert("do"@ =~= seq!['d', 'o']);
    assert("def"@ =~= seq!['d', 'e', 'f']);
    assert("unquote"@ =~= seq!['u', 'n', 'q', 'u', 'o', 't', 'e']);
    assert("unquote-splicing"@ =~= seq!['u', 'n', 'q', 'u', 'o', 't', 'e', '-', 's', 'p', 'l', 'i', 'c', 'i', 'n', 'g']);
    assert("quote"@ =~= seq!['q', 'u', 'o', 't', 'e']);
    assert("quasiquote"@ =~= seq!['q', 'u', 'a', 's', 'i', 'q', 'u', 'o', 't', 'e']);
    assert("while"@ =~= seq!['w', 'h', 'i', 'l', 'e']);
}

fn span0() -> (r: Span)
    ensures
        r == (Span { start: 0, end: 0 }),
{
    Span::new(0, 0)
}

/// Interns `name` as a global, failing when the registry is full.
fn intern_global(name: &str, globals: &mut GlobalRegistry) -> (r: Result<crate::ids::GlobalId, LowerError>)
    ensures
        extends_names(old(globals)@, final(globals)@),
        match r {
            Ok(id) => (id.0 as int) < final(globals)@.len() && final(globals)@[id.0 as int] == name@,
            Err(err) => err == LowerError::TooManyGlobals && final(globals)@ == old(globals)@,
        },
{
    match globals.lookup(name) {
        Some(id) => Ok(id),
        None => {
            if globals.len() > u32::MAX as usize {
                return Err(LowerError::TooManyGlobals);
            }
            Ok(globals.intern(name))
        },
    }
}

fn lower_symbol(name: &String, context: &mut LowerContext, globals: &mut GlobalRegistry) -> (r: Result<IrExpr, LowerError>)
    requires
        old(context).wf(),
    ensures
        ctx_step(*old(context), *final(context), old(globals)@, final(globals)@),
        filled(*old(context), *final(context)),
        r matches Ok(e) ==> lowered_from(CoreExprV::Symbol(name@), e, final(context).functions@, final(context).base_function_id as int, final(globals)@),
        r matches Ok(e) ==> (e.kind is LoadLocal || e.kind is LoadCapture || (e.kind matches IrExprKind::LoadGlobal(id)
            && (id.0 as int) < final(globals)@.len() && final(globals)@[id.0 as int] == name@)),
        r matches Err(e) ==> limit_error(e),
{
    let span = span0();
    let resolved = context.resolve(name.as_str());
    proof {
        lemma_shape_step(*old(context), *context, old(globals)@);
    }
    match resolved {
        Err(err) => Err(err),
        Ok(Some(ResolvedBinding::Local(slot))) => Ok(IrExpr::new(span, IrExprKind::LoadLocal(slot))),
        Ok(Some(ResolvedBinding::Capture(slot))) => Ok(IrExpr::new(span, IrExprKind::LoadCapture(slot))),
        Ok(None) => {
            let ghost mid = *context;
            let id = match intern_global(name.as_str(), globals) {
                Ok(id) => id,
                Err(err) => {
                    return Err(err);
                },
            };
            Ok(IrExpr::new(span, IrExprKind::LoadGlobal(id)))
        },
    }
}

/// Lowers one core expression inside the current function.
fn lower_expr(core: &CoreExpr, context: &mut LowerContext, globals: &mut GlobalRegistry) -> (r: Result<IrExpr, LowerError>)
    requires
        old(context).wf(),
        old(context).function_stack@.len() >= 1,
    ensures
        ctx_step(*old(context), *final(context), old(globals)@, final(globals)@),
        r is Ok ==> filled(*old(context), *final(context)),
        r matches Ok(e) ==> lowered_from(core@, e, final(context).functions@, final(context).base_function_id as int, final(globals)@),
        match *core {
            CoreExpr::Int(n) => r == Ok::<IrExpr, LowerError>(IrExpr { span: Span { start: 0, end: 0 }, kind: IrExprKind::Const(IrConst::Int(n)) }),
            CoreExpr::Bool(b) => r == Ok::<IrExpr, LowerError>(IrExpr { span: Span { start: 0, end: 0 }, kind: IrExprKind::Const(IrConst::Bool(b)) }),
            CoreExpr::String(s) => r matches Ok(e) && e.kind matches IrExprKind::Const(IrConst::String(t)) && t@ == s@,
            CoreExpr::Sequence(items) => r matches Ok(e) ==> (e.kind matches IrExprKind::Sequence(v) && v@.len() == items@.len()),
            _ => true,
        },
        lowerable(core@, in_loop(*old(context))) ==> (r matches Err(e) ==> limit_error(e)),
        r is Ok ==> lowerable(core@, in_loop(*old(context))),
    decreases core, 3int,
{
    let span = span0();
    let ghost g0 = globals@;
    proof {
        lemma_step_refl(*context, globals@);
    }
    match core {
        CoreExpr::Int(n) => Ok(IrExpr::new(span, IrExprKind::Const(IrConst::Int(*n)))),
        CoreExpr::Bool(b) => Ok(IrExpr::new(span, IrExprKind::Const(IrConst::Bool(*b)))),
        CoreExpr::String(s) => Ok(IrExpr::new(span, IrExprKind::Const(IrConst::String(s.clone())))),
        CoreExpr::Symbol(name) => lower_symbol(name, context, globals),
        CoreExpr::Sequence(items) => {
            let mut lowered: Vec<IrExpr> = Vec::new();
            let mut i: usize = 0;
            let ghost iv = cores_view(items@, items@.len() as int);
            proof {
                lemma_cores_view_all(items@);
            }
            while i < items.len()
                invariant
                    *core == CoreExpr::Sequence(*items),
                    i <= items@.len(),
                    lowered@.len() == i,
                    context.wf(),
                    context.function_stack@.len() >= 1,
                    old(context).wf(),
                    ctx_step(*old(context), *context, old(globals)@, globals@),
                    filled(*old(context), *context),
                    iv == cores_view(items@, items@.len() as int),
                    iv.len() == items@.len(),
                    forall|k: int| 0 <= k < items@.len() ==> #[trigger] iv[k] == items@[k]@,
                    lowered_each(iv.take(i as int), 0, lowered@, context.functions@, context.base_function_id as int, globals@),
                    forall|k: int| 0 <= k < i ==> lowerable(#[trigger] iv[k], in_loop(*old(context))),
                decreases items@.len() - i,
            {
                proof {
                    assert(decreases_to!(*core => (*core)->Sequence_0));
                    assert(decreases_to!(*items => items[i as int]));
                }
                let ghost c1 = *context;
                let ghost g1 = globals@;
                let e = match lower_expr(&items[i], context, globals) {
                    Ok(e) => e,
                    Err(err) => {
                        proof {
                            lemma_step_trans(*old(context), c1, *context, old(globals)@, g1, globals@);
                            assert(core@ == CoreExprV::Sequence(iv));
                            assert(iv[i as int] == items@[i as int]@);
                            assert(in_loop(c1) == in_loop(*old(context)));
                            if lowerable(core@, in_loop(*old(context))) {
                                lemma_lowerable_sequence(iv, in_loop(*old(context)));
                                assert(lowerable(iv[i as int], in_loop(*old(context))));
                            }
                        }
                        return Err(err);
                    },
                };
                proof {
                    lemma_step_trans(*old(context), c1, *context, old(globals)@, g1, globals@);
                    lemma_lift_each(iv.take(i as int), 0, lowered@, c1, *context, g1, globals@);
                    lemma_each_push(iv, i as int, 0, lowered@, e, context.functions@, context.base_function_id as int, globals@);
                    assert(in_loop(c1) == in_loop(*old(context)));
                    assert(iv[i as int] == items@[i as int]@);
                }
                lowered.push(e);
                i += 1;
            }
            proof {
                assert(iv.take(i as int) =~= iv);
                assert(each_lowerable(iv, in_loop(*old(context))));
                assert(core@ == CoreExprV::Sequence(iv));
            }
            Ok(IrExpr::new(span, IrExprKind::Sequence(lowered)))
        },
        CoreExpr::List(items) => lower_list(core, items, context, globals),
    }
}

fn lower_list(parent: &CoreExpr, items: &Vec<CoreExpr>, context: &mut LowerContext, globals: &mut GlobalRegistry) -> (r: Result<IrExpr, LowerError>)
    requires
        *parent == CoreExpr::List(*items),
        old(context).wf(),
        old(context).function_stack@.len() >= 1,
    ensures
        r matches Ok(e) ==> lowered_from(parent@, e, final(context).functions@, final(context).base_function_id as int, final(globals)@),
        ctx_step(*old(context), *final(context), old(globals)@, final(globals)@),
        r is Ok ==> filled(*old(context), *final(context)),
        lowerable(parent@, in_loop(*old(context))) ==> (r matches Err(e) ==> limit_error(e)),
        r is Ok ==> lowerable(parent@, in_loop(*old(context))),
    decreases parent, 2int,
{
    let span = span0();
    proof {
        lemma_step_refl(*context, globals@);
        lemma_form_names();
        lemma_cores_view_all(items@);
        lemma_list_view(parent, items);
    }
    let ghost iv = cores_view(items@, items@.len() as int);
    if items.len() == 0 {
        return Ok(IrExpr::new(span, IrExprKind::Call {
            callee: Box::new(IrExpr::new(span, IrExprKind::Const(IrConst::Unit))),
            arguments: Vec::new(),
        }));
    }
    if let CoreExpr::Symbol(name) = &items[0] {
        if str_eq(name.as_str(), "fn") {
            return lower_fn(parent, items, context, globals);
        } else if str_eq(name.as_str(), "let") {
            return lower_let(parent, items, context, globals);
        } else if str_eq(name.as_str(), "if") {
            return lower_if(parent, items, context, globals);
        } else if str_eq(name.as_str(), "break") {
            return lower_break(parent, items, context, globals);
        } else if str_eq(name.as_str(), "loop") {
            return lower_loop(parent, items, context, globals);
        } else if str_eq(name.as_str(), "gensym") {
            return lower_gensym(parent, items, context, globals);
        } else if str_eq(name.as_str(), "do") {
            return lower_do(parent, items, context, globals);
        } else if str_eq(name.as_str(), "def") {
            return Err(LowerError::DefOutsideDirectTopLevel);
        } else if str_eq(name.as_str(), "quote") {
            return lower_quote(parent, items, context, globals);
        } else if str_eq(name.as_str(), "quasiquote") {
            proof {
                assert(parent@ == CoreExprV::List(iv));
                assert(iv[0] == CoreExprV::Symbol("quasiquote"@));
            }
            if items.len() != 2 {
                return Err(LowerError::InvalidCoreForm);
            }
            proof {
                assert(decreases_to!(*parent => (*parent)->List_0));
                assert(decreases_to!(*items => items[1]));
                assert(iv[1] == items@[1]@);
            }
            let q = lower_quasi(&items[1], 1, context, globals);
            return match q {
                Ok(q) => Ok(IrExpr::new(span, IrExprKind::QuasiQuote(q))),
                Err(e) => Err(e),
            };
        } else if str_eq(name.as_str(), "unquote") || str_eq(name.as_str(), "unquote-splicing") {
            proof {
                assert(parent@ == CoreExprV::List(iv));
                assert(iv[0] == CoreExprV::Symbol(name@));
            }
            return Err(LowerError::InvalidCoreForm);
        }
    }
    proof {
        assert(decreases_to!(*parent => (*parent)->List_0));
        assert(decreases_to!(*items => items[0]));
        assert(parent@ == CoreExprV::List(iv));
        assert(iv[0] == items@[0]@);
        assert(!is_sym(iv[0], "fn"@) && !is_sym(iv[0], "let"@) && !is_sym(iv[0], "if"@) && !is_sym(iv[0], "break"@)
            && !is_sym(iv[0], "loop"@) && !is_sym(iv[0], "gensym"@) && !is_sym(iv[0], "do"@) && !is_sym(iv[0], "def"@)
            && !is_sym(iv[0], "unquote"@) && !is_sym(iv[0], "unquote-splicing"@) && !is_sym(iv[0], "quote"@)
            && !is_sym(iv[0], "quasiquote"@));
    }

    let ghost c1 = *context;
    let ghost g1 = globals@;
    let callee = lower_expr(&items[0], context, globals);
    proof {
        lemma_step_trans(*old(context), c1, *context, old(globals)@, g1, globals@);
        assert(in_loop(c1) == in_loop(*old(context)));
    }
    let callee = match callee {
        Ok(x) => x,
        Err(err) => {
            return Err(err);
        },
    };

    let ghost cc = *context;
    let ghost gc = globals@;
    let mut arguments: Vec<IrExpr> = Vec::new();
    let mut i: usize = 1;
    while i < items.len()
        invariant
            *parent == CoreExpr::List(*items),
            1 <= i <= items@.len(),
            context.wf(),
            context.function_stack@.len() >= 1,
            old(context).wf(),
            ctx_step(*old(context), *context, old(globals)@, globals@),
            filled(*old(context), *context),
            iv == cores_view(items@, items@.len() as int),
            iv.len() == items@.len(),
            forall|k: int| 0 <= k < items@.len() ==> #[trigger] iv[k] == items@[k]@,
            cc.wf(),
            ctx_grow(cc, *context, gc, globals@),
            lowered_from(iv[0], callee, cc.functions@, cc.base_function_id as int, gc),
            lowered_each(iv.take(i as int), 1, arguments@, context.functions@, context.base_function_id as int, globals@),
            lowerable(parent@, in_loop(*old(context))) ==> (forall|k: int| 0 <= k < iv.len() ==> lowerable(#[trigger] iv[k], in_loop(*old(context)))),
            forall|k: int| 0 <= k < i ==> lowerable(#[trigger] iv[k], in_loop(*old(context))),
        decreases items@.len() - i,
    {
        proof {
            assert(decreases_to!(*parent => (*parent)->List_0));
            assert(decreases_to!(*items => items[i as int]));
        }
        let ghost c1 = *context;
        let ghost g1 = globals@;
        let e = lower_expr(&items[i], context, globals);
        proof {
            lemma_step_trans(*old(context), c1, *context, old(globals)@, g1, globals@);
            assert(in_loop(c1) == in_loop(*old(context)));
            assert(iv[i as int] == items@[i as int]@);
        }
        let e = match e {
            Ok(x) => x,
            Err(err) => {
                return Err(err);
            },
        };

        proof {
            lemma_lift_each(iv.take(i as int), 1, arguments@, c1, *context, g1, globals@);
            lemma_each_push(iv, i as int, 1, arguments@, e, context.functions@, context.base_function_id as int, globals@);
            lemma_step_trans(cc, c1, *context, gc, g1, globals@);
        }
        arguments.push(e);
        i += 1;
    }
    proof {
        assert(iv.take(i as int) =~= iv);
        lemma_lift(iv[0], callee, cc, *context, gc, globals@);
        assert(list_lowerable(iv, in_loop(*old(context))));
    }
    Ok(IrExpr::new(span, IrExprKind::Call { callee: Box::new(callee), arguments }))
}

/// Once an item is not data, no longer prefix is.
proof fn lemma_core_data_none(items: Seq<CoreExprV>, i: int, n: int)
    requires
        0 < i <= n <= items.len(),
        core_data(items, i) is None,
    ensures
        core_data(items, n) is None,
    decreases n - i,
{
    if n > i {
        lemma_core_data_none(items, i, n - 1);
    }
}

/// The quoted datum a core expression spells: symbols are interned; a
/// sequence is not data.
fn core_to_datum(core: &CoreExpr) -> (r: Option<Datum>)
    ensures
        match core_datum(core@) {
            Some(d) => r matches Some(x) && x@ == d,
            None => r is None,
        },
    decreases core,
{
    match core {
        CoreExpr::Int(n) => Some(Datum::Integer(*n)),
        CoreExpr::Bool(b) => Some(Datum::Bool(*b)),
        CoreExpr::String(s) => Some(Datum::String(s.clone())),
        CoreExpr::Symbol(name) => Some(Datum::Symbol(Symbol::interned(name.as_str()))),
        CoreExpr::Sequence(_) => None,
        CoreExpr::List(items) => {
            let mut out: Vec<Datum> = Vec::new();
            let mut i: usize = 0;
            let ghost iv = cores_view(items@, items@.len() as int);
            proof {
                lemma_cores_view_all(items@);
                lemma_datums_view_all(out@);
            }
            while i < items.len()
                invariant
                    *core == CoreExpr::List(*items),
                    i <= items@.len(),
                    iv == cores_view(items@, items@.len() as int),
                    iv.len() == items@.len(),
                    forall|k: int| 0 <= k < items@.len() ==> #[trigger] iv[k] == items@[k]@,
                    core_data(iv, i as int) == Some(datums_view(out@, out@.len() as int)),
                decreases items@.len() - i,
            {
                proof {
                    assert(decreases_to!(*core => (*core)->List_0));
                    assert(decreases_to!(*items => items[i as int]));
                }
                match core_to_datum(&items[i]) {
                    Some(d) => {
                        proof {
                            lemma_datums_view_push(out@, d);
                        }
                        out.push(d);
                    },
                    None => {
                        proof {
                            lemma_core_data_none(iv, i as int + 1, iv.len() as int);
                        }
                        return None;
                    },
                }
                i += 1;
            }
            Some(Datum::List(out))
        },
    }
}

/// `(quote datum)`: the datum, unevaluated.
fn lower_quote(parent: &CoreExpr, items: &Vec<CoreExpr>, context: &mut LowerContext, globals: &mut GlobalRegistry) -> (r: Result<IrExpr, LowerError>)
    requires
        items@.len() >= 1 && items@[0]@ == CoreExprV::Symbol("quote"@),
        *parent == CoreExpr::List(*items),
        old(context).wf(),
    ensures
        r matches Ok(e) ==> lowered_from(parent@, e, final(context).functions@, final(context).base_function_id as int, final(globals)@),
        ctx_step(*old(context), *final(context), old(globals)@, final(globals)@),
        r is Ok ==> filled(*old(context), *final(context)),
        items@.len() != 2 ==> r == Err::<IrExpr, LowerError>(LowerError::InvalidCoreForm),
        r matches Ok(e) ==> e.kind is Quote,
        r matches Ok(e) ==> items@.len() == 2 && (e.kind matches IrExprKind::Quote(d) && core_datum(items@[1]@) == Some(d@)),
        lowerable(parent@, in_loop(*old(context))) ==> (r matches Err(e) ==> limit_error(e)),
        r is Ok ==> lowerable(parent@, in_loop(*old(context))),
    decreases parent, 1int,
{
    proof {
        lemma_step_refl(*context, globals@);
        lemma_form_names();
        lemma_cores_view_all(items@);
        lemma_list_view(parent, items);
    }
    proof {
        assert(parent@ == CoreExprV::List(cores_view(items@, items@.len() as int)));
        assert(cores_view(items@, items@.len() as int)[0] == items@[0]@);
    }
    if items.len() != 2 {
        return Err(LowerError::InvalidCoreForm);
    }
    proof {
        assert(cores_view(items@, items@.len() as int)[1] == items@[1]@);
    }
    match core_to_datum(&items[1]) {
        Some(d) => Ok(IrExpr::new(span0(), IrExprKind::Quote(d))),
        None => Err(LowerError::InvalidCoreForm),
    }
}

fn head_is(items: &Vec<CoreExpr>, name: &str) -> (r: bool)
    ensures
        r == (items@.len() > 0 && (items@[0] matches CoreExpr::Symbol(s) && s@ == name@)),
{
    if items.len() == 0 {
        return false;
    }
    match &items[0] {
        CoreExpr::Symbol(s) => str_eq(s.as_str(), name),
        _ => false,
    }
}

/// A quasiquote template at nesting `depth` (1 = innermost quasiquote):
/// `(unquote e)` and `(unquote-splicing e)` at depth 1 are evaluated, a
/// nested `quasiquote` goes one level deeper and an `unquote` below depth 1
/// one level back; everything else is data.
fn lower_quasi(template: &CoreExpr, depth: usize, context: &mut LowerContext, globals: &mut GlobalRegistry) -> (r: Result<IrQuasiDatum, LowerError>)
    requires
        depth >= 1,
        old(context).wf(),
        old(context).function_stack@.len() >= 1,
    ensures
        r matches Ok(q) ==> quasi_lowered_from(template@, depth as nat, q, final(context).functions@, final(context).base_function_id as int, final(globals)@),
        ctx_step(*old(context), *final(context), old(globals)@, final(globals)@),
        r is Ok ==> filled(*old(context), *final(context)),
        quasi_lowerable(template@, depth as nat, in_loop(*old(context))) ==> (r matches Err(e) ==> limit_error(e)),
        r is Ok ==> quasi_lowerable(template@, depth as nat, in_loop(*old(context))),
    decreases template, 0int,
{
    proof {
        lemma_step_refl(*context, globals@);
    }
    let items = match template {
        CoreExpr::List(items) => items,
        _ => {
            return match core_to_datum(template) {
                Some(d) => Ok(IrQuasiDatum::Datum(d)),
                None => Err(LowerError::InvalidCoreForm),
            };
        },
    };
    proof {
        assert(decreases_to!(*template => (*template)->List_0));
        lemma_cores_view_all(items@);
        lemma_form_names();
    }
    let ghost iv = cores_view(items@, items@.len() as int);
    if head_is(items, "quote") {
        return match core_to_datum(template) {
            Some(d) => Ok(IrQuasiDatum::Datum(d)),
            None => Err(LowerError::InvalidCoreForm),
        };
    }
    let is_unquote = head_is(items, "unquote");
    let is_splice = head_is(items, "unquote-splicing");
    if (is_unquote || is_splice) && depth == 1 {
        if items.len() != 2 {
            return Err(LowerError::InvalidCoreForm);
        }
        proof {
            assert(decreases_to!(*items => items[1]));
        }
        let e = match lower_expr(&items[1], context, globals) {
            Ok(e) => e,
            Err(err) => {
                return Err(err);
            },
        };
        if is_unquote {
            return Ok(IrQuasiDatum::Evaluate(Box::new(e)));
        } else {
            return Ok(IrQuasiDatum::Splice(Box::new(e)));
        }
    }
    let nested: usize = if head_is(items, "quasiquote") {
        if depth >= usize::MAX - 1 {
            return Err(LowerError::InvalidCoreForm);
        }
        depth + 1
    } else if is_unquote || is_splice {
        depth - 1
    } else {
        depth
    };
    proof {
        assert(template@ == CoreExprV::List(iv));
        if items@.len() > 0 {
            assert(iv[0] == items@[0]@);
        }
    }
    let mut out: Vec<IrQuasiDatum> = Vec::new();
    let mut i: usize = 0;
    while i < items.len()
        invariant
            *template == CoreExpr::List(*items),
            i <= items@.len(),
            nested >= 1,
            quasi_lowerable(template@, depth as nat, in_loop(*old(context))) ==> (forall|k: int| 0 <= k < iv.len() ==> quasi_lowerable(#[trigger] iv[k], nested as nat, in_loop(*old(context)))),
            forall|k: int| 0 <= k < i ==> quasi_lowerable(#[trigger] iv[k], nested as nat, in_loop(*old(context))),
            iv == cores_view(items@, items@.len() as int),
            iv.len() == items@.len(),
            forall|k: int| 0 <= k < items@.len() ==> #[trigger] iv[k] == items@[k]@,
            out@.len() == i,
            forall|k: int| 0 <= k < i ==> quasi_lowered_from(#[trigger] iv[k], nested as nat, out@[k], context.functions@, context.base_function_id as int, globals@),
            context.wf(),
            context.function_stack@.len() >= 1,
            old(context).wf(),
            ctx_step(*old(context), *context, old(globals)@, globals@),
            filled(*old(context), *context),
        decreases items@.len() - i,
    {
        proof {
            assert(decreases_to!(*template => (*template)->List_0));
            assert(decreases_to!(*items => items[i as int]));
        }
        let ghost c1 = *context;
        let ghost g1 = globals@;
        let q = lower_quasi(&items[i], nested, context, globals);
        proof {
            lemma_step_trans(*old(context), c1, *context, old(globals)@, g1, globals@);
            assert(in_loop(c1) == in_loop(*old(context)));
            assert(iv[i as int] == items@[i as int]@);
        }
        match q {
            Ok(q) => {
                proof {
                    assert forall|k: int| 0 <= k < i implies quasi_lowered_from(#[trigger] iv[k], nested as nat, out@[k], context.functions@, context.base_function_id as int, globals@) by {
                        lemma_fns_extend_table(c1.functions@, context.functions@, c1.base_function_id as int);
                        lemma_quasi_grows(iv[k], nested as nat, out@[k], c1.functions@, context.functions@, c1.base_function_id as int, c1.base_function_id as int, g1, globals@);
                    }
                }
                out.push(q);
            },
            Err(err) => {
                return Err(err);
            },
        }
        i += 1;
    }
    proof {
        assert(quasi_lowerable(template@, depth as nat, in_loop(*old(context))));
    }
    Ok(IrQuasiDatum::List(out))
}

fn lower_do(parent: &CoreExpr, items: &Vec<CoreExpr>, context: &mut LowerContext, globals: &mut GlobalRegistry) -> (r: Result<IrExpr, LowerError>)
    requires
        items@.len() >= 1 && items@[0]@ == CoreExprV::Symbol("do"@),
        *parent == CoreExpr::List(*items),
        items@.len() >= 1,
        old(context).wf(),
        old(context).function_stack@.len() >= 1,
    ensures
        r matches Ok(e) ==> lowered_from(parent@, e, final(context).functions@, final(context).base_function_id as int, final(globals)@),
        ctx_step(*old(context), *final(context), old(globals)@, final(globals)@),
        r is Ok ==> filled(*old(context), *final(context)),
        lowerable(parent@, in_loop(*old(context))) ==> (r matches Err(e) ==> limit_error(e)),
        r is Ok ==> lowerable(parent@, in_loop(*old(context))),
    decreases parent, 1int,
{
    proof {
        lemma_step_refl(*context, globals@);
        lemma_form_names();
        lemma_cores_view_all(items@);
        lemma_list_view(parent, items);
    }
    let ghost iv = cores_view(items@, items@.len() as int);
    proof {
        assert(parent@ == CoreExprV::List(iv));
        assert(iv[0] == items@[0]@);
    }
    let mut expressions: Vec<IrExpr> = Vec::new();
    let mut i: usize = 1;
    while i < items.len()
        invariant
            *parent == CoreExpr::List(*items),
            1 <= i <= items@.len(),
            lowerable(parent@, in_loop(*old(context))) ==> (forall|k: int| 1 <= k < iv.len() ==> lowerable(#[trigger] iv[k], in_loop(*old(context)))),
            forall|k: int| 1 <= k < i ==> lowerable(#[trigger] iv[k], in_loop(*old(context))),
            context.wf(),
            context.function_stack@.len() >= 1,
            old(context).wf(),
            ctx_step(*old(context), *context, old(globals)@, globals@),
            filled(*old(context), *context),
            iv == cores_view(items@, items@.len() as int),
            iv.len() == items@.len(),
            forall|k: int| 0 <= k < items@.len() ==> #[trigger] iv[k] == items@[k]@,
            lowered_each(iv.take(i as int), 1, expressions@, context.functions@, context.base_function_id as int, globals@),
        decreases items@.len() - i,
    {
        proof {
            assert(decreases_to!(*parent => (*parent)->List_0));
            assert(decreases_to!(*items => items[i as int]));
        }
        let ghost c1 = *context;
        let ghost g1 = globals@;
        let e = lower_expr(&items[i], context, globals);
        proof {
            lemma_step_trans(*old(context), c1, *context, old(globals)@, g1, globals@);
            assert(in_loop(c1) == in_loop(*old(context)));
            assert(iv[i as int] == items@[i as int]@);
        }
        let e = match e {
            Ok(x) => x,
            Err(err) => {
                return Err(err);
            },
        };

        proof {
            lemma_lift_each(iv.take(i as int), 1, expressions@, c1, *context, g1, globals@);
            lemma_each_push(iv, i as int, 1, expressions@, e, context.functions@, context.base_function_id as int, globals@);
        }
        expressions.push(e);
        i += 1;
    }
    proof {
        assert(iv.take(i as int) =~= iv);
        assert(list_lowerable(iv, in_loop(*old(context))));
    }
    Ok(IrExpr::new(span0(), IrExprKind::Do(expressions)))
}

fn lower_gensym(parent: &CoreExpr, items: &Vec<CoreExpr>, context: &mut LowerContext, globals: &mut GlobalRegistry) -> (r: Result<IrExpr, LowerError>)
    requires
        items@.len() >= 1 && items@[0]@ == CoreExprV::Symbol("gensym"@),
        *parent == CoreExpr::List(*items),
        items@.len() >= 1,
        old(context).wf(),
        old(context).function_stack@.len() >= 1,
    ensures
        r matches Ok(e) ==> lowered_from(parent@, e, final(context).functions@, final(context).base_function_id as int, final(globals)@),
        ctx_step(*old(context), *final(context), old(globals)@, final(globals)@),
        r is Ok ==> filled(*old(context), *final(context)),
        items@.len() > 2 ==> r == Err::<IrExpr, LowerError>(LowerError::InvalidGensymSyntax { got: (items@.len() - 1) as usize }),
        lowerable(parent@, in_loop(*old(context))) ==> (r matches Err(e) ==> limit_error(e)),
        r is Ok ==> lowerable(parent@, in_loop(*old(context))),
    decreases parent, 1int,
{
    proof {
        lemma_step_refl(*context, globals@);
        lemma_form_names();
        lemma_cores_view_all(items@);
        lemma_list_view(parent, items);
    }
    let ghost iv = cores_view(items@, items@.len() as int);
    proof {
        assert(parent@ == CoreExprV::List(iv));
        assert(iv[0] == items@[0]@);
    }
    if items.len() == 1 {
        return Ok(IrExpr::new(span0(), IrExprKind::Gensym { prefix: None }));
    }
    if items.len() != 2 {
        return Err(LowerError::InvalidGensymSyntax { got: items.len() - 1 });
    }
    proof {
        assert(decreases_to!(*parent => (*parent)->List_0));
        assert(decreases_to!(*items => items[1]));
        assert(iv[1] == items@[1]@);
    }

    let ghost c1 = *context;
    let ghost g1 = globals@;
    let p = lower_expr(&items[1], context, globals);
    proof {
        lemma_step_trans(*old(context), c1, *context, old(globals)@, g1, globals@);
    }
    let p = match p {
        Ok(x) => x,
        Err(err) => {
            return Err(err);
        },
    };

    Ok(IrExpr::new(span0(), IrExprKind::Gensym { prefix: Some(Box::new(p)) }))
}

fn lower_if(parent: &CoreExpr, items: &Vec<CoreExpr>, context: &mut LowerContext, globals: &mut GlobalRegistry) -> (r: Result<IrExpr, LowerError>)
    requires
        items@.len() >= 1 && items@[0]@ == CoreExprV::Symbol("if"@),
        *parent == CoreExpr::List(*items),
        items@.len() >= 1,
        old(context).wf(),
        old(context).function_stack@.len() >= 1,
    ensures
        r matches Ok(e) ==> lowered_from(parent@, e, final(context).functions@, final(context).base_function_id as int, final(globals)@),
        ctx_step(*old(context), *final(context), old(globals)@, final(globals)@),
        r is Ok ==> filled(*old(context), *final(context)),
        items@.len() != 4 ==> r == Err::<IrExpr, LowerError>(LowerError::InvalidCoreForm),
        lowerable(parent@, in_loop(*old(context))) ==> (r matches Err(e) ==> limit_error(e)),
        r is Ok ==> lowerable(parent@, in_loop(*old(context))),
    decreases parent, 1int,
{
    proof {
        lemma_step_refl(*context, globals@);
        lemma_form_names();
        lemma_cores_view_all(items@);
        lemma_list_view(parent, items);
    }
    if items.len() != 4 {
        return Err(LowerError::InvalidCoreForm);
    }
    proof {
        assert(decreases_to!(*parent => (*parent)->List_0));
        assert(decreases_to!(*items => items[1]));
        assert(decreases_to!(*items => items[2]));
        assert(decreases_to!(*items => items[3]));
    }
    let ghost c1 = *context;
    let ghost g1 = globals@;
    let condition = lower_expr(&items[1], context, globals);
    proof {
        lemma_step_trans(*old(context), c1, *context, old(globals)@, g1, globals@);
    }
    let condition = match condition {
        Ok(x) => x,
        Err(err) => {
            return Err(err);
        },
    };

    let ghost cc = *context;
    let ghost gc = globals@;
    let ghost c1 = *context;
    let ghost g1 = globals@;
    let then_expr = lower_expr(&items[2], context, globals);
    proof {
        lemma_step_trans(*old(context), c1, *context, old(globals)@, g1, globals@);
    }
    let then_expr = match then_expr {
        Ok(x) => x,
        Err(err) => {
            return Err(err);
        },
    };

    let ghost ct = *context;
    let ghost gt = globals@;
    let ghost c1 = *context;
    let ghost g1 = globals@;
    let else_expr = lower_expr(&items[3], context, globals);
    proof {
        lemma_step_trans(*old(context), c1, *context, old(globals)@, g1, globals@);
    }
    let else_expr = match else_expr {
        Ok(x) => x,
        Err(err) => {
            return Err(err);
        },
    };

    proof {
        lemma_lift(items@[1]@, condition, cc, *context, gc, globals@);
        lemma_lift(items@[2]@, then_expr, ct, *context, gt, globals@);
    }
    Ok(IrExpr::new(span0(), IrExprKind::If { condition: Box::new(condition), then_expr: Box::new(then_expr), else_expr: Box::new(else_expr) }))
}

fn lower_break(parent: &CoreExpr, items: &Vec<CoreExpr>, context: &mut LowerContext, globals: &mut GlobalRegistry) -> (r: Result<IrExpr, LowerError>)
    requires
        items@.len() >= 1 && items@[0]@ == CoreExprV::Symbol("break"@),
        *parent == CoreExpr::List(*items),
        items@.len() >= 1,
        old(context).wf(),
        old(context).function_stack@.len() >= 1,
    ensures
        r matches Ok(e) ==> lowered_from(parent@, e, final(context).functions@, final(context).base_function_id as int, final(globals)@),
        ctx_step(*old(context), *final(context), old(globals)@, final(globals)@),
        r is Ok ==> filled(*old(context), *final(context)),
        old(context).function_stack@.last().loop_stack@.len() == 0 ==> r == Err::<IrExpr, LowerError>(LowerError::BreakOutsideRuntimeLoop),
        r matches Ok(e) ==> (e.kind matches IrExprKind::Break { target, .. } && target == old(context).function_stack@.last().loop_stack@.last()),
        lowerable(parent@, in_loop(*old(context))) ==> (r matches Err(e) ==> limit_error(e)),
        r is Ok ==> lowerable(parent@, in_loop(*old(context))),
    decreases parent, 1int,
{
    proof {
        lemma_step_refl(*context, globals@);
        lemma_form_names();
        lemma_cores_view_all(items@);
        lemma_list_view(parent, items);
        lemma_in_loop(*context);
    }
    let target = match context.innermost_loop() {
        Some(t) => t,
        None => {
            return Err(LowerError::BreakOutsideRuntimeLoop);
        },
    };
    if items.len() == 1 {
        return Ok(IrExpr::new(span0(), IrExprKind::Break { target, value: None }));
    }
    if items.len() != 2 {
        return Err(LowerError::InvalidCoreForm);
    }
    proof {
        assert(decreases_to!(*parent => (*parent)->List_0));
        assert(decreases_to!(*items => items[1]));
    }

    let ghost c1 = *context;
    let ghost g1 = globals@;
    let p = lower_expr(&items[1], context, globals);
    proof {
        lemma_step_trans(*old(context), c1, *context, old(globals)@, g1, globals@);
    }
    let p = match p {
        Ok(x) => x,
        Err(err) => {
            return Err(err);
        },
    };

    Ok(IrExpr::new(span0(), IrExprKind::Break { target, value: Some(Box::new(p)) }))
}

fn contains_name(names: &Vec<String>, name: &String) -> (r: bool)
    ensures
        r == exists|k: int| 0 <= k < names@.len() && names@[k]@ == name@,
{
    let mut i: usize = 0;
    while i < names.len()
        invariant
            i <= names@.len(),
            forall|k: int| 0 <= k < i ==> names@[k]@ != name@,
        decreases names@.len() - i,
    {
        if str_eq(names[i].as_str(), name.as_str()) {
            return true;
        }
        i += 1;
    }
    false
}

/// `(fn (param ...) body)`: a new function-table entry and the closure
/// that captures what its body references from enclosing functions.
fn lower_fn(parent: &CoreExpr, items: &Vec<CoreExpr>, context: &mut LowerContext, globals: &mut GlobalRegistry) -> (r: Result<IrExpr, LowerError>)
    requires
        items@.len() >= 1 && items@[0]@ == CoreExprV::Symbol("fn"@),
        *parent == CoreExpr::List(*items),
        items@.len() >= 1,
        old(context).wf(),
        old(context).function_stack@.len() >= 1,
    ensures
        r matches Ok(e) ==> lowered_from(parent@, e, final(context).functions@, final(context).base_function_id as int, final(globals)@),
        ctx_step(*old(context), *final(context), old(globals)@, final(globals)@),
        r is Ok ==> filled(*old(context), *final(context)),
        r matches Ok(e) ==> (e.kind matches IrExprKind::MakeClosure { function, .. } && function.0 == old(context).next_function_id),
        lowerable(parent@, in_loop(*old(context))) ==> (r matches Err(e) ==> limit_error(e)),
        r is Ok ==> lowerable(parent@, in_loop(*old(context))),
    decreases parent, 1int,
{
    proof {
        lemma_step_refl(*context, globals@);
        lemma_form_names();
        lemma_cores_view_all(items@);
        lemma_list_view(parent, items);
    }
    let span = span0();
    if items.len() != 3 {
        return Err(LowerError::InvalidCoreForm);
    }
    let params = match &items[1] {
        CoreExpr::List(params) => params,
        _ => {
            return Err(LowerError::InvalidCoreForm);
        },
    };
    let ghost pv = cores_view(params@, params@.len() as int);
    proof {
        lemma_cores_view_all(params@);
        assert(cores_view(items@, items@.len() as int)[1] == CoreExprV::List(pv));
        assert(cores_view(items@, items@.len() as int)[2] == items@[2]@);
    }
    let function_id = match context.alloc_function_id() {
        Ok(id) => id,
        Err(err) => {
            return Err(err);
        },
    };
    let ghost after_alloc = *context;
    context.push_function();
    let ghost pushed_ctx = *context;
    let mut names: Vec<String> = Vec::new();
    let mut i: usize = 0;
    while i < params.len()
        invariant
            i <= params@.len(),
            names@.len() == i,
            pv == cores_view(params@, params@.len() as int),
            pv.len() == params@.len(),
            forall|k: int| 0 <= k < params@.len() ==> #[trigger] pv[k] == params@[k]@,
            forall|k: int| 0 <= k < i ==> pv[k] == CoreExprV::Symbol((#[trigger] names@[k])@),
            forall|a: int, b: int| 0 <= a < b < i ==> (#[trigger] names@[a])@ != (#[trigger] names@[b])@,
            lowerable(parent@, in_loop(*old(context))) ==> symbol_names(pv) && distinct_symbols(pv),
            context.wf(),
            context.function_stack@.len() == after_alloc.function_stack@.len() + 1,
            forall|k: int| 0 <= k < after_alloc.function_stack@.len() ==> #[trigger] context.function_stack@[k] == after_alloc.function_stack@[k],
            context.function_stack@.last().next_local == i,
            context.function_stack@.last().scopes@.len() == 1,
            context.function_stack@.last().loop_stack@.len() == 0,
            context.functions@ == after_alloc.functions@,
            context.base_function_id == after_alloc.base_function_id,
            context.next_function_id == after_alloc.next_function_id,
            context.next_loop_id == after_alloc.next_loop_id,
            after_alloc.wf(),
            old(context).wf(),
            after_alloc.functions@ == old(context).functions@.push(None),
            after_alloc.function_stack@ == old(context).function_stack@,
            after_alloc.base_function_id == old(context).base_function_id,
            after_alloc.next_function_id == old(context).next_function_id + 1,
            after_alloc.next_loop_id == old(context).next_loop_id,
            globals@ == old(globals)@,
        decreases params@.len() - i,
    {
        proof {
            assert(pv[i as int] == params@[i as int]@);
        }
        let name = match binding_name(&params[i]) {
            Some(n) => n,
            None => {
                context.pop_function();
                proof {
                    assert(context.function_stack@ =~= after_alloc.function_stack@);
                }
                return Err(LowerError::InvalidCoreForm);
            },
        };
        if contains_name(&names, &name) {
            context.pop_function();
            proof {
                assert(context.function_stack@ =~= after_alloc.function_stack@);
                if lowerable(parent@, in_loop(*old(context))) {
                    let k = choose|k: int| 0 <= k < names@.len() && names@[k]@ == name@;
                    assert(pv[k] == pv[i as int]);
                }
            }
            return Err(LowerError::DuplicateParameter(name));
        }
        match context.declare(&name) {
            Ok(_) => {},
            Err(err) => {
                context.pop_function();
                proof {
                    assert(context.function_stack@ =~= after_alloc.function_stack@);
                }
                return Err(err);
            },
        }
        let ghost before_names = names@;
        names.push(name);
        proof {
            assert forall|k: int| 0 <= k < i + 1 implies pv[k] == CoreExprV::Symbol((#[trigger] names@[k])@) by {
                if k < i {
                    assert(names@[k] == before_names[k]);
                }
            }
            assert forall|a: int, b: int| 0 <= a < b < i + 1 implies (#[trigger] names@[a])@ != (#[trigger] names@[b])@ by {
                assert(names@[a] == before_names[a] || a == i);
                if b < i {
                    assert(names@[b] == before_names[b]);
                } else {
                    assert(names@[a] == before_names[a]);
                    assert(!(0 <= a < before_names.len() && before_names[a]@ == name@));
                }
            }
        }
        i += 1;
    }
    proof {
        assert(decreases_to!(*parent => (*parent)->List_0));
        assert(decreases_to!(*items => items[2]));
        assert forall|k: int| 0 <= k < pv.len() implies (#[trigger] pv[k]) is Symbol by {
            assert(pv[k] == CoreExprV::Symbol(names@[k]@));
        }
        assert(symbol_names(pv));
        assert forall|a: int, b: int| 0 <= a < b < pv.len() implies (#[trigger] pv[a]) != (#[trigger] pv[b]) by {
            assert(pv[a] == CoreExprV::Symbol(names@[a]@));
            assert(pv[b] == CoreExprV::Symbol(names@[b]@));
        }
        assert(distinct_symbols(pv));
    }
    let ghost before_body = *context;
    let ghost g1 = globals@;
    proof {
        lemma_in_loop(before_body);
    }
    let body_result = lower_expr(&items[2], context, globals);
    let ghost after_body = *context;
    let scope = context.pop_function();
    proof {
        assert(shape(*context) =~= shape(after_body).drop_last());
        assert(shape(before_body).drop_last() =~= shape(after_alloc));
        assert(shape(after_alloc) =~= shape(*old(context)));
        assert(context.functions@.len() >= old(context).functions@.len() + 1);
        assert forall|k: int| 0 <= k < old(context).functions@.len() implies #[trigger] context.functions@[k] == old(context).functions@[k] by {
            assert(after_body.functions@[k] == before_body.functions@[k]);
        }
    }
    let body = match body_result {
        Ok(b) => b,
        Err(err) => {
            return Err(err);
        },
    };
    let function = IrFunction {
        id: function_id,
        name_hint: None,
        parameter_count: names.len() as u32,
        capture_count: scope.captures.len(),
        local_count: scope.next_local,
        body,
        span,
    };
    let ghost before_place = *context;
    let ghost g_body = globals@;
    let ghost placed = function;
    context.place_function(function);
    let captures = scope.captures.into_sources();
    proof {
        lemma_cores_view_all(params@);
        let idx = function_id.0 - old(context).base_function_id;
        assert(idx == old(context).functions@.len());
        assert(after_alloc.functions@[idx as int] is None);
        assert(before_body.functions@[idx as int] is None);
        assert(after_body.functions@[idx as int] is None);
        assert(fns_extend(before_place.functions@, context.functions@));
        lemma_fns_extend_table(before_place.functions@, context.functions@, old(context).base_function_id as int);
        lemma_lowered_grows(items@[2]@, placed.body, before_place.functions@, context.functions@, old(context).base_function_id as int, old(context).base_function_id as int, g_body, g_body);
        assert(fn_entry(context.functions@, context.base_function_id as int, function_id.0 as int) == Some(placed));
        assert forall|k: int| 0 <= k < old(context).functions@.len() implies #[trigger] context.functions@[k] == old(context).functions@[k] by {
            assert(before_body.functions@[k] == pushed_ctx.functions@[k]);
        }
        assert forall|k: int| old(context).functions@.len() <= k < context.functions@.len() implies (#[trigger] context.functions@[k] matches Some(f) && f.id.0 == context.base_function_id + k) by {
            if k > old(context).functions@.len() {
                assert(before_place.functions@[k] == context.functions@[k]);
            }
        }
    }
    proof {
        assert(!in_loop(before_body));
        assert(lowerable(items@[2]@, false));
        assert(list_lowerable(cores_view(items@, items@.len() as int), in_loop(*old(context))));
    }
    Ok(IrExpr::new(span, IrExprKind::MakeClosure { function: function_id, captures }))
}

/// The context facts that hold between opening a block and closing it.
spec fn in_block(a: LowerContext, blk: LowerContext, c: LowerContext, ga: Seq<Seq<char>>, gc: Seq<Seq<char>>) -> bool {
    &&& a.wf()
    &&& ctx_grow(a, c, ga, gc)
    &&& shape(c) == shape(blk)
    &&& c.function_stack@.len() >= 1
    &&& shape(blk) == shape(a).update(a.function_stack@.len() - 1, (a.function_stack@.last().scopes@.len() + 1, a.function_stack@.last().loop_stack@))
}

proof fn lemma_block_closed(a: LowerContext, blk: LowerContext, c: LowerContext, d: LowerContext, ga: Seq<Seq<char>>, gc: Seq<Seq<char>>)
    requires
        a.function_stack@.len() >= 1,
        in_block(a, blk, c, ga, gc),
        d.wf(),
        d.base_function_id == c.base_function_id,
        d.functions@ == c.functions@,
        d.next_function_id == c.next_function_id,
        d.next_loop_id == c.next_loop_id,
        d.function_stack@.len() == c.function_stack@.len(),
        shape(d) == shape(c).update(c.function_stack@.len() - 1, ((c.function_stack@.last().scopes@.len() - 1) as nat, c.function_stack@.last().loop_stack@)),
    ensures
        ctx_step(a, d, ga, gc),
        c.function_stack@.last().scopes@.len() >= 2,
{
    let k = a.function_stack@.len() - 1;
    assert(shape(c)[k] == (c.function_stack@[k].scopes@.len(), c.function_stack@[k].loop_stack@));
    assert(shape(a)[k] == (a.function_stack@[k].scopes@.len(), a.function_stack@[k].loop_stack@));
    assert(shape(d) =~= shape(a));
}

proof fn lemma_in_block_depth(a: LowerContext, blk: LowerContext, c: LowerContext, ga: Seq<Seq<char>>, gc: Seq<Seq<char>>)
    requires
        a.function_stack@.len() >= 1,
        in_block(a, blk, c, ga, gc),
    ensures
        c.function_stack@.last().scopes@.len() >= 2,
        c.function_stack@.last().loop_stack@ == a.function_stack@.last().loop_stack@,
{
    let k = a.function_stack@.len() - 1;
    assert(shape(c)[k] == (c.function_stack@[k].scopes@.len(), c.function_stack@[k].loop_stack@));
    assert(shape(a)[k] == (a.function_stack@[k].scopes@.len(), a.function_stack@[k].loop_stack@));
    assert(shape(blk)[k] == shape(c)[k]);
}

proof fn lemma_block_opened(a: LowerContext, b: LowerContext, blk: LowerContext, ga: Seq<Seq<char>>, gb: Seq<Seq<char>>)
    requires
        a.wf(),
        a.function_stack@.len() >= 1,
        ctx_step(a, b, ga, gb),
        blk.wf(),
        blk.base_function_id == b.base_function_id,
        blk.functions@ == b.functions@,
        blk.next_function_id == b.next_function_id,
        blk.next_loop_id == b.next_loop_id,
        blk.function_stack@.len() == b.function_stack@.len(),
        shape(blk) == shape(b).update(b.function_stack@.len() - 1, (b.function_stack@.last().scopes@.len() + 1, b.function_stack@.last().loop_stack@)),
    ensures
        in_block(a, blk, blk, ga, gb),
{
    let k = a.function_stack@.len() - 1;
    assert(shape(b)[k] == (b.function_stack@[k].scopes@.len(), b.function_stack@[k].loop_stack@));
    assert(shape(a)[k] == (a.function_stack@[k].scopes@.len(), a.function_stack@[k].loop_stack@));
}

/// Inside a block the enclosing runtime loops are those outside it.
proof fn lemma_in_loop_block(a: LowerContext, blk: LowerContext, c: LowerContext, ga: Seq<Seq<char>>, gc: Seq<Seq<char>>)
    requires
        a.function_stack@.len() >= 1,
        in_block(a, blk, c, ga, gc),
    ensures
        in_loop(c) == in_loop(a),
{
    let n = a.function_stack@.len() - 1;
    assert(shape(a)[n] == (a.function_stack@[n].scopes@.len(), a.function_stack@[n].loop_stack@));
    assert(shape(c)[n] == shape(blk)[n]);
}

/// `(let ((name init) ...) body)` with parallel binding: every initializer
/// is lowered in the outer scope before any name of this `let` is declared.
fn lower_let(parent: &CoreExpr, items: &Vec<CoreExpr>, context: &mut LowerContext, globals: &mut GlobalRegistry) -> (r: Result<IrExpr, LowerError>)
    requires
        items@.len() >= 1 && items@[0]@ == CoreExprV::Symbol("let"@),
        *parent == CoreExpr::List(*items),
        items@.len() >= 1,
        old(context).wf(),
        old(context).function_stack@.len() >= 1,
    ensures
        r matches Ok(e) ==> lowered_from(parent@, e, final(context).functions@, final(context).base_function_id as int, final(globals)@),
        ctx_step(*old(context), *final(context), old(globals)@, final(globals)@),
        r is Ok ==> filled(*old(context), *final(context)),
        lowerable(parent@, in_loop(*old(context))) ==> (r matches Err(e) ==> limit_error(e)),
        r is Ok ==> lowerable(parent@, in_loop(*old(context))),
    decreases parent, 1int,
{
    proof {
        lemma_step_refl(*context, globals@);
        lemma_form_names();
        lemma_cores_view_all(items@);
        lemma_list_view(parent, items);
    }
    let span = span0();
    if items.len() != 3 {
        return Err(LowerError::InvalidCoreForm);
    }
    let binding_exprs = match &items[1] {
        CoreExpr::List(b) => b,
        _ => {
            return Err(LowerError::InvalidCoreForm);
        },
    };
    let ghost bv = cores_view(binding_exprs@, binding_exprs@.len() as int);
    proof {
        lemma_cores_view_all(binding_exprs@);
        assert(cores_view(items@, items@.len() as int)[1] == CoreExprV::List(bv));
        assert(cores_view(items@, items@.len() as int)[2] == items@[2]@);
        if lowerable(parent@, in_loop(*old(context))) {
            lemma_pairs_lowerable(bv, in_loop(*old(context)));
        }
    }
    let mut names: Vec<String> = Vec::new();
    let mut initializers: Vec<IrExpr> = Vec::new();
    let mut j: usize = 0;
    while j < binding_exprs.len()
        invariant
            lowerable(parent@, in_loop(*old(context))) ==> (forall|k: int| 0 <= k < bv.len() ==> (#[trigger] bv[k]) is List && bv[k]->List_0.len() == 2
                && bv[k]->List_0[0] is Symbol && lowerable(bv[k]->List_0[1], in_loop(*old(context))))
                && distinct_symbols(pair_names(bv)) && pair_names(bv).len() == bv.len()
                && (forall|k: int| 0 <= k < bv.len() ==> #[trigger] pair_names(bv)[k] == bv[k]->List_0[0]),
            forall|k: int| 0 <= k < j ==> (#[trigger] bv[k]) is List && bv[k]->List_0.len() == 2 && bv[k]->List_0[0] == CoreExprV::Symbol(names@[k]@),
            forall|k: int| 0 <= k < j ==> lowerable((#[trigger] bv[k])->List_0[1], in_loop(*old(context))),
            forall|a: int, b: int| 0 <= a < b < j ==> (#[trigger] names@[a])@ != (#[trigger] names@[b])@,
            *parent == CoreExpr::List(*items),
            items@.len() == 3,
            items@[1] == CoreExpr::List(*binding_exprs),
            j <= binding_exprs@.len(),
            names@.len() == j,
            initializers@.len() == j,
            bv == cores_view(binding_exprs@, binding_exprs@.len() as int),
            bv.len() == binding_exprs@.len(),
            forall|k: int| 0 <= k < binding_exprs@.len() ==> #[trigger] bv[k] == binding_exprs@[k]@,
            forall|k: int| 0 <= k < j ==> (#[trigger] bv[k]) is List && bv[k]->List_0.len() == 2
                && lowered_from(bv[k]->List_0[1], initializers@[k], context.functions@, context.base_function_id as int, globals@),
            context.wf(),
            context.function_stack@.len() >= 1,
            old(context).wf(),
            ctx_step(*old(context), *context, old(globals)@, globals@),
            filled(*old(context), *context),
        decreases binding_exprs@.len() - j,
    {
        proof {
            assert(bv[j as int] == binding_exprs@[j as int]@);
        }
        let pair = match &binding_exprs[j] {
            CoreExpr::List(p) => p,
            _ => {
                return Err(LowerError::InvalidCoreForm);
            },
        };
        proof {
            lemma_cores_view_all(pair@);
            assert(bv[j as int] == CoreExprV::List(cores_view(pair@, pair@.len() as int)));
        }
        if pair.len() != 2 {
            return Err(LowerError::InvalidCoreForm);
        }
        proof {
            assert(cores_view(pair@, pair@.len() as int)[0] == pair@[0]@);
            assert(cores_view(pair@, pair@.len() as int)[1] == pair@[1]@);
        }
        let name = match binding_name(&pair[0]) {
            Some(n) => n,
            None => {
                return Err(LowerError::InvalidCoreForm);
            },
        };
        if contains_name(&names, &name) {
            proof {
                if lowerable(parent@, in_loop(*old(context))) {
                    let k = choose|k: int| 0 <= k < names@.len() && names@[k]@ == name@;
                    assert(pair_names(bv)[k] == pair_names(bv)[j as int]);
                }
            }
            return Err(LowerError::DuplicateBinding(name));
        }
        proof {
            assert(decreases_to!(*parent => (*parent)->List_0));
            assert(decreases_to!(*items => items[1]));
            assert(decreases_to!(items[1] => (items[1])->List_0));
            assert(decreases_to!(*binding_exprs => binding_exprs[j as int]));
            assert(decreases_to!(binding_exprs[j as int] => (binding_exprs[j as int])->List_0));
            assert(decreases_to!(*pair => pair[1]));
        }
        let ghost c1 = *context;
        let ghost g1 = globals@;
        let init = lower_expr(&pair[1], context, globals);
        proof {
            lemma_step_trans(*old(context), c1, *context, old(globals)@, g1, globals@);
            assert(in_loop(c1) == in_loop(*old(context)));
        }
        let init = match init {
            Ok(x) => x,
            Err(err) => {
                return Err(err);
            },
        };
        proof {
            lemma_cores_view_all(pair@);
            assert forall|k: int| 0 <= k < j implies (#[trigger] bv[k]) is List && bv[k]->List_0.len() == 2
                && lowered_from(bv[k]->List_0[1], initializers@[k], context.functions@, context.base_function_id as int, globals@) by {
                lemma_lift(bv[k]->List_0[1], initializers@[k], c1, *context, g1, globals@);
            }
        }
        initializers.push(init);
        let ghost before_names = names@;
        names.push(name);
        proof {
            assert(bv[j as int]->List_0[1] == pair@[1]@);
            assert forall|k: int| 0 <= k < j + 1 implies (#[trigger] bv[k]) is List && bv[k]->List_0.len() == 2 && bv[k]->List_0[0] == CoreExprV::Symbol(names@[k]@) by {
                if k < j {
                    assert(names@[k] == before_names[k]);
                }
            }
            assert forall|a: int, b: int| 0 <= a < b < j + 1 implies (#[trigger] names@[a])@ != (#[trigger] names@[b])@ by {
                assert(names@[a] == before_names[a]);
                if b < j {
                    assert(names@[b] == before_names[b]);
                } else {
                    assert(!(0 <= a < before_names.len() && before_names[a]@ == name@));
                }
            }
        }
        j += 1;
    }
    proof {
        let nv = Seq::new(names@.len(), |k: int| names@[k]@);
        assert forall|k: int| 0 <= k < bv.len() implies (#[trigger] bv[k]) is List && bv[k]->List_0.len() == 2
            && bv[k]->List_0[0] == CoreExprV::Symbol(nv[k]) by {}
        lemma_pair_names_distinct(bv, nv);
        lemma_pairs_lowerable_intro(bv, in_loop(*old(context)));
    }
    let ghost before_block = *context;
    let ghost gb = globals@;
    let ghost inits0 = initializers@;
    proof {
        assert(inits0.subrange(0, inits0.len() as int) =~= inits0);
    }
    context.push_block();
    let ghost blk = *context;
    proof {
        lemma_block_opened(*old(context), before_block, blk, old(globals)@, gb);
    }
    let mut bindings: Vec<IrLetBinding> = Vec::new();
    let mut k: usize = 0;
    while k < names.len()
        invariant
            k <= names@.len(),
            initializers@.len() == names@.len() - k,
            inits0.len() == names@.len(),
            initializers@ == inits0.subrange(k as int, inits0.len() as int),
            bindings@.len() == k,
            forall|q: int| 0 <= q < k ==> (#[trigger] bindings@[q]).initializer == inits0[q],
            context.functions@ == before_block.functions@,
            globals@ == gb,
            old(context).function_stack@.len() >= 1,
            in_block(*old(context), blk, *context, old(globals)@, globals@),
            filled(*old(context), *context),
        decreases names@.len() - k,
    {
        let ghost c1 = *context;
        let declared = context.declare(&names[k]);
        proof {
            lemma_shape_step(c1, *context, globals@);
            lemma_step_trans(*old(context), c1, *context, old(globals)@, globals@, globals@);
        }
        let target = match declared {
            Ok(t) => t,
            Err(err) => {
                let ghost c2 = *context;
                proof {
                    lemma_in_block_depth(*old(context), blk, c2, old(globals)@, globals@);
                }
                context.pop_block();
                proof {
                    lemma_block_closed(*old(context), blk, c2, *context, old(globals)@, globals@);
                }
                return Err(err);
            },
        };
        let initializer = initializers.remove(0);
        proof {
            assert(initializer == inits0[k as int]);
            assert(initializers@ =~= inits0.subrange(k + 1, inits0.len() as int));
        }
        bindings.push(IrLetBinding { target, initializer, span });
        k += 1;
    }
    proof {
        assert(decreases_to!(*parent => (*parent)->List_0));
        assert(decreases_to!(*items => items[2]));
    }
    let ghost c1 = *context;
    let ghost g1 = globals@;
    proof {
        lemma_in_loop_block(*old(context), blk, c1, old(globals)@, globals@);
    }
    let body_result = lower_expr(&items[2], context, globals);
    proof {
        lemma_step_trans(*old(context), c1, *context, old(globals)@, g1, globals@);
    }
    let ghost c2 = *context;
    proof {
        lemma_in_block_depth(*old(context), blk, c2, old(globals)@, globals@);
    }
    context.pop_block();
    proof {
        lemma_block_closed(*old(context), blk, c2, *context, old(globals)@, globals@);
        if body_result is Ok {
            assert(filled(*old(context), c2));
        }
    }
    let body = match body_result {
        Ok(b) => b,
        Err(err) => {
            return Err(err);
        },
    };
    proof {
        assert(bindings@.map_values(|b: IrLetBinding| b.initializer) =~= inits0);
        assert(fns_extend(before_block.functions@, c2.functions@));
        lemma_fns_extend_table(before_block.functions@, context.functions@, before_block.base_function_id as int);
        lemma_inits_grow(bv, inits0, before_block.functions@, context.functions@, before_block.base_function_id as int, before_block.base_function_id as int, gb, globals@);
    }
    proof {
        assert(lowerable(items@[2]@, in_loop(*old(context))));
        assert(list_lowerable(cores_view(items@, items@.len() as int), in_loop(*old(context))));
    }
    Ok(IrExpr::new(span, IrExprKind::Let { bindings, body: Box::new(body) }))
}

/// Entering a runtime loop inside a block and leaving it again restores the
/// block's shape.
proof fn lemma_loop_closed(a: LowerContext, blk: LowerContext, lp: LowerContext, c: LowerContext, d: LowerContext, id: LoopId, ga: Seq<Seq<char>>, gc: Seq<Seq<char>>)
    requires
        a.function_stack@.len() >= 1,
        in_block(a, blk, lp, ga, ga),
        shape(c) == shape(lp).update(lp.function_stack@.len() - 1, (lp.function_stack@.last().scopes@.len(), lp.function_stack@.last().loop_stack@.push(id))),
        ctx_grow(a, c, ga, gc),
        c.function_stack@.len() == d.function_stack@.len(),
        d.wf(),
        d.base_function_id == c.base_function_id,
        d.functions@ == c.functions@,
        d.next_function_id == c.next_function_id,
        d.next_loop_id == c.next_loop_id,
        shape(d) == shape(c).update(c.function_stack@.len() - 1, (c.function_stack@.last().scopes@.len(), c.function_stack@.last().loop_stack@.drop_last())),
    ensures
        in_block(a, blk, d, ga, gc),
{
    let k = a.function_stack@.len() - 1;
    assert(shape(c)[k] == (c.function_stack@[k].scopes@.len(), c.function_stack@[k].loop_stack@));
    assert(shape(lp)[k] == (lp.function_stack@[k].scopes@.len(), lp.function_stack@[k].loop_stack@));
    assert(lp.function_stack@[k].loop_stack@.push(id).drop_last() =~= lp.function_stack@[k].loop_stack@);
    assert(shape(d) =~= shape(lp));
}

/// Inside a block, `push_loop` gives the loop-entered shape.
proof fn lemma_loop_opened(a: LowerContext, blk: LowerContext, lp: LowerContext, c: LowerContext, id: LoopId, ga: Seq<Seq<char>>, gc: Seq<Seq<char>>)
    requires
        a.function_stack@.len() >= 1,
        in_block(a, blk, lp, ga, gc),
        c.wf(),
        c.base_function_id == lp.base_function_id,
        c.functions@ == lp.functions@,
        c.next_function_id == lp.next_function_id,
        c.next_loop_id == lp.next_loop_id,
        c.function_stack@.len() == lp.function_stack@.len(),
        shape(c) == shape(lp).update(lp.function_stack@.len() - 1, (lp.function_stack@.last().scopes@.len(), lp.function_stack@.last().loop_stack@.push(id))),
    ensures
        ctx_grow(a, c, ga, gc),
{
}

/// A loop whose body was lowered leaves the body's shape: the loop stack
/// still holds the pushed id.
proof fn lemma_loop_depth(lp: LowerContext, c: LowerContext, id: LoopId)
    requires
        lp.function_stack@.len() >= 1,
        c.function_stack@.len() == lp.function_stack@.len(),
        shape(c) == shape(lp).update(lp.function_stack@.len() - 1, (lp.function_stack@.last().scopes@.len(), lp.function_stack@.last().loop_stack@.push(id))),
    ensures
        c.function_stack@.last().loop_stack@.len() >= 1,
        c.function_stack@.last().scopes@.len() == lp.function_stack@.last().scopes@.len(),
{
    let k = lp.function_stack@.len() - 1;
    assert(shape(c)[k] == (c.function_stack@[k].scopes@.len(), c.function_stack@[k].loop_stack@));
}

/// `(loop ...)`: a state loop when it has four parts and the second is
/// `(while ...)`, a range loop otherwise.
fn lower_loop(parent: &CoreExpr, items: &Vec<CoreExpr>, context: &mut LowerContext, globals: &mut GlobalRegistry) -> (r: Result<IrExpr, LowerError>)
    requires
        items@.len() >= 1 && items@[0]@ == CoreExprV::Symbol("loop"@),
        *parent == CoreExpr::List(*items),
        items@.len() >= 1,
        old(context).wf(),
        old(context).function_stack@.len() >= 1,
    ensures
        r matches Ok(e) ==> lowered_from(parent@, e, final(context).functions@, final(context).base_function_id as int, final(globals)@),
        ctx_step(*old(context), *final(context), old(globals)@, final(globals)@),
        r is Ok ==> filled(*old(context), *final(context)),
        lowerable(parent@, in_loop(*old(context))) ==> (r matches Err(e) ==> limit_error(e)),
        r is Ok ==> lowerable(parent@, in_loop(*old(context))),
    decreases parent, 1int,
{
    let is_general = items.len() == 5 && match &items[2] {
        CoreExpr::List(x) => x.len() == 2 && match &x[0] {
            CoreExpr::Symbol(s) => str_eq(s.as_str(), "while"),
            _ => false,
        },
        _ => false,
    };
    proof {
        lemma_cores_view_all(items@);
        if items@.len() == 5 {
            if let CoreExpr::List(x) = items@[2] {
                lemma_cores_view_all(x@);
            }
        }
    }
    if is_general {
        lower_general_loop(parent, items, context, globals)
    } else {
        lower_range_loop(parent, items, context, globals)
    }
}

/// `(loop (name start end [step]) body)`.
fn lower_range_loop(parent: &CoreExpr, items: &Vec<CoreExpr>, context: &mut LowerContext, globals: &mut GlobalRegistry) -> (r: Result<IrExpr, LowerError>)
    requires
        !is_general_loop(cores_view(items@, items@.len() as int)),
        items@.len() >= 1 && items@[0]@ == CoreExprV::Symbol("loop"@),
        *parent == CoreExpr::List(*items),
        items@.len() >= 1,
        old(context).wf(),
        old(context).function_stack@.len() >= 1,
    ensures
        r matches Ok(e) ==> lowered_from(parent@, e, final(context).functions@, final(context).base_function_id as int, final(globals)@),
        ctx_step(*old(context), *final(context), old(globals)@, final(globals)@),
        r is Ok ==> filled(*old(context), *final(context)),
        lowerable(parent@, in_loop(*old(context))) ==> (r matches Err(e) ==> limit_error(e)),
        r is Ok ==> lowerable(parent@, in_loop(*old(context))),
    decreases parent, 0int,
{
    proof {
        lemma_step_refl(*context, globals@);
        lemma_form_names();
        lemma_cores_view_all(items@);
        lemma_list_view(parent, items);
    }
    let span = span0();
    if items.len() != 3 {
        return Err(LowerError::InvalidCoreForm);
    }
    let binding = match &items[1] {
        CoreExpr::List(b) => b,
        _ => {
            return Err(LowerError::InvalidCoreForm);
        },
    };
    proof {
        lemma_cores_view_all(binding@);
        assert(cores_view(items@, items@.len() as int)[1] == CoreExprV::List(cores_view(binding@, binding@.len() as int)));
        assert(cores_view(items@, items@.len() as int)[2] == items@[2]@);
    }
    if binding.len() != 3 && binding.len() != 4 {
        return Err(LowerError::InvalidCoreForm);
    }
    proof {
        assert(cores_view(binding@, binding@.len() as int)[0] == binding@[0]@);
        assert(cores_view(binding@, binding@.len() as int)[1] == binding@[1]@);
        assert(cores_view(binding@, binding@.len() as int)[2] == binding@[2]@);
        if binding@.len() == 4 {
            assert(cores_view(binding@, binding@.len() as int)[3] == binding@[3]@);
        }
    }
    let name = match binding_name(&binding[0]) {
        Some(n) => n,
        None => {
            return Err(LowerError::InvalidCoreForm);
        },
    };
    proof {
        assert(decreases_to!(*parent => (*parent)->List_0));
        assert(decreases_to!(*items => items[1]));
        assert(decreases_to!(*items => items[2]));
        assert(decreases_to!(items[1] => (items[1])->List_0));
        assert(decreases_to!(*binding => binding[1]));
        assert(decreases_to!(*binding => binding[2]));
        assert(binding.len() == 4 ==> decreases_to!(*binding => binding[3]));
    }
    let ghost c1 = *context;
    let ghost g1 = globals@;
    let start = lower_expr(&binding[1], context, globals);
    proof {
        lemma_step_trans(*old(context), c1, *context, old(globals)@, g1, globals@);
    }
    let start = match start {
        Ok(x) => x,
        Err(err) => {
            return Err(err);
        },
    };
    let ghost ca = *context;
    let ghost ga = globals@;
    let ghost c1 = *context;
    let ghost g1 = globals@;
    let end = lower_expr(&binding[2], context, globals);
    proof {
        lemma_step_trans(*old(context), c1, *context, old(globals)@, g1, globals@);
    }
    let end = match end {
        Ok(x) => x,
        Err(err) => {
            return Err(err);
        },
    };
    let ghost cb = *context;
    let ghost gbb = globals@;
    proof {
        lemma_lift(binding@[1]@, start, ca, cb, ga, gbb);
    }
    let step = if binding.len() == 4 {
        let ghost c1 = *context;
        let ghost g1 = globals@;
        let s = lower_expr(&binding[3], context, globals);
        proof {
            lemma_step_trans(*old(context), c1, *context, old(globals)@, g1, globals@);
        }
        let s = match s {
            Ok(x) => x,
            Err(err) => {
                return Err(err);
            },
        };
        s
    } else {
        IrExpr::new(span, IrExprKind::Const(IrConst::Int(1)))
    };
    proof {
        if binding@.len() == 4 {
            lemma_lift(binding@[1]@, start, cb, *context, gbb, globals@);
            lemma_lift(binding@[2]@, end, cb, *context, gbb, globals@);
        }
    }
    let ghost cs = *context;
    let ghost gs = globals@;
    let ghost c1 = *context;
    let loop_id = match context.alloc_loop_id() {
        Ok(id) => id,
        Err(err) => {
            proof {
                assert(shape(*context) =~= shape(c1));
                lemma_step_trans(*old(context), c1, *context, old(globals)@, globals@, globals@);
            }
            return Err(err);
        },
    };
    proof {
        assert(shape(*context) =~= shape(c1));
        lemma_step_trans(*old(context), c1, *context, old(globals)@, globals@, globals@);
    }
    let ghost before_block = *context;
    let ghost gb = globals@;
    context.push_block();
    let ghost blk = *context;
    proof {
        lemma_block_opened(*old(context), before_block, blk, old(globals)@, gb);
    }
    let ghost c3 = *context;
    let declared = context.declare(&name);
    proof {
        lemma_shape_step(c3, *context, globals@);
        lemma_step_trans(*old(context), c3, *context, old(globals)@, globals@, globals@);
    }
    let variable = match declared {
        Ok(v) => v,
        Err(err) => {
                let ghost c2 = *context;
                proof {
                    lemma_in_block_depth(*old(context), blk, c2, old(globals)@, globals@);
                }
                context.pop_block();
                proof {
                    lemma_block_closed(*old(context), blk, c2, *context, old(globals)@, globals@);
                }
            return Err(err);
        },
    };
    let ghost lp = *context;
    context.push_loop(loop_id);
    proof {
        lemma_loop_opened(*old(context), blk, lp, *context, loop_id, old(globals)@, globals@);
    }
    let ghost c4 = *context;
    let ghost g4 = globals@;
    proof {
        lemma_in_loop(c4);
    }
    let body_result = lower_expr(&items[2], context, globals);
    proof {
        lemma_step_trans(*old(context), c4, *context, old(globals)@, g4, globals@);
        lemma_loop_depth(lp, *context, loop_id);
        assert(c4.functions@ == cs.functions@);
        assert(g4 == gs);
        lemma_lift(binding@[1]@, start, c4, *context, g4, globals@);
        lemma_lift(binding@[2]@, end, c4, *context, g4, globals@);
        if binding@.len() == 4 {
            lemma_lift(binding@[3]@, step, c4, *context, g4, globals@);
        }
    }
    let ghost c5 = *context;
    context.pop_loop();
    proof {
        lemma_loop_closed(*old(context), blk, lp, c5, *context, loop_id, old(globals)@, globals@);
    }
    let ghost c6 = *context;
    proof {
        lemma_in_block_depth(*old(context), blk, c6, old(globals)@, globals@);
    }
    context.pop_block();
    proof {
        lemma_block_closed(*old(context), blk, c6, *context, old(globals)@, globals@);
    }
    let body = match body_result {
        Ok(b) => b,
        Err(err) => {
            return Err(err);
        },
    };
    Ok(IrExpr::new(span, IrExprKind::RangeLoop {
        loop_id,
        variable,
        start: Box::new(start),
        end: Box::new(end),
        step: Box::new(step),
        body: Box::new(body),
    }))
}

/// `(loop ((state init) ...) (while cond) (next ((state expr) ...)) (do body))`.
fn lower_general_loop(parent: &CoreExpr, items: &Vec<CoreExpr>, context: &mut LowerContext, globals: &mut GlobalRegistry) -> (r: Result<IrExpr, LowerError>)
    requires
        is_general_loop(cores_view(items@, items@.len() as int)),
        items@.len() >= 1 && items@[0]@ == CoreExprV::Symbol("loop"@),
        *parent == CoreExpr::List(*items),
        items@.len() >= 1,
        old(context).wf(),
        old(context).function_stack@.len() >= 1,
    ensures
        r matches Ok(e) ==> lowered_from(parent@, e, final(context).functions@, final(context).base_function_id as int, final(globals)@),
        ctx_step(*old(context), *final(context), old(globals)@, final(globals)@),
        r is Ok ==> filled(*old(context), *final(context)),
        lowerable(parent@, in_loop(*old(context))) ==> (r matches Err(e) ==> limit_error(e)),
        r is Ok ==> lowerable(parent@, in_loop(*old(context))),
    decreases parent, 0int,
{
    proof {
        lemma_step_refl(*context, globals@);
        lemma_form_names();
        lemma_cores_view_all(items@);
        lemma_list_view(parent, items);
    }
    let span = span0();
    if items.len() != 5 {
        return Err(LowerError::InvalidCoreForm);
    }
    let state_items = match &items[1] {
        CoreExpr::List(x) => x,
        _ => {
            return Err(LowerError::InvalidCoreForm);
        },
    };
    let w = match &items[2] {
        CoreExpr::List(x) => x,
        _ => {
            return Err(LowerError::InvalidCoreForm);
        },
    };
    let n = match &items[3] {
        CoreExpr::List(x) => x,
        _ => {
            return Err(LowerError::InvalidCoreForm);
        },
    };
    let d = match &items[4] {
        CoreExpr::List(x) => x,
        _ => {
            return Err(LowerError::InvalidCoreForm);
        },
    };
    proof {
        lemma_cores_view_all(w@);
        lemma_cores_view_all(n@);
        lemma_cores_view_all(d@);
        assert(cores_view(items@, items@.len() as int)[2] == CoreExprV::List(cores_view(w@, w@.len() as int)));
        assert(cores_view(items@, items@.len() as int)[3] == CoreExprV::List(cores_view(n@, n@.len() as int)));
        assert(cores_view(items@, items@.len() as int)[4] == CoreExprV::List(cores_view(d@, d@.len() as int)));
    }
    if w.len() != 2 || n.len() != 2 || d.len() != 2 {
        return Err(LowerError::InvalidCoreForm);
    }
    proof {
        assert(cores_view(n@, n@.len() as int)[1] == n@[1]@);
        assert(cores_view(w@, w@.len() as int)[1] == w@[1]@);
        assert(cores_view(d@, d@.len() as int)[1] == d@[1]@);
    }
    let update_items = match &n[1] {
        CoreExpr::List(x) => x,
        _ => {
            return Err(LowerError::InvalidCoreForm);
        },
    };
    proof {
        assert(decreases_to!(*parent => (*parent)->List_0));
        assert(decreases_to!(*items => items[1]));
        assert(decreases_to!(*items => items[2]));
        assert(decreases_to!(*items => items[3]));
        assert(decreases_to!(*items => items[4]));
        assert(decreases_to!(items[2] => (items[2])->List_0));
        assert(decreases_to!(items[3] => (items[3])->List_0));
        assert(decreases_to!(items[4] => (items[4])->List_0));
        assert(decreases_to!(*w => w[1]));
        assert(decreases_to!(*n => n[1]));
        assert(decreases_to!(*d => d[1]));
        assert(decreases_to!(n[1] => (n[1])->List_0));
    }
    let ghost bv = cores_view(state_items@, state_items@.len() as int);
    let ghost uv = cores_view(update_items@, update_items@.len() as int);
    proof {
        lemma_cores_view_all(state_items@);
        lemma_cores_view_all(update_items@);
        assert(cores_view(items@, items@.len() as int)[1] == CoreExprV::List(bv));
        assert(cores_view(n@, n@.len() as int)[1] == CoreExprV::List(uv));
        if lowerable(parent@, in_loop(*old(context))) {
            lemma_pairs_lowerable(bv, in_loop(*old(context)));
            lemma_pairs_lowerable(uv, in_loop(*old(context)));
            assert(pair_names(uv) == pair_names(bv));
            assert forall|k: int| 0 <= k < uv.len() implies #[trigger] uv[k]->List_0[0] == bv[k]->List_0[0] by {
                assert(pair_names(uv)[k] == pair_names(bv)[k]);
            }
        }
    }
    let mut names: Vec<String> = Vec::new();
    let mut initializers: Vec<IrExpr> = Vec::new();
    let mut j: usize = 0;
    while j < state_items.len()
        invariant
            lowerable(parent@, in_loop(*old(context))) ==> (forall|k: int| 0 <= k < bv.len() ==> (#[trigger] bv[k]) is List && bv[k]->List_0.len() == 2
                && bv[k]->List_0[0] is Symbol && lowerable(bv[k]->List_0[1], in_loop(*old(context))))
                && distinct_symbols(pair_names(bv)) && pair_names(bv).len() == bv.len()
                && (forall|k: int| 0 <= k < bv.len() ==> #[trigger] pair_names(bv)[k] == bv[k]->List_0[0]),
            forall|k: int| 0 <= k < j ==> (#[trigger] bv[k]) is List && bv[k]->List_0.len() == 2 && bv[k]->List_0[0] == CoreExprV::Symbol(names@[k]@),
            forall|k: int| 0 <= k < j ==> lowerable((#[trigger] bv[k])->List_0[1], in_loop(*old(context))),
            forall|a: int, b: int| 0 <= a < b < j ==> (#[trigger] names@[a])@ != (#[trigger] names@[b])@,
            *parent == CoreExpr::List(*items),
            items@.len() == 5,
            items@[1] == CoreExpr::List(*state_items),
            j <= state_items@.len(),
            names@.len() == j,
            initializers@.len() == j,
            bv == cores_view(state_items@, state_items@.len() as int),
            bv.len() == state_items@.len(),
            forall|k: int| 0 <= k < state_items@.len() ==> #[trigger] bv[k] == state_items@[k]@,
            forall|k: int| 0 <= k < j ==> (#[trigger] bv[k]) is List && bv[k]->List_0.len() == 2
                && lowered_from(bv[k]->List_0[1], initializers@[k], context.functions@, context.base_function_id as int, globals@),
            context.wf(),
            context.function_stack@.len() >= 1,
            old(context).wf(),
            ctx_step(*old(context), *context, old(globals)@, globals@),
            filled(*old(context), *context),
        decreases state_items@.len() - j,
    {
        proof {
            assert(bv[j as int] == state_items@[j as int]@);
        }
        let pair = match &state_items[j] {
            CoreExpr::List(p) => p,
            _ => {
                return Err(LowerError::InvalidCoreForm);
            },
        };
        proof {
            lemma_cores_view_all(pair@);
            assert(bv[j as int] == CoreExprV::List(cores_view(pair@, pair@.len() as int)));
        }
        if pair.len() != 2 {
            return Err(LowerError::InvalidCoreForm);
        }
        proof {
            assert(cores_view(pair@, pair@.len() as int)[0] == pair@[0]@);
            assert(cores_view(pair@, pair@.len() as int)[1] == pair@[1]@);
        }
        let name = match binding_name(&pair[0]) {
            Some(x) => x,
            None => {
                return Err(LowerError::InvalidCoreForm);
            },
        };
        if contains_name(&names, &name) {
            proof {
                if lowerable(parent@, in_loop(*old(context))) {
                    let k = choose|k: int| 0 <= k < names@.len() && names@[k]@ == name@;
                    assert(pair_names(bv)[k] == pair_names(bv)[j as int]);
                }
            }
            return Err(LowerError::DuplicateLoopState(name));
        }
        proof {
            assert(decreases_to!(*parent => (*parent)->List_0));
            assert(decreases_to!(*items => items[1]));
            assert(decreases_to!(items[1] => (items[1])->List_0));
            assert(decreases_to!(*state_items => state_items[j as int]));
            assert(decreases_to!(state_items[j as int] => (state_items[j as int])->List_0));
            assert(decreases_to!(*pair => pair[1]));
        }
        let ghost c1 = *context;
        let ghost g1 = globals@;
        let init = lower_expr(&pair[1], context, globals);
        proof {
            lemma_step_trans(*old(context), c1, *context, old(globals)@, g1, globals@);
            assert(in_loop(c1) == in_loop(*old(context)));
        }
        let init = match init {
            Ok(x) => x,
            Err(err) => {
                return Err(err);
            },
        };
        proof {
            lemma_cores_view_all(pair@);
            assert forall|k: int| 0 <= k < j implies (#[trigger] bv[k]) is List && bv[k]->List_0.len() == 2
                && lowered_from(bv[k]->List_0[1], initializers@[k], context.functions@, context.base_function_id as int, globals@) by {
                lemma_lift(bv[k]->List_0[1], initializers@[k], c1, *context, g1, globals@);
            }
        }
        initializers.push(init);
        let ghost before_names = names@;
        names.push(name);
        proof {
            assert(bv[j as int]->List_0[1] == pair@[1]@);
            assert forall|k: int| 0 <= k < j + 1 implies (#[trigger] bv[k]) is List && bv[k]->List_0.len() == 2 && bv[k]->List_0[0] == CoreExprV::Symbol(names@[k]@) by {
                if k < j {
                    assert(names@[k] == before_names[k]);
                }
            }
            assert forall|a: int, b: int| 0 <= a < b < j + 1 implies (#[trigger] names@[a])@ != (#[trigger] names@[b])@ by {
                assert(names@[a] == before_names[a]);
                if b < j {
                    assert(names@[b] == before_names[b]);
                } else {
                    assert(!(0 <= a < before_names.len() && before_names[a]@ == name@));
                }
            }
        }
        j += 1;
    }
    let ghost nv = Seq::new(names@.len(), |k: int| names@[k]@);
    proof {
        assert forall|k: int| 0 <= k < bv.len() implies (#[trigger] bv[k]) is List && bv[k]->List_0.len() == 2
            && bv[k]->List_0[0] == CoreExprV::Symbol(nv[k]) by {}
        lemma_pair_names_distinct(bv, nv);
        lemma_pairs_lowerable_intro(bv, in_loop(*old(context)));
    }
    let ghost inits0 = initializers@;
    let ghost cs = *context;
    let ghost gs = globals@;
    proof {
        assert(inits0.subrange(0, inits0.len() as int) =~= inits0);
        assert(inits_lowered(bv, inits0, cs.functions@, cs.base_function_id as int, gs));
    }
    let ghost c1 = *context;
    let loop_id = match context.alloc_loop_id() {
        Ok(id) => id,
        Err(err) => {
            proof {
                assert(shape(*context) =~= shape(c1));
                lemma_step_trans(*old(context), c1, *context, old(globals)@, globals@, globals@);
            }
            return Err(err);
        },
    };
    proof {
        assert(shape(*context) =~= shape(c1));
        lemma_step_trans(*old(context), c1, *context, old(globals)@, globals@, globals@);
    }
    let ghost before_block = *context;
    let ghost gb = globals@;
    context.push_block();
    let ghost blk = *context;
    proof {
        lemma_block_opened(*old(context), before_block, blk, old(globals)@, gb);
    }
    let mut states: Vec<IrStateBinding> = Vec::new();
    let mut k: usize = 0;
    while k < names.len()
        invariant
            k <= names@.len(),
            initializers@.len() == names@.len() - k,
            inits0.len() == names@.len(),
            initializers@ == inits0.subrange(k as int, inits0.len() as int),
            states@.len() == k,
            forall|q: int| 0 <= q < k ==> (#[trigger] states@[q]).initializer == inits0[q],
            context.functions@ == cs.functions@,
            context.base_function_id == cs.base_function_id,
            globals@ == gs,
            old(context).function_stack@.len() >= 1,
            in_block(*old(context), blk, *context, old(globals)@, globals@),
            filled(*old(context), *context),
        decreases names@.len() - k,
    {
        let ghost c1 = *context;
        let declared = context.declare(&names[k]);
        proof {
            lemma_shape_step(c1, *context, globals@);
            lemma_step_trans(*old(context), c1, *context, old(globals)@, globals@, globals@);
        }
        let target = match declared {
            Ok(t) => t,
            Err(err) => {
            let ghost c2 = *context;
            proof {
                lemma_in_block_depth(*old(context), blk, c2, old(globals)@, globals@);
            }
            context.pop_block();
            proof {
                lemma_block_closed(*old(context), blk, c2, *context, old(globals)@, globals@);
            }
                return Err(err);
            },
        };
        let initializer = initializers.remove(0);
        proof {
            assert(initializer == inits0[k as int]);
            assert(initializers@ =~= inits0.subrange(k + 1, inits0.len() as int));
        }
        states.push(IrStateBinding { target, initializer, span });
        k += 1;
    }
    let ghost c1 = *context;
    let ghost g1 = globals@;
    proof {
        lemma_in_loop_block(*old(context), blk, c1, old(globals)@, globals@);
    }
    let condition = lower_expr(&w[1], context, globals);
    proof {
        lemma_step_trans(*old(context), c1, *context, old(globals)@, g1, globals@);
    }
    let condition = match condition {
        Ok(x) => x,
        Err(err) => {
        let ghost c2 = *context;
        proof {
            lemma_in_block_depth(*old(context), blk, c2, old(globals)@, globals@);
        }
        context.pop_block();
        proof {
            lemma_block_closed(*old(context), blk, c2, *context, old(globals)@, globals@);
        }
            return Err(err);
        },
    };
    let ghost cc = *context;
    let ghost gc = globals@;
    proof {
        assert(fns_extend(cs.functions@, cc.functions@));
        lemma_fns_extend_table(cs.functions@, cc.functions@, cs.base_function_id as int);
        lemma_inits_grow(bv, inits0, cs.functions@, cc.functions@, cs.base_function_id as int, cs.base_function_id as int, gs, gc);
    }
    let ghost lp = *context;
    context.push_loop(loop_id);
    proof {
        lemma_loop_opened(*old(context), blk, lp, *context, loop_id, old(globals)@, globals@);
    }
    let ghost c4 = *context;
    let ghost g4 = globals@;
    proof {
        lemma_in_loop(c4);
    }
    let body_result = lower_expr(&d[1], context, globals);
    proof {
        lemma_step_trans(*old(context), c4, *context, old(globals)@, g4, globals@);
        lemma_loop_depth(lp, *context, loop_id);
        assert(c4.functions@ == cc.functions@);
        assert(g4 == gc);
        assert(fns_extend(cc.functions@, context.functions@));
        lemma_fns_extend_table(cc.functions@, context.functions@, cc.base_function_id as int);
        lemma_inits_grow(bv, inits0, cc.functions@, context.functions@, cc.base_function_id as int, cc.base_function_id as int, gc, globals@);
        lemma_lift(w@[1]@, condition, c4, *context, g4, globals@);
    }
    let ghost c5 = *context;
    context.pop_loop();
    proof {
        lemma_loop_closed(*old(context), blk, lp, c5, *context, loop_id, old(globals)@, globals@);
    }
    let body = match body_result {
        Ok(b) => b,
        Err(err) => {
        let ghost c2 = *context;
        proof {
            lemma_in_block_depth(*old(context), blk, c2, old(globals)@, globals@);
        }
        context.pop_block();
        proof {
            lemma_block_closed(*old(context), blk, c2, *context, old(globals)@, globals@);
        }
            return Err(err);
        },
    };
    if update_items.len() != names.len() {
    let ghost c2 = *context;
    proof {
        lemma_in_block_depth(*old(context), blk, c2, old(globals)@, globals@);
    }
    context.pop_block();
    proof {
        lemma_block_closed(*old(context), blk, c2, *context, old(globals)@, globals@);
    }
        return Err(LowerError::InvalidCoreForm);
    }
    let mut updates: Vec<IrStateUpdate> = Vec::new();
    let mut u: usize = 0;
    while u < update_items.len()
        invariant
            *parent == CoreExpr::List(*items),
            items@.len() == 5,
            items@[3] == CoreExpr::List(*n),
            n@.len() == 2,
            n@[1] == CoreExpr::List(*update_items),
            update_items@.len() == names@.len(),
            states@.len() == names@.len(),
            names@.len() == bv.len(),
            forall|k: int| 0 <= k < names@.len() ==> (#[trigger] bv[k]) is List && bv[k]->List_0.len() == 2 && bv[k]->List_0[0] == CoreExprV::Symbol(names@[k]@),
            lowerable(parent@, in_loop(*old(context))) ==> (forall|k: int| 0 <= k < uv.len() ==> (#[trigger] uv[k]) is List && uv[k]->List_0.len() == 2
                && uv[k]->List_0[0] is Symbol && lowerable(uv[k]->List_0[1], in_loop(*old(context)))
                && uv[k]->List_0[0] == bv[k]->List_0[0]),
            u <= update_items@.len(),
            uv == cores_view(update_items@, update_items@.len() as int),
            uv.len() == update_items@.len(),
            forall|k: int| 0 <= k < update_items@.len() ==> #[trigger] uv[k] == update_items@[k]@,
            updates@.len() == u,
            forall|k: int| 0 <= k < u ==> (#[trigger] uv[k]) is List && uv[k]->List_0.len() == 2
                && lowered_from(uv[k]->List_0[1], updates@[k].value, context.functions@, context.base_function_id as int, globals@),
            inits_lowered(bv, inits0, context.functions@, context.base_function_id as int, globals@),
            lowered_from(w@[1]@, condition, context.functions@, context.base_function_id as int, globals@),
            lowered_from(d@[1]@, body, context.functions@, context.base_function_id as int, globals@),
            nv.len() == names@.len(),
            forall|k: int| 0 <= k < names@.len() ==> #[trigger] nv[k] == names@[k]@,
            pairs_lowerable(bv, in_loop(*old(context))),
            lowerable(w@[1]@, in_loop(*old(context))),
            lowerable(d@[1]@, true),
            forall|k: int| 0 <= k < u ==> (#[trigger] uv[k]) is List && uv[k]->List_0.len() == 2
                && uv[k]->List_0[0] == CoreExprV::Symbol(nv[k]) && lowerable(uv[k]->List_0[1], in_loop(*old(context))),
            context.wf(),
            old(context).function_stack@.len() >= 1,
            in_block(*old(context), blk, *context, old(globals)@, globals@),
            filled(*old(context), *context),
        decreases update_items@.len() - u,
    {
        proof {
            assert(uv[u as int] == update_items@[u as int]@);
        }
        let pair = match &update_items[u] {
            CoreExpr::List(p) => p,
            _ => {
                let ghost c2 = *context;
                proof {
                    lemma_in_block_depth(*old(context), blk, c2, old(globals)@, globals@);
                }
                context.pop_block();
                proof {
                    lemma_block_closed(*old(context), blk, c2, *context, old(globals)@, globals@);
                }
                return Err(LowerError::InvalidCoreForm);
            },
        };
        proof {
            lemma_cores_view_all(pair@);
            assert(uv[u as int] == CoreExprV::List(cores_view(pair@, pair@.len() as int)));
        }
        if pair.len() != 2 {
            let ghost c2 = *context;
            proof {
                lemma_in_block_depth(*old(context), blk, c2, old(globals)@, globals@);
            }
            context.pop_block();
            proof {
                lemma_block_closed(*old(context), blk, c2, *context, old(globals)@, globals@);
            }
            return Err(LowerError::InvalidCoreForm);
        }
        proof {
            assert(cores_view(pair@, pair@.len() as int)[0] == pair@[0]@);
            assert(cores_view(pair@, pair@.len() as int)[1] == pair@[1]@);
        }
        let name = match binding_name(&pair[0]) {
            Some(x) => x,
            None => {
                let ghost c2 = *context;
                proof {
                    lemma_in_block_depth(*old(context), blk, c2, old(globals)@, globals@);
                }
                context.pop_block();
                proof {
                    lemma_block_closed(*old(context), blk, c2, *context, old(globals)@, globals@);
                }
                return Err(LowerError::InvalidCoreForm);
            },
        };
        if !str_eq(name.as_str(), names[u].as_str()) {
            let ghost c2 = *context;
            proof {
                lemma_in_block_depth(*old(context), blk, c2, old(globals)@, globals@);
            }
            context.pop_block();
            proof {
                lemma_block_closed(*old(context), blk, c2, *context, old(globals)@, globals@);
            }
            return Err(LowerError::InvalidCoreForm);
        }
        proof {
            assert(decreases_to!(*parent => (*parent)->List_0));
            assert(decreases_to!(*items => items[3]));
            assert(decreases_to!(items[3] => (items[3])->List_0));
            assert(decreases_to!(*n => n[1]));
            assert(decreases_to!(n[1] => (n[1])->List_0));
            assert(decreases_to!(*update_items => update_items[u as int]));
            assert(decreases_to!(update_items[u as int] => (update_items[u as int])->List_0));
            assert(decreases_to!(*pair => pair[1]));
        }
        let ghost c1 = *context;
        let ghost g1 = globals@;
        proof {
            lemma_in_loop_block(*old(context), blk, c1, old(globals)@, globals@);
        }
        let value = lower_expr(&pair[1], context, globals);
        proof {
            lemma_step_trans(*old(context), c1, *context, old(globals)@, g1, globals@);
        }
        let value = match value {
            Ok(x) => x,
            Err(err) => {
                let ghost c2 = *context;
                proof {
                    lemma_in_block_depth(*old(context), blk, c2, old(globals)@, globals@);
                }
                context.pop_block();
                proof {
                    lemma_block_closed(*old(context), blk, c2, *context, old(globals)@, globals@);
                }
                return Err(err);
            },
        };
        let target = states[u].target;
        proof {
            lemma_cores_view_all(pair@);
            assert(fns_extend(c1.functions@, context.functions@));
            lemma_fns_extend_table(c1.functions@, context.functions@, c1.base_function_id as int);
            lemma_inits_grow(bv, inits0, c1.functions@, context.functions@, c1.base_function_id as int, c1.base_function_id as int, g1, globals@);
            lemma_lift(w@[1]@, condition, c1, *context, g1, globals@);
            lemma_lift(d@[1]@, body, c1, *context, g1, globals@);
            assert forall|k: int| 0 <= k < u implies (#[trigger] uv[k]) is List && uv[k]->List_0.len() == 2
                && lowered_from(uv[k]->List_0[1], updates@[k].value, context.functions@, context.base_function_id as int, globals@) by {
                lemma_lift(uv[k]->List_0[1], updates@[k].value, c1, *context, g1, globals@);
            }
        }
        updates.push(IrStateUpdate { target, value, span });
        proof {
            assert(uv[u as int] == CoreExprV::List(cores_view(pair@, pair@.len() as int)));
            assert(uv[u as int]->List_0[1] == pair@[1]@);
            assert(uv[u as int]->List_0[0] == pair@[0]@);
            assert(nv[u as int] == names@[u as int]@);
        }
        u += 1;
    }
    let ghost c2 = *context;
    proof {
        lemma_in_block_depth(*old(context), blk, c2, old(globals)@, globals@);
    }
    context.pop_block();
    proof {
        lemma_block_closed(*old(context), blk, c2, *context, old(globals)@, globals@);
        assert(states@.map_values(|s: IrStateBinding| s.initializer) =~= inits0);
        assert(inits_lowered(uv, updates@.map_values(|x: IrStateUpdate| x.value), context.functions@, context.base_function_id as int, globals@));
    }
    proof {
        assert forall|k: int| 0 <= k < uv.len() implies (#[trigger] uv[k]) is List && uv[k]->List_0.len() == 2
            && uv[k]->List_0[0] == CoreExprV::Symbol(nv[k]) by {}
        assert forall|a: int, b: int| 0 <= a < b < nv.len() implies (#[trigger] nv[a]) != (#[trigger] nv[b]) by {
            assert(nv[a] == names@[a]@ && nv[b] == names@[b]@);
        }
        lemma_pair_names_distinct(uv, nv);
        lemma_pairs_lowerable_intro(uv, in_loop(*old(context)));
        lemma_pair_names_distinct(bv, nv);
        assert(pair_names(uv) =~= pair_names(bv));
        assert(list_lowerable(cores_view(items@, items@.len() as int), in_loop(*old(context))));
    }
    Ok(IrExpr::new(span, IrExprKind::StateLoop {
        loop_id,
        states,
        condition: Box::new(condition),
        updates,
        body: Box::new(body),
    }))
}

impl LowerContext {
    /// Hands out the completed functions in id order and leaves the context
    /// idle, ready for the next top-level form.
    fn take_functions(&mut self) -> (r: Vec<IrFunction>)
        requires
            old(self).wf(),
            old(self).function_stack@.len() == 0,
            forall|i: int| 0 <= i < old(self).functions@.len() ==> (#[trigger] old(self).functions@[i] matches Some(f) && f.id.0 == old(self).base_function_id + i),
        ensures
            final(self).is_idle(),
            final(self).next_function_id == old(self).next_function_id,
            final(self).next_loop_id == old(self).next_loop_id,
            r@.len() == old(self).functions@.len(),
            forall|i: int| 0 <= i < r@.len() ==> (#[trigger] r@[i]).id.0 == old(self).base_function_id + i,
            r@.map_values(|f: IrFunction| Some(f)) == old(self).functions@,
    {
        let mut pending: Vec<Option<IrFunction>> = Vec::new();
        std::mem::swap(&mut pending, &mut self.functions);
        let ghost all = pending@;
        let mut out: Vec<IrFunction> = Vec::new();
        while pending.len() > 0
            invariant
                out@.len() + pending@.len() == all.len(),
                pending@ == all.subrange(out@.len() as int, all.len() as int),
                forall|i: int| 0 <= i < all.len() ==> (#[trigger] all[i] matches Some(f) && f.id.0 == old(self).base_function_id + i),
                forall|i: int| 0 <= i < out@.len() ==> (#[trigger] out@[i]).id.0 == old(self).base_function_id + i,
                forall|i: int| 0 <= i < out@.len() ==> Some(#[trigger] out@[i]) == all[i],
            decreases pending@.len(),
        {
            let ghost k = out@.len() as int;
            let next = pending.remove(0);
            proof {
                assert(next == all[k]);
            }
            match next {
                Some(f) => {
                    out.push(f);
                },
                None => {},
            }
            proof {
                assert(pending@ =~= all.subrange(out@.len() as int, all.len() as int));
            }
        }
        self.base_function_id = self.next_function_id;
        proof {
            assert(out@.map_values(|f: IrFunction| Some(f)) =~= all);
        }
        out
    }
}

/// `(def name value)` at top level.
fn lower_def(parent: &CoreExpr, items: &Vec<CoreExpr>, context: &mut LowerContext, globals: &mut GlobalRegistry) -> (r: Result<IrTopLevel, LowerError>)
    requires
        *parent == CoreExpr::List(*items),
        old(context).wf(),
        old(context).function_stack@.len() == 0,
    ensures
        ctx_step(*old(context), *final(context), old(globals)@, final(globals)@),
        r is Ok ==> filled(*old(context), *final(context)),
        items@.len() != 3 ==> r == Err::<IrTopLevel, LowerError>(LowerError::InvalidCoreForm),
        items@.len() == 3 && !(items@[1] is Symbol) ==> r == Err::<IrTopLevel, LowerError>(LowerError::InvalidCoreForm),
        items@.len() == 3 && items@[1] is Symbol && is_reserved_name(items@[1]->Symbol_0@)
            ==> (r matches Err(LowerError::ReservedDefinitionName(n)) && n@ == items@[1]->Symbol_0@),
        r matches Ok(t) ==> (t matches IrTopLevel::Define { target, .. } && items@[1] matches CoreExpr::Symbol(name)
            && (target.0 as int) < final(globals)@.len() && final(globals)@[target.0 as int] == name@),
        r matches Ok(t) ==> (t matches IrTopLevel::Define { initializer, .. } && lowered_from(items@[2]@, initializer.expr,
            final(context).functions@, final(context).base_function_id as int, final(globals)@)),
        items@.len() > 0 && items@[0]@ == CoreExprV::Symbol("def"@) && top_lowerable(parent@) ==> (r matches Err(e) ==> limit_error(e)),
        items@.len() > 0 && items@[0]@ == CoreExprV::Symbol("def"@) && r is Ok ==> top_lowerable(parent@),
    decreases parent, 1int,
{
    proof {
        lemma_step_refl(*context, globals@);
        lemma_form_names();
        lemma_cores_view_all(items@);
    }
    let span = span0();
    if items.len() != 3 {
        return Err(LowerError::InvalidCoreForm);
    }
    let name = match &items[1] {
        CoreExpr::Symbol(name) => name,
        _ => {
            return Err(LowerError::InvalidCoreForm);
        },
    };
    if is_reserved(name.as_str()) {
        return Err(LowerError::ReservedDefinitionName(name.clone()));
    }
    let target = match intern_global(name.as_str(), globals) {
        Ok(id) => id,
        Err(err) => {
            return Err(err);
        },
    };
    let ghost g_target = globals@;
    let ghost before_push = *context;
    context.push_function();
    let ghost pushed = *context;
    proof {
        assert(decreases_to!(*parent => (*parent)->List_0));
        assert(decreases_to!(*items => items[2]));
        lemma_in_loop(pushed);
        assert(parent@ == CoreExprV::List(cores_view(items@, items@.len() as int)));
        assert(cores_view(items@, items@.len() as int)[2] == items@[2]@);
    }
    let expr_result = lower_expr(&items[2], context, globals);
    let ghost after = *context;
    let scope = context.pop_function();
    proof {
        assert(shape(*context) =~= shape(after).drop_last());
        assert(shape(pushed).drop_last() =~= shape(before_push));
        assert(context.functions@.len() >= old(context).functions@.len());
        assert forall|k: int| 0 <= k < old(context).functions@.len() implies #[trigger] context.functions@[k] == old(context).functions@[k] by {
            assert(after.functions@[k] == pushed.functions@[k]);
        }
        assert(extends_names(g_target, globals@));
    }
    let expr = match expr_result {
        Ok(e) => e,
        Err(err) => {
            return Err(err);
        },
    };
    proof {
        assert(!in_loop(pushed));
        assert(lowerable(items@[2]@, false));
        assert(items@[1] is Symbol);
        assert(cores_view(items@, items@.len() as int)[1] == items@[1]@);
    }
    Ok(IrTopLevel::Define { target, initializer: IrBody { local_count: scope.next_local, expr }, span })
}

/// Lowers one top-level form. A `(def name value)` becomes a definition of
/// the global `name` (interned before its value is lowered, so the value
/// may refer to itself); anything else becomes a top-level expression. On
/// success the functions the form defines are handed back in id order,
/// continuing from the context's next function id. Lowering succeeds
/// exactly on well-formed forms (see [`top_lowerable`]), unless a counter
/// of the context runs out.
pub fn lower_top_level(core: &CoreExpr, context: &mut LowerContext, globals: &mut GlobalRegistry) -> (r: Result<(IrTopLevel, Vec<IrFunction>), LowerError>)
    requires
        old(context).is_idle(),
    ensures
        extends_names(old(globals)@, final(globals)@),
        final(context).spec_next_loop_id() >= old(context).spec_next_loop_id(),
        final(context).spec_next_function_id() >= old(context).spec_next_function_id(),
        match r {
            Ok((t, fs)) => {
                &&& final(context).is_idle()
                &&& fs@.len() == final(context).spec_next_function_id() - old(context).spec_next_function_id()
                &&& forall|i: int| 0 <= i < fs@.len() ==> (#[trigger] fs@[i]).id.0 == old(context).spec_next_function_id() + i
            },
            Err(_) => true,
        },
        match *core {
            CoreExpr::List(items) => if items@.len() > 0 && items@[0] is Symbol && items@[0]->Symbol_0@ == "def"@ {
                &&& (items@.len() == 3 && items@[1] is Symbol && is_reserved_name(items@[1]->Symbol_0@)
                    ==> (r matches Err(LowerError::ReservedDefinitionName(n)) && n@ == items@[1]->Symbol_0@))
                &&& (r matches Ok((t, _)) ==> (t matches IrTopLevel::Define { target, .. } && items@[1] matches CoreExpr::Symbol(name)
                    && (target.0 as int) < final(globals)@.len() && final(globals)@[target.0 as int] == name@))
                &&& (r matches Ok((t, fs)) ==> (t matches IrTopLevel::Define { initializer, .. } && lowered_from(items@[2]@,
                    initializer.expr, fs@.map_values(|f: IrFunction| Some(f)), old(context).spec_next_function_id() as int, final(globals)@)))
            } else {
                r matches Ok((t, fs)) ==> (t matches IrTopLevel::Expr { body, .. } && lowered_from(core@, body.expr,
                    fs@.map_values(|f: IrFunction| Some(f)), old(context).spec_next_function_id() as int, final(globals)@))
            },
            _ => r matches Ok((t, fs)) ==> (t matches IrTopLevel::Expr { body, .. } && lowered_from(core@, body.expr,
                fs@.map_values(|f: IrFunction| Some(f)), old(context).spec_next_function_id() as int, final(globals)@)),
        },
        r matches Ok((t, fs)) ==> top_level_lowered_from(core@, t, fs@.map_values(|f: IrFunction| Some(f)),
            old(context).spec_next_function_id() as int, final(globals)@),
        (*core is Int || *core is Bool || *core is String) ==> r is Ok,
        top_lowerable(core@) ==> (r matches Err(e) ==> limit_error(e)),
        r is Ok ==> top_lowerable(core@),
{
    let span = span0();
    let mut is_def = false;
    if let CoreExpr::List(items) = core {
        if items.len() > 0 {
            if let CoreExpr::Symbol(name) = &items[0] {
                is_def = str_eq(name.as_str(), "def");
            }
        }
    }
    if is_def {
        if let CoreExpr::List(items) = core {
            proof {
                lemma_cores_view_all(items@);
            }
            let t = match lower_def(core, items, context, globals) {
                Ok(t) => t,
                Err(err) => {
                    return Err(err);
                },
            };
            let functions = context.take_functions();
            return Ok((t, functions));
        }
    }
    context.push_function();
    let ghost pushed = *context;
    proof {
        lemma_in_loop(pushed);
        lemma_form_names();
        if let CoreExpr::List(items) = core {
            lemma_cores_view_all(items@);
            if items@.len() > 0 {
                assert(cores_view(items@, items@.len() as int)[0] == items@[0]@);
            }
        }
    }
    let expr_result = lower_expr(core, context, globals);
    let ghost after = *context;
    let scope = context.pop_function();
    proof {
        assert(context.functions@.len() >= old(context).functions@.len());
    }
    let expr = match expr_result {
        Ok(e) => e,
        Err(err) => {
            return Err(err);
        },
    };
    proof {
        assert forall|k: int| 0 <= k < context.functions@.len() implies (#[trigger] context.functions@[k] matches Some(f) && f.id.0 == context.base_function_id + k) by {
            assert(context.functions@[k] == after.functions@[k]);
        }
    }
    let body = IrBody { local_count: scope.next_local, expr };
    let functions = context.take_functions();
    Ok((IrTopLevel::Expr { body, span }, functions))
}

} // verus!
