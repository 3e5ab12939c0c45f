//! The whole pipeline for normal, executing use: every top-level form is
//! expanded, lowered, verified and evaluated before the next form is
//! expanded, so a `def` earlier in the source is visible both as a runtime
//! global and as an expansion-time `for` constant to the forms after it.
use vstd::prelude::*;
use crate::ast::Expr;
use crate::builtin::{all, all_builtins};
use crate::error::{LispError, LowerError};
use crate::expand::{expand, ExpansionContext};
use crate::globals::{GlobalRegistry, RuntimeConstants};
use crate::ir::{IrFunction, IrModule};
use crate::ir_eval::{eval_ir_top_level, Runtime};
use crate::lower::{extends_names, lower_top_level, LowerContext};
use crate::parser::parse_program;
use crate::text::byte_len;
use crate::value::{Builtin, Value, ValueV};
use crate::ast::{exprs_view, lemma_exprs_view_all, ExprV};
use crate::parser::{read_error_matches, read_program, ReadError};
use crate::macro_expand::{collect_spec, free_of_defmacro, no_macro_calls, ordinary_from};
use crate::builtin::EvalFailure;
use crate::core_expr::CoreExprV;
use crate::error::ExpandError;
use crate::expand::{expand_error_matches, expand_spec, DEFAULT_MAX_FOR_EXPANSIONS};
use crate::ir::IrTopLevel;
use crate::ir_eval::{result_matches, run_body};
use crate::lower_shape::{fn_entry, lemma_top_level_grows, top_level_lowered_from};
use crate::verify::{check_function, check_lowered, functions_check, lemma_check_functions_skip, lemma_function_grows, verify_function, verify_top_level};
use crate::lower_shape::{limit_error, top_lowerable};

verus! {

broadcast use vstd::std_specs::vec::group_vec_axioms;

/// Compile-time state that persists across calls: the global name registry,
/// the accumulated function table and the next loop id.
pub struct FrontendSession {
    pub globals: GlobalRegistry,
    pub module: IrModule,
    next_loop_id: u32,
}

impl FrontendSession {
    pub closed spec fn spec_function_count(&self) -> nat {
        self.module.functions@.len()
    }

    pub closed spec fn spec_names(&self) -> Seq<Seq<char>> {
        self.globals@
    }

    /// A session whose registry holds every builtin's name, in binding
    /// order, and nothing else.
    pub fn new() -> (r: Self)
        ensures
            r.spec_function_count() == 0,
            r.spec_names() == builtin_names(),
    {
        FrontendSession { globals: registry_with_builtins(), module: IrModule::new(), next_loop_id: 0 }
    }
}

/// The names of the builtins, in binding order.
pub open spec fn builtin_names() -> Seq<Seq<char>> {
    all_builtins().map_values(|b: Builtin| b.spec_name())
}

/// No two builtins share a name.
pub proof fn lemma_builtin_names_distinct()
    ensures
        builtin_names().len() == 12,
        forall|i: int, j: int| 0 <= i < j < 12 ==> builtin_names()[i] != builtin_names()[j],
{
    let n = builtin_names();
    assert forall|i: int, j: int| 0 <= i < j < 12 implies n[i] != n[j] by {
        if n[i] == n[j] {
            assert(n[i].len() == n[j].len());
            assert(n[i][0] == n[j][0]);
            if n[i].len() > 1 {
                assert(n[i][1] == n[j][1]);
            }
        }
    }
}

/// A registry holding the name of every builtin, in binding order.
pub(crate) fn registry_with_builtins() -> (r: GlobalRegistry)
    ensures
        r@ == builtin_names(),
{
    let mut globals = GlobalRegistry::new();
    let builtins = all();
    proof {
        lemma_builtin_names_distinct();
    }
    let mut i: usize = 0;
    while i < builtins.len()
        invariant
            builtins@.len() == 12,
            forall|k: int| 0 <= k < 12 ==> (#[trigger] builtins@[k]).0@ == builtin_names()[k],
            forall|a: int, b: int| 0 <= a < b < 12 ==> builtin_names()[a] != builtin_names()[b],
            builtin_names().len() == 12,
            i <= builtins@.len(),
            globals@ == builtin_names().take(i as int),
        decreases builtins@.len() - i,
    {
        proof {
            if globals@.contains(builtins@[i as int].0@) {
                let k = choose|k: int| 0 <= k < globals@.len() && globals@[k] == builtins@[i as int].0@;
                assert(builtin_names()[k] == builtin_names()[i as int]);
            }
        }
        globals.intern(builtins[i].0);
        proof {
            assert(globals@ =~= builtin_names().take(i + 1));
        }
        i += 1;
    }
    proof {
        assert(builtin_names().take(12) =~= builtin_names());
    }
    globals
}

impl Default for FrontendSession {
    fn default() -> (r: Self)
        ensures
            r.spec_function_count() == 0,
    {
        FrontendSession::new()
    }
}

/// Appends `extra` to `functions`.
pub(crate) fn append_functions(functions: &mut Vec<IrFunction>, extra: Vec<IrFunction>)
    ensures
        final(functions)@ == old(functions)@ + extra@,
{
    let mut extra = extra;
    let ghost all_extra = extra@;
    let ghost start = functions@;
    while extra.len() > 0
        invariant
            functions@ + extra@ == start + all_extra,
        decreases extra@.len(),
    {
        let f = extra.remove(0);
        let ghost rest = extra@;
        functions.push(f);
        proof {
            assert(functions@ + extra@ =~= start + all_extra);
        }
    }
    proof {
        assert(functions@ =~= start + all_extra);
    }
}

/// Drops the functions after the first `len`.
fn truncate_functions(functions: &mut Vec<IrFunction>, len: usize)
    requires
        len <= old(functions)@.len(),
    ensures
        final(functions)@ == old(functions)@.take(len as int),
{
    while functions.len() > len
        invariant
            len <= functions@.len() <= old(functions)@.len(),
            functions@ == old(functions)@.take(functions@.len() as int),
        decreases functions@.len(),
    {
        functions.pop();
        proof {
            assert(functions@ =~= old(functions)@.take(functions@.len() as int));
        }
    }
}

pub struct Interpreter {
    frontend: FrontendSession,
    runtime: Runtime,
}

impl Interpreter {
    /// The text printed so far.
    pub closed spec fn spec_output(&self) -> Seq<char> {
        self.runtime.spec_output()
    }

    /// The functions lowered so far.
    pub closed spec fn spec_functions(&self) -> Seq<IrFunction> {
        self.frontend.module.functions@
    }

    /// Every function lowered so far checks against the whole table and
    /// the globals named so far.
    pub closed spec fn spec_verified(&self) -> bool {
        functions_check(self.frontend.module.functions@, self.frontend.module.functions@, self.frontend.globals@.len())
    }

    /// The global names known so far, by id.
    pub closed spec fn spec_names(&self) -> Seq<Seq<char>> {
        self.frontend.globals@
    }

    /// The runtime value of each global, by id.
    pub closed spec fn spec_globals(&self) -> Seq<Option<Value>> {
        self.runtime.spec_globals()
    }

    /// An interpreter whose output starts as `output`, with every builtin
    /// bound to its global: the globals are exactly the builtins, by name
    /// and in binding order.
    pub fn new(output: String) -> (r: Self)
        ensures
            r.spec_output() == output@,
            r.spec_functions().len() == 0,
            r.spec_verified(),
            r.spec_names() == builtin_names(),
            r.spec_globals().len() == 12,
            r.spec_next_gensym_id() == 0,
            forall|i: int| 0 <= i < 12 ==> #[trigger] r.spec_globals()[i] == Some(Value::Builtin(all_builtins()[i])),
    {
        Interpreter::with_builtins(output, true)
    }

    /// An interpreter for evaluating macro bodies at expansion time: every
    /// builtin but `print` (the last one) is bound, so nothing evaluated
    /// there can write output.
    pub fn new_compile_time() -> (r: Self)
        ensures
            r.spec_output() == Seq::<char>::empty(),
            r.spec_functions().len() == 0,
            r.spec_verified(),
            r.spec_names() == builtin_names(),
            r.spec_globals().len() == 11,
            r.spec_next_gensym_id() == 0,
            forall|i: int| 0 <= i < 11 ==> #[trigger] r.spec_globals()[i] == Some(Value::Builtin(all_builtins()[i])),
    {
        Interpreter::with_builtins(String::new(), false)
    }

    fn with_builtins(output: String, bind_print: bool) -> (r: Self)
        ensures
            r.spec_output() == output@,
            r.spec_functions().len() == 0,
            r.spec_verified(),
            r.spec_names() == builtin_names(),
            r.spec_globals().len() == if bind_print { 12int } else { 11int },
            r.spec_next_gensym_id() == 0,
            forall|i: int| 0 <= i < (if bind_print { 12int } else { 11int }) ==> #[trigger] r.spec_globals()[i] == Some(Value::Builtin(all_builtins()[i])),
    {
        let frontend = FrontendSession::new();
        let mut runtime = Runtime::new(output);
        let builtins = all();
        proof {
            lemma_builtin_names_distinct();
        }
        let mut i: usize = 0;
        while i < builtins.len()
            invariant
                builtins@.len() == 12,
                forall|k: int| 0 <= k < 12 ==> (#[trigger] builtins@[k]).0@ == builtin_names()[k]
                    && builtins@[k].1 == Value::Builtin(all_builtins()[k]),
                forall|a: int, b: int| 0 <= a < b < 12 ==> builtin_names()[a] != builtin_names()[b],
                builtin_names().len() == 12,
                frontend.spec_names() == builtin_names(),
                frontend.spec_function_count() == 0,
                i <= builtins@.len(),
                runtime.spec_output() == output@,
                runtime.spec_next_gensym_id() == 0,
                runtime.spec_globals().len() == if i == 12 && !bind_print { 11 } else { i as int },
                forall|k: int| 0 <= k < i && (k < 11 || bind_print) ==> #[trigger] runtime.spec_globals()[k] == Some(Value::Builtin(all_builtins()[k])),
            decreases builtins@.len() - i,
        {
            if !bind_print && i == 11 {
                i += 1;
                continue;
            }
            let found = frontend.globals.lookup(builtins[i].0);
            proof {
                assert(frontend.globals@ == builtin_names());
                assert(frontend.globals@[i as int] == builtins@[i as int].0@);
            }
            if let Some(id) = found {
                proof {
                    if id.0 != i {
                        assert(builtin_names()[id.0 as int] == builtin_names()[i as int]);
                    }
                }
                runtime.define_global(id, builtins[i].1.copy());
            }
            i += 1;
        }
        Interpreter { frontend, runtime }
    }

    /// What `e` expands to as a top-level form in this interpreter's state:
    /// `for` ranges may use the integer globals bound so far.
    pub closed spec fn spec_expansion(&self, e: ExprV) -> Result<(CoreExprV, nat), ExpandError> {
        expand_spec(
            e,
            Seq::empty(),
            RuntimeConstants { registry: &self.frontend.globals, store: &self.runtime.spec_store() },
            DEFAULT_MAX_FOR_EXPANSIONS as nat,
        )
    }

    /// How running the top-level form `t` from this interpreter's state
    /// ends, with the function table of `after`: an expression gives its
    /// value, a definition gives unit once its value is computed.
    pub closed spec fn spec_run(&self, t: IrTopLevel, after: Interpreter) -> Result<ValueV, EvalFailure> {
        match t {
            IrTopLevel::Expr { body, .. } => run_body(body, after.frontend.module, self.runtime).0,
            IrTopLevel::Define { initializer, .. } => match run_body(initializer, after.frontend.module, self.runtime).0 {
                Ok(_) => Ok(ValueV::Unit),
                Err(f) => Err(f),
            },
        }
    }

    /// The text printed once the top-level form `t` has run from this
    /// interpreter's state, with the function table of `after`.
    pub closed spec fn spec_run_output(&self, t: IrTopLevel, after: Interpreter) -> Seq<char> {
        match t {
            IrTopLevel::Expr { body, .. } => run_body(body, after.frontend.module, self.runtime).1,
            IrTopLevel::Define { initializer, .. } => run_body(initializer, after.frontend.module, self.runtime).1,
        }
    }

    /// Expands, lowers, verifies and evaluates one reader expression as a
    /// top-level form. Nothing is printed before evaluation starts, printed
    /// text is only ever appended, and a form that fails to lower or verify
    /// leaves the function table as it was. When the form is evaluated, its
    /// result is what running the IR it lowered to gives: that IR has the
    /// structure of the form's expansion (see [`top_level_lowered_from`]),
    /// and the functions it added follow the earlier ones, numbered on.
    pub fn eval_expr(&mut self, expr: &Expr) -> (r: Result<Value, LispError>)
        ensures
            old(self).spec_output().is_prefix_of(final(self).spec_output()),
            match old(self).spec_expansion(expr@) {
                Err(e) => r matches Err(LispError::Expand(x)) && expand_error_matches(x, e),
                Ok(_) => !(r is Err && r->Err_0 is Expand),
            },
            r is Err ==> final(self).spec_globals() == old(self).spec_globals(),
            final(self).spec_functions().take(old(self).spec_functions().len() as int) == old(self).spec_functions(),
            forall|i: int| old(self).spec_functions().len() <= i < final(self).spec_functions().len()
                ==> (#[trigger] final(self).spec_functions()[i]).id.0 == i,
            (r is Ok || (r is Err && r->Err_0 is Eval)) ==> exists|t: IrTopLevel|
                top_level_lowered_from(old(self).spec_expansion(expr@)->Ok_0.0, t,
                    final(self).spec_functions().map_values(|f: IrFunction| Some(f)), 0, final(self).spec_names())
                && result_matches(r, #[trigger] old(self).spec_run(t, *final(self)))
                && final(self).spec_output() == old(self).spec_run_output(t, *final(self)),
            (r matches Err(LispError::Lower(_))) || (r matches Err(LispError::Verify(_))) || (r matches Err(LispError::Expand(_)))
                ==> final(self).spec_functions() == old(self).spec_functions() && final(self).spec_output() == old(self).spec_output(),
            old(self).spec_verified() ==> final(self).spec_verified(),
            final(self).spec_functions().len() >= old(self).spec_functions().len(),
            eval_step(*old(self), expr@, r, *final(self)),
            r matches Err(LispError::Lower(e)) ==> (old(self).spec_expansion(expr@) matches Ok((c, _))
                && (top_lowerable(c) ==> limit_error(e))),
            r matches Err(LispError::Verify(e)) ==> exists|t: IrTopLevel, fs: Seq<IrFunction>|
                fs.take(old(self).spec_functions().len() as int) == old(self).spec_functions()
                && top_level_lowered_from(old(self).spec_expansion(expr@)->Ok_0.0, t, fs.map_values(|f: IrFunction| Some(f)), 0, final(self).spec_names())
                && #[trigger] check_lowered(t, fs, old(self).spec_functions().len() as int, final(self).spec_names().len()) == Err::<(), crate::error::VerifyError>(e),
    {
        proof {
            assert(self.runtime.spec_output() =~= self.runtime.spec_output().subrange(0, self.runtime.spec_output().len() as int));
        }
        let core = {
            let constants = RuntimeConstants { registry: &self.frontend.globals, store: self.runtime.global_values() };
            let mut context = ExpansionContext::new(&constants);
            match expand(expr, &mut context) {
                Ok(c) => c,
                Err(err) => {
                    return Err(LispError::Expand(err));
                },
            }
        };
        let ghost fs0 = self.frontend.module.functions@;
        let ghost g0 = self.frontend.globals@;
        let base = self.frontend.module.functions.len();
        if base > u32::MAX as usize {
            return Err(LispError::Lower(LowerError::TooManyFunctions));
        }
        let mut lower_context = LowerContext::with_next_ids(base as u32, self.frontend.next_loop_id);
        let lowered = lower_top_level(&core, &mut lower_context, &mut self.frontend.globals);
        proof {
            if old(self).spec_verified() {
                assert forall|k: int| 0 <= k < fs0.len() implies #[trigger] check_function(fs0[k], fs0, self.frontend.globals@.len()) is Ok by {
                    assert(check_function(fs0[k], fs0, g0.len()) is Ok);
                    lemma_function_grows(fs0[k], fs0, fs0, g0.len(), self.frontend.globals@.len());
                }
            }
        }
        let (top_level, new_functions) = match lowered {
            Ok(result) => result,
            Err(err) => {
                return Err(LispError::Lower(err));
            },
        };
        let ghost added = new_functions@;
        let ghost g1 = self.frontend.globals@;
        self.frontend.next_loop_id = lower_context.next_loop_id();
        append_functions(&mut self.frontend.module.functions, new_functions);
        let ghost fall = self.frontend.module.functions@;
        proof {
            let small = added.map_values(|f: IrFunction| Some(f));
            let all = fall.map_values(|f: IrFunction| Some(f));
            assert forall|id: int| (#[trigger] fn_entry(small, base as int, id)) is Some
                implies fn_entry(all, 0, id) == fn_entry(small, base as int, id) by {
                assert(fall[id] == added[id - base]);
            }
            lemma_top_level_grows(core@, top_level, small, all, base as int, 0, g1, g1);
            assert(fall.take(base as int) =~= fs0);
            assert forall|k: int| base <= k < fall.len() implies (#[trigger] fall[k]).id.0 == k by {
                assert(fall[k] == added[k - base]);
            }
        }
        if let Err(err) = verify_top_level(&top_level, &self.frontend.module, &self.frontend.globals) {
            truncate_functions(&mut self.frontend.module.functions, base);
            proof {
                assert(self.frontend.module.functions@ =~= old(self).frontend.module.functions@);
                assert(check_lowered(top_level, fall, base as int, g1.len()) == Err::<(), crate::error::VerifyError>(err));
                assert(self.spec_names() == g1);
                assert(old(self).spec_functions().len() == base);
                assert(old(self).spec_expansion(expr@)->Ok_0.0 == core@);
                assert(check_lowered(top_level, fall, old(self).spec_functions().len() as int, self.spec_names().len()) == Err::<(), crate::error::VerifyError>(err));
            }
            return Err(LispError::Verify(err));
        }
        let mut i: usize = base;
        while i < self.frontend.module.functions.len()
            invariant
                base <= i <= self.frontend.module.functions@.len(),
                self.frontend.module.functions@ == fall,
                self.frontend.globals@ == g1,
                old(self).spec_expansion(expr@) matches Ok((c, _)) && c == core@,
                fall.take(base as int) == fs0,
                self.frontend.module.functions@.take(base as int) == old(self).frontend.module.functions@,
                self.runtime == old(self).runtime,
                fs0 == old(self).frontend.module.functions@,
                base == fs0.len(),
                g0.len() <= self.frontend.globals@.len(),
                old(self).spec_verified() ==> forall|k: int| 0 <= k < base ==> #[trigger] check_function(fs0[k], fs0, self.frontend.globals@.len()) is Ok,
                forall|k: int| base <= k < i ==> #[trigger] check_function(self.frontend.module.functions@[k], self.frontend.module.functions@, self.frontend.globals@.len()) is Ok,
                crate::verify::check_top_level(top_level, fall, g1.len()) is Ok,
                top_level_lowered_from(core@, top_level, fall.map_values(|f: IrFunction| Some(f)), 0, g1),
                top_lowerable(core@),
            decreases self.frontend.module.functions@.len() - i,
        {
            if let Err(err) = verify_function(&self.frontend.module.functions[i], &self.frontend.module, &self.frontend.globals) {
                truncate_functions(&mut self.frontend.module.functions, base);
                proof {
                    lemma_check_functions_skip(fall, base as int, i as int, fall, g1.len());
                    assert(check_lowered(top_level, fall, base as int, g1.len()) == Err::<(), crate::error::VerifyError>(err));
                    assert(self.spec_names() == g1);
                    assert(old(self).spec_functions().len() == base);
                    assert(old(self).spec_expansion(expr@)->Ok_0.0 == core@);
                    assert(check_lowered(top_level, fall, old(self).spec_functions().len() as int, self.spec_names().len()) == Err::<(), crate::error::VerifyError>(err));
                }
                return Err(LispError::Verify(err));
            }
            i += 1;
        }
        proof {
            if old(self).spec_verified() {
                assert forall|k: int| 0 <= k < self.frontend.module.functions@.len() implies #[trigger] check_function(self.frontend.module.functions@[k], self.frontend.module.functions@, self.frontend.globals@.len()) is Ok by {
                    if k < base {
                        assert(self.frontend.module.functions@.take(base as int)[k] == fs0[k]);
                        lemma_function_grows(fs0[k], fs0, self.frontend.module.functions@, self.frontend.globals@.len(), self.frontend.globals@.len());
                    }
                }
            }
        }
        let result = eval_ir_top_level(&top_level, &self.frontend.module, &mut self.runtime);
        proof {
            assert(self.frontend.module.functions@ == fall);
            assert(old(self).spec_run(top_level, *self) == match top_level {
                IrTopLevel::Expr { body, .. } => run_body(body, self.frontend.module, old(self).runtime).0,
                IrTopLevel::Define { initializer, .. } => match run_body(initializer, self.frontend.module, old(self).runtime).0 {
                    Ok(_) => Ok(ValueV::Unit),
                    Err(f) => Err(f),
                },
            });
            assert(top_level_lowered_from(core@, top_level, self.spec_functions().map_values(|f: IrFunction| Some(f)), 0, self.spec_names()));
            assert(self.spec_output() == old(self).spec_run_output(top_level, *self));
        }
        result
    }

    /// Evaluates a whole program: its macros are expanded first (a macro
    /// may be called before its definition), then every resulting form is
    /// evaluated in order, stopping at the first failure. Source that does
    /// not read fails with the reader's error before anything is evaluated;
    /// otherwise each form is evaluated as [`Interpreter::eval_expr`] says,
    /// one after the other from the interpreter's state (see
    /// [`evaluated_in_order`]), and for a program without macro definitions
    /// there is, on success, one value per form.
    pub fn eval_source(&mut self, source: &str) -> (r: Result<Vec<Value>, LispError>)
        requires
            byte_len(source@) <= usize::MAX,
        ensures
            old(self).spec_output().is_prefix_of(final(self).spec_output()),
            old(self).spec_verified() ==> final(self).spec_verified(),
            read_program(source@) matches Err(re) ==> r matches Err(e) && read_error_matches(re, e)
                && final(self).spec_output() == old(self).spec_output()
                && final(self).spec_functions() == old(self).spec_functions()
                && final(self).spec_globals() == old(self).spec_globals(),
            r matches Ok(vs) ==> read_program(source@) matches Ok(es)
                && ((forall|k: int| 0 <= k < es.len() ==> free_of_defmacro(#[trigger] es[k])) ==> vs@.len() == es.len()),
            final(self).spec_functions().take(old(self).spec_functions().len() as int) == old(self).spec_functions(),
            (read_program(source@) is Ok && !(r matches Err(LispError::Macro(_)))) ==> exists|xs: Seq<ExprV>, states: Seq<Interpreter>, rs: Seq<Result<Value, LispError>>|
                #[trigger] evaluated_in_order(xs, states, rs)
                && states.last() == *final(self)
                && ((forall|k: int| 0 <= k < read_program(source@)->Ok_0.len() ==> free_of_defmacro(#[trigger] read_program(source@)->Ok_0[k]))
                    ==> xs == read_program(source@)->Ok_0 && states[0] == *old(self))
                && (collect_spec(read_program(source@)->Ok_0, 0, Seq::empty()) matches Ok((names, _))
                    ==> xs.len() == ordinary_from(read_program(source@)->Ok_0, 0).len()
                    && forall|k: int| 0 <= k < xs.len() && no_macro_calls(ordinary_from(read_program(source@)->Ok_0, 0)[k], names)
                        ==> #[trigger] xs[k] == ordinary_from(read_program(source@)->Ok_0, 0)[k])
                && match r {
                    Ok(vs) => rs.len() == xs.len() && forall|k: int| 0 <= k < rs.len() ==> #[trigger] rs[k] == Ok::<Value, LispError>(vs@[k]),
                    Err(e) => rs.len() > 0 && rs.last() == Err::<Value, LispError>(e),
                },
    {
        proof {
            assert(self.spec_output() =~= self.spec_output().subrange(0, self.spec_output().len() as int));
        }
        let exprs = match parse_program(source) {
            Ok(es) => es,
            Err(err) => {
                return Err(err);
            },
        };
        proof {
            lemma_exprs_view_all(exprs@);
            assert(self.spec_functions().take(self.spec_functions().len() as int) =~= self.spec_functions());
        }
        let ghost read = exprs_view(exprs@, exprs@.len() as int);
        let ghost parsed = exprs@;
        let (exprs, next) = match crate::macro_expand::expand_program(exprs.as_slice(), self.next_gensym_id()) {
            Ok(x) => x,
            Err(err) => {
                return Err(err);
            },
        };
        proof {
            if forall|k: int| 0 <= k < read.len() ==> free_of_defmacro(#[trigger] read[k]) {
                assert forall|k: int| 0 <= k < parsed.len() implies free_of_defmacro(#[trigger] parsed[k]@) by {
                    assert(read[k] == parsed[k]@);
                }
            }
            assert(Seq::new(parsed.len(), |k: int| parsed[k]@) =~= read);
        }
        if next != self.next_gensym_id() {
            self.set_next_gensym_id(next);
        }
        let ghost xs = exprs_view(exprs@, exprs@.len() as int);
        let ghost mut states: Seq<Interpreter> = seq![*self];
        let ghost mut rs: Seq<Result<Value, LispError>> = Seq::empty();
        proof {
            lemma_exprs_view_all(exprs@);
            if forall|k: int| 0 <= k < read.len() ==> free_of_defmacro(#[trigger] read[k]) {
                assert(xs =~= read) by {
                    assert forall|k: int| 0 <= k < xs.len() implies xs[k] == read[k] by {
                        assert(xs[k] == exprs@[k]@);
                        assert(read[k] == parsed[k]@);
                    }
                }
                assert(states[0] == *old(self));
            }
        }
        let mut results: Vec<Value> = Vec::new();
        let mut i: usize = 0;
        while i < exprs.len()
            invariant
                i <= exprs@.len(),
                results@.len() == i,
                xs == exprs_view(exprs@, exprs@.len() as int),
                xs.len() == exprs@.len(),
                forall|k: int| 0 <= k < exprs@.len() ==> #[trigger] xs[k] == exprs@[k]@,
                evaluated_in_order(xs, states, rs),
                rs.len() == i,
                states.last() == *self,
                forall|k: int| 0 <= k < i ==> #[trigger] rs[k] == Ok::<Value, LispError>(results@[k]),
                (forall|k: int| 0 <= k < read.len() ==> free_of_defmacro(#[trigger] read[k])) ==> xs == read && states[0] == *old(self),
                collect_spec(read, 0, Seq::empty()) matches Ok((names, _)) ==> xs.len() == ordinary_from(read, 0).len()
                    && forall|k: int| 0 <= k < xs.len() && no_macro_calls(ordinary_from(read, 0)[k], names)
                        ==> #[trigger] xs[k] == ordinary_from(read, 0)[k],
                read_program(source@) == Ok::<Seq<ExprV>, ReadError>(read),
                (forall|k: int| 0 <= k < read.len() ==> free_of_defmacro(#[trigger] read[k])) ==> exprs@.len() == read.len(),
                old(self).spec_output().is_prefix_of(self.spec_output()),
                old(self).spec_verified() ==> self.spec_verified(),
                self.spec_functions().take(old(self).spec_functions().len() as int) == old(self).spec_functions(),
                self.spec_functions().len() >= old(self).spec_functions().len(),
            decreases exprs@.len() - i,
        {
            let ghost fbefore = self.spec_functions();
            let ghost before = self.spec_output();
            let v = self.eval_expr(&exprs[i]);
            proof {
                let rs0 = rs;
                let st0 = states;
                rs = rs.push(v);
                states = states.push(*self);
                assert(eval_step(states[i as int], xs[i as int], rs[i as int], states[i as int + 1]));
                assert forall|k: int| 0 <= k < rs.len() implies #[trigger] eval_step(states[k], xs[k], rs[k], states[k + 1]) by {
                    if k < i {
                        assert(st0[k] == states[k] && st0[k + 1] == states[k + 1] && rs0[k] == rs[k]);
                    }
                }
            }
            proof {
                assert(old(self).spec_output() =~= self.spec_output().subrange(0, old(self).spec_output().len() as int)) by {
                    assert(before.subrange(0, old(self).spec_output().len() as int) == old(self).spec_output());
                    assert(self.spec_output().subrange(0, before.len() as int) == before);
                }
            }
            proof {
                assert(self.spec_functions().take(old(self).spec_functions().len() as int)
                    =~= self.spec_functions().take(fbefore.len() as int).take(old(self).spec_functions().len() as int));
            }
            match v {
                Ok(v) => {
                    results.push(v);
                    proof {
                        assert forall|k: int| 0 <= k < i + 1 implies #[trigger] rs[k] == Ok::<Value, LispError>(results@[k]) by {}
                    }
                },
                Err(err) => {
                    proof {
                        assert(rs.last() == Err::<Value, LispError>(err));
                        assert(evaluated_in_order(xs, states, rs));
                        assert(read_program(source@)->Ok_0 == read);
                        assert(states.last() == *self);
                    }
                    return Err(err);
                },
            }
            i += 1;
        }
        proof {
            assert(evaluated_in_order(xs, states, rs));
        }
        Ok(results)
    }

    /// The id the next generated symbol will get.
    pub closed spec fn spec_next_gensym_id(&self) -> u64 {
        self.runtime.spec_next_gensym_id()
    }

    pub fn next_gensym_id(&self) -> (r: u64)
        ensures
            r == self.spec_next_gensym_id(),
    {
        self.runtime.next_gensym_id()
    }

    pub fn set_next_gensym_id(&mut self, next: u64)
        ensures
            final(self).spec_next_gensym_id() == next,
            final(self).spec_output() == old(self).spec_output(),
            final(self).spec_functions() == old(self).spec_functions(),
            final(self).spec_globals() == old(self).spec_globals(),
            final(self).spec_names() == old(self).spec_names(),
            final(self).spec_verified() == old(self).spec_verified(),
    {
        self.runtime.set_next_gensym_id(next);
    }

    /// Binds the global `name` to `value` for the forms evaluated after;
    /// `false`, with nothing changed, where no further global can be named.
    /// The value the global called `name` is bound to, if any.
    pub closed spec fn spec_binding(&self, name: Seq<char>) -> Option<Value> {
        let names = self.frontend.globals@;
        if names.contains(name) && names.index_of(name) < self.runtime.spec_globals().len() {
            self.runtime.spec_globals()[names.index_of(name)]
        } else {
            None
        }
    }

    pub fn define_compile_time_binding(&mut self, name: &str, value: Value) -> (r: bool)
        ensures
            final(self).spec_output() == old(self).spec_output(),
            final(self).spec_functions() == old(self).spec_functions(),
            final(self).spec_next_gensym_id() == old(self).spec_next_gensym_id(),
            r ==> final(self).spec_binding(name@) == Some(value),
            forall|n: Seq<char>| n != name@ ==> #[trigger] final(self).spec_binding(n) == old(self).spec_binding(n),
    {
        let found = self.frontend.globals.lookup(name);
        if found.is_none() && self.frontend.globals.len() > u32::MAX as usize {
            return false;
        }
        let ghost names0 = self.frontend.globals@;
        let ghost values0 = self.runtime.spec_globals();
        let id = self.frontend.globals.intern(name);
        self.runtime.define_global(id, value);
        proof {
            let names1 = self.frontend.globals@;
            assert(names1.contains(name@) && names1[id.0 as int] == name@);
            assert forall|n: Seq<char>| n != name@ implies #[trigger] self.spec_binding(n) == old(self).spec_binding(n) by {
                if names0.contains(n) {
                    let j = names0.index_of(n);
                    assert(names1[j] == n);
                    assert(names1.contains(n));
                    assert(names1.index_of(n) == j);
                    assert(j != id.0);
                } else {
                    assert(!names1.contains(n)) by {
                        if names1.contains(n) {
                            let j = names1.index_of(n);
                            assert(names0[j] == n);
                        }
                    }
                }
            }
        }
        true
    }

    pub fn output(&self) -> (r: &String)
        ensures
            r@ == self.spec_output(),
    {
        self.runtime.output_text()
    }

    pub fn output_mut(&mut self) -> (r: &mut String)
        ensures
            (*r)@ == old(self).spec_output(),
            final(self).spec_output() == (*final(r))@,
    {
        self.runtime.output_text_mut()
    }

    pub fn into_output(self) -> (r: String)
        ensures
            r@ == self.spec_output(),
    {
        self.runtime.into_output()
    }
}

/// What evaluating the reader expression `e` as a top-level form does when
/// the interpreter goes from `s` to `s2` with the result `r`: the contract
/// of [`Interpreter::eval_expr`], as one predicate.
pub open spec fn eval_step(s: Interpreter, e: ExprV, r: Result<Value, LispError>, s2: Interpreter) -> bool {
    &&& s.spec_output().is_prefix_of(s2.spec_output())
    &&& match s.spec_expansion(e) {
        Err(x) => r matches Err(LispError::Expand(y)) && expand_error_matches(y, x),
        Ok(_) => !(r is Err && r->Err_0 is Expand),
    }
    &&& r is Err ==> s2.spec_globals() =~= s.spec_globals()
    &&& s2.spec_functions().take(s.spec_functions().len() as int) =~= s.spec_functions()
    &&& (r is Ok || (r is Err && r->Err_0 is Eval)) ==> exists|t: IrTopLevel|
        top_level_lowered_from(s.spec_expansion(e)->Ok_0.0, t, s2.spec_functions().map_values(|f: IrFunction| Some(f)), 0, s2.spec_names())
        && result_matches(r, #[trigger] s.spec_run(t, s2))
        && s2.spec_output() =~= s.spec_run_output(t, s2)
    &&& (r matches Err(LispError::Lower(_))) || (r matches Err(LispError::Verify(_))) || (r matches Err(LispError::Expand(_)))
        ==> s2.spec_functions() =~= s.spec_functions() && s2.spec_output() =~= s.spec_output()
    &&& s2.spec_functions().len() >= s.spec_functions().len()
    &&& r matches Err(LispError::Lower(l)) ==> (s.spec_expansion(e) matches Ok((c, _)) && (top_lowerable(c) ==> limit_error(l)))
    &&& (r is Ok || (r is Err && (r->Err_0 is Eval || r->Err_0 is Verify))) ==> (s.spec_expansion(e) matches Ok((c, _)) && top_lowerable(c))
    &&& r matches Err(LispError::Verify(v)) ==> exists|t: IrTopLevel, fs: Seq<IrFunction>|
        fs.take(s.spec_functions().len() as int) =~= s.spec_functions()
        && top_level_lowered_from(s.spec_expansion(e)->Ok_0.0, t, fs.map_values(|f: IrFunction| Some(f)), 0, s2.spec_names())
        && #[trigger] check_lowered(t, fs, s.spec_functions().len() as int, s2.spec_names().len()) == Err::<(), crate::error::VerifyError>(v)
}

/// Evaluating the forms `es` in order: `states[k]` is the interpreter
/// before form `k` and `states[k + 1]` after it, `rs[k]` is what form `k`
/// gave, and only the last of them may be an error.
pub open spec fn evaluated_in_order(es: Seq<ExprV>, states: Seq<Interpreter>, rs: Seq<Result<Value, LispError>>) -> bool {
    &&& states.len() == rs.len() + 1
    &&& rs.len() <= es.len()
    &&& forall|k: int| 0 <= k < rs.len() ==> #[trigger] eval_step(states[k], es[k], rs[k], states[k + 1])
    &&& forall|k: int| 0 <= k < rs.len() - 1 ==> (#[trigger] rs[k]) is Ok
}

} // verus!
