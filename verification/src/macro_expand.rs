//! Compile-time macros. A program's `defmacro` forms are collected first,
//! wherever they stand; every other form is then expanded, each macro call
//! evaluating the macro's body with its parameters bound to the argument
//! syntax as data, and the resulting datum read back as syntax.
use vstd::prelude::*;
use std::rc::Rc;
use crate::ast::{exprs_view, lemma_exprs_view_all, Expr, ExprKind, ExprKindV, ExprV};
use crate::datum::{datum_of_expr, datum_to_expr, datums_of_exprs, expr_to_datum, lemma_datums_of_exprs_all};
use crate::error::{LispError, LowerError, MacroExpandError, Span};
use crate::interpreter::{eval_step, Interpreter};
use crate::messages::lisp_error_message;
use crate::property::{Properties, PropertyValueV};
use crate::text::str_eq;
use crate::value::Value;

verus! {

broadcast use vstd::std_specs::vec::group_vec_axioms;

const MAX_EXPANSION_DEPTH: usize = 256;

const MAX_MACRO_INVOCATIONS: usize = 10000;

/// Names that stay special forms and can never be macros.
pub open spec fn is_reserved_macro_name(n: Seq<char>) -> bool {
    n == "fn"@ || n == "let"@ || n == "for"@ || n == "loop"@ || n == "def"@ || n == "defmacro"@ || n == "if"@
        || n == "break"@ || n == "quote"@ || n == "quasiquote"@ || n == "unquote"@ || n == "gensym"@ || n == "meta"@
        || n == "true"@ || n == "false"@
}

fn reserved_macro_name(n: &str) -> (r: bool)
    ensures
        r == is_reserved_macro_name(n@),
{
    str_eq(n, "fn") || str_eq(n, "let") || str_eq(n, "for") || str_eq(n, "loop") || str_eq(n, "def") || str_eq(n, "defmacro")
        || str_eq(n, "if") || str_eq(n, "break") || str_eq(n, "quote") || str_eq(n, "quasiquote") || str_eq(n, "unquote")
        || str_eq(n, "gensym") || str_eq(n, "meta") || str_eq(n, "true") || str_eq(n, "false")
}

/// A macro: its name, parameter names, body and the properties of the
/// `defmacro` form.
#[derive(Debug)]
pub struct MacroDef {
    pub name: String,
    pub params: Vec<String>,
    pub body: Expr,
    pub properties: Properties,
}

pub struct MacroDefV {
    pub name: Seq<char>,
    pub params: Seq<Seq<char>>,
    pub body: ExprV,
    pub properties: Map<Seq<char>, PropertyValueV>,
}

pub open spec fn strings_view(s: Seq<String>) -> Seq<Seq<char>> {
    s.map_values(|x: String| x@)
}

impl MacroDef {
    pub open spec fn view(&self) -> MacroDefV {
        MacroDefV { name: self.name@, params: strings_view(self.params@), body: self.body@, properties: self.properties@ }
    }

    /// A deep copy.
    pub fn copy(&self) -> (r: MacroDef)
        ensures
            r@ == self@,
    {
        let mut params: Vec<String> = Vec::new();
        let mut i: usize = 0;
        while i < self.params.len()
            invariant
                i <= self.params@.len(),
                params@.len() == i,
                forall|k: int| 0 <= k < i ==> (#[trigger] params@[k])@ == self.params@[k]@,
            decreases self.params@.len() - i,
        {
            params.push(crate::text::copy_string(&self.params[i]));
            i += 1;
        }
        assert(strings_view(params@) =~= strings_view(self.params@));
        MacroDef { name: self.name.clone(), params, body: self.body.copy(), properties: self.properties.copy() }
    }
}

/// Why a macro definition is refused, in terms of views.
pub enum MacroFail {
    InvalidMacroDefinition,
    InvalidMacroName,
    InvalidMacroParameterList,
    DuplicateMacroParameter(Seq<char>),
    ReservedMacroName(Seq<char>),
    ForbiddenMacroOperation(Seq<char>),
    NestedMacroDefinition,
    DuplicateMacroDefinition(Seq<char>),
}

pub open spec fn macro_fail_is(f: MacroFail, e: MacroExpandError) -> bool {
    match (f, e) {
        (MacroFail::InvalidMacroDefinition, MacroExpandError::InvalidMacroDefinition) => true,
        (MacroFail::InvalidMacroName, MacroExpandError::InvalidMacroName) => true,
        (MacroFail::InvalidMacroParameterList, MacroExpandError::InvalidMacroParameterList) => true,
        (MacroFail::DuplicateMacroParameter(a), MacroExpandError::DuplicateMacroParameter(b)) => a == b@,
        (MacroFail::ReservedMacroName(a), MacroExpandError::ReservedMacroName(b)) => a == b@,
        (MacroFail::ForbiddenMacroOperation(a), MacroExpandError::ForbiddenMacroOperation(b)) => a == b@,
        (MacroFail::NestedMacroDefinition, MacroExpandError::NestedMacroDefinition) => true,
        (MacroFail::DuplicateMacroDefinition(a), MacroExpandError::DuplicateMacroDefinition(b)) => a == b@,
        _ => false,
    }
}

/// One quasiquote level deeper (levels past the machine's word stay put).
pub open spec fn qd_inc(qd: nat) -> nat {
    if qd < usize::MAX {
        qd + 1
    } else {
        qd
    }
}

pub open spec fn head_symbol(items: Seq<ExprV>) -> Option<Seq<char>> {
    if items.len() > 0 && items[0].kind is Symbol {
        Some(items[0].kind->Symbol_0)
    } else {
        None
    }
}

/// The first operation a macro body may not perform at compile time:
/// `print`, `def` and `defmacro` outside quoted data (a `quasiquote`
/// quotes one level, an `unquote` inside it unquotes one).
pub open spec fn forbidden_at(e: ExprV, qd: nat) -> Result<(), MacroFail>
    decreases e, 1int,
{
    match e.kind {
        ExprKindV::List(items) => match head_symbol(items) {
            Some(name) => if name == "quote"@ {
                Ok(())
            } else if qd == 0 && (name == "print"@ || name == "def"@ || name == "defmacro"@) {
                Err(MacroFail::ForbiddenMacroOperation(name))
            } else if name == "quasiquote"@ {
                forbidden_all(items, 1, qd_inc(qd))
            } else if name == "unquote"@ && qd > 0 {
                forbidden_all(items, 1, (qd - 1) as nat)
            } else {
                forbidden_all(items, 0, qd)
            },
            None => forbidden_all(items, 0, qd),
        },
        _ => Ok(()),
    }
}

pub open spec fn forbidden_all(items: Seq<ExprV>, i: int, qd: nat) -> Result<(), MacroFail>
    decreases items, 0int, items.len() - i,
{
    if i < 0 || i >= items.len() {
        Ok(())
    } else {
        match forbidden_at(items[i], qd) {
            Err(f) => Err(f),
            Ok(()) => forbidden_all(items, i + 1, qd),
        }
    }
}

/// Whether a form written in the program hides a `defmacro` anywhere but
/// in quoted data.
pub open spec fn nested_at(e: ExprV, qd: nat) -> bool
    decreases e, 1int,
{
    match e.kind {
        ExprKindV::List(items) => match head_symbol(items) {
            Some(name) => if name == "quote"@ {
                false
            } else if name == "defmacro"@ && qd == 0 {
                true
            } else if name == "meta"@ {
                items.len() > 2 && nested_at(items[2], qd)
            } else if name == "quasiquote"@ {
                nested_any(items, 1, qd_inc(qd))
            } else if name == "unquote"@ && qd > 0 {
                nested_any(items, 1, (qd - 1) as nat)
            } else {
                nested_any(items, 0, qd)
            },
            None => nested_any(items, 0, qd),
        },
        _ => false,
    }
}

pub open spec fn nested_any(items: Seq<ExprV>, i: int, qd: nat) -> bool
    decreases items, 0int, items.len() - i,
{
    if i < 0 || i >= items.len() {
        false
    } else {
        nested_at(items[i], qd) || nested_any(items, i + 1, qd)
    }
}

/// The distinct parameter names of a parameter list.
pub open spec fn params_spec(items: Seq<ExprV>, i: int, acc: Seq<Seq<char>>) -> Result<Seq<Seq<char>>, MacroFail>
    decreases items.len() - i,
{
    if i < 0 || i >= items.len() {
        Ok(acc)
    } else if !(items[i].kind is Symbol) {
        Err(MacroFail::InvalidMacroParameterList)
    } else if acc.contains(items[i].kind->Symbol_0) {
        Err(MacroFail::DuplicateMacroParameter(items[i].kind->Symbol_0))
    } else {
        params_spec(items, i + 1, acc.push(items[i].kind->Symbol_0))
    }
}

/// What a top-level form defines: `None` for an ordinary form; a `meta`
/// wrapper is looked through.
pub open spec fn macro_definition_spec(e: ExprV) -> Result<Option<MacroDefV>, MacroFail>
    decreases e,
{
    match e.kind {
        ExprKindV::List(items) => match head_symbol(items) {
            None => Ok(None),
            Some(keyword) => if keyword == "meta"@ {
                if items.len() == 3 {
                    macro_definition_spec(items[2])
                } else {
                    Ok(None)
                }
            } else if keyword != "defmacro"@ {
                Ok(None)
            } else if items.len() != 4 {
                Err(MacroFail::InvalidMacroDefinition)
            } else if !(items[1].kind is Symbol) {
                Err(MacroFail::InvalidMacroName)
            } else if is_reserved_macro_name(items[1].kind->Symbol_0) {
                Err(MacroFail::ReservedMacroName(items[1].kind->Symbol_0))
            } else if !(items[2].kind is List) {
                Err(MacroFail::InvalidMacroParameterList)
            } else {
                defmacro_tail(e, items)
            },
        },
        _ => Ok(None),
    }
}

/// The parameters and body of a well-shaped `defmacro` form.
pub open spec fn defmacro_tail(e: ExprV, items: Seq<ExprV>) -> Result<Option<MacroDefV>, MacroFail> {
    match params_spec(items[2].kind->List_0, 0, Seq::empty()) {
        Err(f) => Err(f),
        Ok(ps) => match forbidden_at(items[3], 0) {
            Err(f) => Err(f),
            Ok(()) => Ok(Some(MacroDefV { name: items[1].kind->Symbol_0, params: ps, body: items[3], properties: e.properties })),
        },
    }
}

fn head_name(items: &Vec<Expr>) -> (r: Option<&String>)
    ensures
        match head_symbol(exprs_view(items@, items@.len() as int)) {
            Some(n) => r matches Some(s) && s@ == n,
            None => r is None,
        },
{
    proof {
        lemma_exprs_view_all(items@);
    }
    if items.len() == 0 {
        return None;
    }
    match &items[0].kind {
        ExprKind::Symbol(s) => Some(s),
        _ => None,
    }
}


fn reject_forbidden_at_depth(expression: &Expr, qd: usize) -> (r: Result<(), MacroExpandError>)
    ensures
        match forbidden_at(expression@, qd as nat) {
            Ok(()) => r is Ok,
            Err(f) => r matches Err(e) && macro_fail_is(f, e),
        },
    decreases expression, 1int,
{
    let items = match &expression.kind {
        ExprKind::List(items) => items,
        _ => {
            return Ok(());
        },
    };
    proof {
        lemma_exprs_view_all(items@);
        assert(decreases_to!(*expression => expression.kind));
    }
    match head_name(items) {
        Some(name) => {
            if str_eq(name.as_str(), "quote") {
                return Ok(());
            }
            if qd == 0 && (str_eq(name.as_str(), "print") || str_eq(name.as_str(), "def") || str_eq(name.as_str(), "defmacro")) {
                return Err(MacroExpandError::ForbiddenMacroOperation(name.clone()));
            }
            if str_eq(name.as_str(), "quasiquote") {
                let next = if qd < usize::MAX { qd + 1 } else { qd };
                return reject_forbidden_items(expression, items, 1, next);
            }
            if str_eq(name.as_str(), "unquote") && qd > 0 {
                return reject_forbidden_items(expression, items, 1, qd - 1);
            }
            reject_forbidden_items(expression, items, 0, qd)
        },
        None => reject_forbidden_items(expression, items, 0, qd),
    }
}

fn reject_forbidden_items(parent: &Expr, items: &Vec<Expr>, start: usize, qd: usize) -> (r: Result<(), MacroExpandError>)
    requires
        parent.kind == ExprKind::List(*items),
    ensures
        match forbidden_all(exprs_view(items@, items@.len() as int), start as int, qd as nat) {
            Ok(()) => r is Ok,
            Err(f) => r matches Err(e) && macro_fail_is(f, e),
        },
    decreases parent, 0int,
{
    let ghost iv = exprs_view(items@, items@.len() as int);
    proof {
        lemma_exprs_view_all(items@);
    }
    let mut i: usize = start;
    while i < items.len()
        invariant
            parent.kind == ExprKind::List(*items),
            iv == exprs_view(items@, items@.len() as int),
            iv.len() == items@.len(),
            forall|k: int| 0 <= k < items@.len() ==> #[trigger] iv[k] == items@[k]@,
            start <= i,
            forbidden_all(iv, start as int, qd as nat) == forbidden_all(iv, i as int, qd as nat),
        decreases items@.len() - i,
    {
        proof {
            assert(decreases_to!(*parent => parent.kind));
            assert(decreases_to!(parent.kind => (parent.kind)->List_0));
            assert(decreases_to!(*items => items[i as int]));
        }
        match reject_forbidden_at_depth(&items[i], qd) {
            Ok(()) => {},
            Err(e) => {
                return Err(e);
            },
        }
        i += 1;
    }
    Ok(())
}

fn contains_nested_definition(expression: &Expr, qd: usize) -> (r: bool)
    ensures
        r == nested_at(expression@, qd as nat),
    decreases expression, 1int,
{
    let items = match &expression.kind {
        ExprKind::List(items) => items,
        _ => {
            return false;
        },
    };
    proof {
        lemma_exprs_view_all(items@);
        assert(decreases_to!(*expression => expression.kind));
        assert(decreases_to!(expression.kind => (expression.kind)->List_0));
    }
    match head_name(items) {
        Some(name) => {
            if str_eq(name.as_str(), "quote") {
                return false;
            }
            if str_eq(name.as_str(), "defmacro") && qd == 0 {
                return true;
            }
            if str_eq(name.as_str(), "meta") {
                if items.len() > 2 {
                    proof {
                        assert(decreases_to!(*items => items[2]));
                    }
                    return contains_nested_definition(&items[2], qd);
                }
                return false;
            }
            if str_eq(name.as_str(), "quasiquote") {
                let next = if qd < usize::MAX { qd + 1 } else { qd };
                return any_nested_definition(expression, items, 1, next);
            }
            if str_eq(name.as_str(), "unquote") && qd > 0 {
                return any_nested_definition(expression, items, 1, qd - 1);
            }
            any_nested_definition(expression, items, 0, qd)
        },
        None => any_nested_definition(expression, items, 0, qd),
    }
}

fn any_nested_definition(parent: &Expr, items: &Vec<Expr>, start: usize, qd: usize) -> (r: bool)
    requires
        parent.kind == ExprKind::List(*items),
    ensures
        r == nested_any(exprs_view(items@, items@.len() as int), start as int, qd as nat),
    decreases parent, 0int,
{
    let ghost iv = exprs_view(items@, items@.len() as int);
    proof {
        lemma_exprs_view_all(items@);
    }
    let mut i: usize = start;
    while i < items.len()
        invariant
            parent.kind == ExprKind::List(*items),
            iv == exprs_view(items@, items@.len() as int),
            iv.len() == items@.len(),
            forall|k: int| 0 <= k < items@.len() ==> #[trigger] iv[k] == items@[k]@,
            start <= i,
            nested_any(iv, start as int, qd as nat) == nested_any(iv, i as int, qd as nat),
        decreases items@.len() - i,
    {
        proof {
            assert(decreases_to!(*parent => parent.kind));
            assert(decreases_to!(parent.kind => (parent.kind)->List_0));
            assert(decreases_to!(*items => items[i as int]));
        }
        if contains_nested_definition(&items[i], qd) {
            return true;
        }
        i += 1;
    }
    false
}

fn string_listed(names: &Vec<String>, name: &String) -> (r: bool)
    ensures
        r == strings_view(names@).contains(name@),
{
    let mut i: usize = 0;
    while i < names.len()
        invariant
            i <= names@.len(),
            forall|k: int| 0 <= k < i ==> (#[trigger] names@[k])@ != name@,
        decreases names@.len() - i,
    {
        if str_eq(names[i].as_str(), name.as_str()) {
            assert(strings_view(names@)[i as int] == name@);
            return true;
        }
        i += 1;
    }
    assert(!strings_view(names@).contains(name@)) by {
        if strings_view(names@).contains(name@) {
            let k = choose|k: int| 0 <= k < strings_view(names@).len() && strings_view(names@)[k] == name@;
            assert(names@[k]@ == name@);
        }
    }
    false
}

/// Reads a top-level form as a macro definition, if it is one.
fn parse_macro_definition(expression: &Expr) -> (r: Result<Option<MacroDef>, MacroExpandError>)
    ensures
        match macro_definition_spec(expression@) {
            Ok(None) => r matches Ok(None),
            Ok(Some(d)) => r matches Ok(Some(x)) && x@ == d,
            Err(f) => r matches Err(e) && macro_fail_is(f, e),
        },
    decreases expression,
{
    let items = match &expression.kind {
        ExprKind::List(items) => items,
        _ => {
            return Ok(None);
        },
    };
    let ghost iv = exprs_view(items@, items@.len() as int);
    proof {
        lemma_exprs_view_all(items@);
        assert(decreases_to!(*expression => expression.kind));
        assert(decreases_to!(expression.kind => (expression.kind)->List_0));
    }
    let keyword = match head_name(items) {
        Some(k) => k,
        None => {
            return Ok(None);
        },
    };
    if str_eq(keyword.as_str(), "meta") {
        if items.len() == 3 {
            proof {
                assert(decreases_to!(*items => items[2]));
            }
            return parse_macro_definition(&items[2]);
        }
        return Ok(None);
    }
    if !str_eq(keyword.as_str(), "defmacro") {
        return Ok(None);
    }
    if items.len() != 4 {
        return Err(MacroExpandError::InvalidMacroDefinition);
    }
    let name = match &items[1].kind {
        ExprKind::Symbol(n) => n,
        _ => {
            return Err(MacroExpandError::InvalidMacroName);
        },
    };
    if reserved_macro_name(name.as_str()) {
        return Err(MacroExpandError::ReservedMacroName(name.clone()));
    }
    let param_exprs = match &items[2].kind {
        ExprKind::List(p) => p,
        _ => {
            return Err(MacroExpandError::InvalidMacroParameterList);
        },
    };
    let ghost pv = exprs_view(param_exprs@, param_exprs@.len() as int);
    proof {
        lemma_exprs_view_all(param_exprs@);
    }
    let mut params: Vec<String> = Vec::new();
    let mut i: usize = 0;
    proof {
        assert(strings_view(params@) =~= Seq::<Seq<char>>::empty());
        assert(macro_definition_spec(expression@) == defmacro_tail(expression@, iv));
        assert(iv[2].kind->List_0 == pv);
    }
    while i < param_exprs.len()
        invariant
            i <= param_exprs@.len(),
            macro_definition_spec(expression@) == defmacro_tail(expression@, iv),
            iv[2].kind->List_0 == pv,
            pv == exprs_view(param_exprs@, param_exprs@.len() as int),
            pv.len() == param_exprs@.len(),
            forall|k: int| 0 <= k < param_exprs@.len() ==> #[trigger] pv[k] == param_exprs@[k]@,
            params_spec(pv, 0, Seq::empty()) == params_spec(pv, i as int, strings_view(params@)),
        decreases param_exprs@.len() - i,
    {
        let parameter = match &param_exprs[i].kind {
            ExprKind::Symbol(p) => p,
            _ => {
                return Err(MacroExpandError::InvalidMacroParameterList);
            },
        };
        if string_listed(&params, parameter) {
            return Err(MacroExpandError::DuplicateMacroParameter(parameter.clone()));
        }
        let ghost before = params@;
        params.push(parameter.clone());
        proof {
            assert(strings_view(params@) =~= strings_view(before).push(parameter@));
        }
        i += 1;
    }
    match reject_forbidden_at_depth(&items[3], 0) {
        Ok(()) => {},
        Err(e) => {
            return Err(e);
        },
    }
    Ok(Some(MacroDef { name: name.clone(), params, body: items[3].copy(), properties: expression.properties.copy() }))
}


/// Lists whose items denote the same data denote the same data.
proof fn lemma_same_items_same_datum(a: Seq<Expr>, b: Seq<Expr>)
    requires
        a.len() == b.len(),
        forall|k: int| 0 <= k < a.len() ==> datum_of_expr((#[trigger] a[k])@) == datum_of_expr(b[k]@),
    ensures
        exprs_view(a, a.len() as int).len() == a.len(),
        exprs_view(b, b.len() as int).len() == b.len(),
        datums_of_exprs(exprs_view(a, a.len() as int), a.len() as int) == datums_of_exprs(exprs_view(b, b.len() as int), b.len() as int),
{
    lemma_exprs_view_all(a);
    lemma_exprs_view_all(b);
    lemma_datums_of_exprs_all(exprs_view(a, a.len() as int), a.len() as int);
    lemma_datums_of_exprs_all(exprs_view(b, b.len() as int), b.len() as int);
    assert(datums_of_exprs(exprs_view(a, a.len() as int), a.len() as int) =~= datums_of_exprs(exprs_view(b, b.len() as int), b.len() as int));
}

/// Whether two expressions denote the same datum.
fn same_shape(a: &Expr, b: &Expr) -> (r: bool)
    ensures
        r == (datum_of_expr(a@) == datum_of_expr(b@)),
    decreases a,
{
    match (&a.kind, &b.kind) {
        (ExprKind::Int(x), ExprKind::Int(y)) => *x == *y,
        (ExprKind::Bool(x), ExprKind::Bool(y)) => *x == *y,
        (ExprKind::String(x), ExprKind::String(y)) => str_eq(x.as_str(), y.as_str()),
        (ExprKind::Symbol(x), ExprKind::Symbol(y)) => {
            let r = str_eq(x.as_str(), y.as_str());
            proof {
                if !r {
                    assert(crate::symbol::SymbolV::Interned(x@) != crate::symbol::SymbolV::Interned(y@));
                }
            }
            r
        },
        (ExprKind::GeneratedSymbol(x), ExprKind::GeneratedSymbol(y)) => x.same_view(y),
        (ExprKind::Symbol(x), ExprKind::GeneratedSymbol(y)) => {
            let named = crate::symbol::Symbol::Interned(x.clone());
            named.same_view(y)
        },
        (ExprKind::GeneratedSymbol(x), ExprKind::Symbol(y)) => {
            let named = crate::symbol::Symbol::Interned(y.clone());
            x.same_view(&named)
        },
        (ExprKind::List(xs), ExprKind::List(ys)) => {
            let ghost xv = exprs_view(xs@, xs@.len() as int);
            let ghost yv = exprs_view(ys@, ys@.len() as int);
            proof {
                lemma_exprs_view_all(xs@);
                lemma_exprs_view_all(ys@);
                lemma_datums_of_exprs_all(xv, xv.len() as int);
                lemma_datums_of_exprs_all(yv, yv.len() as int);
            }
            if xs.len() != ys.len() {
                proof {
                    assert(datums_of_exprs(xv, xv.len() as int).len() != datums_of_exprs(yv, yv.len() as int).len());
                }
                return false;
            }
            let mut i: usize = 0;
            while i < xs.len()
                invariant
                    a.kind == ExprKind::List(*xs),
                    b.kind == ExprKind::List(*ys),
                    xv == exprs_view(xs@, xs@.len() as int),
                    yv == exprs_view(ys@, ys@.len() as int),
                    xs@.len() == ys@.len(),
                    i <= xs@.len(),
                    forall|k: int| 0 <= k < i ==> datum_of_expr((#[trigger] xs@[k])@) == datum_of_expr(ys@[k]@),
                decreases xs@.len() - i,
            {
                proof {
                    assert(decreases_to!(*a => a.kind));
                    assert(decreases_to!(a.kind => (a.kind)->List_0));
                    assert(decreases_to!(*xs => xs[i as int]));
                }
                if !same_shape(&xs[i], &ys[i]) {
                    proof {
                        lemma_exprs_view_all(xs@);
                        lemma_exprs_view_all(ys@);
                        lemma_datums_of_exprs_all(xv, xv.len() as int);
                        lemma_datums_of_exprs_all(yv, yv.len() as int);
                        assert(datums_of_exprs(xv, xv.len() as int)[i as int] != datums_of_exprs(yv, yv.len() as int)[i as int]);
                    }
                    return false;
                }
                i += 1;
            }
            proof {
                lemma_same_items_same_datum(xs@, ys@);
            }
            true
        },
        _ => false,
    }
}

/// Where part of a macro's result denotes the same datum as one of the
/// call's arguments, that argument's syntax (properties included) is put
/// back in its place.
fn restore_argument_properties(result: &Expr, arguments: &Vec<Expr>) -> (r: Expr)
    ensures
        datum_of_expr(r@) == datum_of_expr(result@),
    decreases result,
{
    let mut k: usize = 0;
    while k < arguments.len()
        invariant
            k <= arguments@.len(),
        decreases arguments@.len() - k,
    {
        if same_shape(&arguments[k], result) {
            return arguments[k].copy();
        }
        k += 1;
    }
    match &result.kind {
        ExprKind::List(items) => {
            let mut out: Vec<Expr> = Vec::new();
            let mut i: usize = 0;
            while i < items.len()
                invariant
                    result.kind == ExprKind::List(*items),
                    i <= items@.len(),
                    out@.len() == i,
                    forall|q: int| 0 <= q < i ==> datum_of_expr((#[trigger] out@[q])@) == datum_of_expr(items@[q]@),
                decreases items@.len() - i,
            {
                proof {
                    assert(decreases_to!(*result => result.kind));
                    assert(decreases_to!(result.kind => (result.kind)->List_0));
                    assert(decreases_to!(*items => items[i as int]));
                }
                out.push(restore_argument_properties(&items[i], arguments));
                i += 1;
            }
            proof {
                lemma_same_items_same_datum(out@, items@);
            }
            Expr::with_properties(ExprKind::List(out), result.properties.copy())
        },
        _ => result.copy(),
    }
}

/// `target` with `source`'s properties merged in where missing, node by
/// node along the shape the two share.
fn copy_properties_recursively(target: &Expr, source: &Expr) -> (r: Expr)
    ensures
        datum_of_expr(r@) == datum_of_expr(target@),
    decreases target,
{
    let mut properties = target.properties.copy();
    properties.merge_missing_from(&source.properties);
    match (&target.kind, &source.kind) {
        (ExprKind::List(ts), ExprKind::List(ss)) => {
            let mut out: Vec<Expr> = Vec::new();
            let mut i: usize = 0;
            while i < ts.len()
                invariant
                    target.kind == ExprKind::List(*ts),
                    i <= ts@.len(),
                    out@.len() == i,
                    forall|q: int| 0 <= q < i ==> datum_of_expr((#[trigger] out@[q])@) == datum_of_expr(ts@[q]@),
                decreases ts@.len() - i,
            {
                proof {
                    assert(decreases_to!(*target => target.kind));
                    assert(decreases_to!(target.kind => (target.kind)->List_0));
                    assert(decreases_to!(*ts => ts[i as int]));
                }
                if i < ss.len() {
                    out.push(copy_properties_recursively(&ts[i], &ss[i]));
                } else {
                    out.push(ts[i].copy());
                }
                i += 1;
            }
            proof {
                lemma_same_items_same_datum(out@, ts@);
            }
            Expr::with_properties(ExprKind::List(out), properties)
        },
        _ => {
            let copied = target.copy();
            Expr::with_properties(copied.kind, properties)
        },
    }
}

fn param_index(params: &Vec<String>, name: &String) -> (r: Option<usize>)
    ensures
        r matches Some(i) ==> i < params@.len(),
{
    let mut i: usize = 0;
    while i < params.len()
        invariant
            i <= params@.len(),
        decreases params@.len() - i,
    {
        if str_eq(params[i].as_str(), name.as_str()) {
            return Some(i);
        }
        i += 1;
    }
    None
}

fn head_is(items: &Vec<Expr>, name: &str) -> (r: bool)
    ensures
        r == (head_symbol(exprs_view(items@, items@.len() as int)) == Some(name@)),
{
    match head_name(items) {
        Some(h) => str_eq(h.as_str(), name),
        None => false,
    }
}

/// Walks a macro's quasiquote template beside its result: a node written
/// in the template gives the result its properties, and an unquoted
/// parameter gives the result the properties of the matching argument.
fn restore_template_node(result: &Expr, template: &Expr, params: &Vec<String>, arguments: &Vec<Expr>, depth: usize) -> (r: Expr)
    requires
        params@.len() == arguments@.len(),
    ensures
        datum_of_expr(r@) == datum_of_expr(result@),
    decreases template,
{
    if let ExprKind::List(template_items) = &template.kind {
        if depth == 1 && head_is(template_items, "unquote") {
            if template_items.len() > 1 {
                if let ExprKind::Symbol(parameter) = &template_items[1].kind {
                    if let Some(index) = param_index(params, parameter) {
                        return copy_properties_recursively(result, &arguments[index]);
                    }
                }
            }
            return result.copy();
        }
    }
    let mut properties = result.properties.copy();
    properties.merge_missing_from(&template.properties);
    match (&result.kind, &template.kind) {
        (ExprKind::List(rs), ExprKind::List(ts)) => {
            let nested: usize = if head_is(ts, "quasiquote") {
                if depth < usize::MAX { depth + 1 } else { depth }
            } else if head_is(ts, "unquote") && depth > 1 {
                depth - 1
            } else {
                depth
            };
            let mut out: Vec<Expr> = Vec::new();
            let mut i: usize = 0;
            while i < rs.len()
                invariant
                    result.kind == ExprKind::List(*rs),
                    template.kind == ExprKind::List(*ts),
                    params@.len() == arguments@.len(),
                    i <= rs@.len(),
                    out@.len() == i,
                    forall|q: int| 0 <= q < i ==> datum_of_expr((#[trigger] out@[q])@) == datum_of_expr(rs@[q]@),
                decreases rs@.len() - i,
            {
                if i < ts.len() {
                    proof {
                        assert(decreases_to!(*template => template.kind));
                        assert(decreases_to!(template.kind => (template.kind)->List_0));
                        assert(decreases_to!(*ts => ts[i as int]));
                    }
                    out.push(restore_template_node(&rs[i], &ts[i], params, arguments, nested));
                } else {
                    out.push(rs[i].copy());
                }
                i += 1;
            }
            proof {
                lemma_same_items_same_datum(out@, rs@);
            }
            Expr::with_properties(ExprKind::List(out), properties)
        },
        _ => {
            let copied = result.copy();
            Expr::with_properties(copied.kind, properties)
        },
    }
}

/// Where the macro body is a quasiquote, its template's properties are
/// carried over to the result.
fn restore_template_properties(result: &Expr, body: &Expr, params: &Vec<String>, arguments: &Vec<Expr>) -> (r: Expr)
    requires
        params@.len() == arguments@.len(),
    ensures
        datum_of_expr(r@) == datum_of_expr(result@),
{
    if let ExprKind::List(body_items) = &body.kind {
        if head_is(body_items, "quasiquote") && body_items.len() > 1 {
            return restore_template_node(result, &body_items[1], params, arguments, 1);
        }
    }
    result.copy()
}


/// Whether no list anywhere in `e` is headed by `defmacro`.
pub open spec fn free_of_defmacro(e: ExprV) -> bool
    decreases e,
{
    match e.kind {
        ExprKindV::List(items) => head_symbol(items) != Some("defmacro"@)
            && forall|k: int| 0 <= k < items.len() ==> free_of_defmacro(#[trigger] items[k]),
        _ => true,
    }
}

/// No two parameters have the same name.
pub open spec fn distinct_params(params: Seq<String>) -> bool {
    forall|a: int, b: int| 0 <= a < b < params.len() ==> params[a]@ != params[b]@
}

/// In the interpreter `ev`, the parameter `name` is bound to the argument
/// `argument` as data.
pub open spec fn parameter_bound_to(ev: Interpreter, name: Seq<char>, argument: ExprV) -> bool {
    ev.spec_binding(name) matches Some(Value::Datum(d)) && d@ == datum_of_expr(argument)
}

/// Whether `e` calls none of the macros `names` and defines none: no list
/// in it, at any depth, is headed by `defmacro` or by one of `names`.
pub open spec fn no_macro_calls(e: ExprV, names: Seq<Seq<char>>) -> bool
    decreases e,
{
    match e.kind {
        ExprKindV::List(items) => head_symbol(items) != Some("defmacro"@)
            && (head_symbol(items) matches Some(h) ==> !names.contains(h))
            && forall|k: int| 0 <= k < items.len() ==> no_macro_calls(#[trigger] items[k], names),
        _ => true,
    }
}

/// Whether `e` is a list headed by `quote`.
pub open spec fn is_quote_form(e: ExprV) -> bool {
    e.kind is List && head_symbol(e.kind->List_0) == Some("quote"@)
}

/// The macros known to an expansion, by name.
pub struct MacroEnv {
    definitions: Vec<MacroDef>,
}

impl MacroEnv {
    pub closed spec fn spec_names(&self) -> Seq<Seq<char>> {
        self.definitions@.map_values(|d: MacroDef| d.name@)
    }

    fn get(&self, name: &str) -> (r: Option<&MacroDef>)
        ensures
            self.definitions@.len() == 0 ==> r is None,
            !self.spec_names().contains(name@) ==> r is None,
    {
        let mut i: usize = 0;
        while i < self.definitions.len()
            invariant
                i <= self.definitions@.len(),
            decreases self.definitions@.len() - i,
        {
            if str_eq(self.definitions[i].name.as_str(), name) {
                proof {
                    assert(self.spec_names()[i as int] == name@);
                }
                return Some(&self.definitions[i]);
            }
            i += 1;
        }
        None
    }

    /// Adds `definition` unless a macro of that name exists; says whether
    /// it was added.
    fn insert(&mut self, definition: MacroDef) -> (r: bool)
        ensures
            r <==> !old(self).spec_names().contains(definition.name@),
            r ==> final(self).spec_names() == old(self).spec_names().push(definition.name@),
            !r ==> final(self).spec_names() == old(self).spec_names(),
    {
        let mut i: usize = 0;
        while i < self.definitions.len()
            invariant
                i <= self.definitions@.len(),
                forall|k: int| 0 <= k < i ==> (#[trigger] self.definitions@[k]).name@ != definition.name@,
            decreases self.definitions@.len() - i,
        {
            if str_eq(self.definitions[i].name.as_str(), definition.name.as_str()) {
                assert(self.spec_names()[i as int] == definition.name@);
                return false;
            }
            i += 1;
        }
        assert(!self.spec_names().contains(definition.name@)) by {
            if self.spec_names().contains(definition.name@) {
                let k = choose|k: int| 0 <= k < self.spec_names().len() && self.spec_names()[k] == definition.name@;
                assert(self.definitions@[k].name@ == definition.name@);
            }
        }
        let ghost before = self.definitions@;
        self.definitions.push(definition);
        assert(self.spec_names() =~= before.map_values(|d: MacroDef| d.name@).push(definition.name@));
        true
    }
}

impl Default for MacroEnv {
    fn default() -> (r: Self)
        ensures
            r.spec_names().len() == 0,
    {
        let r = MacroEnv { definitions: Vec::new() };
        assert(r.spec_names() =~= Seq::<Seq<char>>::empty());
        r
    }
}

/// One macro call in progress.
#[derive(Debug, Clone, PartialEq, Eq)]
pub struct MacroExpansionFrame {
    pub macro_name: String,
    pub invocation_span: Option<Span>,
    pub definition_span: Option<Span>,
}

/// How deep macro calls may nest and how many calls one session may make.
#[derive(Debug, Clone, Copy, PartialEq, Eq, Structural)]
pub struct MacroExpansionLimits {
    pub max_depth: usize,
    pub max_invocations: usize,
}

impl Default for MacroExpansionLimits {
    fn default() -> (r: Self)
        ensures
            r.max_depth == 256,
            r.max_invocations == 10000,
    {
        MacroExpansionLimits { max_depth: MAX_EXPANSION_DEPTH, max_invocations: MAX_MACRO_INVOCATIONS }
    }
}

/// The state of one program's macro expansion: the macros collected, the
/// next generated-symbol id, the calls made so far and the calls in
/// progress.
pub struct MacroExpansionSession {
    env: MacroEnv,
    next_gensym_id: u64,
    invocations: usize,
    stack: Vec<MacroExpansionFrame>,
    limits: MacroExpansionLimits,
}

impl MacroExpansionSession {
    pub closed spec fn spec_next_gensym_id(&self) -> u64 {
        self.next_gensym_id
    }

    pub closed spec fn spec_invocations(&self) -> nat {
        self.invocations as nat
    }

    pub closed spec fn spec_limits(&self) -> MacroExpansionLimits {
        self.limits
    }

    pub closed spec fn spec_macro_names(&self) -> Seq<Seq<char>> {
        self.env.spec_names()
    }

    pub closed spec fn spec_stack_len(&self) -> nat {
        self.stack@.len()
    }

    pub fn new(next_gensym_id: u64) -> (r: Self)
        ensures
            r.spec_next_gensym_id() == next_gensym_id,
            r.spec_invocations() == 0,
            r.spec_limits() == (MacroExpansionLimits { max_depth: 256, max_invocations: 10000 }),
            r.spec_macro_names().len() == 0,
            r.spec_stack_len() == 0,
    {
        Self::with_limits(next_gensym_id, MacroExpansionLimits::default())
    }

    pub fn with_limits(next_gensym_id: u64, limits: MacroExpansionLimits) -> (r: Self)
        ensures
            r.spec_next_gensym_id() == next_gensym_id,
            r.spec_invocations() == 0,
            r.spec_limits() == limits,
            r.spec_macro_names().len() == 0,
            r.spec_stack_len() == 0,
    {
        MacroExpansionSession { env: MacroEnv::default(), next_gensym_id, invocations: 0, stack: Vec::new(), limits }
    }

    pub fn next_gensym_id(&self) -> (r: u64)
        ensures
            r == self.spec_next_gensym_id(),
    {
        self.next_gensym_id
    }

    /// The names of the macro calls in progress, outermost first.
    fn stack_names(&self) -> (r: Vec<String>)
        ensures
            r@.len() == self.stack@.len(),
    {
        let mut names: Vec<String> = Vec::new();
        let mut i: usize = 0;
        while i < self.stack.len()
            invariant
                i <= self.stack@.len(),
                names@.len() == i,
            decreases self.stack@.len() - i,
        {
            names.push(self.stack[i].macro_name.clone());
            i += 1;
        }
        names
    }

    /// Expands the macro calls in `expression`; quoted data is left alone.
    fn expand_expr(&mut self, expression: &Expr, depth: usize) -> (r: Result<Expr, MacroExpandError>)
        requires
            depth <= old(self).limits.max_depth,
        ensures
            final(self).limits == old(self).limits,
            final(self).env == old(self).env,
            final(self).stack@ == old(self).stack@,
            old(self).invocations <= final(self).invocations,
            old(self).invocations <= old(self).limits.max_invocations ==> final(self).invocations <= final(self).limits.max_invocations,
            old(self).env.definitions@.len() == 0 ==> final(self).next_gensym_id == old(self).next_gensym_id,
            !(expression@.kind is List) ==> (r matches Ok(x) && x@ == expression@),
            is_quote_form(expression@) ==> (r matches Ok(x) && x@ == expression@),
            old(self).env.definitions@.len() == 0 && free_of_defmacro(expression@) ==> (r matches Ok(x) && x@ == expression@),
            no_macro_calls(expression@, old(self).env.spec_names()) ==> (r matches Ok(x) && x@ == expression@),
        decreases old(self).limits.max_depth - depth, expression, 2int,
    {
        let items = match &expression.kind {
            ExprKind::List(items) => items,
            _ => {
                return Ok(expression.copy());
            },
        };
        let ghost iv = exprs_view(items@, items@.len() as int);
        proof {
            lemma_exprs_view_all(items@);
            assert(decreases_to!(*expression => expression.kind));
            assert(decreases_to!(expression.kind => (expression.kind)->List_0));
        }
        if items.len() == 0 {
            return Ok(expression.copy());
        }
        if let Some(name) = head_name(items) {
            if str_eq(name.as_str(), "quote") {
                return Ok(expression.copy());
            }
            if str_eq(name.as_str(), "quasiquote") {
                if items.len() < 2 {
                    return Ok(expression.copy());
                }
                proof {
                    assert(decreases_to!(*items => items[1]));
                    if free_of_defmacro(expression@) {
                        assert(free_of_defmacro(iv[1]));
                    }
                    if no_macro_calls(expression@, old(self).env.spec_names()) {
                        assert(no_macro_calls(iv[1], old(self).env.spec_names()));
                    }
                }
                let template = match self.expand_quasiquote(&items[1], 1, depth) {
                    Ok(t) => t,
                    Err(e) => {
                        return Err(e);
                    },
                };
                return Ok(self.replace_item(expression, items, 1, template));
            }
            if str_eq(name.as_str(), "meta") {
                if items.len() < 3 {
                    return Ok(expression.copy());
                }
                proof {
                    assert(decreases_to!(*items => items[2]));
                    if free_of_defmacro(expression@) {
                        assert(free_of_defmacro(iv[2]));
                    }
                    if no_macro_calls(expression@, old(self).env.spec_names()) {
                        assert(no_macro_calls(iv[2], old(self).env.spec_names()));
                    }
                }
                let value = match self.expand_expr(&items[2], depth) {
                    Ok(v) => v,
                    Err(e) => {
                        return Err(e);
                    },
                };
                return Ok(self.replace_item(expression, items, 2, value));
            }
            if str_eq(name.as_str(), "defmacro") {
                return Err(MacroExpandError::GeneratedMacroDefinition);
            }
            let found = match self.env.get(name.as_str()) {
                Some(d) => Some(d.copy()),
                None => None,
            };
            if let Some(definition) = found {
                let mut arguments: Vec<Expr> = Vec::new();
                let mut a: usize = 1;
                while a < items.len()
                    invariant
                        1 <= a <= items@.len(),
                    decreases items@.len() - a,
                {
                    arguments.push(items[a].copy());
                    a += 1;
                }
                return self.invoke(&definition, expression, &arguments, depth);
            }
        }
        let ghost old_self = *self;
        let mut out: Vec<Expr> = Vec::new();
        let mut i: usize = 0;
        while i < items.len()
            invariant
                expression.kind == ExprKind::List(*items),
                iv == exprs_view(items@, items@.len() as int),
                iv.len() == items@.len(),
                forall|k: int| 0 <= k < items@.len() ==> #[trigger] iv[k] == items@[k]@,
                i <= items@.len(),
                out@.len() == i,
                depth <= self.limits.max_depth,
                self.limits == old(self).limits,
                self.env == old(self).env,
                self.stack@ == old(self).stack@,
                old(self).invocations <= self.invocations,
                old(self).invocations <= old(self).limits.max_invocations ==> self.invocations <= self.limits.max_invocations,
                old(self).env.definitions@.len() == 0 ==> self.next_gensym_id == old(self).next_gensym_id,
                !is_quote_form(expression@),
                old(self).env.definitions@.len() == 0 && free_of_defmacro(expression@) ==> forall|k: int| 0 <= k < i ==> (#[trigger] out@[k])@ == items@[k]@,
                no_macro_calls(expression@, old(self).env.spec_names()) ==> forall|k: int| 0 <= k < i ==> (#[trigger] out@[k])@ == items@[k]@,
            decreases items@.len() - i,
        {
            proof {
                assert(decreases_to!(*expression => expression.kind));
                assert(decreases_to!(expression.kind => (expression.kind)->List_0));
                assert(decreases_to!(*items => items[i as int]));
                if free_of_defmacro(expression@) {
                    assert(free_of_defmacro(iv[i as int]));
                }
                if no_macro_calls(expression@, old(self).env.spec_names()) {
                    assert(no_macro_calls(iv[i as int], old(self).env.spec_names()));
                }
            }
            let x = match self.expand_expr(&items[i], depth) {
                Ok(x) => x,
                Err(e) => {
                    return Err(e);
                },
            };
            out.push(x);
            i += 1;
        }
        proof {
            if old(self).env.definitions@.len() == 0 && free_of_defmacro(expression@) {
                lemma_exprs_view_all(out@);
                assert(exprs_view(out@, out@.len() as int) =~= iv);
            }
            if no_macro_calls(expression@, old(self).env.spec_names()) {
                lemma_exprs_view_all(out@);
                assert(exprs_view(out@, out@.len() as int) =~= iv);
            }
        }
        Ok(Expr::with_properties(ExprKind::List(out), expression.properties.copy()))
    }

    /// `expression` with item `at` replaced by `item`.
    fn replace_item(&self, expression: &Expr, items: &Vec<Expr>, at: usize, item: Expr) -> (r: Expr)
        requires
            expression.kind == ExprKind::List(*items),
            at < items@.len(),
        ensures
            item@ == items@[at as int]@ ==> r@ == expression@,
    {
        let mut out: Vec<Expr> = Vec::new();
        let mut item = Some(item);
        let ghost given = item;
        let mut i: usize = 0;
        while i < items.len()
            invariant
                i <= items@.len(),
                out@.len() == i,
                at < items@.len(),
                given matches Some(g) && (i <= at ==> item == given),
                forall|k: int| 0 <= k < i && k != at ==> (#[trigger] out@[k])@ == items@[k]@,
                at < i ==> out@[at as int]@ == given->Some_0@,
            decreases items@.len() - i,
        {
            if i == at {
                match item.take() {
                    Some(x) => out.push(x),
                    None => out.push(items[i].copy()),
                }
            } else {
                out.push(items[i].copy());
            }
            i += 1;
        }
        proof {
            if given->Some_0@ == items@[at as int]@ {
                lemma_exprs_view_all(out@);
                lemma_exprs_view_all(items@);
                assert(exprs_view(out@, out@.len() as int) =~= exprs_view(items@, items@.len() as int));
            }
        }
        Expr::with_properties(ExprKind::List(out), expression.properties.copy())
    }

    /// Expands inside a quasiquote template at quasiquote nesting `qd`:
    /// only `unquote`d parts at the innermost level are expanded as code.
    fn expand_quasiquote(&mut self, expression: &Expr, qd: usize, depth: usize) -> (r: Result<Expr, MacroExpandError>)
        requires
            qd >= 1,
            depth <= old(self).limits.max_depth,
        ensures
            final(self).limits == old(self).limits,
            final(self).env == old(self).env,
            final(self).stack@ == old(self).stack@,
            old(self).invocations <= final(self).invocations,
            old(self).invocations <= old(self).limits.max_invocations ==> final(self).invocations <= final(self).limits.max_invocations,
            old(self).env.definitions@.len() == 0 ==> final(self).next_gensym_id == old(self).next_gensym_id,
            old(self).env.definitions@.len() == 0 && free_of_defmacro(expression@) ==> (r matches Ok(x) && x@ == expression@),
            no_macro_calls(expression@, old(self).env.spec_names()) ==> (r matches Ok(x) && x@ == expression@),
        decreases old(self).limits.max_depth - depth, expression, 1int,
    {
        let items = match &expression.kind {
            ExprKind::List(items) => items,
            _ => {
                return Ok(expression.copy());
            },
        };
        let ghost iv = exprs_view(items@, items@.len() as int);
        proof {
            lemma_exprs_view_all(items@);
            assert(decreases_to!(*expression => expression.kind));
            assert(decreases_to!(expression.kind => (expression.kind)->List_0));
        }
        let is_quote = head_is(items, "quote");
        let is_unquote = head_is(items, "unquote");
        let is_quasiquote = head_is(items, "quasiquote");
        if is_quote {
            return Ok(expression.copy());
        }
        if is_unquote && qd == 1 {
            if items.len() < 2 {
                return Ok(expression.copy());
            }
            proof {
                assert(decreases_to!(*items => items[1]));
                if free_of_defmacro(expression@) {
                    assert(free_of_defmacro(iv[1]));
                }
                if no_macro_calls(expression@, old(self).env.spec_names()) {
                    assert(no_macro_calls(iv[1], old(self).env.spec_names()));
                }
            }
            let value = match self.expand_expr(&items[1], depth) {
                Ok(v) => v,
                Err(e) => {
                    return Err(e);
                },
            };
            return Ok(self.replace_item(expression, items, 1, value));
        }
        let nested: usize = if is_quasiquote {
            if qd < usize::MAX { qd + 1 } else { qd }
        } else if is_unquote {
            qd - 1
        } else {
            qd
        };
        let mut out: Vec<Expr> = Vec::new();
        let mut i: usize = 0;
        while i < items.len()
            invariant
                expression.kind == ExprKind::List(*items),
                iv == exprs_view(items@, items@.len() as int),
                iv.len() == items@.len(),
                forall|k: int| 0 <= k < items@.len() ==> #[trigger] iv[k] == items@[k]@,
                i <= items@.len(),
                out@.len() == i,
                nested >= 1,
                depth <= self.limits.max_depth,
                self.limits == old(self).limits,
                self.env == old(self).env,
                self.stack@ == old(self).stack@,
                old(self).invocations <= self.invocations,
                old(self).invocations <= old(self).limits.max_invocations ==> self.invocations <= self.limits.max_invocations,
                old(self).env.definitions@.len() == 0 ==> self.next_gensym_id == old(self).next_gensym_id,
                old(self).env.definitions@.len() == 0 && free_of_defmacro(expression@) ==> forall|k: int| 0 <= k < i ==> (#[trigger] out@[k])@ == items@[k]@,
                no_macro_calls(expression@, old(self).env.spec_names()) ==> forall|k: int| 0 <= k < i ==> (#[trigger] out@[k])@ == items@[k]@,
            decreases items@.len() - i,
        {
            proof {
                assert(decreases_to!(*expression => expression.kind));
                assert(decreases_to!(expression.kind => (expression.kind)->List_0));
                assert(decreases_to!(*items => items[i as int]));
                if free_of_defmacro(expression@) {
                    assert(free_of_defmacro(iv[i as int]));
                }
                if no_macro_calls(expression@, old(self).env.spec_names()) {
                    assert(no_macro_calls(iv[i as int], old(self).env.spec_names()));
                }
            }
            let x = match self.expand_quasiquote(&items[i], nested, depth) {
                Ok(x) => x,
                Err(e) => {
                    return Err(e);
                },
            };
            out.push(x);
            i += 1;
        }
        proof {
            if old(self).env.definitions@.len() == 0 && free_of_defmacro(expression@) {
                lemma_exprs_view_all(out@);
                assert(exprs_view(out@, out@.len() as int) =~= iv);
            }
            if no_macro_calls(expression@, old(self).env.spec_names()) {
                lemma_exprs_view_all(out@);
                assert(exprs_view(out@, out@.len() as int) =~= iv);
            }
        }
        Ok(Expr::with_properties(ExprKind::List(out), expression.properties.copy()))
    }

    /// Calls macro `definition` on `arguments` (the syntax of `invocation`
    /// after its head): the body runs in a fresh interpreter with each
    /// parameter bound to its argument as data, and the datum it returns is
    /// read back as syntax, given back the properties of the arguments and
    /// of the template it came from, and expanded again.
    fn invoke(&mut self, definition: &MacroDef, invocation: &Expr, arguments: &Vec<Expr>, depth: usize) -> (r: Result<Expr, MacroExpandError>)
        requires
            depth <= old(self).limits.max_depth,
        ensures
            final(self).limits == old(self).limits,
            final(self).env == old(self).env,
            final(self).stack@ == old(self).stack@,
            old(self).invocations <= final(self).invocations,
            old(self).invocations <= old(self).limits.max_invocations ==> final(self).invocations <= final(self).limits.max_invocations,
            arguments@.len() != definition.params@.len() ==> (r matches Err(MacroExpandError::MacroArityMismatch { expected, got, .. })
                && expected == definition.params@.len() && got == arguments@.len()),
            arguments@.len() == definition.params@.len() && depth >= old(self).limits.max_depth
                ==> (r matches Err(MacroExpandError::MacroExpansionDepthExceeded { stack }) && stack@.len() == old(self).stack@.len()),
            arguments@.len() == definition.params@.len() && depth < old(self).limits.max_depth
                && old(self).invocations >= old(self).limits.max_invocations
                ==> (r matches Err(MacroExpandError::MacroExpansionBudgetExceeded { stack }) && stack@.len() == old(self).stack@.len()),
        r is Ok ==> arguments@.len() == definition.params@.len() && depth < old(self).limits.max_depth
            && old(self).invocations < old(self).limits.max_invocations,
        r is Ok && distinct_params(definition.params@) ==> exists|ev: Interpreter, body: ExprV, v: Value, after: Interpreter|
            #[trigger] eval_step(ev, body, Ok::<Value, LispError>(v), after)
            && v is Datum
            && (no_macro_calls(definition.body@, old(self).env.spec_names()) ==> body == definition.body@)
            && forall|i: int| 0 <= i < definition.params@.len() ==> parameter_bound_to(ev, definition.params@[i]@, arguments@[i]@),
        decreases old(self).limits.max_depth - depth, invocation, 1int,
    {
        if arguments.len() != definition.params.len() {
            return Err(MacroExpandError::MacroArityMismatch {
                name: definition.name.clone(),
                expected: definition.params.len(),
                got: arguments.len(),
            });
        }
        if depth >= self.limits.max_depth {
            return Err(MacroExpandError::MacroExpansionDepthExceeded { stack: self.stack_names() });
        }
        if self.invocations >= self.limits.max_invocations {
            return Err(MacroExpandError::MacroExpansionBudgetExceeded { stack: self.stack_names() });
        }
        self.invocations = self.invocations + 1;
        self.stack.push(MacroExpansionFrame { macro_name: definition.name.clone(), invocation_span: None, definition_span: None });
        let ghost pushed = self.stack@;
        let mut evaluator = Interpreter::new_compile_time();
        evaluator.set_next_gensym_id(self.next_gensym_id);
        let mut p: usize = 0;
        while p < definition.params.len()
            invariant
                distinct_params(definition.params@) ==> forall|k: int| 0 <= k < p
                    ==> parameter_bound_to(evaluator, #[trigger] definition.params@[k]@, arguments@[k]@),
                p <= definition.params@.len(),
                arguments@.len() == definition.params@.len(),
                depth < self.limits.max_depth,
                self.limits == old(self).limits,
                self.env == old(self).env,
                self.stack@ == pushed,
                pushed == old(self).stack@.push(pushed.last()),
                old(self).invocations <= self.invocations,
                old(self).invocations <= old(self).limits.max_invocations ==> self.invocations <= self.limits.max_invocations,
                old(self).invocations < old(self).limits.max_invocations,
            decreases definition.params@.len() - p,
        {
            let value = Value::Datum(Rc::new(expr_to_datum(&arguments[p])));
            let ghost before = evaluator;
            let ghost bound = value;
            let defined = evaluator.define_compile_time_binding(definition.params[p].as_str(), value);
            proof {
                if defined && distinct_params(definition.params@) {
                    assert forall|k: int| 0 <= k < p + 1
                        implies parameter_bound_to(evaluator, #[trigger] definition.params@[k]@, arguments@[k]@) by {
                        if k < p {
                            assert(definition.params@[k]@ != definition.params@[p as int]@);
                            assert(evaluator.spec_binding(definition.params@[k]@) == before.spec_binding(definition.params@[k]@));
                        } else {
                            assert(evaluator.spec_binding(definition.params@[p as int]@) == Some(bound));
                        }
                    }
                }
            }
            if !defined {
                let error = MacroExpandError::MacroEvaluationFailed {
                    name: definition.name.clone(),
                    cause: lisp_error_message(&LispError::Lower(LowerError::TooManyGlobals)),
                    stack: self.stack_names(),
                };
                self.stack.pop();
                return Err(error);
            }
            p += 1;
        }
        let prepared_body = match self.expand_expr(&definition.body, depth + 1) {
            Ok(body) => body,
            Err(error) => {
                self.stack.pop();
                return Err(error);
            },
        };
        let ghost ev0 = evaluator;
        let evaluated = evaluator.eval_expr(&prepared_body);
        let ghost ev1 = evaluator;
        let ghost res = evaluated;
        self.next_gensym_id = evaluator.next_gensym_id();
        let value = match evaluated {
            Ok(v) => v,
            Err(error) => {
                let failure = MacroExpandError::MacroEvaluationFailed {
                    name: definition.name.clone(),
                    cause: lisp_error_message(&error),
                    stack: self.stack_names(),
                };
                self.stack.pop();
                return Err(failure);
            },
        };
        let result = match &value {
            Value::Datum(datum) => datum_to_expr(&**datum),
            _ => {
                let failure = MacroExpandError::MacroResultIsNotDatum {
                    name: definition.name.clone(),
                    actual: value.kind_name().to_owned(),
                    stack: self.stack_names(),
                };
                self.stack.pop();
                return Err(failure);
            },
        };
        proof {
            assert(res == Ok::<Value, LispError>(value));
            assert(eval_step(ev0, prepared_body@, Ok::<Value, LispError>(value), ev1));
        }
        let result = restore_argument_properties(&result, arguments);
        let mut result = restore_template_properties(&result, &definition.body, &definition.params, arguments);
        result.properties.merge_missing_from(&invocation.properties);
        let expanded = self.expand_expr(&result, depth + 1);
        self.stack.pop();
        expanded
    }
}


/// What collecting a program's macro definitions gives, from form `i`
/// on: the macro names defined (in order) and how many ordinary forms
/// remain, or the first definition error.
pub open spec fn collect_spec(es: Seq<ExprV>, i: int, names: Seq<Seq<char>>) -> Result<(Seq<Seq<char>>, nat), MacroFail>
    decreases es.len() - i,
{
    if i < 0 || i >= es.len() {
        Ok((names, 0))
    } else {
        match macro_definition_spec(es[i]) {
            Err(f) => Err(f),
            Ok(Some(d)) => if names.contains(d.name) {
                Err(MacroFail::DuplicateMacroDefinition(d.name))
            } else {
                collect_spec(es, i + 1, names.push(d.name))
            },
            Ok(None) => if nested_at(es[i], 0) {
                Err(MacroFail::NestedMacroDefinition)
            } else {
                match collect_spec(es, i + 1, names) {
                    Err(f) => Err(f),
                    Ok((n, c)) => Ok((n, c + 1)),
                }
            },
        }
    }
}

/// The forms of `es` from index `i` on that define no macro, in order.
pub open spec fn ordinary_from(es: Seq<ExprV>, i: int) -> Seq<ExprV>
    decreases es.len() - i,
{
    if i < 0 || i >= es.len() {
        Seq::empty()
    } else if macro_definition_spec(es[i]) matches Ok(None) {
        seq![es[i]] + ordinary_from(es, i + 1)
    } else {
        ordinary_from(es, i + 1)
    }
}

pub open spec fn shifted(r: Result<(Seq<Seq<char>>, nat), MacroFail>, k: nat) -> Result<(Seq<Seq<char>>, nat), MacroFail> {
    match r {
        Err(f) => Err(f),
        Ok((n, c)) => Ok((n, c + k)),
    }
}

pub proof fn lemma_free_not_nested(e: ExprV, qd: nat)
    requires
        free_of_defmacro(e),
    ensures
        !nested_at(e, qd),
    decreases e, 1int,
{
    match e.kind {
        ExprKindV::List(items) => {
            lemma_free_items_not_nested(items, 0, qd);
            lemma_free_items_not_nested(items, 1, qd);
            lemma_free_items_not_nested(items, 1, qd_inc(qd));
            if qd > 0 {
                lemma_free_items_not_nested(items, 1, (qd - 1) as nat);
            }
            if items.len() > 2 {
                lemma_free_not_nested(items[2], qd);
            }
        },
        _ => {},
    }
}

pub proof fn lemma_free_items_not_nested(items: Seq<ExprV>, i: int, qd: nat)
    requires
        forall|k: int| 0 <= k < items.len() ==> free_of_defmacro(#[trigger] items[k]),
    ensures
        !nested_any(items, i, qd),
    decreases items, 0int, items.len() - i,
{
    if 0 <= i < items.len() {
        lemma_free_not_nested(items[i], qd);
        lemma_free_items_not_nested(items, i + 1, qd);
    }
}

pub proof fn lemma_free_not_definition(e: ExprV)
    requires
        free_of_defmacro(e),
    ensures
        macro_definition_spec(e) == Ok::<Option<MacroDefV>, MacroFail>(None),
    decreases e,
{
    match e.kind {
        ExprKindV::List(items) => {
            if items.len() == 3 {
                lemma_free_not_definition(items[2]);
            }
        },
        _ => {},
    }
}

impl MacroExpansionSession {
    /// Collects the program's macro definitions (a definition may follow
    /// its first use), then expands every other form in order.
    pub fn expand_program(&mut self, expressions: &[Expr]) -> (r: Result<Vec<Expr>, MacroExpandError>)
        ensures
            final(self).spec_limits() == old(self).spec_limits(),
            final(self).spec_stack_len() == old(self).spec_stack_len(),
            old(self).spec_invocations() <= old(self).spec_limits().max_invocations
                ==> final(self).spec_invocations() <= final(self).spec_limits().max_invocations,
            old(self).spec_macro_names().len() == 0 && (forall|k: int| 0 <= k < expressions@.len() ==> free_of_defmacro(#[trigger] expressions@[k]@))
                ==> final(self).spec_next_gensym_id() == old(self).spec_next_gensym_id(),
            match collect_spec(Seq::new(expressions@.len(), |k: int| expressions@[k]@), 0, old(self).spec_macro_names()) {
                Err(f) => r matches Err(e) && macro_fail_is(f, e),
                Ok((names, count)) => final(self).spec_macro_names() == names && (r matches Ok(v) ==> v@.len() == count),
            },
            r matches Ok(v) ==> v@.len() == ordinary_from(Seq::new(expressions@.len(), |k: int| expressions@[k]@), 0).len()
                && forall|k: int| 0 <= k < v@.len()
                    && no_macro_calls(ordinary_from(Seq::new(expressions@.len(), |k: int| expressions@[k]@), 0)[k], final(self).spec_macro_names())
                    ==> (#[trigger] v@[k])@ == ordinary_from(Seq::new(expressions@.len(), |k: int| expressions@[k]@), 0)[k],
            old(self).spec_macro_names().len() == 0 && (forall|k: int| 0 <= k < expressions@.len() ==> free_of_defmacro(#[trigger] expressions@[k]@))
                ==> (r matches Ok(v) && v@.len() == expressions@.len() && forall|k: int| 0 <= k < v@.len() ==> (#[trigger] v@[k])@ == expressions@[k]@),
    {
        let ghost ev = Seq::new(expressions@.len(), |k: int| expressions@[k]@);
        let ghost names0 = self.env.spec_names();
        let ghost all_free = old(self).spec_macro_names().len() == 0 && (forall|k: int| 0 <= k < expressions@.len() ==> free_of_defmacro(#[trigger] expressions@[k]@));
        let mut ordinary: Vec<Expr> = Vec::new();
        let mut i: usize = 0;
        while i < expressions.len()
            invariant
                i <= expressions@.len(),
                ev == Seq::new(expressions@.len(), |k: int| expressions@[k]@),
                names0 == old(self).spec_macro_names(),
                collect_spec(ev, 0, names0) == shifted(collect_spec(ev, i as int, self.env.spec_names()), ordinary@.len()),
                self.limits == old(self).limits,
                self.stack@ == old(self).stack@,
                all_free == (old(self).spec_macro_names().len() == 0 && (forall|k: int| 0 <= k < expressions@.len() ==> free_of_defmacro(#[trigger] expressions@[k]@))),
                all_free ==> self.env.definitions@.len() == 0 && ordinary@.len() == i
                    && forall|k: int| 0 <= k < i ==> (#[trigger] ordinary@[k])@ == expressions@[k]@,
                self.next_gensym_id == old(self).next_gensym_id,
                self.invocations == old(self).invocations,
                ordinary_from(ev, 0).len() == ordinary@.len() + ordinary_from(ev, i as int).len(),
                forall|k: int| 0 <= k < ordinary@.len() ==> (#[trigger] ordinary@[k])@ == ordinary_from(ev, 0)[k],
                forall|k: int| 0 <= k < ordinary_from(ev, i as int).len()
                    ==> ordinary_from(ev, 0)[ordinary@.len() + k] == #[trigger] ordinary_from(ev, i as int)[k],
            decreases expressions@.len() - i,
        {
            proof {
                if all_free {
                    assert(free_of_defmacro(ev[i as int]));
                    lemma_free_not_definition(ev[i as int]);
                    lemma_free_not_nested(ev[i as int], 0);
                }
            }
            match parse_macro_definition(&expressions[i]) {
                Err(e) => {
                    return Err(e);
                },
                Ok(Some(definition)) => {
                    let name = definition.name.clone();
                    if !self.env.insert(definition) {
                        return Err(MacroExpandError::DuplicateMacroDefinition(name));
                    }
                },
                Ok(None) => {
                    if contains_nested_definition(&expressions[i], 0) {
                        return Err(MacroExpandError::NestedMacroDefinition);
                    }
                    let ghost before = ordinary@;
                    ordinary.push(expressions[i].copy());
                    proof {
                        let rest = ordinary_from(ev, i as int + 1);
                        assert(ordinary_from(ev, i as int) == seq![ev[i as int]] + rest);
                        assert(ordinary_from(ev, i as int)[0] == ev[i as int]);
                        assert forall|k: int| 0 <= k < rest.len()
                            implies ordinary_from(ev, 0)[ordinary@.len() + k] == #[trigger] rest[k] by {
                            assert(ordinary_from(ev, i as int)[1 + k] == rest[k]);
                            assert(ordinary_from(ev, 0)[before.len() + (1 + k)] == ordinary_from(ev, i as int)[1 + k]);
                        }
                        assert forall|k: int| 0 <= k < ordinary@.len() implies (#[trigger] ordinary@[k])@ == ordinary_from(ev, 0)[k] by {
                            if k < before.len() {
                                assert(ordinary@[k] == before[k]);
                            } else {
                                assert(ordinary_from(ev, 0)[before.len() as int] == ordinary_from(ev, i as int)[0]);
                            }
                        }
                    }
                },
            }
            proof {
                if !(macro_definition_spec(ev[i as int]) matches Ok(None)) {
                    assert(ordinary_from(ev, i as int) == ordinary_from(ev, i as int + 1));
                }
            }
            i += 1;
        }
        proof {
            if all_free {
                assert(self.env.spec_names().len() == 0);
            }
        }
        let mut expanded: Vec<Expr> = Vec::new();
        let mut j: usize = 0;
        while j < ordinary.len()
            invariant
                j <= ordinary@.len(),
                expanded@.len() == j,
                self.limits == old(self).limits,
                self.stack@ == old(self).stack@,
                collect_spec(ev, 0, names0) == Ok::<(Seq<Seq<char>>, nat), MacroFail>((self.env.spec_names(), ordinary@.len())),
                names0 == old(self).spec_macro_names(),
                ev == Seq::new(expressions@.len(), |k: int| expressions@[k]@),
                all_free ==> self.next_gensym_id == old(self).next_gensym_id,
                old(self).invocations <= old(self).limits.max_invocations ==> self.invocations <= self.limits.max_invocations,
                all_free ==> self.env.definitions@.len() == 0 && ordinary@.len() == expressions@.len()
                    && (forall|k: int| 0 <= k < ordinary@.len() ==> (#[trigger] ordinary@[k])@ == expressions@[k]@)
                    && (forall|k: int| 0 <= k < j ==> (#[trigger] expanded@[k])@ == expressions@[k]@),
                all_free == (old(self).spec_macro_names().len() == 0 && (forall|k: int| 0 <= k < expressions@.len() ==> free_of_defmacro(#[trigger] expressions@[k]@))),
                ordinary_from(ev, 0).len() == ordinary@.len(),
                forall|k: int| 0 <= k < ordinary@.len() ==> (#[trigger] ordinary@[k])@ == ordinary_from(ev, 0)[k],
                forall|k: int| 0 <= k < j && no_macro_calls(ordinary@[k]@, self.env.spec_names()) ==> (#[trigger] expanded@[k])@ == ordinary@[k]@,
            decreases ordinary@.len() - j,
        {
            proof {
                if all_free {
                    assert(free_of_defmacro(expressions@[j as int]@));
                }
            }
            let x = match self.expand_expr(&ordinary[j], 0) {
                Ok(x) => x,
                Err(e) => {
                    return Err(e);
                },
            };
            let ghost before = expanded@;
            expanded.push(x);
            proof {
                assert forall|k: int| 0 <= k < j + 1 && no_macro_calls(ordinary@[k]@, self.env.spec_names())
                    implies (#[trigger] expanded@[k])@ == ordinary@[k]@ by {
                    if k < j {
                        assert(expanded@[k] == before[k]);
                    }
                }
            }
            j += 1;
        }
        Ok(expanded)
    }
}

/// Expands the macros of a whole program with a fresh session; also gives
/// the next generated-symbol id, for evaluation to continue from.
pub fn expand_program(expressions: &[Expr], next_gensym_id: u64) -> (r: Result<(Vec<Expr>, u64), LispError>)
    ensures
        match collect_spec(Seq::new(expressions@.len(), |k: int| expressions@[k]@), 0, Seq::empty()) {
            Err(f) => r matches Err(LispError::Macro(e)) && macro_fail_is(f, e),
            Ok((names, count)) => r matches Ok((v, _)) ==> v@.len() == count
                && v@.len() == ordinary_from(Seq::new(expressions@.len(), |k: int| expressions@[k]@), 0).len()
                && forall|k: int| 0 <= k < v@.len()
                    && no_macro_calls(ordinary_from(Seq::new(expressions@.len(), |k: int| expressions@[k]@), 0)[k], names)
                    ==> (#[trigger] v@[k])@ == ordinary_from(Seq::new(expressions@.len(), |k: int| expressions@[k]@), 0)[k],
        },
        (forall|k: int| 0 <= k < expressions@.len() ==> free_of_defmacro(#[trigger] expressions@[k]@))
            ==> (r matches Ok((v, n)) && n == next_gensym_id && v@.len() == expressions@.len()
                && forall|k: int| 0 <= k < v@.len() ==> (#[trigger] v@[k])@ == expressions@[k]@),
        r matches Err(e) ==> e is Macro,
{
    let mut session = MacroExpansionSession::new(next_gensym_id);
    proof {
        assert(session.spec_macro_names() =~= Seq::<Seq<char>>::empty());
    }
    match session.expand_program(expressions) {
        Ok(expanded) => {
            let next = session.next_gensym_id();
            Ok((expanded, next))
        },
        Err(e) => Err(LispError::Macro(e)),
    }
}

} // verus!
