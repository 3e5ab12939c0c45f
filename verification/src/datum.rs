//! Quoted data: the values `quote` produces and `quasiquote` builds.
use vstd::prelude::*;
use crate::ast::{exprs_view, lemma_exprs_view_all, lemma_exprs_view_push, Expr, ExprKind, ExprKindV, ExprV};
use crate::symbol::{Symbol, SymbolV};
use crate::text::{debug_quote, debug_quoted, int_decimal, push_i64_decimal, push_str, radix_digits};

verus! {

broadcast use vstd::std_specs::vec::group_vec_axioms;

#[derive(Debug, PartialEq, Eq)]
pub enum Datum {
    Integer(i64),
    Bool(bool),
    String(String),
    Symbol(Symbol),
    List(Vec<Datum>),
}

/// The mathematical model of a datum.
pub enum DatumV {
    Integer(i64),
    Bool(bool),
    String(Seq<char>),
    Symbol(SymbolV),
    List(Seq<DatumV>),
}

/// Views of the first `n` data of `items`.
pub open spec fn datums_view(items: Seq<Datum>, n: int) -> Seq<DatumV>
    decreases items, n,
{
    if n <= 0 || n > items.len() {
        Seq::empty()
    } else {
        datums_view(items, n - 1).push(items[n - 1].view())
    }
}

proof fn lemma_datums_view_n(items: Seq<Datum>, n: int)
    requires
        0 <= n <= items.len(),
    ensures
        datums_view(items, n).len() == n,
        forall|k: int| 0 <= k < n ==> #[trigger] datums_view(items, n)[k] == items[k]@,
    decreases n,
{
    if n > 0 {
        lemma_datums_view_n(items, n - 1);
    }
}

pub proof fn lemma_datums_view_all(items: Seq<Datum>)
    ensures
        datums_view(items, items.len() as int).len() == items.len(),
        forall|k: int| 0 <= k < items.len() ==> #[trigger] datums_view(items, items.len() as int)[k] == items[k]@,
{
    lemma_datums_view_n(items, items.len() as int);
}

pub proof fn lemma_datums_view_push(items: Seq<Datum>, d: Datum)
    ensures
        datums_view(items.push(d), items.len() as int + 1) == datums_view(items, items.len() as int).push(d@),
{
    lemma_datums_view_all(items);
    lemma_datums_view_all(items.push(d));
    assert(datums_view(items.push(d), items.len() as int + 1) =~= datums_view(items, items.len() as int).push(d@));
}

impl Datum {
    pub open spec fn view(&self) -> DatumV
        decreases self, 0int,
    {
        match self {
            Datum::Integer(n) => DatumV::Integer(*n),
            Datum::Bool(b) => DatumV::Bool(*b),
            Datum::String(s) => DatumV::String(s@),
            Datum::Symbol(s) => DatumV::Symbol(s@),
            Datum::List(items) => DatumV::List(datums_view(items@, items@.len() as int)),
        }
    }

    /// A deep copy.
    pub fn copy(&self) -> (r: Datum)
        ensures
            r@ == self@,
        decreases self,
    {
        match self {
            Datum::Integer(n) => Datum::Integer(*n),
            Datum::Bool(b) => Datum::Bool(*b),
            Datum::String(s) => Datum::String(s.clone()),
            Datum::Symbol(s) => Datum::Symbol(s.copy()),
            Datum::List(items) => {
                let mut out: Vec<Datum> = Vec::new();
                let mut i: usize = 0;
                while i < items.len()
                    invariant
                        *self == Datum::List(*items),
                        i <= items@.len(),
                        out@.len() == i,
                        forall|k: int| 0 <= k < i ==> #[trigger] out@[k]@ == items@[k]@,
                    decreases items@.len() - i,
                {
                    proof {
                        assert(decreases_to!(*self => (*self)->List_0));
                        assert(decreases_to!(*items => items[i as int]));
                    }
                    out.push(items[i].copy());
                    i += 1;
                }
                proof {
                    lemma_datums_view_all(out@);
                    lemma_datums_view_all(items@);
                    assert(datums_view(out@, out@.len() as int) =~= datums_view(items@, items@.len() as int));
                }
                Datum::List(out)
            },
        }
    }
}

impl Clone for Datum {
    fn clone(&self) -> (r: Self)
        ensures
            r@ == self@,
    {
        self.copy()
    }
}

/// The datum a reader expression denotes: its shape, without properties.
pub open spec fn datum_of_expr(e: ExprV) -> DatumV
    decreases e, 0int,
{
    match e.kind {
        ExprKindV::Int(n) => DatumV::Integer(n),
        ExprKindV::Bool(b) => DatumV::Bool(b),
        ExprKindV::String(s) => DatumV::String(s),
        ExprKindV::Symbol(s) => DatumV::Symbol(SymbolV::Interned(s)),
        ExprKindV::GeneratedSymbol(s) => DatumV::Symbol(s),
        ExprKindV::List(items) => DatumV::List(datums_of_exprs(items, items.len() as int)),
    }
}

pub open spec fn datums_of_exprs(items: Seq<ExprV>, n: int) -> Seq<DatumV>
    decreases items, n,
{
    if n <= 0 || n > items.len() {
        Seq::empty()
    } else {
        datums_of_exprs(items, n - 1).push(datum_of_expr(items[n - 1]))
    }
}

pub proof fn lemma_datums_of_exprs_all(items: Seq<ExprV>, n: int)
    requires
        0 <= n <= items.len(),
    ensures
        datums_of_exprs(items, n).len() == n,
        forall|k: int| 0 <= k < n ==> #[trigger] datums_of_exprs(items, n)[k] == datum_of_expr(items[k]),
    decreases n,
{
    if n > 0 {
        lemma_datums_of_exprs_all(items, n - 1);
    }
}

/// The printed name a symbol datum takes when turned back into reader
/// syntax (a generated symbol prints with its id).
pub open spec fn symbol_expr_text(s: SymbolV) -> Seq<char> {
    match s {
        SymbolV::Interned(n) => n,
        SymbolV::Generated { id, hint } => match hint {
            Some(h) => h + seq!['_', '_', 'g'] + radix_digits(id.0 as nat, 10, false),
            None => seq!['g', '_', '_', 'g'] + radix_digits(id.0 as nat, 10, false),
        },
    }
}

/// The reader expression a datum denotes, with no properties.
pub open spec fn expr_of_datum(d: DatumV) -> ExprV
    decreases d, 0int,
{
    ExprV {
        kind: match d {
            DatumV::Integer(n) => ExprKindV::Int(n),
            DatumV::Bool(b) => ExprKindV::Bool(b),
            DatumV::String(s) => ExprKindV::String(s),
            DatumV::Symbol(s) => match s {
                SymbolV::Interned(n) => ExprKindV::Symbol(n),
                SymbolV::Generated { .. } => ExprKindV::GeneratedSymbol(s),
            },
            DatumV::List(items) => ExprKindV::List(exprs_of_datums(items, items.len() as int)),
        },
        properties: Map::empty(),
    }
}

pub open spec fn exprs_of_datums(items: Seq<DatumV>, n: int) -> Seq<ExprV>
    decreases items, n,
{
    if n <= 0 || n > items.len() {
        Seq::empty()
    } else {
        exprs_of_datums(items, n - 1).push(expr_of_datum(items[n - 1]))
    }
}

proof fn lemma_exprs_of_datums_all(items: Seq<DatumV>, n: int)
    requires
        0 <= n <= items.len(),
    ensures
        exprs_of_datums(items, n).len() == n,
        forall|k: int| 0 <= k < n ==> #[trigger] exprs_of_datums(items, n)[k] == expr_of_datum(items[k]),
    decreases n,
{
    if n > 0 {
        lemma_exprs_of_datums_all(items, n - 1);
    }
}

/// Converts a reader expression into the datum it denotes (properties are
/// dropped; every symbol becomes an interned symbol).
pub fn expr_to_datum(expr: &Expr) -> (r: Datum)
    ensures
        r@ == datum_of_expr(expr@),
    decreases expr,
{
    match &expr.kind {
        ExprKind::Int(value) => Datum::Integer(*value),
        ExprKind::Bool(value) => Datum::Bool(*value),
        ExprKind::String(value) => Datum::String(value.clone()),
        ExprKind::Symbol(name) => Datum::Symbol(Symbol::Interned(name.clone())),
        ExprKind::GeneratedSymbol(symbol) => Datum::Symbol(symbol.copy()),
        ExprKind::List(items) => {
            let mut out: Vec<Datum> = Vec::new();
            let mut i: usize = 0;
            proof {
                lemma_exprs_view_all(items@);
            }
            while i < items.len()
                invariant
                    expr.kind == ExprKind::List(*items),
                    i <= items@.len(),
                    out@.len() == i,
                    forall|k: int| 0 <= k < i ==> #[trigger] out@[k]@ == datum_of_expr(items@[k]@),
                decreases items@.len() - i,
            {
                proof {
                    assert(decreases_to!(*expr => expr.kind));
                    assert(decreases_to!(expr.kind => (expr.kind)->List_0));
                    assert(decreases_to!(*items => items[i as int]));
                }
                out.push(expr_to_datum(&items[i]));
                i += 1;
            }
            proof {
                lemma_exprs_view_all(items@);
                lemma_datums_view_all(out@);
                let ev = exprs_view(items@, items@.len() as int);
                lemma_datums_of_exprs_all(ev, ev.len() as int);
                assert(datums_view(out@, out@.len() as int) =~= datums_of_exprs(ev, ev.len() as int));
            }
            Datum::List(out)
        },
    }
}

/// The name a symbol is spelled with.
pub fn symbol_name(symbol: &Symbol) -> (r: String)
    ensures
        r@ == symbol_expr_text(symbol@),
{
    let mut text: Vec<char> = Vec::new();
    symbol.push_text(&mut text);
    proof {
        lemma_symbol_text(*symbol);
    }
    crate::text::string_from_chars(text.as_slice())
}

/// Converts a datum back into reader syntax with no properties. A
/// generated symbol stays that generated symbol.
pub fn datum_to_expr(datum: &Datum) -> (r: Expr)
    ensures
        r@ == expr_of_datum(datum@),
    decreases datum,
{
    match datum {
        Datum::Integer(value) => Expr::integer(*value),
        Datum::Bool(value) => Expr::bool(*value),
        Datum::String(value) => Expr::string(value.as_str()),
        Datum::Symbol(symbol) => match symbol {
            Symbol::Interned(name) => Expr::symbol(name.as_str()),
            Symbol::Generated { .. } => Expr::new(ExprKind::GeneratedSymbol(symbol.copy())),
        },
        Datum::List(items) => {
            let mut out: Vec<Expr> = Vec::new();
            let mut i: usize = 0;
            proof {
                lemma_datums_view_all(items@);
            }
            while i < items.len()
                invariant
                    *datum == Datum::List(*items),
                    i <= items@.len(),
                    out@.len() == i,
                    forall|k: int| 0 <= k < i ==> #[trigger] out@[k]@ == expr_of_datum(items@[k]@),
                decreases items@.len() - i,
            {
                proof {
                    assert(decreases_to!(*datum => (*datum)->List_0));
                    assert(decreases_to!(*items => items[i as int]));
                }
                out.push(datum_to_expr(&items[i]));
                i += 1;
            }
            proof {
                lemma_exprs_view_all(out@);
                lemma_datums_view_all(items@);
                let dv = datums_view(items@, items@.len() as int);
                lemma_exprs_of_datums_all(dv, dv.len() as int);
                assert(exprs_view(out@, out@.len() as int) =~= exprs_of_datums(dv, dv.len() as int));
            }
            Expr::list(out)
        },
    }
}


/// Whether every generated-symbol node of `e` holds a generated symbol
/// (an interned one is written as an ordinary symbol).
pub open spec fn gensyms_generated(e: ExprV) -> bool
    decreases e,
{
    match e.kind {
        ExprKindV::GeneratedSymbol(s) => s is Generated,
        ExprKindV::List(items) => forall|k: int| 0 <= k < items.len() ==> gensyms_generated(#[trigger] items[k]),
        _ => true,
    }
}

/// `e` with the properties of every node removed.
pub open spec fn strip_properties(e: ExprV) -> ExprV
    decreases e,
{
    ExprV {
        kind: match e.kind {
            ExprKindV::List(items) => ExprKindV::List(strip_all(items, items.len() as int)),
            other => other,
        },
        properties: Map::empty(),
    }
}

pub open spec fn strip_all(items: Seq<ExprV>, n: int) -> Seq<ExprV>
    decreases items, n,
{
    if n <= 0 || n > items.len() {
        Seq::empty()
    } else {
        strip_all(items, n - 1).push(strip_properties(items[n - 1]))
    }
}

proof fn lemma_strip_all(items: Seq<ExprV>, n: int)
    requires
        0 <= n <= items.len(),
    ensures
        strip_all(items, n).len() == n,
        forall|k: int| 0 <= k < n ==> #[trigger] strip_all(items, n)[k] == strip_properties(items[k]),
    decreases n,
{
    if n > 0 {
        lemma_strip_all(items, n - 1);
    }
}

/// Turning a datum into reader syntax and back gives the same datum;
/// generated symbols keep their identity.
pub proof fn law_datum_round_trip(d: DatumV)
    ensures
        datum_of_expr(expr_of_datum(d)) == d,
    decreases d,
{
    if let DatumV::List(items) = d {
        let es = exprs_of_datums(items, items.len() as int);
        lemma_exprs_of_datums_all(items, items.len() as int);
        lemma_datums_of_exprs_all(es, es.len() as int);
        assert forall|k: int| 0 <= k < items.len() implies datums_of_exprs(es, es.len() as int)[k] == items[k] by {
            assert(decreases_to!(d => d->List_0));
            assert(decreases_to!(items => items[k]));
            law_datum_round_trip(items[k]);
        }
        assert(datums_of_exprs(es, es.len() as int) =~= items);
    }
}

/// Turning reader syntax into a datum and back gives the same syntax with
/// its properties removed.
pub proof fn law_expr_round_trip(e: ExprV)
    requires
        gensyms_generated(e),
    ensures
        expr_of_datum(datum_of_expr(e)) == strip_properties(e),
    decreases e,
{
    if let ExprKindV::List(items) = e.kind {
        let ds = datums_of_exprs(items, items.len() as int);
        lemma_datums_of_exprs_all(items, items.len() as int);
        lemma_exprs_of_datums_all(ds, ds.len() as int);
        assert forall|k: int| 0 <= k < items.len() implies exprs_of_datums(ds, ds.len() as int)[k] == strip_properties(items[k]) by {
            assert(decreases_to!(e => e.kind));
            assert(decreases_to!(e.kind => (e.kind)->List_0));
            assert(decreases_to!(items => items[k]));
            law_expr_round_trip(items[k]);
        }
        lemma_strip_all(items, items.len() as int);
        assert(exprs_of_datums(ds, ds.len() as int) =~= strip_all(items, items.len() as int));
    }
}

proof fn lemma_symbol_text(s: Symbol)
    ensures
        s.spec_text() == symbol_expr_text(s@),
{
}

/// How a datum prints: integers and booleans as Rust prints them, strings
/// quoted as `{:?}` quotes them, symbols by name, lists in parentheses with
/// single spaces between items.
pub open spec fn datum_text(d: DatumV) -> Seq<char>
    decreases d, 0int,
{
    match d {
        DatumV::Integer(n) => int_decimal(n as int),
        DatumV::Bool(b) => if b { "true"@ } else { "false"@ },
        DatumV::String(s) => debug_quoted(s),
        DatumV::Symbol(s) => symbol_expr_text(s),
        DatumV::List(items) => "("@ + datums_text(items, 0) + ")"@,
    }
}

/// The items of `items[i..]`, each preceded by a space but the first.
pub open spec fn datums_text(items: Seq<DatumV>, i: int) -> Seq<char>
    decreases items, items.len() - i,
{
    if i < 0 || i >= items.len() {
        Seq::empty()
    } else {
        (if i == 0 { Seq::empty() } else { " "@ }) + datum_text(items[i]) + datums_text(items, i + 1)
    }
}

impl Datum {
    /// Appends the printed form of this datum to `out`.
    pub fn push_text(&self, out: &mut Vec<char>)
        ensures
            final(out)@ == old(out)@ + datum_text(self@),
        decreases self,
    {
        match self {
            Datum::Integer(n) => push_i64_decimal(*n, out),
            Datum::Bool(b) => {
                if *b {
                    push_str(out, "true");
                } else {
                    push_str(out, "false");
                }
            },
            Datum::String(s) => {
                let q = debug_quote(s.as_str());
                push_str(out, q.as_str());
            },
            Datum::Symbol(s) => {
                s.push_text(out);
                proof {
                    lemma_symbol_text(*s);
                }
            },
            Datum::List(items) => {
                let ghost dv = datums_view(items@, items@.len() as int);
                proof {
                    lemma_datums_view_all(items@);
                }
                push_str(out, "(");
                let ghost start = out@;
                let mut i: usize = 0;
                while i < items.len()
                    invariant
                        *self == Datum::List(*items),
                        dv == datums_view(items@, items@.len() as int),
                        dv.len() == items@.len(),
                        forall|k: int| 0 <= k < items@.len() ==> #[trigger] dv[k] == items@[k]@,
                        i <= items@.len(),
                        start + datums_text(dv, 0) == out@ + datums_text(dv, i as int),
                    decreases items@.len() - i,
                {
                    proof {
                        assert(decreases_to!(*self => (*self)->List_0));
                        assert(decreases_to!(*items => items[i as int]));
                    }
                    let ghost before = out@;
                    if i > 0 {
                        push_str(out, " ");
                    }
                    items[i].push_text(out);
                    proof {
                        assert(before + datums_text(dv, i as int) =~= out@ + datums_text(dv, i + 1));
                    }
                    i += 1;
                }
                push_str(out, ")");
                proof {
                    assert(out@ =~= old(out)@ + datum_text(self@));
                }
            },
        }
    }
}


/// Two symbols are the same symbol: interned ones by name, generated ones
/// by id (never an interned and a generated one).
pub open spec fn same_symbol_v(a: SymbolV, b: SymbolV) -> bool {
    match (a, b) {
        (SymbolV::Interned(x), SymbolV::Interned(y)) => x == y,
        (SymbolV::Generated { id: x, .. }, SymbolV::Generated { id: y, .. }) => x == y,
        _ => false,
    }
}

/// Two data are equal: atoms by value, symbols by identity, lists item by
/// item.
pub open spec fn datum_equal(a: DatumV, b: DatumV) -> bool
    decreases a,
{
    match (a, b) {
        (DatumV::Integer(x), DatumV::Integer(y)) => x == y,
        (DatumV::Bool(x), DatumV::Bool(y)) => x == y,
        (DatumV::String(x), DatumV::String(y)) => x == y,
        (DatumV::Symbol(x), DatumV::Symbol(y)) => same_symbol_v(x, y),
        (DatumV::List(xs), DatumV::List(ys)) => xs.len() == ys.len()
            && forall|k: int| 0 <= k < xs.len() ==> datum_equal(#[trigger] xs[k], ys[k]),
        _ => false,
    }
}

/// Whether two data are equal (see [`datum_equal`]).
pub fn data_equal(a: &Datum, b: &Datum) -> (r: bool)
    ensures
        r == datum_equal(a@, b@),
    decreases a,
{
    match (a, b) {
        (Datum::Integer(x), Datum::Integer(y)) => *x == *y,
        (Datum::Bool(x), Datum::Bool(y)) => *x == *y,
        (Datum::String(x), Datum::String(y)) => crate::text::str_eq(x.as_str(), y.as_str()),
        (Datum::Symbol(x), Datum::Symbol(y)) => x.same(y),
        (Datum::List(xs), Datum::List(ys)) => {
            proof {
                lemma_datums_view_all(xs@);
                lemma_datums_view_all(ys@);
            }
            if xs.len() != ys.len() {
                return false;
            }
            let mut i: usize = 0;
            while i < xs.len()
                invariant
                    *a == Datum::List(*xs),
                    *b == Datum::List(*ys),
                    xs@.len() == ys@.len(),
                    i <= xs@.len(),
                    forall|k: int| 0 <= k < i ==> datum_equal(#[trigger] xs@[k]@, ys@[k]@),
                decreases xs@.len() - i,
            {
                proof {
                    assert(decreases_to!(*a => (*a)->List_0));
                    assert(decreases_to!(*xs => xs[i as int]));
                }
                if !data_equal(&xs[i], &ys[i]) {
                    proof {
                        lemma_datums_view_all(xs@);
                        lemma_datums_view_all(ys@);
                        assert(datums_view(xs@, xs@.len() as int)[i as int] == xs@[i as int]@);
                        assert(datums_view(ys@, ys@.len() as int)[i as int] == ys@[i as int]@);
                        assert(!datum_equal(datums_view(xs@, xs@.len() as int)[i as int], datums_view(ys@, ys@.len() as int)[i as int]));
                        assert(a@ == DatumV::List(datums_view(xs@, xs@.len() as int)));
                        assert(b@ == DatumV::List(datums_view(ys@, ys@.len() as int)));
                        assert(!datum_equal(a@, b@));
                    }
                    return false;
                }
                i += 1;
            }
            proof {
                lemma_datums_view_all(xs@);
                lemma_datums_view_all(ys@);
                let xv = datums_view(xs@, xs@.len() as int);
                let yv = datums_view(ys@, ys@.len() as int);
                assert forall|k: int| 0 <= k < xv.len() implies datum_equal(#[trigger] xv[k], yv[k]) by {
                    assert(xv[k] == xs@[k]@);
                    assert(yv[k] == ys@[k]@);
                }
            }
            true
        },
        _ => false,
    }
}

impl Datum {
    /// The printed form of this datum.
    pub fn display_text(&self) -> (r: String)
        ensures
            r@ == datum_text(self@),
    {
        let mut out: Vec<char> = Vec::new();
        self.push_text(&mut out);
        crate::text::string_from_chars(out.as_slice())
    }
}

impl Expr {
    /// The printed form of the datum this expression denotes (properties
    /// are not shown).
    pub fn display_text(&self) -> (r: String)
        ensures
            r@ == datum_text(datum_of_expr(self@)),
    {
        expr_to_datum(self).display_text()
    }
}

} // verus!
