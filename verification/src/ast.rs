//! Reader syntax: S-expressions, each carrying an (initially empty) set of
//! syntax properties.
use vstd::prelude::*;
use crate::property::{Properties, PropertyValue, PropertyValueV};
use crate::symbol::{Symbol, SymbolV};

verus! {

broadcast use vstd::std_specs::vec::group_vec_axioms;

#[derive(Debug, PartialEq, Eq)]
pub struct Expr {
    pub kind: ExprKind,
    pub properties: Properties,
}

#[derive(Debug, PartialEq, Eq)]
pub enum ExprKind {
    Int(i64),
    Bool(bool),
    String(String),
    Symbol(String),
    /// A symbol made by `gensym`, kept with its identity rather than
    /// spelled out as text.
    GeneratedSymbol(Symbol),
    List(Vec<Expr>),
}

/// The mathematical model of an expression.
pub struct ExprV {
    pub kind: ExprKindV,
    pub properties: Map<Seq<char>, PropertyValueV>,
}

pub enum ExprKindV {
    Int(i64),
    Bool(bool),
    String(Seq<char>),
    Symbol(Seq<char>),
    GeneratedSymbol(SymbolV),
    List(Seq<ExprV>),
}

/// Views of the first `n` expressions of `items`.
pub open spec fn exprs_view(items: Seq<Expr>, n: int) -> Seq<ExprV>
    decreases items, n,
{
    if n <= 0 || n > items.len() {
        Seq::empty()
    } else {
        exprs_view(items, n - 1).push(items[n - 1].view())
    }
}

pub proof fn lemma_exprs_view_len(items: Seq<Expr>, n: int)
    requires
        0 <= n <= items.len(),
    ensures
        exprs_view(items, n).len() == n,
    decreases n,
{
    if n > 0 {
        lemma_exprs_view_len(items, n - 1);
    }
}

pub proof fn lemma_expr_list_view_len(items: Seq<Expr>)
    ensures
        exprs_view(items, items.len() as int).len() == items.len(),
{
    lemma_exprs_view_len(items, items.len() as int);
}

pub proof fn lemma_exprs_view_index_n(items: Seq<Expr>, n: int, k: int)
    requires
        0 <= k < n <= items.len(),
    ensures
        exprs_view(items, n)[k] == items[k]@,
    decreases n,
{
    lemma_exprs_view_len(items, n - 1);
    if k < n - 1 {
        lemma_exprs_view_index_n(items, n - 1, k);
    }
}

/// Element `k` of the full list view is the view of element `k`.
pub proof fn lemma_exprs_view_index(items: Seq<Expr>, k: int)
    requires
        0 <= k < items.len(),
    ensures
        exprs_view(items, items.len() as int)[k] == items[k]@,
{
    lemma_exprs_view_index_n(items, items.len() as int, k);
}

pub proof fn lemma_exprs_view_all(items: Seq<Expr>)
    ensures
        exprs_view(items, items.len() as int).len() == items.len(),
        forall|k: int| 0 <= k < items.len() ==> #[trigger] exprs_view(items, items.len() as int)[k] == items[k]@,
{
    lemma_expr_list_view_len(items);
    assert forall|k: int| 0 <= k < items.len() implies #[trigger] exprs_view(items, items.len() as int)[k] == items[k]@ by {
        lemma_exprs_view_index(items, k);
    }
}

pub proof fn lemma_exprs_view_push(items: Seq<Expr>, e: Expr)
    ensures
        exprs_view(items.push(e), items.len() as int + 1) == exprs_view(items, items.len() as int).push(e@),
{
    lemma_exprs_view_all(items);
    lemma_exprs_view_all(items.push(e));
    assert(exprs_view(items.push(e), items.len() as int + 1) =~= exprs_view(items, items.len() as int).push(e@));
}

impl Expr {
    pub open spec fn view(&self) -> ExprV
        decreases self, 0int,
    {
        ExprV {
            kind: match &self.kind {
                ExprKind::Int(n) => ExprKindV::Int(*n),
                ExprKind::Bool(b) => ExprKindV::Bool(*b),
                ExprKind::String(s) => ExprKindV::String(s@),
                ExprKind::Symbol(s) => ExprKindV::Symbol(s@),
                ExprKind::GeneratedSymbol(s) => ExprKindV::GeneratedSymbol(s@),
                ExprKind::List(items) => ExprKindV::List(exprs_view(items@, items@.len() as int)),
            },
            properties: self.properties@,
        }
    }

    pub open spec fn spec_kind(&self) -> &ExprKind {
        &self.kind
    }

    pub open spec fn spec_properties(&self) -> &Properties {
        &self.properties
    }

    pub fn new(kind: ExprKind) -> (r: Self)
        ensures
            r.kind == kind,
            r@.properties == Map::<Seq<char>, PropertyValueV>::empty(),
    {
        Self::with_properties(kind, Properties::new())
    }

    pub fn with_properties(kind: ExprKind, properties: Properties) -> (r: Self)
        ensures
            r.kind == kind,
            r.properties == properties,
    {
        Self { kind, properties }
    }

    pub fn kind(&self) -> (r: &ExprKind)
        ensures
            *r == self.kind,
    {
        &self.kind
    }

    pub fn kind_mut(&mut self) -> (r: &mut ExprKind)
        ensures
            *r == old(self).kind,
            final(self).kind == *final(r),
            final(self).properties == old(self).properties,
    {
        &mut self.kind
    }

    pub fn properties(&self) -> (r: &Properties)
        ensures
            *r == self.properties,
    {
        &self.properties
    }

    pub fn properties_mut(&mut self) -> (r: &mut Properties)
        ensures
            *r == old(self).properties,
            final(self).properties == *final(r),
            final(self).kind == old(self).kind,
    {
        &mut self.properties
    }

    pub fn get_property(&self, key: &str) -> (r: Option<&PropertyValue>)
        ensures
            match r {
                Some(v) => self@.properties.contains_key(key@) && self@.properties[key@] == v@,
                None => !self@.properties.contains_key(key@),
            },
    {
        self.properties.get(key)
    }

    pub fn set_property(&mut self, key: &str, value: PropertyValue) -> (r: Option<PropertyValue>)
        ensures
            final(self).kind == old(self).kind,
            final(self)@.properties == old(self)@.properties.insert(key@, value@),
            match r {
                Some(v) => old(self)@.properties.contains_key(key@) && old(self)@.properties[key@] == v@,
                None => !old(self)@.properties.contains_key(key@),
            },
    {
        self.properties.insert(key, value)
    }

    pub fn with_property(self, key: &str, value: PropertyValue) -> (r: Self)
        ensures
            r.kind == self.kind,
            r@.properties == self@.properties.insert(key@, value@),
    {
        let mut e = self;
        e.set_property(key, value);
        e
    }

    pub fn integer(n: i64) -> (r: Self)
        ensures
            r@ == (ExprV { kind: ExprKindV::Int(n), properties: Map::empty() }),
    {
        Self::new(ExprKind::Int(n))
    }

    pub fn bool(value: bool) -> (r: Self)
        ensures
            r@ == (ExprV { kind: ExprKindV::Bool(value), properties: Map::empty() }),
    {
        Self::new(ExprKind::Bool(value))
    }

    pub fn string(value: &str) -> (r: Self)
        ensures
            r@ == (ExprV { kind: ExprKindV::String(value@), properties: Map::empty() }),
    {
        Self::new(ExprKind::String(value.to_owned()))
    }

    pub fn symbol(value: &str) -> (r: Self)
        ensures
            r@ == (ExprV { kind: ExprKindV::Symbol(value@), properties: Map::empty() }),
    {
        Self::new(ExprKind::Symbol(value.to_owned()))
    }

    pub fn list(items: Vec<Self>) -> (r: Self)
        ensures
            r@ == (ExprV {
                kind: ExprKindV::List(exprs_view(items@, items@.len() as int)),
                properties: Map::empty(),
            }),
    {
        Self::new(ExprKind::List(items))
    }

    /// A deep copy, properties included.
    pub fn copy(&self) -> (r: Self)
        ensures
            r@ == self@,
        decreases self,
    {
        let kind = match &self.kind {
            ExprKind::Int(n) => ExprKind::Int(*n),
            ExprKind::Bool(b) => ExprKind::Bool(*b),
            ExprKind::String(s) => ExprKind::String(s.clone()),
            ExprKind::Symbol(s) => ExprKind::Symbol(s.clone()),
            ExprKind::GeneratedSymbol(s) => ExprKind::GeneratedSymbol(s.copy()),
            ExprKind::List(items) => {
                let mut out: Vec<Expr> = Vec::new();
                let mut i: usize = 0;
                while i < items.len()
                    invariant
                        self.kind == ExprKind::List(*items),
                        i <= items@.len(),
                        out@.len() == i,
                        forall|k: int| 0 <= k < i ==> #[trigger] out@[k]@ == items@[k]@,
                    decreases items@.len() - i,
                {
                    proof {
                        assert(decreases_to!(*self => self.kind));
                        assert(decreases_to!(self.kind => (self.kind)->List_0));
                        assert(decreases_to!(*items => items[i as int]));
                    }
                    out.push(items[i].copy());
                    i += 1;
                }
                proof {
                    lemma_exprs_view_all(out@);
                    lemma_exprs_view_all(items@);
                    assert(exprs_view(out@, out@.len() as int) =~= exprs_view(items@, items@.len() as int));
                }
                ExprKind::List(out)
            },
        };
        Expr { kind, properties: self.properties.copy() }
    }
}

impl Clone for Expr {
    fn clone(&self) -> (r: Self)
        ensures
            r@ == self@,
    {
        self.copy()
    }
}

} // verus!
