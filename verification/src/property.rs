//! Syntax properties: inert, deterministic key/value metadata that can be
//! attached to reader and core expressions. Keys are kept in ascending
//! lexicographic order, so iteration order never depends on insertion
//! order.
use vstd::prelude::*;
use crate::ast::{Expr, ExprKind, ExprKindV, ExprV};
use crate::order::{
    chars_lt, compare_chars, lemma_chars_lt_asymmetric, lemma_chars_lt_irreflexive,
    lemma_chars_lt_total, lemma_chars_lt_transitive,
};
use crate::symbol::{Symbol, SymbolV};
use crate::text::str_chars;

verus! {

broadcast use vstd::std_specs::vec::group_vec_axioms;

#[derive(Debug, PartialEq, Eq)]
pub enum PropertyValue {
    Int(i64),
    Bool(bool),
    String(String),
    Symbol(String),
    GeneratedSymbol(Symbol),
    List(Vec<PropertyValue>),
}

/// The mathematical model of a property value.
pub enum PropertyValueV {
    Int(i64),
    Bool(bool),
    String(Seq<char>),
    Symbol(Seq<char>),
    GeneratedSymbol(SymbolV),
    List(Seq<PropertyValueV>),
}

impl PropertyValue {
    pub open spec fn view(&self) -> PropertyValueV
        decreases self, 0int,
    {
        match self {
            PropertyValue::Int(n) => PropertyValueV::Int(*n),
            PropertyValue::Bool(b) => PropertyValueV::Bool(*b),
            PropertyValue::String(s) => PropertyValueV::String(s@),
            PropertyValue::Symbol(s) => PropertyValueV::Symbol(s@),
            PropertyValue::GeneratedSymbol(s) => PropertyValueV::GeneratedSymbol(s.view()),
            PropertyValue::List(items) => PropertyValueV::List(
                property_values_view(items@, items@.len() as int),
            ),
        }
    }

    /// A deep copy.
    pub fn copy(&self) -> (r: PropertyValue)
        ensures
            r@ == self@,
        decreases self,
    {
        match self {
            PropertyValue::Int(n) => PropertyValue::Int(*n),
            PropertyValue::Bool(b) => PropertyValue::Bool(*b),
            PropertyValue::String(s) => PropertyValue::String(s.clone()),
            PropertyValue::Symbol(s) => PropertyValue::Symbol(s.clone()),
            PropertyValue::GeneratedSymbol(s) => PropertyValue::GeneratedSymbol(s.copy()),
            PropertyValue::List(items) => {
                let mut out: Vec<PropertyValue> = Vec::new();
                let mut i: usize = 0;
                while i < items.len()
                    invariant
                        *self == PropertyValue::List(*items),
                        i <= items@.len(),
                        out@.len() == i,
                        forall|k: int| 0 <= k < i ==> #[trigger] out@[k]@ == items@[k]@,
                    decreases items@.len() - i,
                {
                    proof {
                        assert(decreases_to!(*self => (*self)->List_0));
                        assert(decreases_to!(*items => items[i as int]));
                    }
                    let c = items[i].copy();
                    out.push(c);
                    i += 1;
                }
                proof {
                    lemma_property_values_view_index_all(out@);
                    lemma_property_values_view_index_all(items@);
                    assert(property_values_view(out@, out@.len() as int) =~= property_values_view(items@, items@.len() as int));
                }
                PropertyValue::List(out)
            },
        }
    }

    /// Converts reader syntax into inert property data; lists are never evaluated.
    pub fn from_expr(expr: &Expr) -> (r: PropertyValue)
        ensures
            r@ == property_value_of(expr@),
        decreases expr,
    {
        match expr.kind() {
            ExprKind::Int(value) => PropertyValue::Int(*value),
            ExprKind::Bool(value) => PropertyValue::Bool(*value),
            ExprKind::String(value) => PropertyValue::String(value.clone()),
            ExprKind::Symbol(value) => PropertyValue::Symbol(value.clone()),
            ExprKind::GeneratedSymbol(symbol) => PropertyValue::Symbol(crate::datum::symbol_name(symbol)),
            ExprKind::List(items) => {
                let mut out: Vec<PropertyValue> = Vec::new();
                let mut i: usize = 0;
                proof {
                    crate::ast::lemma_expr_list_view_len(items@);
                }
                while i < items.len()
                    invariant
                        expr.kind == ExprKind::List(*items),
                        i <= items@.len(),
                        out@.len() == i,
                        expr@.kind == ExprKindV::List(crate::ast::exprs_view(items@, items@.len() as int)),
                        crate::ast::exprs_view(items@, items@.len() as int).len() == items@.len(),
                        forall|k: int|
                            0 <= k < i ==> #[trigger] out@[k]@ == property_value_of(
                                crate::ast::exprs_view(items@, items@.len() as int)[k],
                            ),
                    decreases items@.len() - i,
                {
                    proof {
                        crate::ast::lemma_exprs_view_index(items@, i as int);
                        assert(decreases_to!(*expr => expr.kind));
                        assert(decreases_to!(expr.kind => (expr.kind)->List_0));
                        assert(decreases_to!(*items => items[i as int]));
                    }
                    let c = PropertyValue::from_expr(&items[i]);
                    out.push(c);
                    i += 1;
                }
                proof {
                    lemma_property_values_view_index_all(out@);
                    let ev = crate::ast::exprs_view(items@, items@.len() as int);
                    lemma_property_values_of_all(ev);
                    assert(property_values_view(out@, out@.len() as int) =~= property_values_of(
                        ev,
                        ev.len() as int,
                    ));
                }
                PropertyValue::List(out)
            },
        }
    }
}

impl Clone for PropertyValue {
    fn clone(&self) -> (r: Self)
        ensures
            r@ == self@,
    {
        self.copy()
    }
}

/// Views of the first `n` values of `items`.
pub open spec fn property_values_view(items: Seq<PropertyValue>, n: int) -> Seq<PropertyValueV>
    decreases items, n,
{
    if n <= 0 || n > items.len() {
        Seq::empty()
    } else {
        property_values_view(items, n - 1).push(items[n - 1].view())
    }
}


pub proof fn lemma_property_values_view_len(items: Seq<PropertyValue>, n: int)
    requires
        0 <= n <= items.len(),
    ensures
        property_values_view(items, n).len() == n,
    decreases n,
{
    if n > 0 {
        lemma_property_values_view_len(items, n - 1);
    }
}

pub proof fn lemma_property_values_view_index(items: Seq<PropertyValue>, n: int, k: int)
    requires
        0 <= k < n <= items.len(),
    ensures
        property_values_view(items, n)[k] == items[k]@,
    decreases n,
{
    lemma_property_values_view_len(items, n - 1);
    if k < n - 1 {
        lemma_property_values_view_index(items, n - 1, k);
    }
}

pub proof fn lemma_property_values_view_index_all(items: Seq<PropertyValue>)
    ensures
        property_values_view(items, items.len() as int).len() == items.len(),
        forall|k: int|
            0 <= k < items.len() ==> #[trigger] property_values_view(items, items.len() as int)[k]
                == items[k]@,
{
    lemma_property_values_view_len(items, items.len() as int);
    assert forall|k: int| 0 <= k < items.len() implies #[trigger] property_values_view(
        items,
        items.len() as int,
    )[k] == items[k]@ by {
        lemma_property_values_view_index(items, items.len() as int, k);
    }
}

/// The property value a piece of reader syntax denotes (its properties are dropped).
pub open spec fn property_value_of(e: ExprV) -> PropertyValueV
    decreases e,
{
    match e.kind {
        ExprKindV::Int(n) => PropertyValueV::Int(n),
        ExprKindV::Bool(b) => PropertyValueV::Bool(b),
        ExprKindV::String(s) => PropertyValueV::String(s),
        ExprKindV::Symbol(s) => PropertyValueV::Symbol(s),
        ExprKindV::GeneratedSymbol(s) => PropertyValueV::Symbol(crate::datum::symbol_expr_text(s)),
        ExprKindV::List(items) => PropertyValueV::List(property_values_of(items, items.len() as int)),
    }
}

/// Property values of the first `n` expressions of `items`.
pub open spec fn property_values_of(items: Seq<ExprV>, n: int) -> Seq<PropertyValueV>
    decreases items, n,
{
    if n <= 0 || n > items.len() {
        Seq::empty()
    } else {
        property_values_of(items, n - 1).push(property_value_of(items[n - 1]))
    }
}

pub proof fn lemma_property_values_of_len(items: Seq<ExprV>, n: int)
    requires
        0 <= n <= items.len(),
    ensures
        property_values_of(items, n).len() == n,
    decreases n,
{
    if n > 0 {
        lemma_property_values_of_len(items, n - 1);
    }
}

pub proof fn lemma_property_values_of_index(items: Seq<ExprV>, n: int, k: int)
    requires
        0 <= k < n <= items.len(),
    ensures
        property_values_of(items, n)[k] == property_value_of(items[k]),
    decreases n,
{
    lemma_property_values_of_len(items, n - 1);
    if k < n - 1 {
        lemma_property_values_of_index(items, n - 1, k);
    }
}

pub proof fn lemma_property_values_of_all(items: Seq<ExprV>)
    ensures
        property_values_of(items, items.len() as int).len() == items.len(),
        forall|k: int| 0 <= k < items.len() ==> #[trigger] property_values_of(items, items.len() as int)[k] == property_value_of(items[k]),
{
    lemma_property_values_of_len(items, items.len() as int);
    assert forall|k: int| 0 <= k < items.len() implies #[trigger] property_values_of(items, items.len() as int)[k] == property_value_of(items[k]) by {
        lemma_property_values_of_index(items, items.len() as int, k);
    }
}

#[derive(Debug, PartialEq, Eq)]
pub struct Properties {
    entries: Vec<(String, PropertyValue)>,
}

impl Properties {
    /// Keys are strictly ascending.
    #[verifier::type_invariant]
    pub closed spec fn sorted(self) -> bool {
        forall|i: int, j: int|
            0 <= i < j < self.entries@.len() ==> chars_lt(
                #[trigger] self.entries@[i].0@,
                #[trigger] self.entries@[j].0@,
            )
    }

    /// The stored keys, in iteration order.
    pub closed spec fn spec_keys(self) -> Seq<Seq<char>> {
        self.entries@.map_values(|e: (String, PropertyValue)| e.0@)
    }

    pub closed spec fn has_key(self, k: Seq<char>) -> bool {
        exists|i: int| 0 <= i < self.entries@.len() && #[trigger] self.entries@[i].0@ == k
    }

    pub closed spec fn key_index(self, k: Seq<char>) -> int {
        choose|i: int| 0 <= i < self.entries@.len() && #[trigger] self.entries@[i].0@ == k
    }

    /// The key/value map these properties hold.
    pub closed spec fn view(&self) -> Map<Seq<char>, PropertyValueV> {
        Map::new(|k: Seq<char>| self.has_key(k), |k: Seq<char>| self.entries@[self.key_index(k)].1@)
    }

    proof fn lemma_entry(self, i: int)
        requires
            self.sorted(),
            0 <= i < self.entries@.len(),
        ensures
            self@.contains_key(self.entries@[i].0@),
            self@[self.entries@[i].0@] == self.entries@[i].1@,
            self.key_index(self.entries@[i].0@) == i,
    {
        let k = self.entries@[i].0@;
        assert(self.has_key(k));
        let j = self.key_index(k);
        if j != i {
            if j < i {
                assert(chars_lt(self.entries@[j].0@, self.entries@[i].0@));
            } else {
                assert(chars_lt(self.entries@[i].0@, self.entries@[j].0@));
            }
            lemma_chars_lt_irreflexive(k);
        }
    }

    pub fn new() -> (r: Self)
        ensures
            r@ == Map::<Seq<char>, PropertyValueV>::empty(),
    {
        let r = Properties { entries: Vec::new() };
        assert(r@ =~= Map::<Seq<char>, PropertyValueV>::empty());
        r
    }

    pub fn is_empty(&self) -> (r: bool)
        ensures
            r == (self@.dom().len() == 0),
            r == (self@ == Map::<Seq<char>, PropertyValueV>::empty()),
    {
        proof {
            use_type_invariant(self);
            self.lemma_dom_len();
        }
        let r = self.entries.len() == 0;
        proof {
            if r {
                assert(self@ =~= Map::<Seq<char>, PropertyValueV>::empty());
            } else {
                self.lemma_entry(0);
            }
        }
        r
    }

    proof fn lemma_dom_len(self)
        requires
            self.sorted(),
        ensures
            self@.dom().finite(),
            self@.dom().len() == self.entries@.len(),
    {
        let keys = self.spec_keys();
        assert forall|i: int, j: int| 0 <= i < j < keys.len() implies keys[i] != keys[j] by {
            assert(chars_lt(self.entries@[i].0@, self.entries@[j].0@));
            lemma_chars_lt_irreflexive(keys[i]);
        }
        assert(keys.no_duplicates());
        assert(self@.dom() =~= keys.to_set()) by {
            assert forall|k: Seq<char>| self@.dom().contains(k) implies keys.to_set().contains(k) by {
                let i = self.key_index(k);
                assert(keys[i] == k);
            }
            assert forall|k: Seq<char>| keys.to_set().contains(k) implies self@.dom().contains(k) by {
                let i = choose|i: int| 0 <= i < keys.len() && keys[i] == k;
                assert(self.entries@[i].0@ == k);
            }
        }
        keys.unique_seq_to_set();
    }

    pub fn len(&self) -> (r: usize)
        ensures
            r == self@.dom().len(),
    {
        proof {
            use_type_invariant(self);
            self.lemma_dom_len();
        }
        self.entries.len()
    }

    /// Index of the first entry whose key is not below `key`, and whether
    /// that entry's key is `key` itself.
    fn locate(&self, key: &[char]) -> (r: (usize, bool))
        requires
            self.sorted(),
        ensures
            r.0 <= self.entries@.len(),
            forall|i: int| 0 <= i < r.0 ==> chars_lt(#[trigger] self.entries@[i].0@, key@),
            r.1 ==> r.0 < self.entries@.len() && self.entries@[r.0 as int].0@ == key@,
            !r.1 ==> forall|i: int|
                r.0 <= i < self.entries@.len() ==> chars_lt(key@, #[trigger] self.entries@[i].0@),
    {
        let mut i: usize = 0;
        while i < self.entries.len()
            invariant
                self.sorted(),
                i <= self.entries@.len(),
                forall|k: int| 0 <= k < i ==> chars_lt(#[trigger] self.entries@[k].0@, key@),
            decreases self.entries@.len() - i,
        {
            let k = str_chars(self.entries[i].0.as_str());
            let c = compare_chars(k.as_slice(), key);
            if c == 0 {
                return (i, true);
            } else if c == 1 {
                proof {
                    assert forall|j: int| i <= j < self.entries@.len() implies chars_lt(
                        key@,
                        #[trigger] self.entries@[j].0@,
                    ) by {
                        if j > i {
                            assert(chars_lt(self.entries@[i as int].0@, self.entries@[j].0@));
                            lemma_chars_lt_transitive(key@, self.entries@[i as int].0@, self.entries@[j].0@);
                        }
                    }
                }
                return (i, false);
            }
            i += 1;
        }
        (i, false)
    }

    pub fn get(&self, key: &str) -> (r: Option<&PropertyValue>)
        ensures
            match r {
                Some(v) => self@.contains_key(key@) && self@[key@] == v@,
                None => !self@.contains_key(key@),
            },
    {
        proof {
            use_type_invariant(self);
        }
        let kc = str_chars(key);
        let (i, found) = self.locate(kc.as_slice());
        if found {
            proof {
                self.lemma_entry(i as int);
            }
            Some(&self.entries[i].1)
        } else {
            proof {
                if self.has_key(key@) {
                    let j = self.key_index(key@);
                    if j < i {
                        lemma_chars_lt_irreflexive(key@);
                    } else {
                        lemma_chars_lt_irreflexive(key@);
                    }
                }
            }
            None
        }
    }

    /// Sets `key` to `value`, returning the value it replaced, if any.
    pub fn insert(&mut self, key: &str, value: PropertyValue) -> (r: Option<PropertyValue>)
        ensures
            final(self)@ == old(self)@.insert(key@, value@),
            match r {
                Some(v) => old(self)@.contains_key(key@) && old(self)@[key@] == v@,
                None => !old(self)@.contains_key(key@),
            },
    {
        proof {
            use_type_invariant(&*self);
        }
        let kc = str_chars(key);
        let (i, found) = self.locate(kc.as_slice());
        let ghost old_entries = self.entries@;
        let ghost old_self = *self;
        let mut entries: Vec<(String, PropertyValue)> = Vec::new();
            std::mem::swap(&mut entries, &mut self.entries);
        if found {
            proof {
                old_self.lemma_entry(i as int);
            }
            let (k, previous) = entries.remove(i);
            assert(previous == old_entries[i as int].1);
            assert(old_self@[key@] == previous@);
            assert(old_self == *old(self));
            entries.insert(i, (k, value));
            let ghost new_self = Properties { entries };
            proof {
                assert(new_self.sorted()) by {
                    assert forall|a: int, b: int|
                        0 <= a < b < new_self.entries@.len() implies chars_lt(
                        #[trigger] new_self.entries@[a].0@,
                        #[trigger] new_self.entries@[b].0@,
                    ) by {
                        assert(old_entries[a].0@ == new_self.entries@[a].0@);
                        assert(old_entries[b].0@ == new_self.entries@[b].0@);
                    }
                }
                new_self.lemma_map_update(old_self, i as int, key@, value@);
            }
            self.entries = entries;
            Some(previous)
        } else {
            proof {
                if old_self.has_key(key@) {
                    let j = old_self.key_index(key@);
                    lemma_chars_lt_irreflexive(key@);
                }
            }
            entries.insert(i, (key.to_owned(), value));
            let ghost new_self = Properties { entries };
            proof {
                assert(new_self.sorted()) by {
                    assert forall|a: int, b: int|
                        0 <= a < b < new_self.entries@.len() implies chars_lt(
                        #[trigger] new_self.entries@[a].0@,
                        #[trigger] new_self.entries@[b].0@,
                    ) by {
                        if b < i {
                            assert(chars_lt(old_entries[a].0@, old_entries[b].0@));
                        } else if b == i {
                        } else if a < i {
                            assert(chars_lt(old_entries[a].0@, key@));
                            assert(chars_lt(key@, old_entries[b - 1].0@));
                            lemma_chars_lt_transitive(old_entries[a].0@, key@, old_entries[b - 1].0@);
                        } else if a == i {
                        } else {
                            assert(chars_lt(old_entries[a - 1].0@, old_entries[b - 1].0@));
                        }
                    }
                }
                new_self.lemma_map_insert(old_self, i as int, key@, value@);
            }
            self.entries = entries;
            None
        }
    }

    proof fn lemma_map_update(self, old_self: Properties, i: int, k: Seq<char>, v: PropertyValueV)
        requires
            self.sorted(),
            old_self.sorted(),
            0 <= i < old_self.entries@.len(),
            self.entries@.len() == old_self.entries@.len(),
            old_self.entries@[i].0@ == k,
            self.entries@[i].0@ == k,
            self.entries@[i].1@ == v,
            forall|j: int| 0 <= j < self.entries@.len() && j != i ==> self.entries@[j] == old_self.entries@[j],
        ensures
            self@ == old_self@.insert(k, v),
    {
        self.lemma_entry(i);
        assert forall|kk: Seq<char>| #[trigger] self@.contains_key(kk) <==> old_self@.insert(k, v).contains_key(kk) by {
            if self.has_key(kk) {
                let j = self.key_index(kk);
                if j != i {
                    assert(old_self.entries@[j].0@ == kk);
                }
            }
            if old_self.has_key(kk) {
                let j = old_self.key_index(kk);
                if j != i {
                    assert(self.entries@[j].0@ == kk);
                }
            }
        }
        assert forall|kk: Seq<char>| #[trigger] self@.contains_key(kk) implies self@[kk] == old_self@.insert(k, v)[kk] by {
            assert(self.has_key(kk));
            let j = self.key_index(kk);
            assert(self.entries@[j].0@ == kk);
            self.lemma_entry(j);
            if j != i {
                old_self.lemma_entry(j);
                assert(kk != k);
            }
        }
        assert(self@ =~= old_self@.insert(k, v));
    }

    proof fn lemma_map_insert(self, old_self: Properties, i: int, k: Seq<char>, v: PropertyValueV)
        requires
            self.sorted(),
            old_self.sorted(),
            0 <= i <= old_self.entries@.len(),
            self.entries@.len() == old_self.entries@.len() + 1,
            self.entries@[i].0@ == k,
            self.entries@[i].1@ == v,
            forall|j: int| 0 <= j < i ==> self.entries@[j] == old_self.entries@[j],
            forall|j: int| i < j < self.entries@.len() ==> self.entries@[j] == old_self.entries@[j - 1],
        ensures
            self@ == old_self@.insert(k, v),
    {
        self.lemma_entry(i);
        assert forall|kk: Seq<char>| #[trigger] self@.contains_key(kk) <==> old_self@.insert(k, v).contains_key(kk) by {
            if self.has_key(kk) {
                let j = self.key_index(kk);
                if j < i {
                    assert(old_self.entries@[j].0@ == kk);
                } else if j > i {
                    assert(old_self.entries@[j - 1].0@ == kk);
                }
            }
            if old_self.has_key(kk) {
                let j = old_self.key_index(kk);
                if j < i {
                    assert(self.entries@[j].0@ == kk);
                } else {
                    assert(self.entries@[j + 1].0@ == kk);
                }
            }
        }
        assert forall|kk: Seq<char>| #[trigger] self@.contains_key(kk) implies self@[kk] == old_self@.insert(k, v)[kk] by {
            assert(self.has_key(kk));
            let j = self.key_index(kk);
            assert(self.entries@[j].0@ == kk);
            self.lemma_entry(j);
            if j < i {
                old_self.lemma_entry(j);
                assert(kk != k);
            } else if j > i {
                old_self.lemma_entry(j - 1);
                assert(kk != k);
            }
        }
        assert(self@ =~= old_self@.insert(k, v));
    }

    /// Removes `key`, returning the value it held, if any.
    pub fn remove(&mut self, key: &str) -> (r: Option<PropertyValue>)
        ensures
            final(self)@ == old(self)@.remove(key@),
            match r {
                Some(v) => old(self)@.contains_key(key@) && old(self)@[key@] == v@,
                None => !old(self)@.contains_key(key@),
            },
    {
        proof {
            use_type_invariant(&*self);
        }
        let kc = str_chars(key);
        let (i, found) = self.locate(kc.as_slice());
        let ghost old_self = *self;
        let ghost old_entries = self.entries@;
        if found {
            proof {
                old_self.lemma_entry(i as int);
            }
            let mut entries: Vec<(String, PropertyValue)> = Vec::new();
            std::mem::swap(&mut entries, &mut self.entries);
            let (_, previous) = entries.remove(i);
            let ghost new_self = Properties { entries };
            proof {
                assert(new_self.sorted()) by {
                    assert forall|a: int, b: int|
                        0 <= a < b < new_self.entries@.len() implies chars_lt(
                        #[trigger] new_self.entries@[a].0@,
                        #[trigger] new_self.entries@[b].0@,
                    ) by {
                        let oa = if a < i { a } else { a + 1 };
                        let ob = if b < i { b } else { b + 1 };
                        assert(new_self.entries@[a] == old_entries[oa]);
                        assert(new_self.entries@[b] == old_entries[ob]);
                        assert(chars_lt(old_entries[oa].0@, old_entries[ob].0@));
                    }
                }
                assert forall|kk: Seq<char>| #[trigger] new_self@.contains_key(kk) <==> old_self@.remove(key@).contains_key(kk) by {
                    if new_self.has_key(kk) {
                        let j = new_self.key_index(kk);
                        let oj = if j < i { j } else { j + 1 };
                        assert(old_entries[oj].0@ == kk);
                        old_self.lemma_entry(oj);
                    }
                    if old_self.has_key(kk) && kk != key@ {
                        let j = old_self.key_index(kk);
                        if j < i {
                            assert(new_self.entries@[j].0@ == kk);
                        } else {
                            assert(new_self.entries@[j - 1].0@ == kk);
                        }
                    }
                }
                assert forall|kk: Seq<char>| #[trigger] new_self@.contains_key(kk) implies new_self@[kk] == old_self@.remove(key@)[kk] by {
                    let j = new_self.key_index(kk);
                    new_self.lemma_entry(j);
                    let oj = if j < i { j } else { j + 1 };
                    old_self.lemma_entry(oj);
                }
                assert(new_self@ =~= old_self@.remove(key@));
            }
            self.entries = entries;
            Some(previous)
        } else {
            proof {
                if old_self.has_key(key@) {
                    let j = old_self.key_index(key@);
                    lemma_chars_lt_irreflexive(key@);
                }
                assert(old_self@ =~= old_self@.remove(key@));
            }
            None
        }
    }

    /// The entries in ascending key order.
    pub fn iter(&self) -> (r: &[(String, PropertyValue)])
        ensures
            r@.len() == self@.dom().len(),
            forall|i: int, j: int| 0 <= i < j < r@.len() ==> chars_lt(#[trigger] r@[i].0@, #[trigger] r@[j].0@),
            forall|i: int| 0 <= i < r@.len() ==> #[trigger] self@.contains_key(r@[i].0@) && self@[r@[i].0@] == r@[i].1@,
            forall|k: Seq<char>| #[trigger] self@.contains_key(k) ==> exists|i: int| 0 <= i < r@.len() && r@[i].0@ == k,
    {
        proof {
            use_type_invariant(self);
            self.lemma_dom_len();
            assert forall|i: int| 0 <= i < self.entries@.len() implies #[trigger] self@.contains_key(self.entries@[i].0@) && self@[self.entries@[i].0@] == self.entries@[i].1@ by {
                self.lemma_entry(i);
            }
            assert forall|k: Seq<char>| #[trigger] self@.contains_key(k) implies exists|i: int| 0 <= i < self.entries@.len() && self.entries@[i].0@ == k by {
                let i = self.key_index(k);
            }
        }
        self.entries.as_slice()
    }

    /// These properties with `key` set to `value`.
    pub fn with(self, key: &str, value: PropertyValue) -> (r: Self)
        ensures
            r@ == self@.insert(key@, value@),
    {
        let mut p = self;
        p.insert(key, value);
        p
    }

    /// Adds only keys not already present, preserving explicit inner metadata.
    pub fn merge_missing_from(&mut self, outer: &Self)
        ensures
            final(self)@ == outer@.union_prefer_right(old(self)@),
    {
        proof {
            use_type_invariant(outer);
        }
        let mut i: usize = 0;
        while i < outer.entries.len()
            invariant
                outer.sorted(),
                i <= outer.entries@.len(),
                self@ == Map::new(
                    |k: Seq<char>| old(self)@.contains_key(k) || exists|a: int| 0 <= a < i && (#[trigger] outer.entries@[a]).0@ == k,
                    |k: Seq<char>| if old(self)@.contains_key(k) { old(self)@[k] } else { outer@[k] },
                ),
            decreases outer.entries@.len() - i,
        {
            let key = outer.entries[i].0.as_str();
            let ghost before = self@;
            proof {
                outer.lemma_entry(i as int);
            }
            if self.get(key).is_none() {
                let v = outer.entries[i].1.copy();
                self.insert(key, v);
            }
            i += 1;
            proof {
                assert(self@ =~= Map::new(
                    |k: Seq<char>| old(self)@.contains_key(k) || exists|a: int| 0 <= a < i && (#[trigger] outer.entries@[a]).0@ == k,
                    |k: Seq<char>| if old(self)@.contains_key(k) { old(self)@[k] } else { outer@[k] },
                )) by {
                    assert forall|k: Seq<char>| #[trigger] self@.contains_key(k) implies (exists|a: int| 0 <= a < i && (#[trigger] outer.entries@[a]).0@ == k) || old(self)@.contains_key(k) by {
                        if k == outer.entries@[i - 1].0@ {
                            assert(outer.entries@[i - 1].0@ == k);
                        } else {
                            assert(before.contains_key(k));
                        }
                    }
                    assert forall|k: Seq<char>| (exists|a: int| 0 <= a < i && (#[trigger] outer.entries@[a]).0@ == k) implies #[trigger] self@.contains_key(k) by {
                        let a = choose|a: int| 0 <= a < i && (#[trigger] outer.entries@[a]).0@ == k;
                        if a < i - 1 {
                            assert(before.contains_key(k));
                        }
                    }
                }
            }
        }
        proof {
            assert forall|k: Seq<char>| #[trigger] outer@.contains_key(k) implies exists|a: int| 0 <= a < outer.entries@.len() && (#[trigger] outer.entries@[a]).0@ == k by {
                assert(outer.has_key(k));
                let a = outer.key_index(k);
                assert(outer.entries@[a].0@ == k);
            }
            assert forall|k: Seq<char>| (exists|a: int| 0 <= a < outer.entries@.len() && (#[trigger] outer.entries@[a]).0@ == k) implies #[trigger] outer@.contains_key(k) by {
                let a = choose|a: int| 0 <= a < outer.entries@.len() && (#[trigger] outer.entries@[a]).0@ == k;
                outer.lemma_entry(a);
            }
            assert(self@ =~= outer@.union_prefer_right(old(self)@));
        }
    }
}

impl Default for Properties {
    fn default() -> (r: Self)
        ensures
            r@ == Map::<Seq<char>, PropertyValueV>::empty(),
    {
        Properties::new()
    }
}

impl Clone for Properties {
    fn clone(&self) -> (r: Self)
        ensures
            r@ == self@,
    {
        self.copy()
    }
}

impl Properties {
    /// A deep copy.
    pub fn copy(&self) -> (r: Self)
        ensures
            r@ == self@,
    {
        proof {
            use_type_invariant(self);
        }
        let mut out: Vec<(String, PropertyValue)> = Vec::new();
        let mut i: usize = 0;
        while i < self.entries.len()
            invariant
                self.sorted(),
                i <= self.entries@.len(),
                out@.len() == i,
                forall|k: int| 0 <= k < i ==> (#[trigger] out@[k]).0@ == self.entries@[k].0@ && out@[k].1@ == self.entries@[k].1@,
            decreases self.entries@.len() - i,
        {
            let k = self.entries[i].0.clone();
            let v = self.entries[i].1.copy();
            out.push((k, v));
            i += 1;
        }
        let r = Properties { entries: out };
        proof {
            assert(r.sorted()) by {
                assert forall|a: int, b: int| 0 <= a < b < r.entries@.len() implies chars_lt(#[trigger] r.entries@[a].0@, #[trigger] r.entries@[b].0@) by {
                    assert(chars_lt(self.entries@[a].0@, self.entries@[b].0@));
                }
            }
            assert forall|k: Seq<char>| #[trigger] r@.contains_key(k) <==> self@.contains_key(k) by {
                if r.has_key(k) {
                    let j = r.key_index(k);
                    assert(self.entries@[j].0@ == k);
                }
                if self.has_key(k) {
                    let j = self.key_index(k);
                    assert(r.entries@[j].0@ == k);
                }
            }
            assert forall|k: Seq<char>| #[trigger] r@.contains_key(k) implies r@[k] == self@[k] by {
                let j = r.key_index(k);
                r.lemma_entry(j);
                self.lemma_entry(j);
            }
            assert(r@ =~= self@);
        }
        r
    }
}


/// Setting a property replaces it by key: reading the key back gives the
/// value written, and every other key reads as before.
pub proof fn law_insert_then_get(before: Properties, after: Properties, key: Seq<char>, value: PropertyValueV, other: Seq<char>)
    requires
        after@ == before@.insert(key, value),
    ensures
        after@.contains_key(key),
        after@[key] == value,
        other != key ==> (after@.contains_key(other) == before@.contains_key(other)),
        other != key && before@.contains_key(other) ==> after@[other] == before@[other],
{
}

/// Removing a property forgets exactly that key.
pub proof fn law_remove_then_get(before: Properties, after: Properties, key: Seq<char>, other: Seq<char>)
    requires
        after@ == before@.remove(key),
    ensures
        !after@.contains_key(key),
        other != key ==> (after@.contains_key(other) == before@.contains_key(other)),
        other != key && before@.contains_key(other) ==> after@[other] == before@[other],
{
}

} // verus!
