//! The expander's output form: reader syntax without properties, plus
//! `Sequence`, which only the unrolling of a `for` loop produces.
use vstd::prelude::*;

verus! {

broadcast use vstd::std_specs::vec::group_vec_axioms;

#[derive(Debug, PartialEq, Eq)]
pub enum CoreExpr {
    Int(i64),
    Bool(bool),
    String(String),
    Symbol(String),
    List(Vec<CoreExpr>),
    /// A run of expressions evaluated left to right, each for effect; the
    /// whole evaluates to unit.
    Sequence(Vec<CoreExpr>),
}

/// The mathematical model of a core expression.
pub enum CoreExprV {
    Int(i64),
    Bool(bool),
    String(Seq<char>),
    Symbol(Seq<char>),
    List(Seq<CoreExprV>),
    Sequence(Seq<CoreExprV>),
}

/// Views of the first `n` expressions of `items`.
pub open spec fn cores_view(items: Seq<CoreExpr>, n: int) -> Seq<CoreExprV>
    decreases items, n,
{
    if n <= 0 || n > items.len() {
        Seq::empty()
    } else {
        cores_view(items, n - 1).push(items[n - 1].view())
    }
}

proof fn lemma_cores_view_n(items: Seq<CoreExpr>, n: int)
    requires
        0 <= n <= items.len(),
    ensures
        cores_view(items, n).len() == n,
        forall|k: int| 0 <= k < n ==> #[trigger] cores_view(items, n)[k] == items[k]@,
    decreases n,
{
    if n > 0 {
        lemma_cores_view_n(items, n - 1);
    }
}

pub proof fn lemma_cores_view_all(items: Seq<CoreExpr>)
    ensures
        cores_view(items, items.len() as int).len() == items.len(),
        forall|k: int| 0 <= k < items.len() ==> #[trigger] cores_view(items, items.len() as int)[k] == items[k]@,
{
    lemma_cores_view_n(items, items.len() as int);
}


impl CoreExpr {
    pub open spec fn view(&self) -> CoreExprV
        decreases self, 0int,
    {
        match self {
            CoreExpr::Int(n) => CoreExprV::Int(*n),
            CoreExpr::Bool(b) => CoreExprV::Bool(*b),
            CoreExpr::String(s) => CoreExprV::String(s@),
            CoreExpr::Symbol(s) => CoreExprV::Symbol(s@),
            CoreExpr::List(items) => CoreExprV::List(cores_view(items@, items@.len() as int)),
            CoreExpr::Sequence(items) => CoreExprV::Sequence(cores_view(items@, items@.len() as int)),
        }
    }
}

} // verus!
