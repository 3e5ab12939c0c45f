//! The structured intermediate representation: names are resolved to
//! slots and ids, closures carry explicit capture lists, and control flow
//! stays structured.
use vstd::prelude::*;
use crate::datum::Datum;
use crate::error::Span;
use crate::ids::{CaptureSlot, FunctionId, GlobalId, LocalSlot, LoopId};

verus! {

broadcast use vstd::std_specs::vec::group_vec_axioms;

#[derive(Debug, Clone, PartialEq, Eq)]
pub enum IrConst {
    Int(i64),
    Bool(bool),
    String(String),
    Unit,
}

/// Where a closure's capture slot gets its value at `MakeClosure` time: a
/// local of the enclosing function, or a capture the enclosing function
/// already holds.
#[derive(Debug, Clone, Copy, PartialEq, Eq, Structural)]
pub enum IrCaptureSource {
    Local(LocalSlot),
    Capture(CaptureSlot),
}

#[derive(Debug)]
pub struct IrLetBinding {
    pub target: LocalSlot,
    pub initializer: IrExpr,
    pub span: Span,
}

#[derive(Debug)]
pub struct IrStateBinding {
    pub target: LocalSlot,
    pub initializer: IrExpr,
    pub span: Span,
}

#[derive(Debug)]
pub struct IrStateUpdate {
    pub target: LocalSlot,
    pub value: IrExpr,
    pub span: Span,
}

#[derive(Debug)]
pub struct IrExpr {
    pub span: Span,
    pub kind: IrExprKind,
}

impl IrExpr {
    pub fn new(span: Span, kind: IrExprKind) -> (r: Self)
        ensures
            r.span == span,
            r.kind == kind,
    {
        IrExpr { span, kind }
    }
}

#[derive(Debug)]
pub enum IrExprKind {
    Const(IrConst),
    Quote(Datum),
    QuasiQuote(IrQuasiDatum),
    Gensym { prefix: Option<Box<IrExpr>> },
    LoadLocal(LocalSlot),
    LoadCapture(CaptureSlot),
    LoadGlobal(GlobalId),
    Let { bindings: Vec<IrLetBinding>, body: Box<IrExpr> },
    MakeClosure { function: FunctionId, captures: Vec<IrCaptureSource> },
    Call { callee: Box<IrExpr>, arguments: Vec<IrExpr> },
    If { condition: Box<IrExpr>, then_expr: Box<IrExpr>, else_expr: Box<IrExpr> },
    RangeLoop {
        loop_id: LoopId,
        variable: LocalSlot,
        start: Box<IrExpr>,
        end: Box<IrExpr>,
        step: Box<IrExpr>,
        body: Box<IrExpr>,
    },
    StateLoop {
        loop_id: LoopId,
        states: Vec<IrStateBinding>,
        condition: Box<IrExpr>,
        updates: Vec<IrStateUpdate>,
        body: Box<IrExpr>,
    },
    Break { target: LoopId, value: Option<Box<IrExpr>> },
    Sequence(Vec<IrExpr>),
    Do(Vec<IrExpr>),
}

#[derive(Debug)]
pub enum IrQuasiDatum {
    Datum(Datum),
    List(Vec<IrQuasiDatum>),
    Evaluate(Box<IrExpr>),
    Splice(Box<IrExpr>),
}

/// The body of a top-level form: a frame of `local_count` slots is all it
/// needs at runtime.
#[derive(Debug)]
pub struct IrBody {
    pub local_count: u32,
    pub expr: IrExpr,
}

#[derive(Debug)]
pub struct IrFunction {
    pub id: FunctionId,
    pub name_hint: Option<String>,
    pub parameter_count: u32,
    pub capture_count: u32,
    pub local_count: u32,
    pub body: IrExpr,
    pub span: Span,
}

#[derive(Debug)]
pub enum IrTopLevel {
    Expr { body: IrBody, span: Span },
    Define { target: GlobalId, initializer: IrBody, span: Span },
}

#[derive(Debug)]
pub struct IrModule {
    pub functions: Vec<IrFunction>,
}

impl IrModule {
    pub fn new() -> (r: Self)
        ensures
            r.functions@.len() == 0,
    {
        IrModule { functions: Vec::new() }
    }

    /// The function stored at index `id`, if there is one.
    pub fn function(&self, id: FunctionId) -> (r: Option<&IrFunction>)
        ensures
            (id.0 as int) < self.functions@.len() ==> r == Some(&self.functions@[id.0 as int]),
            (id.0 as int) >= self.functions@.len() ==> r.is_none(),
    {
        let i = id.index();
        if i < self.functions.len() {
            Some(&self.functions[i])
        } else {
            None
        }
    }
}

impl Default for IrModule {
    fn default() -> (r: Self)
        ensures
            r.functions@.len() == 0,
    {
        IrModule::new()
    }
}

} // verus!
