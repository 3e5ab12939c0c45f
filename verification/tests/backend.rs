use regatelisp::backend::{IrBackend, TextIrBackend};
use regatelisp::error::Span;
use regatelisp::globals::GlobalRegistry;
use regatelisp::ids::FunctionId;
use regatelisp::ir::{IrConst, IrExpr, IrExprKind, IrFunction, IrModule};

#[test]
fn text_backend_emits_nonempty_output_for_a_function() {
    let mut module = IrModule::new();
    module.functions.push(IrFunction {
        id: FunctionId(0),
        name_hint: None,
        parameter_count: 0,
        capture_count: 0,
        local_count: 0,
        body: IrExpr::new(Span::new(0, 0), IrExprKind::Const(IrConst::Int(1))),
        span: Span::new(0, 0),
    });
    let globals = GlobalRegistry::new();
    let mut backend = TextIrBackend;
    let output = backend.emit(&module, &globals).unwrap();
    assert!(output.contains("fn#0"));
}
