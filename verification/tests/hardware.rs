use regatelisp::hardware::{
    emit_systemverilog, lower_hardware_design, verify_hardware_design, HardwareError, HwAssignment, HwDesign,
    HwExpr, HwExprKind, HwModule, HwPort, HwPortDirection, HwSignalId, HwSignalRef, HwType,
};
use regatelisp::parser::parse_program;
use regatelisp::property::Properties;

fn compile(source: &str) -> Result<String, HardwareError> {
    let expressions = parse_program(source).unwrap();
    let design = lower_hardware_design(&expressions)?;
    emit_systemverilog(&design)
}

#[test]
fn emits_deterministic_passthrough() {
    let source = "(module passthrough (ports (input (meta ((width 8)) a)) (output (meta ((width 8)) y))) (assign y a))";
    let expected = "module passthrough (\n    input  wire [7:0] a,\n    output wire [7:0] y\n);\n\nassign y = a;\n\nendmodule\n";
    assert_eq!(compile(source).unwrap(), expected);
    assert_eq!(compile(source).unwrap(), expected);
}

#[test]
fn emits_arithmetic_mux_and_typed_constants() {
    let source = "(module mux (ports (input (meta ((width 1)) s)) (input (meta ((width 8)) a)) (input (meta ((width 8)) b)) (output (meta ((width 8)) y))) (assign y (if s (+ a b) (meta ((width 8)) 42))))";
    let output = compile(source).unwrap();
    assert!(output.contains("assign y = (s ? (a + b) : 8'd42);"));
}

#[test]
fn rejects_hardware_type_and_assignment_errors() {
    let width = "(module bad (ports (input (meta ((width 8)) a)) (input (meta ((width 16)) b)) (output (meta ((width 8)) y))) (assign y (+ a b)))";
    assert_eq!(compile(width), Err(HardwareError::TypeMismatch));
    let missing = "(module bad (ports (input (meta ((width 8)) a)) (output (meta ((width 8)) y))))";
    assert_eq!(compile(missing), Err(HardwareError::MissingAssignment("y".to_string())));
    let input = "(module bad (ports (input (meta ((width 8)) a)) (output (meta ((width 8)) y))) (assign a y) (assign y a))";
    assert_eq!(compile(input), Err(HardwareError::InputAssignment("a".to_string())));
}

#[test]
fn emits_falling_edge_register_with_reset_and_enable() {
    let source = "(module dual (ports (input (meta ((width 1)) clk)) (input (meta ((width 1)) rst)) (input (meta ((width 1)) en)) (input (meta ((width 1)) d)) (output (meta ((width 1)) q))) (registers (register state (meta ((width 1)) state) (clock clk falling) (reset sync rst high 0) (enable en) (next d))) (assign q state))";
    let output = compile(source).unwrap();
    assert!(output.contains("logic state;"));
    assert!(output.contains("always_ff @(negedge clk)"));
    assert!(output.contains("state <= 1'd0;"));
    assert!(output.contains("else if (en)"));
    assert!(output.contains("assign q = state;"));
}

#[test]
fn register_block_text_is_exact() {
    let source = "(module r (ports (input (meta ((width 1)) clk)) (input (meta ((width 1)) rst)) (input (meta ((width 4) (signed true)) d)) (output (meta ((width 4) (signed true)) q))) (registers (register s (meta ((width 4) (signed true)) s) (clock clk rising) (reset sync rst low -1) (next (bit-not d)))) (assign q s))";
    let expected = "module r (\n    input  wire clk,\n    input  wire rst,\n    input  wire signed [3:0] d,\n    output wire signed [3:0] q\n);\n\nlogic signed [3:0] s;\n\nalways_ff @(posedge clk) begin\n    if (!rst) begin\n        s <= -4'sd1;\n    end else begin\n        s <= (~d);\n    end\nend\n\nassign q = s;\n\nendmodule\n";
    assert_eq!(compile(source).unwrap(), expected);
}

#[test]
fn modules_are_separated_by_a_blank_line() {
    let source = "(module a (ports (input (meta ((width 1)) x)) (output (meta ((width 1)) y))) (assign y x)) (module b (ports (input (meta ((width 1)) x)) (output (meta ((width 1)) y))) (assign y (bit-xor x x)))";
    let output = compile(source).unwrap();
    assert!(output.contains("endmodule\n\nmodule b (\n"));
    assert!(output.contains("assign y = (x ^ x);"));
}

#[test]
fn duplicate_module_names_are_rejected() {
    let source = "(module a (ports (input (meta ((width 1)) x)) (output (meta ((width 1)) y))) (assign y x)) (module a (ports (input (meta ((width 1)) x)) (output (meta ((width 1)) y))) (assign y x))";
    assert_eq!(compile(source), Err(HardwareError::DuplicateModule("a".to_string())));
}

#[test]
fn port_names_clash_regardless_of_case() {
    let source = "(module m (ports (input (meta ((width 1)) a)) (output (meta ((width 1)) A))) (assign A a))";
    assert_eq!(compile(source), Err(HardwareError::DuplicatePort("A".to_string())));
}

#[test]
fn invalid_identifiers_and_widths_are_reported() {
    assert_eq!(
        compile("(module _m (ports (input (meta ((width 1)) a))))"),
        Err(HardwareError::InvalidIdentifier("_m".to_string()))
    );
    assert_eq!(compile("(module m (ports (input a)))"), Err(HardwareError::MissingWidth("a".to_string())));
    assert_eq!(compile("(module m (ports (input (meta ((width 0)) a))))"), Err(HardwareError::InvalidWidth("a".to_string())));
    assert_eq!(
        compile("(module m (ports (input (meta ((width 1) (signed 1)) a))))"),
        Err(HardwareError::InvalidSigned("a".to_string()))
    );
}

#[test]
fn constants_must_fit_their_width() {
    let source = "(module m (ports (output (meta ((width 4)) y))) (assign y (meta ((width 4)) 16)))";
    assert_eq!(compile(source), Err(HardwareError::ConstantOutOfRange(16)));
    let ok = "(module m (ports (output (meta ((width 4)) y))) (assign y (meta ((width 4)) 15)))";
    assert!(compile(ok).unwrap().contains("assign y = 4'd15;"));
}

#[test]
fn unknown_signals_and_untyped_constants_are_reported() {
    let unknown = "(module m (ports (output (meta ((width 1)) y))) (assign y z))";
    assert_eq!(compile(unknown), Err(HardwareError::UnknownSignal("z".to_string())));
    let untyped = "(module m (ports (output (meta ((width 1)) y))) (assign y (= 1 2)))";
    assert_eq!(compile(untyped), Err(HardwareError::UntypedConstant));
    let hinted = "(module m (ports (output (meta ((width 1)) y))) (assign y 1))";
    assert!(compile(hinted).unwrap().contains("assign y = 1'd1;"));
}

#[test]
fn a_register_needs_a_clock_and_a_next_value() {
    let source = "(module m (ports (input (meta ((width 1)) clk)) (output (meta ((width 1)) q))) (registers (register r (meta ((width 1)) r) (clock clk rising))) (assign q r))";
    assert_eq!(compile(source), Err(HardwareError::InvalidModule));
}

fn port(direction: HwPortDirection, name: &str) -> HwPort {
    HwPort { direction, name: name.to_string(), ty: HwType { width: 1, signed: false }, properties: Properties::new() }
}

fn reference(id: usize) -> HwExpr {
    HwExpr {
        kind: HwExprKind::Reference(HwSignalRef { id: HwSignalId(id) }),
        ty: HwType { width: 1, signed: false },
        properties: Properties::new(),
    }
}

fn assign(to: usize, value: HwExpr) -> HwAssignment {
    HwAssignment { destination: HwSignalRef { id: HwSignalId(to) }, value, properties: Properties::new() }
}

#[test]
fn verifier_rejects_a_combinational_loop() {
    let design = HwDesign {
        modules: vec![HwModule {
            name: "looped".to_string(),
            ports: vec![port(HwPortDirection::Output, "p"), port(HwPortDirection::Output, "q")],
            assignments: vec![assign(0, reference(1)), assign(1, reference(0))],
            registers: vec![],
            properties: Properties::new(),
        }],
    };
    assert!(matches!(verify_hardware_design(&design), Err(HardwareError::CombinationalLoop(_))));
}

#[test]
fn verifier_accepts_a_chain_of_outputs() {
    let design = HwDesign {
        modules: vec![HwModule {
            name: "chain".to_string(),
            ports: vec![
                port(HwPortDirection::Input, "a"),
                port(HwPortDirection::Output, "p"),
                port(HwPortDirection::Output, "q"),
            ],
            assignments: vec![assign(2, reference(1)), assign(1, reference(0))],
            registers: vec![],
            properties: Properties::new(),
        }],
    };
    assert_eq!(verify_hardware_design(&design), Ok(()));
}

#[test]
fn verifier_rejects_double_drivers_and_wrong_targets() {
    let doubled = HwDesign {
        modules: vec![HwModule {
            name: "twice".to_string(),
            ports: vec![port(HwPortDirection::Input, "a"), port(HwPortDirection::Output, "y")],
            assignments: vec![assign(1, reference(0)), assign(1, reference(0))],
            registers: vec![],
            properties: Properties::new(),
        }],
    };
    assert_eq!(verify_hardware_design(&doubled), Err(HardwareError::DuplicateAssignment("y".to_string())));
    let outside = HwDesign {
        modules: vec![HwModule {
            name: "outside".to_string(),
            ports: vec![port(HwPortDirection::Input, "a")],
            assignments: vec![assign(3, reference(0))],
            registers: vec![],
            properties: Properties::new(),
        }],
    };
    assert_eq!(verify_hardware_design(&outside), Err(HardwareError::InvalidModule));
}

#[test]
fn lowering_builds_the_expression_tree_of_each_assignment() {
    let source = "(module ops (ports (input (meta ((width 4)) a)) (input (meta ((width 4)) b)) (output (meta ((width 4)) y)) (output (meta ((width 4)) z))) (assign z (bit-not a)) (assign y (- a b)))";
    let expressions = parse_program(source).unwrap();
    let design = lower_hardware_design(&expressions).unwrap();
    let module = &design.modules[0];
    assert_eq!(module.ports.len(), 4);
    assert_eq!(module.ports[3].name, "z");
    assert_eq!(module.ports[3].direction, HwPortDirection::Output);
    assert_eq!(module.assignments.len(), 2);
    assert_eq!(module.assignments[0].destination, HwSignalRef { id: HwSignalId(3) });
    assert!(matches!(module.assignments[0].value.kind, HwExprKind::Unary { .. }));
    assert_eq!(module.assignments[1].destination, HwSignalRef { id: HwSignalId(2) });
    match &module.assignments[1].value.kind {
        HwExprKind::Binary { op, lhs, rhs } => {
            assert_eq!(*op, regatelisp::hardware::HwBinaryOp::Sub);
            assert_eq!(lhs.kind, HwExprKind::Reference(HwSignalRef { id: HwSignalId(0) }));
            assert_eq!(rhs.kind, HwExprKind::Reference(HwSignalRef { id: HwSignalId(1) }));
        }
        other => panic!("expected a binary operation, got {other:?}"),
    }
    assert_eq!(module.assignments[1].value.ty, HwType { width: 4, signed: false });
}

#[test]
fn register_next_infers_an_unannotated_increment_from_its_width() {
    let source = "(module counter (ports (input (meta ((width 1)) clk)) (input (meta ((width 1)) rst)) (output (meta ((width 8)) count_out))) (registers (register count (meta ((width 8)) count) (clock clk rising) (reset sync rst high 0) (next (+ count 1))) ) (assign count_out count))";
    let output = compile(source).unwrap();
    assert!(output.contains("count <= (count + 8'd1);"));
    assert!(output.contains("count <= 8'd0;"));
}

#[test]
fn emits_all_comparisons_and_a_typed_nested_mux() {
    let source = "(module comparisons (ports (input (meta ((width 1)) select)) (input (meta ((width 8)) count)) (output (meta ((width 1)) eq)) (output (meta ((width 1)) ne)) (output (meta ((width 1)) lt)) (output (meta ((width 1)) le)) (output (meta ((width 1)) gt)) (output (meta ((width 1)) ge)) (output (meta ((width 8)) next))) (assign eq (= count 255)) (assign ne (!= count 0)) (assign lt (< 10 count)) (assign le (<= count 10)) (assign gt (> count 10)) (assign ge (>= count 10)) (assign next (if select (if (= count 255) 0 10) (+ count 1))))";
    let output = compile(source).unwrap();
    for comparison in [
        "(count == 8'd255)",
        "(count != 8'd0)",
        "(8'd10 < count)",
        "(count <= 8'd10)",
        "(count > 8'd10)",
        "(count >= 8'd10)",
    ] {
        assert!(output.contains(comparison), "missing {comparison} in {output}");
    }
    assert!(output.contains("assign next = (select ? ((count == 8'd255) ? 8'd0 : 8'd10) : (count + 8'd1));"));
}

#[test]
fn comparison_and_mux_type_errors_are_rejected() {
    let comparison_width = "(module bad (ports (input (meta ((width 8)) a)) (output (meta ((width 1)) y))) (assign y (= a (meta ((width 4)) 1))))";
    let multi_bit_condition = "(module bad (ports (input (meta ((width 8)) a)) (output (meta ((width 8)) y))) (assign y (if a 0 1)))";
    let branch_width = "(module bad (ports (input (meta ((width 1)) s)) (output (meta ((width 8)) y))) (assign y (if s (meta ((width 8)) 1) (meta ((width 4)) 1))))";
    let comparison_output = "(module bad (ports (input (meta ((width 8)) a)) (output (meta ((width 8)) y))) (assign y (= a 0)))";
    let signed_comparison = "(module bad (ports (input (meta ((width 8) (signed true)) a)) (output (meta ((width 1)) y))) (assign y (= a 0)))";
    for source in [comparison_width, multi_bit_condition, branch_width, comparison_output, signed_comparison] {
        assert!(compile(source).is_err(), "accepted {source}");
    }
    assert_eq!(compile(comparison_width), Err(HardwareError::TypeMismatch));
    assert_eq!(compile(multi_bit_condition), Err(HardwareError::InvalidCondition));
}

#[test]
fn verifier_rejects_a_mux_with_a_multi_bit_condition() {
    let byte = HwType { width: 8, signed: false };
    let constant = |v: i64| HwExpr { kind: HwExprKind::Constant(v), ty: byte, properties: Properties::new() };
    let design = HwDesign {
        modules: vec![HwModule {
            name: "bad_mux".into(),
            ports: vec![HwPort { direction: HwPortDirection::Output, name: "y".into(), ty: byte, properties: Properties::new() }],
            assignments: vec![HwAssignment {
                destination: HwSignalRef { id: HwSignalId(0) },
                value: HwExpr {
                    kind: HwExprKind::Mux {
                        condition: Box::new(constant(1)),
                        then_expr: Box::new(constant(0)),
                        else_expr: Box::new(constant(1)),
                    },
                    ty: byte,
                    properties: Properties::new(),
                },
                properties: Properties::new(),
            }],
            registers: vec![],
            properties: Properties::new(),
        }],
    };
    assert!(verify_hardware_design(&design).is_err());
}
