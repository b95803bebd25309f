//! End-to-end tests of the traversal and the emitter.

use rust_hdl::atom::{AtomDetails, AtomKind};
use rust_hdl::circuit::{Circuit, CircuitField, SignalAtom};
use rust_hdl::descriptor::{TypeDescriptor, TypeKind};
use rust_hdl::emit::{generate_verilog, generate_verilog_unchecked, GenerationError};
use rust_hdl::module_defines::ModuleDefines;
use rust_hdl::verilog::{BlackBoxDetails, Verilog, WrapperDetails};

fn scalar() -> TypeDescriptor {
    TypeDescriptor {
        name: String::new(),
        kind: TypeKind::Scalar,
    }
}

fn sig(kind: AtomKind, width: usize) -> SignalAtom {
    SignalAtom {
        kind,
        width,
        const_val: String::new(),
        signed: false,
        descriptor: scalar(),
        connected: false,
    }
}

fn field(name: &str, node: Circuit) -> CircuitField {
    CircuitField {
        name: name.to_string(),
        node,
    }
}

#[test]
fn adder_scenario_renders_expected_text() {
    let adder = Circuit::Scope(
        Verilog::Empty,
        vec![
            field("a", Circuit::Atom(sig(AtomKind::InputParameter, 8))),
            field("sum", Circuit::Atom(sig(AtomKind::OutputParameter, 9))),
        ],
    );
    let root = Circuit::Scope(Verilog::Empty, vec![field("adder", adder)]);
    let text = generate_verilog_unchecked(&root);
    let expected = "\nmodule top();\n    // Stub signals\n    reg [7:0] adder$a;\n    wire [8:0] adder$sum;\n    // Sub module instances\n    top$adder adder(.a(adder$a),.sum(adder$sum));\nendmodule // top\n\nmodule top$adder(a,sum);\n    // Module arguments\n    input wire [7:0] a;\n    output reg [8:0] sum;\nendmodule // top$adder\n";
    assert_eq!(text, expected);
    // the parent declares one stub per exposed parameter, named by instance
    assert!(text.contains("reg [7:0] adder$a;"));
    assert!(text.contains("wire [8:0] adder$sum;"));
    // the child module declares its own ports
    assert!(text.contains("input wire [7:0] a;"));
    assert!(text.contains("output reg [8:0] sum;"));
    // the instantiation binds each port to the parent's stub
    assert!(text.contains("adder(.a(adder$a),.sum(adder$sum));"));
}

#[test]
fn child_input_parameter_makes_parent_stub() {
    let child = Circuit::Scope(
        Verilog::Empty,
        vec![field("x", Circuit::Atom(sig(AtomKind::InputParameter, 1)))],
    );
    let root = Circuit::Scope(Verilog::Empty, vec![field("c", child)]);
    let text = generate_verilog_unchecked(&root);
    assert!(text.contains("reg c$x;"));
}

#[test]
fn generation_is_deterministic() {
    let root = Circuit::Scope(
        Verilog::Custom("assign y = x;".to_string()),
        vec![
            field("x", Circuit::Atom(sig(AtomKind::InputParameter, 4))),
            field("y", Circuit::Atom(sig(AtomKind::OutputParameter, 4))),
        ],
    );
    let first = generate_verilog_unchecked(&root);
    let second = generate_verilog_unchecked(&root);
    assert_eq!(first, second);
}

#[test]
fn single_module_renders_one_block_in_recorded_order() {
    let root = Circuit::Scope(
        Verilog::Empty,
        vec![
            field("b", Circuit::Atom(sig(AtomKind::InputParameter, 1))),
            field("a", Circuit::Atom(sig(AtomKind::InputParameter, 1))),
        ],
    );
    let text = generate_verilog_unchecked(&root);
    // exactly one module/endmodule pair
    assert_eq!(text.matches("\nmodule ").count(), 1);
    assert_eq!(text.matches("endmodule").count(), 1);
    // the header lists the parameters in the order they were recorded
    assert!(text.contains("module top(b,a);"));
}

#[test]
fn enum_constants_deduplicated_across_signals() {
    let state_type = TypeDescriptor {
        name: "MyState".to_string(),
        kind: TypeKind::Enumerated(vec![
            "MyState::Idle".to_string(),
            "MyState::Run".to_string(),
        ]),
    };
    let mk = |_: usize| SignalAtom {
        kind: AtomKind::LocalSignal,
        width: 2,
        const_val: String::new(),
        signed: false,
        descriptor: TypeDescriptor {
            name: state_type.name.clone(),
            kind: match &state_type.kind {
                TypeKind::Enumerated(labels) => TypeKind::Enumerated(labels.clone()),
                _ => TypeKind::Scalar,
            },
        },
        connected: false,
    };
    let root = Circuit::Scope(
        Verilog::Empty,
        vec![
            field("s1", Circuit::Atom(mk(0))),
            field("s2", Circuit::Atom(mk(1))),
        ],
    );
    let text = generate_verilog_unchecked(&root);
    // one constant declaration per distinct discriminant, the type path
    // separator flattened to the join token
    assert_eq!(text.matches("localparam MyState$Idle = 0;").count(), 1);
    assert_eq!(text.matches("localparam MyState$Run = 1;").count(), 1);
}

#[test]
fn blackbox_body_once_with_two_instantiations() {
    let mut defines = ModuleDefines::new();
    defines.visit_start_scope("top", &Verilog::Empty);
    defines.visit_start_scope("p1", &Verilog::Empty);
    defines.visit_end_scope();
    defines.visit_start_scope("p2", &Verilog::Empty);
    defines.visit_end_scope();
    defines.visit_end_scope();
    // both parents instantiate the same hand-written leaf
    defines.add_submodule("top$p1", "u0", "top$bb");
    defines.add_submodule("top$p2", "u1", "top$bb");
    defines.add_code(
        "top$bb",
        &Verilog::Blackbox(BlackBoxDetails {
            name: "widget".to_string(),
            code: "module widget(x);\nendmodule".to_string(),
        }),
    );
    defines.add_atom(
        "top$bb",
        AtomDetails {
            name: "x".to_string(),
            kind: AtomKind::InputParameter,
            width: 1,
            const_val: String::new(),
            signed: false,
        },
    );
    let text = defines.defines().unwrap();
    // the verbatim body appears exactly once, after all modules
    assert_eq!(text.matches("module widget(x);").count(), 1);
    // each parent instantiates under the declared external type name
    assert!(text.contains("widget u0(.x(u0$x));"));
    assert!(text.contains("widget u1(.x(u1$x));"));
}

#[test]
fn unresolved_submodule_fails_generation() {
    let mut defines = ModuleDefines::new();
    defines.visit_start_scope("top", &Verilog::Empty);
    defines.visit_end_scope();
    defines.add_submodule("top", "ghost", "top$missing");
    let r = defines.defines();
    assert!(matches!(r, Err(GenerationError::UnresolvedSubModule)));
}

#[test]
fn unconnected_circuit_rejected_by_checked_call() {
    let mut root = Circuit::Scope(
        Verilog::Empty,
        vec![field("x", Circuit::Atom(sig(AtomKind::InputParameter, 1)))],
    );
    let r = generate_verilog(&root);
    assert!(matches!(r, Err(GenerationError::UnconnectedSignal)));
    root.connect_all();
    assert!(root.is_fully_connected());
    let checked = generate_verilog(&root).unwrap();
    let unchecked = generate_verilog_unchecked(&root);
    assert_eq!(checked, unchecked);
}

#[test]
fn wrapper_module_declares_outputs_as_nets() {
    let root = Circuit::Scope(
        Verilog::Wrapper(WrapperDetails {
            code: "assign q = d;".to_string(),
            cores: "// core defs".to_string(),
        }),
        vec![
            field("d", Circuit::Atom(sig(AtomKind::InputParameter, 1))),
            field("q", Circuit::Atom(sig(AtomKind::OutputParameter, 1))),
            field("tmp", Circuit::Atom(sig(AtomKind::LocalSignal, 1))),
        ],
    );
    let text = generate_verilog_unchecked(&root);
    let expected = "\n// Output parameters are declared as nets for the wrapped code.\nmodule top(d,q);\n    // Module arguments\n    input wire d;\n    output wire q;\n    // Update code (wrapper)\n    assign q = d;\nendmodule // top\n// core defs\n";
    assert_eq!(text, expected);
    // outputs are nets, not registers, and the local section is suppressed
    assert!(text.contains("output wire q;"));
    assert!(!text.contains("output reg"));
    assert!(!text.contains("// Local signals"));
    // the support text follows the modules exactly once
    assert_eq!(text.matches("// core defs").count(), 1);
}

#[test]
fn combinatorial_body_renders_inside_always_block() {
    let root = Circuit::Scope(
        Verilog::Combinatorial(vec!["q = d;".to_string()]),
        vec![
            field("d", Circuit::Atom(sig(AtomKind::InputParameter, 1))),
            field("q", Circuit::Atom(sig(AtomKind::OutputParameter, 1))),
        ],
    );
    let text = generate_verilog_unchecked(&root);
    assert!(text.contains("    // Update code\n    always @(*) begin\n        q = d;\n    end\n"));
}

#[test]
fn nested_group_namespaces_atoms() {
    let bus = Circuit::Group(vec![
        field("req", Circuit::Atom(sig(AtomKind::LocalSignal, 1))),
        field("ack", Circuit::Atom(sig(AtomKind::LocalSignal, 1))),
    ]);
    let root = Circuit::Scope(Verilog::Empty, vec![field("bus", bus)]);
    let text = generate_verilog_unchecked(&root);
    // atoms inside a nested composite carry the namespace prefix
    assert!(text.contains("reg bus$req;"));
    assert!(text.contains("reg bus$ack;"));
}

#[test]
fn constant_atom_carries_initializer() {
    let mut c = sig(AtomKind::Constant, 8);
    c.const_val = "8'h2A".to_string();
    let root = Circuit::Scope(Verilog::Empty, vec![field("magic", Circuit::Atom(c))]);
    let text = generate_verilog_unchecked(&root);
    assert!(text.contains("// Constant declarations"));
    assert!(text.contains("localparam magic = 8'h2A;"));
}

#[test]
fn empty_root_module_renders_header_and_close() {
    let root = Circuit::Scope(Verilog::Empty, vec![]);
    let text = generate_verilog_unchecked(&root);
    assert_eq!(text, "\nmodule top();\nendmodule // top\n");
}
