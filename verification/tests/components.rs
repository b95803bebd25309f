//! Unit tests of the engine's parts: declarations, name stacks, the line
//! writer, text helpers and the linking protocol.

use rust_hdl::atom::{AtomDetails, AtomKind};
use rust_hdl::circuit::{Circuit, CircuitField, SignalAtom};
use rust_hdl::descriptor::{TypeDescriptor, TypeKind};
use rust_hdl::emit::{decl, verilog_atom_name};
use rust_hdl::link::{link, link_render};
use rust_hdl::named_path::NamedPath;
use rust_hdl::text::{
    flatten_type_separator, join_strings, str_eq, str_lex_lt, usize_to_string, CodeWriter,
};

fn atom(name: &str, kind: AtomKind, width: usize, signed: bool) -> AtomDetails {
    AtomDetails {
        name: name.to_string(),
        kind,
        width,
        const_val: String::new(),
        signed,
    }
}

fn port(kind: AtomKind) -> SignalAtom {
    SignalAtom {
        kind,
        width: 1,
        const_val: String::new(),
        signed: false,
        descriptor: TypeDescriptor {
            name: String::new(),
            kind: TypeKind::Scalar,
        },
        connected: false,
    }
}

fn field(name: &str, node: Circuit) -> CircuitField {
    CircuitField {
        name: name.to_string(),
        node,
    }
}

#[test]
fn atom_kind_partitions() {
    assert!(AtomKind::InputParameter.is_parameter());
    assert!(AtomKind::OutputParameter.is_parameter());
    assert!(AtomKind::InOutParameter.is_parameter());
    assert!(AtomKind::OutputPassthrough.is_parameter());
    assert!(!AtomKind::Constant.is_parameter());
    assert!(!AtomKind::LocalSignal.is_parameter());
    assert!(AtomKind::StubInputSignal.is_stub());
    assert!(AtomKind::StubOutputSignal.is_stub());
    assert!(!AtomKind::InputParameter.is_stub());
}

#[test]
fn declaration_keywords() {
    assert_eq!(verilog_atom_name(&AtomKind::InputParameter), "input wire");
    assert_eq!(verilog_atom_name(&AtomKind::OutputParameter), "output reg");
    assert_eq!(verilog_atom_name(&AtomKind::InOutParameter), "inout wire");
    assert_eq!(verilog_atom_name(&AtomKind::Constant), "localparam");
    assert_eq!(verilog_atom_name(&AtomKind::LocalSignal), "reg");
    assert_eq!(verilog_atom_name(&AtomKind::StubInputSignal), "reg");
    assert_eq!(verilog_atom_name(&AtomKind::StubOutputSignal), "wire");
    assert_eq!(
        verilog_atom_name(&AtomKind::OutputPassthrough),
        "output wire"
    );
}

#[test]
fn declaration_lines() {
    assert_eq!(
        decl(&atom("clk", AtomKind::InputParameter, 1, false)),
        "input wire clk;"
    );
    assert_eq!(
        decl(&atom("data", AtomKind::OutputParameter, 16, false)),
        "output reg [15:0] data;"
    );
    assert_eq!(
        decl(&atom("bias", AtomKind::LocalSignal, 8, true)),
        "reg signed [7:0] bias;"
    );
    let mut c = atom("k", AtomKind::Constant, 8, false);
    c.const_val = "42".to_string();
    assert_eq!(decl(&c), "localparam k = 42;");
}

#[test]
fn named_path_stack_operations() {
    let mut p = NamedPath::new();
    assert!(p.is_empty());
    p.push("top");
    p.push("core");
    p.push("alu");
    assert_eq!(p.len(), 3);
    assert_eq!(p.flat("$"), "top$core$alu");
    assert_eq!(p.parent("$"), "top$core");
    assert_eq!(p.last(), "alu");
    p.pop();
    assert_eq!(p.flat("$"), "top$core");
    p.reset();
    assert!(p.is_empty());
    assert_eq!(p.flat("$"), "");
}

#[test]
fn code_writer_indents_each_line() {
    let mut io = CodeWriter::new();
    io.add("a");
    io.push();
    io.add("b");
    io.push();
    io.add("c");
    io.pop();
    io.pop();
    io.add("d");
    assert_eq!(io.into_text(), "a\n    b\n        c\nd\n");
}

#[test]
fn type_path_separator_flattening() {
    assert_eq!(flatten_type_separator("MyEnum::Variant"), "MyEnum$Variant");
    assert_eq!(flatten_type_separator("a::b::c"), "a$b$c");
    assert_eq!(flatten_type_separator("plain"), "plain");
    assert_eq!(flatten_type_separator(""), "");
    assert_eq!(flatten_type_separator(":::"), "$:");
    assert_eq!(flatten_type_separator(":"), ":");
}

#[test]
fn decimal_rendering() {
    assert_eq!(usize_to_string(0), "0");
    assert_eq!(usize_to_string(7), "7");
    assert_eq!(usize_to_string(10), "10");
    assert_eq!(usize_to_string(255), "255");
    assert_eq!(usize_to_string(12345), "12345");
}

#[test]
fn lexicographic_order_on_names() {
    assert!(str_lex_lt("top", "top$adder"));
    assert!(str_lex_lt("a", "b"));
    assert!(!str_lex_lt("b", "a"));
    assert!(!str_lex_lt("same", "same"));
    assert!(str_lex_lt("", "x"));
    assert!(str_eq("path$x", "path$x"));
    assert!(!str_eq("path$x", "path$y"));
}

#[test]
fn joined_strings() {
    let parts: Vec<String> = vec!["a".to_string(), "b".to_string(), "c".to_string()];
    assert_eq!(join_strings(&parts, ","), "a,b,c");
    let one: Vec<String> = vec!["solo".to_string()];
    assert_eq!(join_strings(&one, ","), "solo");
    let none: Vec<String> = vec![];
    assert_eq!(join_strings(&none, ","), "");
}

#[test]
fn link_render_emits_one_descriptor_per_port() {
    let bus = Circuit::Group(vec![
        field("req", Circuit::Atom(port(AtomKind::InputParameter))),
        field("ack", Circuit::Atom(port(AtomKind::OutputParameter))),
        field("note", Circuit::Atom(port(AtomKind::LocalSignal))),
    ]);
    let lines = link_render(&bus, "bus", "left", "right");
    assert_eq!(lines.len(), 2);
    assert_eq!(lines[0], "assign left$bus$req = right$bus$req;");
    assert_eq!(lines[1], "assign right$bus$ack = left$bus$ack;");
}

#[test]
fn link_render_without_owner_prefix() {
    let bus = Circuit::Group(vec![field(
        "req",
        Circuit::Atom(port(AtomKind::InputParameter)),
    )]);
    let lines = link_render(&bus, "", "left", "right");
    assert_eq!(lines, vec!["assign left$req = right$req;".to_string()]);
}

#[test]
fn link_render_of_leaf_is_empty() {
    let leaf = Circuit::Atom(port(AtomKind::InputParameter));
    let lines = link_render(&leaf, "x", "a", "b");
    assert!(lines.is_empty());
}

#[test]
fn linking_marks_both_sides_connected() {
    let mk = || {
        Circuit::Group(vec![
            field("req", Circuit::Atom(port(AtomKind::InputParameter))),
            field("ack", Circuit::Atom(port(AtomKind::OutputParameter))),
        ])
    };
    let mut a = mk();
    let mut b = mk();
    assert!(!a.is_fully_connected());
    link(&mut a, &mut b);
    assert!(a.is_fully_connected());
    assert!(b.is_fully_connected());
}

#[test]
fn update_leaves_the_circuit_unchanged() {
    let mut c = Circuit::Group(vec![field(
        "x",
        Circuit::Atom(port(AtomKind::LocalSignal)),
    )]);
    c.update();
    assert!(!c.is_fully_connected());
    c.connect_all();
    c.update();
    assert!(c.is_fully_connected());
}

#[test]
fn atom_duplicate_preserves_fields() {
    let a = atom("wide", AtomKind::LocalSignal, 12, true);
    let b = a.duplicate();
    assert_eq!(b.name, "wide");
    assert!(matches!(b.kind, AtomKind::LocalSignal));
    assert_eq!(b.width, 12);
    assert!(b.signed);
}
