//! A hardware-description code generator.
//!
//! Circuits are built as trees of typed signal nodes.  One traversal of such a
//! tree collects per-module signal, type and submodule metadata into a keyed
//! intermediate table, and an emitter renders the completed table into one
//! blob of synthesizable hardware-description text.  The whole pipeline is
//! deterministic: the rendered text is a mathematical function of the circuit
//! value, stated by the contracts in these modules.
//!
//! A small catalog of board-level parts, decoded from manufacturer part
//! numbers into exact integer quantities, accompanies the engine.

pub mod atom;
pub mod circuit;
pub mod descriptor;
pub mod emit;
pub mod module_defines;
pub mod named_path;
pub mod pcb;
pub mod ir;
pub mod laws;
pub mod link;
pub mod text;
pub mod verilog;
