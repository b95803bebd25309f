//! Code bodies: what a module contributes to the emitted text besides its
//! declarations.

use vstd::prelude::*;

verus! {

/// A wrapper body: raw code driving the module's outputs as nets, plus a
/// verbatim support-text block appended after all modules.
pub struct WrapperDetails {
    pub code: String,
    pub cores: String,
}

/// A blackbox leaf: a hand-written module known by its external type name,
/// whose verbatim text is appended after all modules.
pub struct BlackBoxDetails {
    pub name: String,
    pub code: String,
}

/// Exactly one code body per module.
pub enum Verilog {
    /// Structured statements, rendered one per line inside an always block.
    Combinatorial(Vec<String>),
    /// Raw text, rendered verbatim in place.
    Custom(String),
    Wrapper(WrapperDetails),
    Blackbox(BlackBoxDetails),
    Empty,
}

/// The mathematical shadow of a [`Verilog`] body.
pub ghost enum VerilogM {
    Combinatorial(Seq<Seq<char>>),
    Custom(Seq<char>),
    Wrapper { code: Seq<char>, cores: Seq<char> },
    Blackbox { name: Seq<char>, code: Seq<char> },
    Empty,
}

impl View for Verilog {
    type V = VerilogM;

    open spec fn view(&self) -> VerilogM {
        match self {
            Verilog::Combinatorial(lines) => VerilogM::Combinatorial(lines.deep_view()),
            Verilog::Custom(code) => VerilogM::Custom(code@),
            Verilog::Wrapper(w) => VerilogM::Wrapper { code: w.code@, cores: w.cores@ },
            Verilog::Blackbox(b) => VerilogM::Blackbox { name: b.name@, code: b.code@ },
            Verilog::Empty => VerilogM::Empty,
        }
    }
}

impl Verilog {
    /// A field-wise copy whose model equals this one's.
    pub fn duplicate(&self) -> (r: Verilog)
        ensures
            r@ == self@,
    {
        match self {
            Verilog::Combinatorial(lines) => Verilog::Combinatorial(crate::text::clone_strings(lines)),
            Verilog::Custom(code) => Verilog::Custom(code.clone()),
            Verilog::Wrapper(w) => Verilog::Wrapper(
                WrapperDetails { code: w.code.clone(), cores: w.cores.clone() },
            ),
            Verilog::Blackbox(b) => Verilog::Blackbox(
                BlackBoxDetails { name: b.name.clone(), code: b.code.clone() },
            ),
            Verilog::Empty => Verilog::Empty,
        }
    }

    pub fn is_blackbox(&self) -> (r: bool)
        ensures
            r == (self@ is Blackbox),
    {
        match self {
            Verilog::Blackbox(_) => true,
            _ => false,
        }
    }

    pub fn is_wrapper(&self) -> (r: bool)
        ensures
            r == (self@ is Wrapper),
    {
        match self {
            Verilog::Wrapper(_) => true,
            _ => false,
        }
    }
}

} // verus!
