//! Atoms: the named signals, ports and constants tracked by the engine.

use vstd::prelude::*;

verus! {

/// The electrical role of one named value.
#[derive(Clone, Copy, Debug, PartialEq, Eq, Structural)]
pub enum AtomKind {
    InputParameter,
    OutputParameter,
    InOutParameter,
    Constant,
    LocalSignal,
    StubInputSignal,
    StubOutputSignal,
    OutputPassthrough,
}

impl AtomKind {
    /// A parameter crosses a module boundary and appears in the module header.
    pub open spec fn spec_is_parameter(self) -> bool {
        match self {
            AtomKind::InputParameter => true,
            AtomKind::OutputParameter => true,
            AtomKind::InOutParameter => true,
            AtomKind::OutputPassthrough => true,
            _ => false,
        }
    }

    /// A stub is a parent-declared wire serving one port of a child instance.
    pub open spec fn spec_is_stub(self) -> bool {
        match self {
            AtomKind::StubInputSignal => true,
            AtomKind::StubOutputSignal => true,
            _ => false,
        }
    }

    pub fn is_parameter(&self) -> (r: bool)
        ensures
            r == self.spec_is_parameter(),
    {
        match self {
            AtomKind::InputParameter => true,
            AtomKind::OutputParameter => true,
            AtomKind::InOutParameter => true,
            AtomKind::OutputPassthrough => true,
            _ => false,
        }
    }

    pub fn is_stub(&self) -> (r: bool)
        ensures
            r == self.spec_is_stub(),
    {
        match self {
            AtomKind::StubInputSignal => true,
            AtomKind::StubOutputSignal => true,
            _ => false,
        }
    }
}

/// One recorded atom: immutable once recorded against a module.
pub struct AtomDetails {
    pub name: String,
    pub kind: AtomKind,
    pub width: usize,
    pub const_val: String,
    pub signed: bool,
}

/// The mathematical shadow of an [`AtomDetails`].
pub ghost struct AtomM {
    pub name: Seq<char>,
    pub kind: AtomKind,
    pub width: nat,
    pub const_val: Seq<char>,
    pub signed: bool,
}

impl View for AtomDetails {
    type V = AtomM;

    open spec fn view(&self) -> AtomM {
        AtomM {
            name: self.name@,
            kind: self.kind,
            width: self.width as nat,
            const_val: self.const_val@,
            signed: self.signed,
        }
    }
}

impl DeepView for AtomDetails {
    type V = AtomM;

    open spec fn deep_view(&self) -> AtomM {
        self.view()
    }
}

impl AtomDetails {
    /// A field-wise copy whose model equals this one's.
    pub fn duplicate(&self) -> (r: AtomDetails)
        ensures
            r@ == self@,
    {
        AtomDetails {
            name: self.name.clone(),
            kind: self.kind,
            width: self.width,
            const_val: self.const_val.clone(),
            signed: self.signed,
        }
    }
}

} // verus!
