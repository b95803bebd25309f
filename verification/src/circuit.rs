//! The circuit model: a tree of composites and leaf signals.  A scope node is
//! a module boundary carrying its code body; a group node is a nested
//! composite that only extends the namespace; a leaf is one signal, port or
//! constant.

use vstd::prelude::*;
use crate::atom::AtomKind;
use crate::descriptor::TypeDescriptor;
use crate::descriptor::TypeDescM;
use crate::ir::lemma_tbl_set_sorted;
use crate::ir::tbl_entry;
use crate::ir::tbl_sorted;
use crate::module_defines::end_namespace_m;
use crate::module_defines::end_scope_m;
use crate::module_defines::start_namespace_m;
use crate::module_defines::start_scope_m;
use crate::module_defines::visit_atom_m;
use crate::module_defines::DefinesM;
use crate::module_defines::ModuleDefines;
use crate::text::join_with;
use crate::verilog::Verilog;
use crate::verilog::VerilogM;

verus! {

/// One leaf signal: its electrical role, bit width, rendered constant
/// literal, signedness, structural type shape, and its terminal mark set by
/// `connect`.
pub struct SignalAtom {
    pub kind: AtomKind,
    pub width: usize,
    pub const_val: String,
    pub signed: bool,
    pub descriptor: TypeDescriptor,
    pub connected: bool,
}

/// The mathematical shadow of a [`SignalAtom`].
pub ghost struct SignalM {
    pub kind: AtomKind,
    pub width: nat,
    pub const_val: Seq<char>,
    pub signed: bool,
    pub descriptor: TypeDescM,
    pub connected: bool,
}

impl View for SignalAtom {
    type V = SignalM;

    open spec fn view(&self) -> SignalM {
        SignalM {
            kind: self.kind,
            width: self.width as nat,
            const_val: self.const_val@,
            signed: self.signed,
            descriptor: self.descriptor@,
            connected: self.connected,
        }
    }
}

/// One named child of a composite.
pub struct CircuitField {
    pub name: String,
    pub node: Circuit,
}

/// A circuit tree.
pub enum Circuit {
    /// A leaf signal.
    Atom(SignalAtom),
    /// A module boundary: its code body and its named children.
    Scope(Verilog, Vec<CircuitField>),
    /// A nested composite that is not a module boundary.
    Group(Vec<CircuitField>),
}

/// The mathematical shadow of a [`CircuitField`].
pub ghost struct FieldM {
    pub name: Seq<char>,
    pub node: CircuitM,
}

/// The mathematical shadow of a [`Circuit`].
pub ghost enum CircuitM {
    Atom(SignalM),
    Scope(VerilogM, Seq<FieldM>),
    Group(Seq<FieldM>),
}

pub open spec fn circuit_view(c: Circuit) -> CircuitM
    decreases c,
{
    match c {
        Circuit::Atom(sig) => CircuitM::Atom(sig@),
        Circuit::Scope(code, fields) => CircuitM::Scope(code@, fields_view(fields@)),
        Circuit::Group(fields) => CircuitM::Group(fields_view(fields@)),
    }
}

pub open spec fn fields_view(fields: Seq<CircuitField>) -> Seq<FieldM>
    decreases fields,
{
    if fields.len() == 0 {
        Seq::empty()
    } else {
        seq![FieldM { name: fields[0].name@, node: circuit_view(fields[0].node) }]
            + fields_view(fields.subrange(1, fields.len() as int))
    }
}

pub proof fn lemma_fields_view(fields: Seq<CircuitField>)
    ensures
        fields_view(fields).len() == fields.len(),
        forall|i: int| 0 <= i < fields.len() ==> fields_view(fields)[i] == (FieldM {
            name: fields[i].name@,
            node: circuit_view(fields[i].node),
        }),
    decreases fields,
{
    if fields.len() > 0 {
        lemma_fields_view(fields.subrange(1, fields.len() as int));
    }
}

impl View for Circuit {
    type V = CircuitM;

    open spec fn view(&self) -> CircuitM {
        circuit_view(*self)
    }
}

// ---------------------------------------------------------------------------
// The walk: what one traversal does to the builder state.
// ---------------------------------------------------------------------------

/// One node's visit: an atom is recorded; a scope enters a module boundary,
/// walks its children and leaves it; a group only extends the namespace
/// around its children.
pub open spec fn walk_node(s: DefinesM, name: Seq<char>, c: CircuitM) -> DefinesM
    decreases c, 0int,
{
    match c {
        CircuitM::Atom(sig) => visit_atom_m(s, name, sig),
        CircuitM::Scope(code, fields) => end_scope_m(
            walk_fields(start_scope_m(s, name, code), fields, 0),
        ),
        CircuitM::Group(fields) => end_namespace_m(
            walk_fields(start_namespace_m(s, name), fields, 0),
        ),
    }
}

/// The children from index `i` on, visited in order.
pub open spec fn walk_fields(s: DefinesM, fields: Seq<FieldM>, i: int) -> DefinesM
    decreases fields, fields.len() - i,
{
    if i < 0 || i >= fields.len() {
        s
    } else {
        walk_fields(walk_node(s, fields[i].name, fields[i].node), fields, i + 1)
    }
}

/// A visit never disturbs the module-path stack it started from.
pub proof fn lemma_walk_preserves_path(s: DefinesM, name: Seq<char>, c: CircuitM)
    ensures
        walk_node(s, name, c).path == s.path,
    decreases c, 0int,
{
    match c {
        CircuitM::Atom(_) => {},
        CircuitM::Scope(code, fields) => {
            let s1 = start_scope_m(s, name, code);
            lemma_walk_fields_preserves_path(s1, fields, 0);
            assert(s.path.push(name).drop_last() =~= s.path);
        },
        CircuitM::Group(fields) => {
            lemma_walk_fields_preserves_path(start_namespace_m(s, name), fields, 0);
        },
    }
}

pub proof fn lemma_walk_fields_preserves_path(s: DefinesM, fields: Seq<FieldM>, i: int)
    ensures
        walk_fields(s, fields, i).path == s.path,
    decreases fields, fields.len() - i,
{
    if 0 <= i < fields.len() {
        lemma_walk_preserves_path(s, fields[i].name, fields[i].node);
        lemma_walk_fields_preserves_path(
            walk_node(s, fields[i].name, fields[i].node),
            fields,
            i + 1,
        );
    }
}

/// A visit keeps the table's keys sorted.
pub proof fn lemma_walk_preserves_sorted(s: DefinesM, name: Seq<char>, c: CircuitM)
    requires
        tbl_sorted(s.table),
    ensures
        tbl_sorted(walk_node(s, name, c).table),
    decreases c, 0int,
{
    match c {
        CircuitM::Atom(sig) => {
            lemma_visit_atom_sorted(s, name, sig);
        },
        CircuitM::Scope(code, fields) => {
            let s1 = start_scope_m(s, name, code);
            let top = join_with(s.path, crate::module_defines::dollar());
            let full = join_with(s.path.push(name), crate::module_defines::dollar());
            let t1 = crate::ir::add_submodule_m(s.table, top, name, full);
            lemma_tbl_set_sorted(s.table, top, tbl_entry(s.table, top));
            assert(tbl_sorted(t1)) by {
                let e = tbl_entry(s.table, top);
                assert(t1 == crate::ir::tbl_set(
                    s.table,
                    top,
                    crate::ir::ModuleM { sub_modules: e.sub_modules.push(crate::ir::SubM { kind: full, name }), ..e },
                ));
                lemma_tbl_set_sorted(
                    s.table,
                    top,
                    crate::ir::ModuleM { sub_modules: e.sub_modules.push(crate::ir::SubM { kind: full, name }), ..e },
                );
            };
            lemma_tbl_set_sorted(t1, full, crate::ir::ModuleM { code, ..tbl_entry(t1, full) });
            lemma_walk_fields_preserves_sorted(s1, fields, 0);
        },
        CircuitM::Group(fields) => {
            lemma_walk_fields_preserves_sorted(start_namespace_m(s, name), fields, 0);
        },
    }
}

pub proof fn lemma_walk_fields_preserves_sorted(s: DefinesM, fields: Seq<FieldM>, i: int)
    requires
        tbl_sorted(s.table),
    ensures
        tbl_sorted(walk_fields(s, fields, i).table),
    decreases fields, fields.len() - i,
{
    if 0 <= i < fields.len() {
        lemma_walk_preserves_sorted(s, fields[i].name, fields[i].node);
        lemma_walk_fields_preserves_sorted(
            walk_node(s, fields[i].name, fields[i].node),
            fields,
            i + 1,
        );
    }
}

/// Each table step of one atom visit keeps the keys sorted.
proof fn lemma_visit_atom_sorted(s: DefinesM, name: Seq<char>, sig: SignalM)
    requires
        tbl_sorted(s.table),
    ensures
        tbl_sorted(visit_atom_m(s, name, sig).table),
{
    let s2 = visit_atom_m(s, name, sig);
    let mod_path = join_with(s.path, crate::module_defines::dollar());
    let parent_path = if s.path.len() > 0 {
        join_with(s.path.drop_last(), crate::module_defines::dollar())
    } else {
        Seq::empty()
    };
    let t0 = s.table;
    assert forall|t: Seq<crate::ir::ModuleEntryM>, key: Seq<char>, m: crate::ir::ModuleM|
        tbl_sorted(t) implies #[trigger] tbl_sorted(crate::ir::tbl_set(t, key, m)) by {
        lemma_tbl_set_sorted(t, key, m);
    };
}

// ---------------------------------------------------------------------------
// Terminal marking and the driver-completeness check.
// ---------------------------------------------------------------------------

/// The same circuit with every leaf's terminal mark set.
pub open spec fn connect_m(c: CircuitM) -> CircuitM
    decreases c, 0int,
{
    match c {
        CircuitM::Atom(sig) => CircuitM::Atom(SignalM { connected: true, ..sig }),
        CircuitM::Scope(code, fields) => CircuitM::Scope(code, connect_fields_m(fields)),
        CircuitM::Group(fields) => CircuitM::Group(connect_fields_m(fields)),
    }
}

pub open spec fn connect_fields_m(fields: Seq<FieldM>) -> Seq<FieldM>
    decreases fields, 0int,
{
    if fields.len() == 0 {
        Seq::empty()
    } else {
        connect_fields_m(fields.subrange(0, fields.len() - 1)).push(
            FieldM { name: fields.last().name, node: connect_m(fields.last().node) },
        )
    }
}

pub proof fn lemma_connect_fields(fields: Seq<FieldM>)
    ensures
        connect_fields_m(fields).len() == fields.len(),
        forall|j: int| 0 <= j < fields.len() ==> connect_fields_m(fields)[j] == (FieldM {
            name: fields[j].name,
            node: connect_m(fields[j].node),
        }),
    decreases fields,
{
    if fields.len() > 0 {
        lemma_connect_fields(fields.subrange(0, fields.len() - 1));
    }
}

/// Every leaf's terminal mark is set.
pub open spec fn all_connected_m(c: CircuitM) -> bool
    decreases c, 0int,
{
    match c {
        CircuitM::Atom(sig) => sig.connected,
        CircuitM::Scope(_, fields) => fields_all_connected(fields),
        CircuitM::Group(fields) => fields_all_connected(fields),
    }
}

pub open spec fn fields_all_connected(fields: Seq<FieldM>) -> bool
    decreases fields, 0int,
{
    forall|j: int| 0 <= j < fields.len() ==> all_connected_m(#[trigger] fields[j].node)
}

// ---------------------------------------------------------------------------
// The capability set.
// ---------------------------------------------------------------------------

impl SignalAtom {
    /// A field-wise copy whose model equals this one's.
    pub fn duplicate(&self) -> (r: SignalAtom)
        ensures
            r@ == self@,
    {
        SignalAtom {
            kind: self.kind,
            width: self.width,
            const_val: self.const_val.clone(),
            signed: self.signed,
            descriptor: self.descriptor.duplicate(),
            connected: self.connected,
        }
    }
}

impl Circuit {
    /// Hands this node and its children to the visitor, depth first.
    #[verifier::loop_isolation(false)]
    pub fn accept(&self, name: &str, probe: &mut ModuleDefines)
        requires
            old(probe).wf(),
            old(probe)@.path.len() > 0 || self@ is Scope,
        ensures
            final(probe)@ == walk_node(old(probe)@, name@, self@),
            final(probe).wf(),
        decreases *self,
    {
        match self {
            Circuit::Atom(sig) => {
                probe.visit_atom(name, sig);
            },
            Circuit::Scope(code, fields) => {
                probe.visit_start_scope(name, code);
                let ghost s1 = probe@;
                let ghost fv = fields_view(fields@);
                proof {
                    lemma_fields_view(fields@);
                }
                let mut i: usize = 0;
                while i < fields.len()
                    invariant
                        i <= fields@.len(),
                        probe.wf(),
                        probe@.path == s1.path,
                        walk_fields(s1, fv, 0) == walk_fields(probe@, fv, i as int),
                    decreases fields@.len() - i,
                {
                    let ghost before = probe@;
                    let f = &fields[i];
                    proof {
                        assert(decreases_to!(*self => *fields));
                        assert(decreases_to!(*fields => fields@));
                        assert(decreases_to!(fields@ => fields@[i as int]));
                        assert(decreases_to!(*self => fields@[i as int].node));
                    }
                    f.node.accept(f.name.as_str(), probe);
                    proof {
                        assert(fv[i as int].name == f.name@);
                        assert(fv[i as int].node == circuit_view(f.node));
                        lemma_walk_preserves_path(before, f.name@, f.node@);
                    }
                    i = i + 1;
                }
                proof {
                    assert(walk_fields(probe@, fv, fields@.len() as int) == probe@);
                }
                probe.visit_end_scope();
            },
            Circuit::Group(fields) => {
                probe.visit_start_namespace(name);
                let ghost s1 = probe@;
                let ghost fv = fields_view(fields@);
                proof {
                    lemma_fields_view(fields@);
                }
                let mut i: usize = 0;
                while i < fields.len()
                    invariant
                        i <= fields@.len(),
                        probe.wf(),
                        probe@.path == s1.path,
                        walk_fields(s1, fv, 0) == walk_fields(probe@, fv, i as int),
                    decreases fields@.len() - i,
                {
                    let ghost before = probe@;
                    let f = &fields[i];
                    proof {
                        assert(decreases_to!(*self => *fields));
                        assert(decreases_to!(*fields => fields@));
                        assert(decreases_to!(fields@ => fields@[i as int]));
                        assert(decreases_to!(*self => fields@[i as int].node));
                    }
                    f.node.accept(f.name.as_str(), probe);
                    proof {
                        assert(fv[i as int].name == f.name@);
                        assert(fv[i as int].node == circuit_view(f.node));
                        lemma_walk_preserves_path(before, f.name@, f.node@);
                    }
                    i = i + 1;
                }
                proof {
                    assert(walk_fields(probe@, fv, fields@.len() as int) == probe@);
                }
                probe.visit_end_namespace();
            },
        }
    }

    /// A copy of this circuit with every terminal marked.
    #[verifier::loop_isolation(false)]
    fn connected_copy(&self) -> (r: Circuit)
        ensures
            r@ == connect_m(self@),
        decreases *self, 1nat,
    {
        match self {
            Circuit::Atom(sig) => {
                let mut s2 = sig.duplicate();
                s2.connected = true;
                Circuit::Atom(s2)
            },
            Circuit::Scope(code, fields) => {
                let out = connect_field_list(self, fields);
                Circuit::Scope(code.duplicate(), out)
            },
            Circuit::Group(fields) => {
                let out = connect_field_list(self, fields);
                Circuit::Group(out)
            },
        }
    }

    /// Marks every terminal beneath this node, the idempotent terminal
    /// marking that the driver-completeness check later consults.
    pub fn connect_all(&mut self)
        ensures
            final(self)@ == connect_m(old(self)@),
    {
        let c = self.connected_copy();
        *self = c;
    }

    /// Composite nodes have no behavior of their own.
    pub fn update(&mut self)
        ensures
            final(self)@ == old(self)@,
    {
    }

    /// Whether every terminal beneath this node is marked.
    #[verifier::loop_isolation(false)]
    pub fn is_fully_connected(&self) -> (r: bool)
        ensures
            r == all_connected_m(self@),
        decreases *self, 1nat,
    {
        match self {
            Circuit::Atom(sig) => sig.connected,
            Circuit::Scope(_, fields) => fields_connected_check(self, fields),
            Circuit::Group(fields) => fields_connected_check(self, fields),
        }
    }
}

/// Copies the children with every terminal beneath them marked; `whole` is
/// the node the children belong to, for termination.
#[verifier::loop_isolation(false)]
fn connect_field_list(whole: &Circuit, fields: &Vec<CircuitField>) -> (r: Vec<CircuitField>)
    requires
        decreases_to!(*whole => fields@),
    ensures
        fields_view(r@) == connect_fields_m(fields_view(fields@)),
    decreases *whole, 0nat,
{
    let mut out: Vec<CircuitField> = Vec::new();
    let mut i: usize = 0;
    while i < fields.len()
        invariant
            i <= fields@.len(),
            out@.len() == i,
            forall|j: int| 0 <= j < i ==> out@[j].name@ == fields@[j].name@ && circuit_view(
                #[trigger] out@[j].node,
            ) == connect_m(circuit_view(fields@[j].node)),
        decreases fields@.len() - i,
    {
        proof {
            assert(decreases_to!(fields@ => fields@[i as int]));
            assert(decreases_to!(*whole => fields@[i as int].node));
        }
        let f = &fields[i];
        out.push(CircuitField { name: f.name.clone(), node: f.node.connected_copy() });
        i = i + 1;
    }
    proof {
        lemma_fields_view(out@);
        lemma_fields_view(fields@);
        lemma_connect_fields(fields_view(fields@));
        assert(fields_view(out@) =~= connect_fields_m(fields_view(fields@)));
    }
    out
}

/// Decides whether every terminal beneath the children is marked.
#[verifier::loop_isolation(false)]
fn fields_connected_check(whole: &Circuit, fields: &Vec<CircuitField>) -> (r: bool)
    requires
        decreases_to!(*whole => fields@),
    ensures
        r == fields_all_connected(fields_view(fields@)),
    decreases *whole, 0nat,
{
    proof {
        lemma_fields_view(fields@);
    }
    let mut i: usize = 0;
    while i < fields.len()
        invariant
            i <= fields@.len(),
            forall|j: int| 0 <= j < i ==> all_connected_m(
                #[trigger] fields_view(fields@)[j].node,
            ),
        decreases fields@.len() - i,
    {
        proof {
            assert(decreases_to!(fields@ => fields@[i as int]));
            assert(decreases_to!(*whole => fields@[i as int].node));
        }
        let f = &fields[i];
        if !f.node.is_fully_connected() {
            proof {
                assert(fields_view(fields@)[i as int].node == circuit_view(f.node));
            }
            return false;
        }
        i = i + 1;
    }
    true
}

/// A visit only adds submodule invocations whose kind it also enters in the
/// table: every recorded kind stays a key.
pub proof fn lemma_walk_subs(s: DefinesM, name: Seq<char>, c: CircuitM)
    requires
        crate::ir::subs_all_present(s.table),
    ensures
        crate::ir::subs_all_present(walk_node(s, name, c).table),
    decreases c, 0int,
{
    match c {
        CircuitM::Atom(sig) => {
            crate::module_defines::lemma_visit_atom_subs(s, name, sig);
        },
        CircuitM::Scope(code, fields) => {
            crate::module_defines::lemma_start_scope_subs(s, name, code);
            lemma_walk_fields_subs(start_scope_m(s, name, code), fields, 0);
        },
        CircuitM::Group(fields) => {
            lemma_walk_fields_subs(start_namespace_m(s, name), fields, 0);
        },
    }
}

pub proof fn lemma_walk_fields_subs(s: DefinesM, fields: Seq<FieldM>, i: int)
    requires
        crate::ir::subs_all_present(s.table),
    ensures
        crate::ir::subs_all_present(walk_fields(s, fields, i).table),
    decreases fields, fields.len() - i,
{
    if 0 <= i < fields.len() {
        lemma_walk_subs(s, fields[i].name, fields[i].node);
        lemma_walk_fields_subs(walk_node(s, fields[i].name, fields[i].node), fields, i + 1);
    }
}

} // verus!
