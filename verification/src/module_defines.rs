//! The IR builder: a visitor that walks one circuit tree and collects per-
//! module metadata into the keyed table, maintaining the persistent module
//! path and the per-module namespace.

use vstd::prelude::*;
use crate::atom::AtomDetails;
use crate::atom::AtomKind;
use crate::atom::AtomM;
use crate::circuit::SignalAtom;
use crate::circuit::SignalM;
use crate::descriptor::EnumDefinition;
use crate::descriptor::TypeDescriptor;
use crate::ir::add_atom_m;
use crate::ir::add_code_m;
use crate::ir::add_enums_m;
use crate::ir::add_submodule_m;
use crate::ir::dedup_append;
use crate::ir::desc_enum_defs;
use crate::ir::empty_module;
use crate::ir::lemma_scan_get;
use crate::ir::lemma_tbl_set_at;
use crate::ir::lemma_tbl_set_sorted;
use crate::ir::lemma_vec_deep_view;
use crate::ir::tbl_entry;
use crate::ir::tbl_sorted;
use crate::ir::ModuleDetails;
use crate::ir::ModuleEntry;
use crate::ir::ModuleEntryM;
use crate::ir::ModuleM;
use crate::ir::SubModuleInvocation;
use crate::named_path::NamedPath;
use crate::text::join_with;
use crate::text::lex_lt;
use crate::text::str_eq;
use crate::text::str_lex_lt;
use crate::verilog::Verilog;
use crate::verilog::VerilogM;

verus! {

/// The join token of hierarchical names.
pub open spec fn dollar() -> Seq<char> {
    seq!['$']
}

/// A name qualified by a namespace: prefixed only when the namespace is
/// non-empty.
pub open spec fn qualify(ns: Seq<char>, name: Seq<char>) -> Seq<char> {
    if ns.len() == 0 {
        name
    } else {
        ns + dollar() + name
    }
}

/// The mathematical shadow of a [`ModuleDefines`].
pub ghost struct DefinesM {
    pub path: Seq<Seq<char>>,
    pub namespace: Seq<Seq<char>>,
    pub table: Seq<ModuleEntryM>,
}

/// The state before any visit.
pub open spec fn empty_defines() -> DefinesM {
    DefinesM { path: Seq::empty(), namespace: Seq::empty(), table: Seq::empty() }
}

/// Entering a module boundary: the invocation is recorded against the current
/// path, the new segment is pushed, the namespace is reset, and the new
/// module's code body is recorded.
pub open spec fn start_scope_m(s: DefinesM, name: Seq<char>, code: VerilogM) -> DefinesM {
    let top = join_with(s.path, dollar());
    let path2 = s.path.push(name);
    let full = join_with(path2, dollar());
    DefinesM {
        path: path2,
        namespace: Seq::empty(),
        table: add_code_m(add_submodule_m(s.table, top, name, full), full, code),
    }
}

/// Entering a nested composite: only the namespace grows.
pub open spec fn start_namespace_m(s: DefinesM, name: Seq<char>) -> DefinesM {
    DefinesM { namespace: s.namespace.push(name), ..s }
}

/// Leaving a nested composite.
pub open spec fn end_namespace_m(s: DefinesM) -> DefinesM {
    if s.namespace.len() > 0 {
        DefinesM { namespace: s.namespace.drop_last(), ..s }
    } else {
        s
    }
}

/// Leaving a module boundary.
pub open spec fn end_scope_m(s: DefinesM) -> DefinesM {
    if s.path.len() > 0 {
        DefinesM { path: s.path.drop_last(), ..s }
    } else {
        s
    }
}

/// Visiting one leaf: the namespace-qualified atom is recorded against the
/// current module; a parameter additionally synthesizes a mirrored stub
/// against the parent, and any enum shape is registered against both.
pub open spec fn visit_atom_m(s: DefinesM, name: Seq<char>, sig: SignalM) -> DefinesM
    recommends
        s.path.len() > 0,
{
    let mod_path = join_with(s.path, dollar());
    let module_name = if s.path.len() > 0 {
        s.path.last()
    } else {
        Seq::empty()
    };
    let parent_path = if s.path.len() > 0 {
        join_with(s.path.drop_last(), dollar())
    } else {
        Seq::empty()
    };
    let qname = qualify(join_with(s.namespace, dollar()), name);
    let atom = AtomM {
        name: qname,
        kind: sig.kind,
        width: sig.width,
        const_val: sig.const_val,
        signed: sig.signed,
    };
    let t1 = if sig.kind.spec_is_parameter() {
        let stub_kind = if sig.kind == AtomKind::InputParameter {
            AtomKind::StubInputSignal
        } else {
            AtomKind::StubOutputSignal
        };
        let stub = AtomM {
            name: module_name + dollar() + qname,
            kind: stub_kind,
            width: sig.width,
            const_val: sig.const_val,
            signed: sig.signed,
        };
        add_atom_m(s.table, parent_path, stub)
    } else {
        s.table
    };
    let t2 = add_enums_m(t1, mod_path, sig.descriptor);
    let t3 = add_enums_m(t2, parent_path, sig.descriptor);
    let t4 = add_atom_m(t3, mod_path, atom);
    DefinesM { table: t4, ..s }
}

/// The IR builder: the two name stacks and the keyed table, populated during
/// one walk and consumed by the emitter.
pub struct ModuleDefines {
    path: NamedPath,
    namespace: NamedPath,
    details: Vec<ModuleEntry>,
}

impl View for ModuleDefines {
    type V = DefinesM;

    closed spec fn view(&self) -> DefinesM {
        DefinesM {
            path: self.path@,
            namespace: self.namespace@,
            table: self.details.deep_view(),
        }
    }
}

impl Default for ModuleDefines {
    fn default() -> (r: ModuleDefines)
        ensures
            r@ == empty_defines(),
            r.wf(),
    {
        ModuleDefines::new()
    }
}

impl ModuleDefines {
    /// The table's keys stay strictly ascending in lexicographic order.
    pub open spec fn wf(&self) -> bool {
        tbl_sorted(self@.table)
    }

    pub fn new() -> (r: ModuleDefines)
        ensures
            r@ == empty_defines(),
            r.wf(),
    {
        let r = ModuleDefines {
            path: NamedPath::new(),
            namespace: NamedPath::new(),
            details: Vec::new(),
        };
        proof {
            assert(r@.table =~= Seq::<ModuleEntryM>::empty());
        }
        r
    }

    /// The collected table, for reading it back after a walk.
    pub fn entries(&self) -> (r: &Vec<ModuleEntry>)
        ensures
            r.deep_view() == self@.table,
    {
        &self.details
    }

    /// Scans for the key: the index of its entry, or of the place where it
    /// would be inserted, and whether it was found.
    fn locate(&self, key: &str) -> (r: (usize, bool))
        ensures
            ({
                let t = self@.table;
                let pos = r.0 as int;
                &&& pos <= t.len()
                &&& forall|j: int| 0 <= j < pos ==> lex_lt(t[j].path, key@)
                &&& r.1 == (pos < t.len() && t[pos].path == key@)
                &&& (pos < t.len() && !r.1) ==> lex_lt(key@, t[pos].path)
            }),
    {
        let ghost t = self@.table;
        let mut i: usize = 0;
        loop
            invariant
                i <= self.details@.len(),
                t == self@.table,
                t.len() == self.details@.len(),
                forall|j: int| 0 <= j < i ==> lex_lt(t[j].path, key@),
            decreases self.details@.len() - i,
        {
            proof {
                lemma_vec_deep_view(self.details);
            }
            if i >= self.details.len() {
                return (i, false);
            }
            let entry_path: &String = &self.details[i].path;
            if str_lex_lt(entry_path.as_str(), key) {
                i = i + 1;
            } else if str_eq(entry_path.as_str(), key) {
                return (i, true);
            } else {
                proof {
                    crate::text::lemma_lex_trichotomy(key@, t[i as int].path);
                }
                return (i, false);
            }
        }
    }

    /// Takes the module's current record out of the table, or starts an
    /// empty one; `pos`/`found` must come from `locate` on the same key.
    fn take_details(&mut self, pos: usize, found: bool) -> (md: ModuleDetails)
        requires
            pos <= old(self)@.table.len(),
            found ==> pos < old(self)@.table.len(),
        ensures
            final(self)@.path == old(self)@.path,
            final(self)@.namespace == old(self)@.namespace,
            found ==> final(self)@.table == old(self)@.table.remove(pos as int) && md@ == old(
                self,
            )@.table[pos as int].details,
            !found ==> final(self)@.table == old(self)@.table && md@ == empty_module(),
    {
        proof {
            lemma_vec_deep_view(self.details);
        }
        if found {
            let e = self.details.remove(pos);
            proof {
                lemma_vec_deep_view(self.details);
                assert(self@.table =~= old(self)@.table.remove(pos as int));
            }
            e.details
        } else {
            ModuleDetails::empty()
        }
    }

    /// Puts the (possibly reworked) record back where the scan stopped.
    fn put_details(&mut self, pos: usize, key: &str, md: ModuleDetails)
        requires
            pos <= old(self)@.table.len(),
        ensures
            final(self)@.path == old(self)@.path,
            final(self)@.namespace == old(self)@.namespace,
            final(self)@.table == old(self)@.table.insert(
                pos as int,
                ModuleEntryM { path: key@, details: md@ },
            ),
    {
        proof {
            lemma_vec_deep_view(self.details);
        }
        let entry = ModuleEntry { path: key.to_owned(), details: md };
        self.details.insert(pos, entry);
        proof {
            lemma_vec_deep_view(self.details);
            assert(self@.table =~= old(self)@.table.insert(
                pos as int,
                ModuleEntryM { path: key@, details: md@ },
            ));
        }
    }
}

/// After a scan for `key` stopped at `pos`, removing a found entry and
/// inserting the reworked one there is exactly `tbl_set`.
proof fn lemma_upsert_is_set(
    t: Seq<ModuleEntryM>,
    key: Seq<char>,
    m: ModuleM,
    pos: int,
    found: bool,
)
    requires
        0 <= pos <= t.len(),
        forall|j: int| 0 <= j < pos ==> lex_lt(t[j].path, key),
        found == (pos < t.len() && t[pos].path == key),
        pos < t.len() && !found ==> lex_lt(key, t[pos].path),
    ensures
        (if found {
            t.remove(pos)
        } else {
            t
        }).insert(pos, ModuleEntryM { path: key, details: m }) == crate::ir::tbl_set(t, key, m),
{
    lemma_tbl_set_at(t, key, m, pos, found);
    let e = ModuleEntryM { path: key, details: m };
    if found {
        assert(t.remove(pos).insert(pos, e) =~= t.subrange(0, pos) + seq![e] + t.subrange(
            pos + 1,
            t.len() as int,
        ));
    } else {
        assert(t.insert(pos, e) =~= t.subrange(0, pos) + seq![e] + t.subrange(
            pos,
            t.len() as int,
        ));
    }
}

impl ModuleDefines {
    /// Records one atom against the module.
    pub fn add_atom(&mut self, module: &str, atom: AtomDetails)
        requires
            old(self).wf(),
        ensures
            final(self)@.path == old(self)@.path,
            final(self)@.namespace == old(self)@.namespace,
            final(self)@.table == add_atom_m(old(self)@.table, module@, atom@),
            final(self).wf(),
    {
        let ghost t0 = self@.table;
        let (pos, found) = self.locate(module);
        proof {
            lemma_scan_get(t0, module@, pos as int, found);
        }
        let mut md = self.take_details(pos, found);
        proof {
            assert(md@ == tbl_entry(t0, module@));
        }
        let ghost atoms0 = md.atoms.deep_view();
        md.atoms.push(atom);
        proof {
            lemma_vec_deep_view(md.atoms);
            assert(md.atoms.deep_view() =~= atoms0.push(atom@));
        }
        self.put_details(pos, module, md);
        proof {
            let newm = ModuleM { atoms: tbl_entry(t0, module@).atoms.push(atom@), ..tbl_entry(t0, module@) };
            lemma_upsert_is_set(t0, module@, newm, pos as int, found);
            lemma_tbl_set_sorted(t0, module@, newm);
        }
    }

    /// Records one submodule invocation against the module.
    pub fn add_submodule(&mut self, module: &str, name: &str, kind: &str)
        requires
            old(self).wf(),
        ensures
            final(self)@.path == old(self)@.path,
            final(self)@.namespace == old(self)@.namespace,
            final(self)@.table == add_submodule_m(old(self)@.table, module@, name@, kind@),
            final(self).wf(),
    {
        let ghost t0 = self@.table;
        let (pos, found) = self.locate(module);
        proof {
            lemma_scan_get(t0, module@, pos as int, found);
        }
        let mut md = self.take_details(pos, found);
        proof {
            assert(md@ == tbl_entry(t0, module@));
        }
        let ghost subs0 = md.sub_modules.deep_view();
        let sub = SubModuleInvocation { kind: kind.to_owned(), name: name.to_owned() };
        md.sub_modules.push(sub);
        proof {
            lemma_vec_deep_view(md.sub_modules);
            assert(md.sub_modules.deep_view() =~= subs0.push(
                crate::ir::SubM { kind: kind@, name: name@ },
            ));
        }
        self.put_details(pos, module, md);
        proof {
            let e = tbl_entry(t0, module@);
            let newm = ModuleM {
                sub_modules: e.sub_modules.push(crate::ir::SubM { kind: kind@, name: name@ }),
                ..e
            };
            lemma_upsert_is_set(t0, module@, newm, pos as int, found);
            lemma_tbl_set_sorted(t0, module@, newm);
        }
    }

    /// Records the module's code body.
    pub fn add_code(&mut self, module: &str, code: &Verilog)
        requires
            old(self).wf(),
        ensures
            final(self)@.path == old(self)@.path,
            final(self)@.namespace == old(self)@.namespace,
            final(self)@.table == add_code_m(old(self)@.table, module@, code@),
            final(self).wf(),
    {
        let ghost t0 = self@.table;
        let (pos, found) = self.locate(module);
        proof {
            lemma_scan_get(t0, module@, pos as int, found);
        }
        let mut md = self.take_details(pos, found);
        proof {
            assert(md@ == tbl_entry(t0, module@));
        }
        md.code = code.duplicate();
        self.put_details(pos, module, md);
        proof {
            let e = tbl_entry(t0, module@);
            let newm = ModuleM { code: code@, ..e };
            lemma_upsert_is_set(t0, module@, newm, pos as int, found);
            lemma_tbl_set_sorted(t0, module@, newm);
        }
    }

    /// Registers every enum constant of the shape against the module,
    /// deduplicated by value.
    pub fn add_enums(&mut self, module: &str, descriptor: &TypeDescriptor)
        requires
            old(self).wf(),
        ensures
            final(self)@.path == old(self)@.path,
            final(self)@.namespace == old(self)@.namespace,
            final(self)@.table == add_enums_m(old(self)@.table, module@, descriptor@),
            final(self).wf(),
    {
        let mut defs: Vec<EnumDefinition> = Vec::new();
        proof {
            assert(defs.deep_view() + desc_enum_defs(descriptor@) =~= Seq::<
                crate::descriptor::EnumM,
            >::empty() + desc_enum_defs(descriptor@));
            assert(defs.deep_view() =~= Seq::<crate::descriptor::EnumM>::empty());
        }
        crate::ir::collect_enum_defs(descriptor, &mut defs);
        proof {
            assert(defs.deep_view() =~= desc_enum_defs(descriptor@));
        }
        let ghost t0 = self@.table;
        let (pos, found) = self.locate(module);
        proof {
            lemma_scan_get(t0, module@, pos as int, found);
        }
        let mut md = self.take_details(pos, found);
        proof {
            assert(md@ == tbl_entry(t0, module@));
        }
        let ghost es0 = md.enums.deep_view();
        let ghost alldefs = defs.deep_view();
        let mut i: usize = 0;
        proof {
            assert(alldefs.skip(0) =~= alldefs);
        }
        while i < defs.len()
            invariant
                i <= defs@.len(),
                alldefs == defs.deep_view(),
                alldefs.len() == defs@.len(),
                dedup_append(es0, alldefs) == dedup_append(
                    md.enums.deep_view(),
                    alldefs.skip(i as int),
                ),
                md.atoms.deep_view() == tbl_entry(t0, module@).atoms,
                md.sub_modules.deep_view() == tbl_entry(t0, module@).sub_modules,
                md.code@ == tbl_entry(t0, module@).code,
            decreases defs@.len() - i,
        {
            let ghost es_cur = md.enums.deep_view();
            let ghost rest = alldefs.skip(i as int);
            proof {
                lemma_vec_deep_view(defs);
                assert(rest[0] == alldefs[i as int]);
                assert(rest.subrange(1, rest.len() as int) =~= alldefs.skip(i + 1));
            }
            let present = crate::ir::enums_hold(&md.enums, &defs[i]);
            if !present {
                let d = EnumDefinition {
                    type_label: defs[i].type_label.clone(),
                    discriminant: defs[i].discriminant.clone(),
                    value: defs[i].value,
                };
                proof {
                    assert(d@ == alldefs[i as int]);
                }
                md.enums.push(d);
                proof {
                    lemma_vec_deep_view(md.enums);
                    assert(md.enums.deep_view() =~= es_cur.push(alldefs[i as int]));
                }
            }
            i = i + 1;
        }
        proof {
            assert(alldefs.skip(alldefs.len() as int) =~= Seq::<crate::descriptor::EnumM>::empty());
            assert(md.enums.deep_view() == dedup_append(es0, alldefs));
        }
        self.put_details(pos, module, md);
        proof {
            let e = tbl_entry(t0, module@);
            let newm = ModuleM { enums: dedup_append(e.enums, desc_enum_defs(descriptor@)), ..e };
            lemma_upsert_is_set(t0, module@, newm, pos as int, found);
            lemma_tbl_set_sorted(t0, module@, newm);
        }
    }

    /// Entering a module boundary.
    pub fn visit_start_scope(&mut self, name: &str, code: &Verilog)
        requires
            old(self).wf(),
        ensures
            final(self)@ == start_scope_m(old(self)@, name@, code@),
            final(self).wf(),
    {
        let top = self.path.flat("$");
        self.path.push(name);
        self.namespace.reset();
        let full = self.path.flat("$");
        proof {
            reveal_strlit("$");
            assert("$"@ =~= dollar());
        }
        self.add_submodule(top.as_str(), name, full.as_str());
        self.add_code(full.as_str(), code);
    }

    /// Entering a nested composite.
    pub fn visit_start_namespace(&mut self, name: &str)
        ensures
            final(self)@ == start_namespace_m(old(self)@, name@),
            final(self).wf() == old(self).wf(),
    {
        self.namespace.push(name);
    }

    /// Visiting one leaf signal.
    pub fn visit_atom(&mut self, name: &str, signal: &SignalAtom)
        requires
            old(self).wf(),
            old(self)@.path.len() > 0,
        ensures
            final(self)@ == visit_atom_m(old(self)@, name@, signal@),
            final(self).wf(),
    {
        proof {
            reveal_strlit("$");
            assert("$"@ =~= dollar());
        }
        let mod_path = self.path.flat("$");
        let module_name = self.path.last();
        let parent_path = self.path.parent("$");
        let namespace = self.namespace.flat("$");
        let qname: String = if namespace.as_str().unicode_len() == 0 {
            name.to_owned()
        } else {
            let mut q = namespace;
            q.append("$");
            q.append(name);
            q
        };
        if signal.kind.is_parameter() {
            let stub_kind = if signal.kind == AtomKind::InputParameter {
                AtomKind::StubInputSignal
            } else {
                AtomKind::StubOutputSignal
            };
            let mut stub_name = module_name;
            stub_name.append("$");
            stub_name.append(qname.as_str());
            let stub = AtomDetails {
                name: stub_name,
                kind: stub_kind,
                width: signal.width,
                const_val: signal.const_val.clone(),
                signed: signal.signed,
            };
            self.add_atom(parent_path.as_str(), stub);
        }
        self.add_enums(mod_path.as_str(), &signal.descriptor);
        self.add_enums(parent_path.as_str(), &signal.descriptor);
        let atom = AtomDetails {
            name: qname,
            kind: signal.kind,
            width: signal.width,
            const_val: signal.const_val.clone(),
            signed: signal.signed,
        };
        self.add_atom(mod_path.as_str(), atom);
    }

    /// Leaving a nested composite.  Leaving more composites than were
    /// entered since the last module boundary reset the namespace is
    /// tolerated: the empty namespace stays empty.
    pub fn visit_end_namespace(&mut self)
        ensures
            final(self)@ == end_namespace_m(old(self)@),
            final(self).wf() == old(self).wf(),
    {
        if !self.namespace.is_empty() {
            self.namespace.pop();
        }
    }

    /// Leaving a module boundary.
    pub fn visit_end_scope(&mut self)
        requires
            old(self)@.path.len() > 0,
        ensures
            final(self)@ == end_scope_m(old(self)@),
            final(self).wf() == old(self).wf(),
    {
        self.path.pop();
    }
}

// ---------------------------------------------------------------------------
// Every submodule invocation the walk records resolves to a table entry:
// entering a scope records the invocation against the parent and creates the
// child's entry in the same step.
// ---------------------------------------------------------------------------

pub proof fn lemma_start_scope_subs(s: DefinesM, name: Seq<char>, code: VerilogM)
    requires
        crate::ir::subs_all_present(s.table),
    ensures
        crate::ir::subs_all_present(start_scope_m(s, name, code).table),
{
    let t = s.table;
    let top = join_with(s.path, dollar());
    let full = join_with(s.path.push(name), dollar());
    let e1 = tbl_entry(t, top);
    let m1 = ModuleM { sub_modules: e1.sub_modules.push(crate::ir::SubM { kind: full, name }), ..e1 };
    let t1 = crate::ir::tbl_set(t, top, m1);
    let e2 = tbl_entry(t1, full);
    let m2 = ModuleM { code, ..e2 };
    let t2 = crate::ir::tbl_set(t1, full, m2);
    assert(start_scope_m(s, name, code).table == t2);
    crate::ir::lemma_tbl_set_get_same(t1, full, m2);
    assert(crate::ir::tbl_contains(t2, full));
    assert forall|i: int, j: int|
        0 <= i < t2.len() && 0 <= j < t2[i].details.sub_modules.len() implies crate::ir::tbl_contains(
        t2,
        #[trigger] t2[i].details.sub_modules[j].kind,
    ) by {
        crate::ir::lemma_tbl_set_member(t1, full, m2, i);
        if t2[i] == (ModuleEntryM { path: full, details: m2 }) {
            // the child's own invocation list is the one it already had, if any
            if crate::ir::tbl_get(t1, full) is Some {
                crate::ir::lemma_tbl_get_some_member(t1, full);
                let p = choose|p: int|
                    0 <= p < t1.len() && t1[p].path == full && t1[p].details == crate::ir::tbl_get(
                        t1,
                        full,
                    )->Some_0;
                lemma_t1_sub_present(t, top, m1, e1, t1, p, j);
                crate::ir::lemma_tbl_set_preserves_contains(
                    t1,
                    full,
                    m2,
                    t1[p].details.sub_modules[j].kind,
                );
            }
        } else {
            let p = choose|p: int| 0 <= p < t1.len() && t2[i] == t1[p];
            lemma_t1_sub_present(t, top, m1, e1, t1, p, j);
            crate::ir::lemma_tbl_set_preserves_contains(
                t1,
                full,
                m2,
                t1[p].details.sub_modules[j].kind,
            );
        }
    };
}

/// In the table after the invocation is recorded, each recorded kind is
/// either an old one, still present, or the new child path, present once the
/// child's entry is created.
proof fn lemma_t1_sub_present(
    t: Seq<ModuleEntryM>,
    top: Seq<char>,
    m1: ModuleM,
    e1: ModuleM,
    t1: Seq<ModuleEntryM>,
    p: int,
    j: int,
)
    requires
        crate::ir::subs_all_present(t),
        e1 == tbl_entry(t, top),
        m1.sub_modules == e1.sub_modules.push(m1.sub_modules.last()),
        m1.sub_modules.len() == e1.sub_modules.len() + 1,
        t1 == crate::ir::tbl_set(t, top, m1),
        0 <= p < t1.len(),
        0 <= j < t1[p].details.sub_modules.len(),
    ensures
        crate::ir::tbl_contains(t1, t1[p].details.sub_modules[j].kind) || t1[p].details.sub_modules[j]
            == m1.sub_modules.last(),
{
    crate::ir::lemma_tbl_set_member(t, top, m1, p);
    if t1[p] == (ModuleEntryM { path: top, details: m1 }) {
        if j < m1.sub_modules.len() - 1 {
            // an invocation the parent already had
            assert(m1.sub_modules[j] == e1.sub_modules[j]);
            if crate::ir::tbl_get(t, top) is Some {
                crate::ir::lemma_tbl_get_some_member(t, top);
                let q = choose|q: int|
                    0 <= q < t.len() && t[q].path == top && t[q].details == crate::ir::tbl_get(
                        t,
                        top,
                    )->Some_0;
                assert(crate::ir::tbl_contains(t, t[q].details.sub_modules[j].kind));
                crate::ir::lemma_tbl_set_preserves_contains(
                    t,
                    top,
                    m1,
                    t[q].details.sub_modules[j].kind,
                );
            }
        } else {
            assert(t1[p].details.sub_modules[j] == m1.sub_modules.last());
        }
    } else {
        let q = choose|q: int| 0 <= q < t.len() && t1[p] == t[q];
        assert(crate::ir::tbl_contains(t, t[q].details.sub_modules[j].kind));
        crate::ir::lemma_tbl_set_preserves_contains(t, top, m1, t[q].details.sub_modules[j].kind);
    }
}

pub proof fn lemma_visit_atom_subs(s: DefinesM, name: Seq<char>, sig: SignalM)
    requires
        crate::ir::subs_all_present(s.table),
    ensures
        crate::ir::subs_all_present(visit_atom_m(s, name, sig).table),
{
    let mod_path = join_with(s.path, dollar());
    let parent_path = if s.path.len() > 0 {
        join_with(s.path.drop_last(), dollar())
    } else {
        Seq::empty()
    };
    let t0 = s.table;
    let t1 = visit_atom_step1(s, name, sig);
    assert(crate::ir::subs_all_present(t1)) by {
        if sig.kind.spec_is_parameter() {
            let e = tbl_entry(t0, parent_path);
            crate::ir::lemma_set_same_subs(
                t0,
                parent_path,
                ModuleM { atoms: e.atoms.push(stub_of(s, name, sig)), ..e },
            );
        }
    };
    let e2 = tbl_entry(t1, mod_path);
    let t2 = add_enums_m(t1, mod_path, sig.descriptor);
    crate::ir::lemma_set_same_subs(
        t1,
        mod_path,
        ModuleM { enums: crate::ir::dedup_append(e2.enums, desc_enum_defs(sig.descriptor)), ..e2 },
    );
    let e3 = tbl_entry(t2, parent_path);
    let t3 = add_enums_m(t2, parent_path, sig.descriptor);
    crate::ir::lemma_set_same_subs(
        t2,
        parent_path,
        ModuleM { enums: crate::ir::dedup_append(e3.enums, desc_enum_defs(sig.descriptor)), ..e3 },
    );
    let e4 = tbl_entry(t3, mod_path);
    crate::ir::lemma_set_same_subs(
        t3,
        mod_path,
        ModuleM { atoms: e4.atoms.push(atom_of(s, name, sig)), ..e4 },
    );
}

/// The stub an atom visit synthesizes against the parent.
pub open spec fn stub_of(s: DefinesM, name: Seq<char>, sig: SignalM) -> AtomM {
    let module_name = if s.path.len() > 0 {
        s.path.last()
    } else {
        Seq::empty()
    };
    let qname = qualify(join_with(s.namespace, dollar()), name);
    AtomM {
        name: module_name + dollar() + qname,
        kind: if sig.kind == AtomKind::InputParameter {
            AtomKind::StubInputSignal
        } else {
            AtomKind::StubOutputSignal
        },
        width: sig.width,
        const_val: sig.const_val,
        signed: sig.signed,
    }
}

/// The qualified atom a visit records against the current module.
pub open spec fn atom_of(s: DefinesM, name: Seq<char>, sig: SignalM) -> AtomM {
    AtomM {
        name: qualify(join_with(s.namespace, dollar()), name),
        kind: sig.kind,
        width: sig.width,
        const_val: sig.const_val,
        signed: sig.signed,
    }
}

/// The table after an atom visit's first step: the parent's stub, if any.
pub open spec fn visit_atom_step1(s: DefinesM, name: Seq<char>, sig: SignalM) -> Seq<
    ModuleEntryM,
> {
    let parent_path = if s.path.len() > 0 {
        join_with(s.path.drop_last(), dollar())
    } else {
        Seq::empty()
    };
    if sig.kind.spec_is_parameter() {
        add_atom_m(s.table, parent_path, stub_of(s, name, sig))
    } else {
        s.table
    }
}

} // verus!
