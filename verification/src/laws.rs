//! General properties of the engine, stated and proved against the same
//! models the contracts use.

use vstd::prelude::*;
use crate::atom::AtomKind;
use crate::circuit::CircuitM;
use crate::descriptor::EnumM;
use crate::descriptor::TypeDescM;
use crate::emit::module_block_m;
use crate::emit::render_m;
use crate::emit::entry_text;
use crate::emit::modules_text;
use crate::emit::trail_text;
use crate::emit::trailer_text;
use crate::emit::verilog_m;
use crate::ir::add_atom_m;
use crate::ir::add_enums_m;
use crate::ir::dedup_append;
use crate::ir::desc_enum_defs;
use crate::ir::enums_contain;
use crate::ir::lemma_tbl_set_get_other;
use crate::ir::lemma_tbl_set_get_same;
use crate::ir::lemma_tbl_set_sorted;
use crate::ir::tbl_entry;
use crate::ir::tbl_get;
use crate::ir::tbl_set;
use crate::ir::tbl_sorted;
use crate::ir::ModuleEntryM;
use crate::ir::ModuleM;
use crate::module_defines::dollar;
use crate::module_defines::qualify;
use crate::module_defines::stub_of;
use crate::module_defines::visit_atom_m;
use crate::module_defines::DefinesM;
use crate::text::join_with;
use crate::text::lemma_cat_empty;
use crate::text::lemma_lex_asym;
use crate::text::lemma_lex_irrefl;
use crate::circuit::SignalM;
use crate::verilog::VerilogM;

verus! {

// ---------------------------------------------------------------------------
// Determinism.
// ---------------------------------------------------------------------------

/// Generating twice from an unmodified root yields byte-identical text: the
/// rendered text is a mathematical function of the circuit value alone.
pub proof fn lemma_generation_deterministic(c1: CircuitM, c2: CircuitM)
    requires
        c1 == c2,
    ensures
        verilog_m(c1) == verilog_m(c2),
{
}

// ---------------------------------------------------------------------------
// Enum deduplication.
// ---------------------------------------------------------------------------

proof fn lemma_dedup_monotone(es: Seq<EnumM>, defs: Seq<EnumM>, d: EnumM)
    requires
        enums_contain(es, d),
    ensures
        enums_contain(dedup_append(es, defs), d),
    decreases defs.len(),
{
    if defs.len() > 0 {
        let es1 = if enums_contain(es, defs[0]) {
            es
        } else {
            es.push(defs[0])
        };
        assert(enums_contain(es1, d)) by {
            let w = choose|w: int| 0 <= w < es.len() && es[w] == d;
            assert(es1[w] == d);
        };
        lemma_dedup_monotone(es1, defs.subrange(1, defs.len() as int), d);
    }
}

proof fn lemma_dedup_covers(es: Seq<EnumM>, defs: Seq<EnumM>, k: int)
    requires
        0 <= k < defs.len(),
    ensures
        enums_contain(dedup_append(es, defs), defs[k]),
    decreases defs.len(),
{
    let es1 = if enums_contain(es, defs[0]) {
        es
    } else {
        es.push(defs[0])
    };
    if k == 0 {
        assert(enums_contain(es1, defs[0])) by {
            if !enums_contain(es, defs[0]) {
                assert(es1[es.len() as int] == defs[0]);
            }
        };
        lemma_dedup_monotone(es1, defs.subrange(1, defs.len() as int), defs[0]);
    } else {
        lemma_dedup_covers(es1, defs.subrange(1, defs.len() as int), k - 1);
    }
}

proof fn lemma_dedup_noop(es: Seq<EnumM>, defs: Seq<EnumM>)
    requires
        forall|k: int| 0 <= k < defs.len() ==> enums_contain(es, #[trigger] defs[k]),
    ensures
        dedup_append(es, defs) == es,
    decreases defs.len(),
{
    if defs.len() > 0 {
        assert(enums_contain(es, defs[0]));
        lemma_dedup_noop(es, defs.subrange(1, defs.len() as int));
    }
}

/// No two recorded enum definitions are value-equal.
pub open spec fn enums_distinct(es: Seq<EnumM>) -> bool {
    forall|i: int, j: int| 0 <= i < j < es.len() ==> es[i] != es[j]
}

/// Deduplicated appending never introduces a duplicate: with two signals of
/// one enum type in a module, each distinct discriminant is declared once.
pub proof fn lemma_dedup_append_distinct(es: Seq<EnumM>, defs: Seq<EnumM>)
    requires
        enums_distinct(es),
    ensures
        enums_distinct(dedup_append(es, defs)),
    decreases defs.len(),
{
    if defs.len() > 0 {
        let es1 = if enums_contain(es, defs[0]) {
            es
        } else {
            es.push(defs[0])
        };
        assert(enums_distinct(es1)) by {
            if !enums_contain(es, defs[0]) {
                assert forall|i: int, j: int| 0 <= i < j < es1.len() implies es1[i] != es1[j] by {
                    if j == es.len() {
                        assert(es1[i] == es[i]);
                        if es1[i] == defs[0] {
                            assert(enums_contain(es, defs[0]));
                        }
                    }
                };
            }
        };
        lemma_dedup_append_distinct(es1, defs.subrange(1, defs.len() as int));
    }
}

/// Rebinding a key to the value it already has leaves the table unchanged.
proof fn lemma_tbl_set_id(t: Seq<ModuleEntryM>, key: Seq<char>, m: ModuleM)
    requires
        tbl_sorted(t),
        tbl_get(t, key) == Option::Some(m),
    ensures
        tbl_set(t, key, m) == t,
    decreases t.len(),
{
    lemma_lex_irrefl(key);
    if t[0].path == key {
        assert(!crate::text::lex_lt(key, t[0].path));
        assert(tbl_set(t, key, m) == seq![ModuleEntryM { path: key, details: m }] + t.subrange(
            1,
            t.len() as int,
        ));
        assert(m == t[0].details);
        assert(tbl_set(t, key, m) =~= t);
    } else {
        let rest = t.subrange(1, t.len() as int);
        assert(tbl_sorted(rest)) by {
            assert(forall|i: int, j: int|
                0 <= i < j < rest.len() ==> rest[i] == t[i + 1] && rest[j] == t[j + 1]);
        };
        crate::ir::lemma_tbl_get_is_member(t, key);
        let w = choose|w: int| 0 <= w < t.len() && t[w].path == key;
        assert(w > 0);
        assert(crate::text::lex_lt(t[0].path, t[w].path));
        lemma_lex_asym(t[0].path, key);
        lemma_lex_irrefl(key);
        lemma_tbl_set_id(rest, key, m);
        assert(tbl_set(t, key, m) == seq![t[0]] + tbl_set(rest, key, m));
        assert(seq![t[0]] + rest =~= t);
    }
}

/// Registering the same structural shape against a module twice records the
/// same constants as registering it once: two signals of one enum type yield
/// one declaration per distinct discriminant.
pub proof fn lemma_enum_registration_idempotent(
    t: Seq<ModuleEntryM>,
    module: Seq<char>,
    desc: TypeDescM,
)
    requires
        tbl_sorted(t),
    ensures
        add_enums_m(add_enums_m(t, module, desc), module, desc) == add_enums_m(t, module, desc),
{
    let defs = desc_enum_defs(desc);
    let e = tbl_entry(t, module);
    let m1 = ModuleM { enums: dedup_append(e.enums, defs), ..e };
    let t1 = tbl_set(t, module, m1);
    lemma_tbl_set_get_same(t, module, m1);
    assert(tbl_entry(t1, module) == m1);
    assert forall|k: int| 0 <= k < defs.len() implies enums_contain(
        m1.enums,
        #[trigger] defs[k],
    ) by {
        lemma_dedup_covers(e.enums, defs, k);
    };
    lemma_dedup_noop(m1.enums, defs);
    assert((ModuleM { enums: dedup_append(m1.enums, defs), ..m1 }) == m1);
    lemma_tbl_set_sorted(t, module, m1);
    lemma_tbl_set_id(t1, module, m1);
}

// ---------------------------------------------------------------------------
// Stub synthesis.
// ---------------------------------------------------------------------------

/// The entry a rebinding leaves under each key.
proof fn lemma_entry_after_set(t: Seq<ModuleEntryM>, k: Seq<char>, m: ModuleM, key: Seq<char>)
    ensures
        tbl_entry(tbl_set(t, k, m), key) == (if key == k {
            m
        } else {
            tbl_entry(t, key)
        }),
{
    if key == k {
        lemma_tbl_set_get_same(t, k, m);
    } else {
        lemma_tbl_set_get_other(t, k, m, key);
    }
}

/// A child's input parameter named under the child makes the parent record a
/// mirrored stub input signal named `<child instance>$<port name>`.
pub proof fn lemma_stub_for_input_parameter(s: DefinesM, name: Seq<char>, sig: SignalM)
    requires
        s.path.len() > 0,
        sig.kind == AtomKind::InputParameter,
    ensures
        ({
            let parent = join_with(s.path.drop_last(), dollar());
            let stub = stub_of(s, name, sig);
            &&& stub.kind == AtomKind::StubInputSignal
            &&& stub.name == s.path.last() + dollar() + qualify(
                join_with(s.namespace, dollar()),
                name,
            )
            &&& tbl_entry(visit_atom_m(s, name, sig).table, parent).atoms.contains(stub)
        }),
{
    let mod_path = join_with(s.path, dollar());
    let parent = join_with(s.path.drop_last(), dollar());
    let stub = stub_of(s, name, sig);
    let t0 = s.table;
    let e0 = tbl_entry(t0, parent);
    let t1 = add_atom_m(t0, parent, stub);
    lemma_entry_after_set(t0, parent, ModuleM { atoms: e0.atoms.push(stub), ..e0 }, parent);
    let a1 = tbl_entry(t1, parent).atoms;
    assert(a1.contains(stub)) by {
        assert(a1[a1.len() - 1] == stub);
    };
    let e1m = tbl_entry(t1, mod_path);
    let t2 = add_enums_m(t1, mod_path, sig.descriptor);
    lemma_entry_after_set(
        t1,
        mod_path,
        ModuleM { enums: dedup_append(e1m.enums, desc_enum_defs(sig.descriptor)), ..e1m },
        parent,
    );
    let a2 = tbl_entry(t2, parent).atoms;
    assert(a2.contains(stub)) by {
        if parent == mod_path {
            assert(a2 == a1);
        } else {
            assert(a2 == a1);
        }
    };
    let e2p = tbl_entry(t2, parent);
    let t3 = add_enums_m(t2, parent, sig.descriptor);
    lemma_entry_after_set(
        t2,
        parent,
        ModuleM { enums: dedup_append(e2p.enums, desc_enum_defs(sig.descriptor)), ..e2p },
        parent,
    );
    let a3 = tbl_entry(t3, parent).atoms;
    assert(a3 == a2);
    let e3m = tbl_entry(t3, mod_path);
    let atom = crate::module_defines::atom_of(s, name, sig);
    let t4 = add_atom_m(t3, mod_path, atom);
    lemma_entry_after_set(t3, mod_path, ModuleM { atoms: e3m.atoms.push(atom), ..e3m }, parent);
    let a4 = tbl_entry(t4, parent).atoms;
    assert(a4.contains(stub)) by {
        if parent == mod_path {
            assert(a4 == a3.push(atom));
            let w = choose|w: int| 0 <= w < a3.len() && a3[w] == stub;
            assert(a4[w] == stub);
        } else {
            assert(a4 == a3);
            assert(a3.contains(stub));
        }
    };
    assert(visit_atom_m(s, name, sig).table == t4);
}

// ---------------------------------------------------------------------------
// A root without submodules.
// ---------------------------------------------------------------------------

/// No module boundary anywhere beneath.
pub open spec fn scope_free(c: CircuitM) -> bool
    decreases c, 0int,
{
    match c {
        CircuitM::Atom(_) => true,
        CircuitM::Scope(_, _) => false,
        CircuitM::Group(fields) => fields_scope_free(fields),
    }
}

pub open spec fn fields_scope_free(fields: Seq<crate::circuit::FieldM>) -> bool
    decreases fields, 0int,
{
    forall|j: int| 0 <= j < fields.len() ==> scope_free(#[trigger] fields[j].node)
}

/// The key the walk's parent-side records go to.
pub open spec fn parent_key(s: DefinesM) -> Seq<char> {
    if s.path.len() > 0 {
        join_with(s.path.drop_last(), dollar())
    } else {
        Seq::empty()
    }
}

/// One rebinding adds at most its own key, removes none, and, when its value
/// keeps the code it found, changes no entry's code.
proof fn lemma_set_key_effects(t: Seq<ModuleEntryM>, k: Seq<char>, m: ModuleM)
    ensures
        forall|key: Seq<char>|
            #[trigger] crate::ir::tbl_contains(tbl_set(t, k, m), key) ==> crate::ir::tbl_contains(
                t,
                key,
            ) || key == k,
        forall|key: Seq<char>|
            crate::ir::tbl_contains(t, key) ==> #[trigger] crate::ir::tbl_contains(tbl_set(t, k, m), key),
        m.code == tbl_entry(t, k).code ==> forall|key: Seq<char>|
            (#[trigger] tbl_entry(tbl_set(t, k, m), key)).code == tbl_entry(t, key).code,
{
    assert forall|key: Seq<char>|
        #[trigger] crate::ir::tbl_contains(tbl_set(t, k, m), key) implies crate::ir::tbl_contains(
        t,
        key,
    ) || key == k by {
        if key != k {
            lemma_tbl_set_get_other(t, k, m, key);
        }
    };
    assert forall|key: Seq<char>| crate::ir::tbl_contains(t, key) implies #[trigger] crate::ir::tbl_contains(
        tbl_set(t, k, m),
        key,
    ) by {
        if key == k {
            lemma_tbl_set_get_same(t, k, m);
        } else {
            lemma_tbl_set_get_other(t, k, m, key);
        }
    };
    if m.code == tbl_entry(t, k).code {
        assert forall|key: Seq<char>| (#[trigger] tbl_entry(tbl_set(t, k, m), key)).code
            == tbl_entry(t, key).code by {
            if key == k {
                lemma_tbl_set_get_same(t, k, m);
            } else {
                lemma_tbl_set_get_other(t, k, m, key);
            }
        };
    }
}

/// A visit of a tree without module boundaries only writes under the current
/// module's key and its parent's, keeps every existing key, and changes no
/// recorded code body.
proof fn lemma_scopefree_walk(s: DefinesM, name: Seq<char>, c: CircuitM)
    requires
        scope_free(c),
    ensures
        ({
            let t2 = crate::circuit::walk_node(s, name, c).table;
            &&& forall|key: Seq<char>|
                #[trigger] crate::ir::tbl_contains(t2, key) ==> crate::ir::tbl_contains(
                    s.table,
                    key,
                ) || key == join_with(s.path, dollar()) || key == parent_key(s)
            &&& forall|key: Seq<char>|
                crate::ir::tbl_contains(s.table, key) ==> #[trigger] crate::ir::tbl_contains(t2, key)
            &&& forall|key: Seq<char>|
                (#[trigger] tbl_entry(t2, key)).code == tbl_entry(s.table, key).code
        }),
    decreases c, 0int,
{
    match c {
        CircuitM::Atom(sig) => {
            let mod_path = join_with(s.path, dollar());
            let parent = parent_key(s);
            let t0 = s.table;
            let t1 = crate::module_defines::visit_atom_step1(s, name, sig);
            let e0p = tbl_entry(t0, parent);
            if sig.kind.spec_is_parameter() {
                lemma_set_key_effects(
                    t0,
                    parent,
                    ModuleM { atoms: e0p.atoms.push(stub_of(s, name, sig)), ..e0p },
                );
            }
            let e1 = tbl_entry(t1, mod_path);
            let t2 = add_enums_m(t1, mod_path, sig.descriptor);
            lemma_set_key_effects(
                t1,
                mod_path,
                ModuleM { enums: dedup_append(e1.enums, desc_enum_defs(sig.descriptor)), ..e1 },
            );
            let e2 = tbl_entry(t2, parent);
            let t3 = add_enums_m(t2, parent, sig.descriptor);
            lemma_set_key_effects(
                t2,
                parent,
                ModuleM { enums: dedup_append(e2.enums, desc_enum_defs(sig.descriptor)), ..e2 },
            );
            let e3 = tbl_entry(t3, mod_path);
            lemma_set_key_effects(
                t3,
                mod_path,
                ModuleM {
                    atoms: e3.atoms.push(crate::module_defines::atom_of(s, name, sig)),
                    ..e3
                },
            );
            assert(crate::circuit::walk_node(s, name, c).table == add_atom_m(
                t3,
                mod_path,
                crate::module_defines::atom_of(s, name, sig),
            ));
        },
        CircuitM::Scope(_, _) => {
            assert(false);
        },
        CircuitM::Group(fields) => {
            let s1 = crate::module_defines::start_namespace_m(s, name);
            lemma_scopefree_walk_fields(s1, fields, 0);
        },
    }
}

proof fn lemma_scopefree_walk_fields(s: DefinesM, fields: Seq<crate::circuit::FieldM>, i: int)
    requires
        fields_scope_free(fields),
    ensures
        ({
            let t2 = crate::circuit::walk_fields(s, fields, i).table;
            &&& forall|key: Seq<char>|
                #[trigger] crate::ir::tbl_contains(t2, key) ==> crate::ir::tbl_contains(
                    s.table,
                    key,
                ) || key == join_with(s.path, dollar()) || key == parent_key(s)
            &&& forall|key: Seq<char>|
                crate::ir::tbl_contains(s.table, key) ==> #[trigger] crate::ir::tbl_contains(t2, key)
            &&& forall|key: Seq<char>|
                (#[trigger] tbl_entry(t2, key)).code == tbl_entry(s.table, key).code
        }),
    decreases fields, fields.len() - i,
{
    if 0 <= i < fields.len() {
        lemma_scopefree_walk(s, fields[i].name, fields[i].node);
        let s2 = crate::circuit::walk_node(s, fields[i].name, fields[i].node);
        crate::circuit::lemma_walk_preserves_path(s, fields[i].name, fields[i].node);
        assert(s2.path == s.path);
        lemma_scopefree_walk_fields(s2, fields, i + 1);
    }
}

/// A circuit whose root exposes signals but no submodule leaves exactly two
/// table entries behind, the synthetic empty root and the root module, and
/// renders as exactly that one module's block, its parameters in recorded
/// order.
pub proof fn lemma_root_without_submodules(code: VerilogM, fields: Seq<crate::circuit::FieldM>)
    requires
        fields_scope_free(fields),
        !(code is Blackbox),
        !(code is Wrapper),
    ensures
        ({
            let t = crate::circuit::walk_node(
                crate::module_defines::empty_defines(),
                "top"@,
                CircuitM::Scope(code, fields),
            ).table;
            &&& t.len() == 2
            &&& t[0].path == Seq::<char>::empty()
            &&& t[1].path == "top"@
            &&& t[1].details.code == code
            &&& render_m(t) == module_block_m("top"@, t[1].details, t)
        }),
{
    reveal_strlit("top");
    reveal_strlit("");
    let s0 = crate::module_defines::empty_defines();
    let c = CircuitM::Scope(code, fields);
    let s1 = crate::module_defines::start_scope_m(s0, "top"@, code);
    let empty_t: Seq<ModuleEntryM> = Seq::empty();
    let top_level = join_with(s0.path, dollar());
    assert(top_level == Seq::<char>::empty());
    let full = join_with(s0.path.push("top"@), dollar());
    assert(s0.path.push("top"@).len() == 1);
    assert(full == "top"@);
    assert("top"@.len() == 3);
    // the two entries entering the scope creates
    let m_sub = ModuleM {
        sub_modules: crate::ir::empty_module().sub_modules.push(
            crate::ir::SubM { kind: "top"@, name: "top"@ },
        ),
        ..crate::ir::empty_module()
    };
    let t0 = crate::ir::add_submodule_m(empty_t, top_level, "top"@, full);
    assert(tbl_entry(empty_t, top_level) == crate::ir::empty_module());
    assert(t0 == tbl_set(empty_t, top_level, m_sub));
    assert(t0 =~= seq![ModuleEntryM { path: Seq::<char>::empty(), details: m_sub }]);
    let t1 = crate::ir::add_code_m(t0, full, code);
    assert(t0[0].path != full);
    assert(t0.len() == 1);
    assert(t0.subrange(1, t0.len() as int) =~= empty_t);
    assert(tbl_get(empty_t, full) is None);
    assert(tbl_get(t0, full) is None);
    let m_code = ModuleM { code, ..crate::ir::empty_module() };
    assert(!crate::text::lex_lt(full, t0[0].path));
    assert(t1 == seq![t0[0]] + tbl_set(empty_t, full, m_code));
    assert(t1 =~= seq![
        ModuleEntryM { path: Seq::<char>::empty(), details: m_sub },
        ModuleEntryM { path: "top"@, details: m_code },
    ]);
    assert(s1.table == t1);
    assert(s1.path == s0.path.push("top"@));
    assert(s1.path.drop_last() =~= s0.path);
    assert(join_with(s1.path, dollar()) == "top"@);
    assert(parent_key(s1) == Seq::<char>::empty());
    // both keys are present and carry their codes
    assert(t1[0].path == Seq::<char>::empty() && t1[1].path == "top"@);
    assert(tbl_get(t1, Seq::<char>::empty()) == Option::Some(m_sub));
    assert(t1.len() == 2);
    assert(t1.subrange(1, t1.len() as int) =~= seq![
        ModuleEntryM { path: "top"@, details: m_code },
    ]);
    assert(tbl_get(seq![ModuleEntryM { path: "top"@, details: m_code }], "top"@)
        == Option::Some(m_code));
    assert(tbl_get(t1, "top"@) == Option::Some(m_code));
    assert(crate::text::lex_lt(Seq::<char>::empty(), "top"@));
    assert(tbl_sorted(t1));
    // the children leave keys and codes alone
    lemma_scopefree_walk_fields(s1, fields, 0);
    let s2 = crate::circuit::walk_fields(s1, fields, 0);
    let t2 = s2.table;
    crate::circuit::lemma_walk_fields_preserves_sorted(s1, fields, 0);
    assert(crate::circuit::walk_node(s0, "top"@, c).table == t2);
    assert(crate::ir::tbl_contains(t2, Seq::<char>::empty()));
    assert(crate::ir::tbl_contains(t2, "top"@));
    // every key of the final table is one of the two
    assert forall|i: int| 0 <= i < t2.len() implies t2[i].path == Seq::<char>::empty()
        || t2[i].path == "top"@ by {
        crate::ir::lemma_tbl_get_is_member(t2, t2[i].path);
        assert(crate::ir::tbl_contains(t2, t2[i].path));
        crate::ir::lemma_tbl_get_is_member(t1, t2[i].path);
    };
    // sorted keys are pairwise distinct, so there are exactly two entries
    assert forall|i: int, j: int| 0 <= i < j < t2.len() implies t2[i].path != t2[j].path by {
        lemma_lex_irrefl(t2[i].path);
    };
    assert(t2.len() >= 2) by {
        crate::ir::lemma_tbl_get_is_member(t2, Seq::<char>::empty());
        crate::ir::lemma_tbl_get_is_member(t2, "top"@);
        let a = choose|a: int| 0 <= a < t2.len() && t2[a].path == Seq::<char>::empty();
        let b = choose|b: int| 0 <= b < t2.len() && t2[b].path == "top"@;
        assert(a != b);
    };
    assert(t2.len() <= 2) by {
        if t2.len() >= 3 {
            assert(t2[0].path == Seq::<char>::empty() || t2[0].path == "top"@);
            assert(t2[1].path == Seq::<char>::empty() || t2[1].path == "top"@);
            assert(t2[2].path == Seq::<char>::empty() || t2[2].path == "top"@);
            assert(t2[0].path != t2[1].path);
            assert(t2[0].path != t2[2].path);
            assert(t2[1].path != t2[2].path);
        }
    };
    assert(t2[0].path == Seq::<char>::empty() && t2[1].path == "top"@) by {
        if t2[0].path == "top"@ {
            assert(crate::text::lex_lt("top"@, t2[1].path));
            lemma_lex_asym(Seq::<char>::empty(), "top"@);
        }
    };
    // codes survived the walk
    assert(tbl_entry(t2, "top"@).code == code);
    assert(tbl_entry(t2, Seq::<char>::empty()).code == VerilogM::Empty);
    assert(tbl_get(t2, "top"@) == Option::Some(t2[1].details)) by {
        assert(t2[0].path != "top"@);
        assert(t2.subrange(1, t2.len() as int) =~= seq![t2[1]]);
        assert(tbl_get(seq![t2[1]], "top"@) == Option::Some(t2[1].details));
    };
    assert(t2[1].details.code == code);
    assert(tbl_get(t2, Seq::<char>::empty()) == Option::Some(t2[0].details));
    assert(t2[0].details.code == VerilogM::Empty);
    lemma_single_module_render(t2);
}

// ---------------------------------------------------------------------------
// Rendering shape.
// ---------------------------------------------------------------------------

/// A table with no blackbox and no wrapper appends no trailing text.
proof fn lemma_trailer_empty(t: Seq<ModuleEntryM>)
    requires
        forall|i: int|
            0 <= i < t.len() ==> !((#[trigger] t[i].details.code) is Blackbox) && !(
            t[i].details.code is Wrapper),
    ensures
        trailer_text(t) == Seq::<char>::empty(),
    decreases t.len(),
{
    if t.len() > 0 {
        lemma_trailer_empty(t.drop_last());
        assert(trail_text(t.last()) == Seq::<char>::empty());
        lemma_cat_empty(trailer_text(t.drop_last()));
    }
}

/// A table whose only entries are the synthetic empty root and one module
/// with an inline body renders as exactly that module's block: one header,
/// its parameters in recorded partition order, one closing line, nothing
/// else.
pub proof fn lemma_single_module_render(t: Seq<ModuleEntryM>)
    requires
        t.len() == 2,
        t[0].path.len() == 0,
        t[1].path.len() > 0,
        !(t[1].details.code is Blackbox),
        !(t[1].details.code is Wrapper),
        !(t[0].details.code is Blackbox),
        !(t[0].details.code is Wrapper),
    ensures
        render_m(t) == module_block_m(t[1].path, t[1].details, t),
{
    assert(t.drop_last().drop_last() =~= Seq::<ModuleEntryM>::empty());
    assert(t.drop_last().last() == t[0]);
    assert(t.last() == t[1]);
    assert(entry_text(t[0], t) == Seq::<char>::empty());
    assert(modules_text(Seq::<ModuleEntryM>::empty(), t) == Seq::<char>::empty());
    assert(modules_text(t.drop_last(), t) == modules_text(t.drop_last().drop_last(), t)
        + entry_text(t[0], t));
    assert(Seq::<char>::empty() + Seq::<char>::empty() =~= Seq::<char>::empty());
    assert(modules_text(t.drop_last(), t) == Seq::<char>::empty());
    assert(modules_text(t, t) == modules_text(t.drop_last(), t) + entry_text(t[1], t));
    assert(Seq::<char>::empty() + entry_text(t[1], t) =~= entry_text(t[1], t));
    assert(modules_text(t, t) =~= entry_text(t[1], t));
    lemma_trailer_empty(t);
    lemma_cat_empty(modules_text(t, t));
}

/// A blackbox's verbatim text is appended exactly once for its one table
/// entry, however many parents instantiate it.
pub proof fn lemma_blackbox_text_once(t: Seq<ModuleEntryM>, b: int)
    requires
        0 <= b < t.len(),
        t[b].details.code is Blackbox,
        forall|i: int|
            0 <= i < t.len() && i != b ==> !((#[trigger] t[i].details.code) is Blackbox) && !(
            t[i].details.code is Wrapper),
    ensures
        trailer_text(t) == crate::text::written_line(0, t[b].details.code->Blackbox_code),
    decreases t.len(),
{
    if b == t.len() - 1 {
        assert(forall|i: int|
            0 <= i < t.drop_last().len() ==> !((#[trigger] t.drop_last()[i].details.code)
                is Blackbox) && !(t.drop_last()[i].details.code is Wrapper)) by {
            assert(forall|i: int| 0 <= i < t.len() - 1 ==> t.drop_last()[i] == t[i]);
        };
        lemma_trailer_empty(t.drop_last());
        assert(t.last() == t[b]);
        assert(trailer_text(t) == Seq::<char>::empty() + trail_text(t[b]));
        assert(Seq::<char>::empty() + crate::text::written_line(
            0,
            t[b].details.code->Blackbox_code,
        ) =~= crate::text::written_line(0, t[b].details.code->Blackbox_code));
    } else {
        assert(forall|i: int| 0 <= i < t.len() - 1 ==> t.drop_last()[i] == t[i]);
        lemma_blackbox_text_once(t.drop_last(), b);
        assert(trail_text(t.last()) == Seq::<char>::empty());
        lemma_cat_empty(trailer_text(t.drop_last()));
    }
}

} // verus!
