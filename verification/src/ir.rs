//! The intermediate representation: per-module details collected during one
//! walk, keyed by full hierarchical path in a table whose iteration order is
//! lexicographic by key.

use vstd::prelude::*;
use crate::atom::AtomDetails;
use crate::atom::AtomM;
use crate::descriptor::EnumDefinition;
use crate::descriptor::TypeDescriptor;
use crate::descriptor::EnumM;
use crate::descriptor::TypeDescM;
use crate::descriptor::TypeKindM;
use crate::text::lex_lt;
pub use crate::text::lemma_vec_deep_view;
use crate::text::lemma_lex_irrefl;
use crate::text::lemma_lex_asym;
use crate::text::lemma_lex_trans;
use crate::text::lemma_lex_trichotomy;
use crate::verilog::Verilog;
use crate::verilog::VerilogM;

verus! {

/// One submodule instantiation recorded against its parent: the child's full
/// hierarchical path acting as its type name, and the instance name.
pub struct SubModuleInvocation {
    pub kind: String,
    pub name: String,
}

/// The mathematical shadow of a [`SubModuleInvocation`].
pub ghost struct SubM {
    pub kind: Seq<char>,
    pub name: Seq<char>,
}

impl View for SubModuleInvocation {
    type V = SubM;

    open spec fn view(&self) -> SubM {
        SubM { kind: self.kind@, name: self.name@ }
    }
}

impl DeepView for SubModuleInvocation {
    type V = SubM;

    open spec fn deep_view(&self) -> SubM {
        self.view()
    }
}

/// Everything recorded against one module.
pub struct ModuleDetails {
    pub atoms: Vec<AtomDetails>,
    pub sub_modules: Vec<SubModuleInvocation>,
    pub enums: Vec<EnumDefinition>,
    pub code: Verilog,
}

/// The mathematical shadow of a [`ModuleDetails`].
pub ghost struct ModuleM {
    pub atoms: Seq<AtomM>,
    pub sub_modules: Seq<SubM>,
    pub enums: Seq<EnumM>,
    pub code: VerilogM,
}

impl View for ModuleDetails {
    type V = ModuleM;

    open spec fn view(&self) -> ModuleM {
        ModuleM {
            atoms: self.atoms.deep_view(),
            sub_modules: self.sub_modules.deep_view(),
            enums: self.enums.deep_view(),
            code: self.code@,
        }
    }
}

impl ModuleDetails {
    pub fn empty() -> (r: ModuleDetails)
        ensures
            r@ == empty_module(),
    {
        let r = ModuleDetails {
            atoms: Vec::new(),
            sub_modules: Vec::new(),
            enums: Vec::new(),
            code: Verilog::Empty,
        };
        proof {
            assert(r@.atoms =~= empty_module().atoms);
            assert(r@.sub_modules =~= empty_module().sub_modules);
            assert(r@.enums =~= empty_module().enums);
        }
        r
    }
}

/// A module with nothing recorded yet.
pub open spec fn empty_module() -> ModuleM {
    ModuleM {
        atoms: Seq::empty(),
        sub_modules: Seq::empty(),
        enums: Seq::empty(),
        code: VerilogM::Empty,
    }
}

/// One table entry: a full hierarchical path and what was recorded under it.
pub struct ModuleEntry {
    pub path: String,
    pub details: ModuleDetails,
}

/// The mathematical shadow of a [`ModuleEntry`].
pub ghost struct ModuleEntryM {
    pub path: Seq<char>,
    pub details: ModuleM,
}

impl View for ModuleEntry {
    type V = ModuleEntryM;

    open spec fn view(&self) -> ModuleEntryM {
        ModuleEntryM { path: self.path@, details: self.details@ }
    }
}

impl DeepView for ModuleEntry {
    type V = ModuleEntryM;

    open spec fn deep_view(&self) -> ModuleEntryM {
        self.view()
    }
}

/// The first entry recorded under the key, if any.
pub open spec fn tbl_get(t: Seq<ModuleEntryM>, key: Seq<char>) -> Option<ModuleM>
    decreases t.len(),
{
    if t.len() == 0 {
        Option::None
    } else if t[0].path == key {
        Option::Some(t[0].details)
    } else {
        tbl_get(t.subrange(1, t.len() as int), key)
    }
}

/// The entry under the key, or an empty module where none exists yet.
pub open spec fn tbl_entry(t: Seq<ModuleEntryM>, key: Seq<char>) -> ModuleM {
    match tbl_get(t, key) {
        Option::Some(m) => m,
        Option::None => empty_module(),
    }
}

/// Binds the key to the module, keeping the table ordered: an existing entry
/// is replaced in place, a new one is inserted at its lexicographic position.
pub open spec fn tbl_set(t: Seq<ModuleEntryM>, key: Seq<char>, m: ModuleM) -> Seq<ModuleEntryM>
    decreases t.len(),
{
    if t.len() == 0 {
        seq![ModuleEntryM { path: key, details: m }]
    } else if lex_lt(key, t[0].path) {
        seq![ModuleEntryM { path: key, details: m }] + t
    } else if key == t[0].path {
        seq![ModuleEntryM { path: key, details: m }] + t.subrange(1, t.len() as int)
    } else {
        seq![t[0]] + tbl_set(t.subrange(1, t.len() as int), key, m)
    }
}

/// Keys strictly ascending in lexicographic order; in particular, unique.
pub open spec fn tbl_sorted(t: Seq<ModuleEntryM>) -> bool {
    forall|i: int, j: int| 0 <= i < j < t.len() ==> lex_lt(t[i].path, t[j].path)
}

pub proof fn lemma_tbl_get_skip(t: Seq<ModuleEntryM>, key: Seq<char>, i: int)
    requires
        0 <= i <= t.len(),
        forall|j: int| 0 <= j < i ==> t[j].path != key,
    ensures
        tbl_get(t, key) == tbl_get(t.subrange(i, t.len() as int), key),
    decreases i,
{
    if i > 0 {
        assert(t.subrange(1, t.len() as int).subrange(i - 1, t.len() - 1) =~= t.subrange(
            i,
            t.len() as int,
        ));
        lemma_tbl_get_skip(t.subrange(1, t.len() as int), key, i - 1);
    } else {
        assert(t.subrange(0, t.len() as int) =~= t);
    }
}

pub proof fn lemma_tbl_get_none(t: Seq<ModuleEntryM>, key: Seq<char>)
    requires
        forall|j: int| 0 <= j < t.len() ==> t[j].path != key,
    ensures
        tbl_get(t, key) is None,
    decreases t.len(),
{
    if t.len() > 0 {
        lemma_tbl_get_none(t.subrange(1, t.len() as int), key);
    }
}

pub proof fn lemma_tbl_set_skip(t: Seq<ModuleEntryM>, key: Seq<char>, m: ModuleM, i: int)
    requires
        0 <= i <= t.len(),
        forall|j: int| 0 <= j < i ==> lex_lt(t[j].path, key),
    ensures
        tbl_set(t, key, m) == t.subrange(0, i) + tbl_set(t.subrange(i, t.len() as int), key, m),
    decreases i,
{
    if i == 0 {
        assert(t.subrange(0, t.len() as int) =~= t);
        assert(t.subrange(0, 0) + tbl_set(t, key, m) =~= tbl_set(t, key, m));
    } else {
        lemma_lex_asym(t[0].path, key);
        lemma_lex_irrefl(key);
        assert(t[0].path != key) by {
            if t[0].path == key {
                assert(lex_lt(key, key));
            }
        };
        let rest = t.subrange(1, t.len() as int);
        assert(rest.subrange(i - 1, rest.len() as int) =~= t.subrange(i, t.len() as int));
        lemma_tbl_set_skip(rest, key, m, i - 1);
        assert(tbl_set(t, key, m) == seq![t[0]] + tbl_set(rest, key, m));
        assert(seq![t[0]] + (rest.subrange(0, i - 1) + tbl_set(
            t.subrange(i, t.len() as int),
            key,
            m,
        )) =~= t.subrange(0, i) + tbl_set(t.subrange(i, t.len() as int), key, m));
    }
}

pub proof fn lemma_tbl_set_get_same(t: Seq<ModuleEntryM>, key: Seq<char>, m: ModuleM)
    ensures
        tbl_get(tbl_set(t, key, m), key) == Option::Some(m),
    decreases t.len(),
{
    lemma_lex_irrefl(key);
    if t.len() == 0 {
    } else if lex_lt(key, t[0].path) {
        let s = tbl_set(t, key, m);
        assert(s[0].path == key);
    } else if key == t[0].path {
        let s = tbl_set(t, key, m);
        assert(s[0].path == key);
    } else {
        let s = tbl_set(t, key, m);
        let rest = t.subrange(1, t.len() as int);
        assert(s == seq![t[0]] + tbl_set(rest, key, m));
        assert(s[0] == t[0]);
        assert(s.subrange(1, s.len() as int) =~= tbl_set(rest, key, m));
        lemma_tbl_set_get_same(rest, key, m);
    }
}

pub proof fn lemma_tbl_set_get_other(
    t: Seq<ModuleEntryM>,
    key: Seq<char>,
    m: ModuleM,
    other: Seq<char>,
)
    requires
        other != key,
    ensures
        tbl_get(tbl_set(t, key, m), other) == tbl_get(t, other),
    decreases t.len(),
{
    if t.len() == 0 {
        let s = tbl_set(t, key, m);
        assert(s[0].path == key);
        assert(s.subrange(1, s.len() as int) =~= Seq::<ModuleEntryM>::empty());
        assert(tbl_get(s, other) is None);
        assert(tbl_get(s, other) == tbl_get(t, other));
    } else if lex_lt(key, t[0].path) {
        let s = tbl_set(t, key, m);
        assert(s[0].path == key);
        assert(s.subrange(1, s.len() as int) =~= t);
        assert(tbl_get(s, other) == tbl_get(t, other));
    } else if key == t[0].path {
        let s = tbl_set(t, key, m);
        assert(s[0].path == key);
        assert(s.subrange(1, s.len() as int) =~= t.subrange(1, t.len() as int));
        assert(tbl_get(s, other) == tbl_get(s.subrange(1, s.len() as int), other));
        assert(tbl_get(t, other) == tbl_get(t.subrange(1, t.len() as int), other));
        assert(tbl_get(s, other) == tbl_get(t, other));
    } else {
        let s = tbl_set(t, key, m);
        let rest = t.subrange(1, t.len() as int);
        assert(s == seq![t[0]] + tbl_set(rest, key, m));
        assert(s[0] == t[0]);
        assert(s.subrange(1, s.len() as int) =~= tbl_set(rest, key, m));
        lemma_tbl_set_get_other(rest, key, m, other);
        if t[0].path == other {
            assert(tbl_get(s, other) == Option::Some(t[0].details));
            assert(tbl_get(t, other) == Option::Some(t[0].details));
        } else {
            assert(tbl_get(s, other) == tbl_get(tbl_set(rest, key, m), other));
            assert(tbl_get(t, other) == tbl_get(rest, other));
        }
        assert(tbl_get(s, other) == tbl_get(t, other));
    }
}

/// Some key of the table.
pub open spec fn tbl_contains(t: Seq<ModuleEntryM>, key: Seq<char>) -> bool {
    tbl_get(t, key) is Some
}

pub proof fn lemma_tbl_get_is_member(t: Seq<ModuleEntryM>, key: Seq<char>)
    ensures
        tbl_contains(t, key) <==> exists|i: int| 0 <= i < t.len() && t[i].path == key,
    decreases t.len(),
{
    if t.len() > 0 {
        let rest = t.subrange(1, t.len() as int);
        lemma_tbl_get_is_member(rest, key);
        if t[0].path != key {
            if exists|i: int| 0 <= i < t.len() && t[i].path == key {
                let i = choose|i: int| 0 <= i < t.len() && t[i].path == key;
                assert(rest[i - 1].path == key);
            }
        }
    }
}

pub proof fn lemma_tbl_set_sorted(t: Seq<ModuleEntryM>, key: Seq<char>, m: ModuleM)
    requires
        tbl_sorted(t),
    ensures
        tbl_sorted(tbl_set(t, key, m)),
    decreases t.len(),
{
    let s = tbl_set(t, key, m);
    if t.len() == 0 {
    } else if lex_lt(key, t[0].path) {
        assert forall|i: int, j: int| 0 <= i < j < s.len() implies lex_lt(
            s[i].path,
            s[j].path,
        ) by {
            if i == 0 && j > 1 {
                lemma_lex_trans(key, t[0].path, t[j - 1].path);
            }
        };
    } else if key == t[0].path {
        assert forall|i: int, j: int| 0 <= i < j < s.len() implies lex_lt(
            s[i].path,
            s[j].path,
        ) by {
            assert(s[j].path == t[j].path);
            if i > 0 {
                assert(s[i].path == t[i].path);
            }
        };
    } else {
        lemma_lex_trichotomy(key, t[0].path);
        let rest = t.subrange(1, t.len() as int);
        assert forall|i: int, j: int| 0 <= i < j < rest.len() implies lex_lt(
            rest[i].path,
            rest[j].path,
        ) by {
            assert(rest[i] == t[i + 1]);
            assert(rest[j] == t[j + 1]);
        };
        assert(tbl_sorted(rest));
        lemma_tbl_set_sorted(rest, key, m);
        let srest = tbl_set(rest, key, m);
        assert(s == seq![t[0]] + srest);
        // every key of the rebuilt tail is either an old tail key or the new key,
        // and both come lexicographically after the head
        assert forall|i: int, j: int| 0 <= i < j < s.len() implies lex_lt(
            s[i].path,
            s[j].path,
        ) by {
            if i == 0 {
                lemma_tbl_set_member_keys(rest, key, m, j - 1);
                assert(lex_lt(t[0].path, key) || exists|p: int|
                    0 <= p < rest.len() && srest[j - 1].path == rest[p].path);
                if srest[j - 1].path != key {
                    let p = choose|p: int|
                        0 <= p < rest.len() && srest[j - 1].path == rest[p].path;
                    assert(lex_lt(t[0].path, t[p + 1].path));
                }
            } else {
                assert(srest[i - 1] == s[i]);
                assert(srest[j - 1] == s[j]);
            }
        };
    }
}

/// Every key of `tbl_set(t, key, m)` is `key` or a key of `t`.
pub proof fn lemma_tbl_set_member_keys(t: Seq<ModuleEntryM>, key: Seq<char>, m: ModuleM, i: int)
    requires
        0 <= i < tbl_set(t, key, m).len(),
    ensures
        tbl_set(t, key, m)[i].path == key || exists|p: int|
            0 <= p < t.len() && tbl_set(t, key, m)[i].path == t[p].path,
    decreases t.len(),
{
    let s = tbl_set(t, key, m);
    if t.len() == 0 {
    } else if lex_lt(key, t[0].path) {
        if i > 0 {
            assert(s[i] == t[i - 1]);
        }
    } else if key == t[0].path {
        if i > 0 {
            assert(s[i] == t.subrange(1, t.len() as int)[i - 1]);
            assert(s[i] == t[i]);
        }
    } else {
        let rest = t.subrange(1, t.len() as int);
        if i == 0 {
            assert(s[0] == t[0]);
        } else {
            assert(s[i] == tbl_set(rest, key, m)[i - 1]);
            lemma_tbl_set_member_keys(rest, key, m, i - 1);
            if tbl_set(rest, key, m)[i - 1].path != key {
                let p = choose|p: int|
                    0 <= p < rest.len() && tbl_set(rest, key, m)[i - 1].path == rest[p].path;
                assert(s[i].path == t[p + 1].path);
            }
        }
    }
}

/// What a forward scan that stopped at `pos` says about `tbl_get`.
pub proof fn lemma_scan_get(t: Seq<ModuleEntryM>, key: Seq<char>, pos: int, found: bool)
    requires
        tbl_sorted(t),
        0 <= pos <= t.len(),
        forall|j: int| 0 <= j < pos ==> lex_lt(t[j].path, key),
        found == (pos < t.len() && t[pos].path == key),
        pos < t.len() && !found ==> lex_lt(key, t[pos].path),
    ensures
        found ==> tbl_get(t, key) == Option::Some(t[pos].details),
        !found ==> tbl_get(t, key) is None,
{
    assert forall|j: int| 0 <= j < pos implies t[j].path != key by {
        lemma_lex_irrefl(key);
        if t[j].path == key {
            assert(lex_lt(key, key));
        }
    };
    if found {
        lemma_tbl_get_skip(t, key, pos);
        let rest = t.subrange(pos, t.len() as int);
        assert(rest[0] == t[pos]);
    } else {
        assert forall|j: int| 0 <= j < t.len() implies t[j].path != key by {
            lemma_lex_irrefl(key);
            if j >= pos {
                assert(pos < t.len());
                if j > pos {
                    assert(lex_lt(t[pos].path, t[j].path));
                    lemma_lex_trans(key, t[pos].path, t[j].path);
                }
                if t[j].path == key {
                    assert(lex_lt(key, key));
                }
            } else {
                if t[j].path == key {
                    assert(lex_lt(key, key));
                }
            }
        };
        lemma_tbl_get_none(t, key);
    }
}

/// Where a forward scan stopped is where `tbl_set` places the new binding.
pub proof fn lemma_tbl_set_at(
    t: Seq<ModuleEntryM>,
    key: Seq<char>,
    m: ModuleM,
    pos: int,
    found: bool,
)
    requires
        0 <= pos <= t.len(),
        forall|j: int| 0 <= j < pos ==> lex_lt(t[j].path, key),
        found == (pos < t.len() && t[pos].path == key),
        pos < t.len() && !found ==> lex_lt(key, t[pos].path),
    ensures
        found ==> tbl_set(t, key, m) == t.subrange(0, pos) + seq![
            ModuleEntryM { path: key, details: m },
        ] + t.subrange(pos + 1, t.len() as int),
        !found ==> tbl_set(t, key, m) == t.subrange(0, pos) + seq![
            ModuleEntryM { path: key, details: m },
        ] + t.subrange(pos, t.len() as int),
{
    lemma_tbl_set_skip(t, key, m, pos);
    let rest = t.subrange(pos, t.len() as int);
    let e = ModuleEntryM { path: key, details: m };
    if found {
        assert(rest[0] == t[pos]);
        lemma_lex_irrefl(key);
        assert(tbl_set(rest, key, m) == seq![e] + rest.subrange(1, rest.len() as int));
        assert(rest.subrange(1, rest.len() as int) =~= t.subrange(pos + 1, t.len() as int));
        assert(t.subrange(0, pos) + (seq![e] + t.subrange(pos + 1, t.len() as int)) =~= t.subrange(
            0,
            pos,
        ) + seq![e] + t.subrange(pos + 1, t.len() as int));
    } else if pos == t.len() {
        assert(rest.len() == 0);
        assert(tbl_set(rest, key, m) == seq![e]);
        assert(t.subrange(0, pos) + seq![e] =~= t.subrange(0, pos) + seq![e] + t.subrange(
            pos,
            t.len() as int,
        ));
    } else {
        assert(rest[0] == t[pos]);
        assert(lex_lt(key, rest[0].path));
        assert(tbl_set(rest, key, m) == seq![e] + rest);
        assert(t.subrange(0, pos) + (seq![e] + rest) =~= t.subrange(0, pos) + seq![e] + t.subrange(
            pos,
            t.len() as int,
        ));
    }
}

pub proof fn lemma_tbl_set_preserves_contains(
    t: Seq<ModuleEntryM>,
    key: Seq<char>,
    m: ModuleM,
    x: Seq<char>,
)
    ensures
        tbl_contains(t, x) ==> tbl_contains(tbl_set(t, key, m), x),
{
    if x == key {
        lemma_tbl_set_get_same(t, key, m);
    } else {
        lemma_tbl_set_get_other(t, key, m, x);
    }
}

/// A found binding belongs to some entry.
pub proof fn lemma_tbl_get_some_member(t: Seq<ModuleEntryM>, key: Seq<char>)
    requires
        tbl_get(t, key) is Some,
    ensures
        exists|p: int| 0 <= p < t.len() && t[p].path == key && t[p].details == tbl_get(
            t,
            key,
        )->Some_0,
    decreases t.len(),
{
    if t[0].path == key {
        assert(t[0].details == tbl_get(t, key)->Some_0);
    } else {
        let rest = t.subrange(1, t.len() as int);
        lemma_tbl_get_some_member(rest, key);
        let p = choose|p: int|
            0 <= p < rest.len() && rest[p].path == key && rest[p].details == tbl_get(
                rest,
                key,
            )->Some_0;
        assert(t[p + 1].path == key && t[p + 1].details == tbl_get(t, key)->Some_0);
    }
}

/// Every entry of `tbl_set(t, key, m)` is the new binding or one of `t`'s.
pub proof fn lemma_tbl_set_member(t: Seq<ModuleEntryM>, key: Seq<char>, m: ModuleM, i: int)
    requires
        0 <= i < tbl_set(t, key, m).len(),
    ensures
        tbl_set(t, key, m)[i] == (ModuleEntryM { path: key, details: m }) || exists|p: int|
            0 <= p < t.len() && tbl_set(t, key, m)[i] == t[p],
    decreases t.len(),
{
    let s = tbl_set(t, key, m);
    if t.len() == 0 {
    } else if lex_lt(key, t[0].path) {
        if i > 0 {
            assert(s[i] == t[i - 1]);
        }
    } else if key == t[0].path {
        if i > 0 {
            assert(s[i] == t.subrange(1, t.len() as int)[i - 1]);
            assert(s[i] == t[i]);
        }
    } else {
        let rest = t.subrange(1, t.len() as int);
        if i == 0 {
            assert(s[0] == t[0]);
        } else {
            assert(s[i] == tbl_set(rest, key, m)[i - 1]);
            lemma_tbl_set_member(rest, key, m, i - 1);
            if tbl_set(rest, key, m)[i - 1] != (ModuleEntryM { path: key, details: m }) {
                let p = choose|p: int|
                    0 <= p < rest.len() && tbl_set(rest, key, m)[i - 1] == rest[p];
                assert(s[i] == t[p + 1]);
            }
        }
    }
}

/// Every recorded submodule kind is a key of the table.
pub open spec fn subs_all_present(t: Seq<ModuleEntryM>) -> bool {
    forall|i: int, j: int|
        0 <= i < t.len() && 0 <= j < t[i].details.sub_modules.len() ==> tbl_contains(
            t,
            #[trigger] t[i].details.sub_modules[j].kind,
        )
}

/// A binding whose invocation list is already recorded keeps every
/// submodule kind present.
pub proof fn lemma_set_same_subs(t: Seq<ModuleEntryM>, key: Seq<char>, m: ModuleM)
    requires
        subs_all_present(t),
        m.sub_modules == tbl_entry(t, key).sub_modules,
    ensures
        subs_all_present(tbl_set(t, key, m)),
{
    let s = tbl_set(t, key, m);
    assert forall|i: int, j: int|
        0 <= i < s.len() && 0 <= j < s[i].details.sub_modules.len() implies tbl_contains(
        s,
        #[trigger] s[i].details.sub_modules[j].kind,
    ) by {
        lemma_tbl_set_member(t, key, m, i);
        if s[i] == (ModuleEntryM { path: key, details: m }) {
            if tbl_get(t, key) is Some {
                lemma_tbl_get_some_member(t, key);
                let p = choose|p: int|
                    0 <= p < t.len() && t[p].path == key && t[p].details == tbl_get(
                        t,
                        key,
                    )->Some_0;
                assert(tbl_contains(t, t[p].details.sub_modules[j].kind));
                lemma_tbl_set_preserves_contains(t, key, m, t[p].details.sub_modules[j].kind);
            }
        } else {
            let p = choose|p: int| 0 <= p < t.len() && s[i] == t[p];
            assert(tbl_contains(t, t[p].details.sub_modules[j].kind));
            lemma_tbl_set_preserves_contains(t, key, m, t[p].details.sub_modules[j].kind);
        }
    };
}

// ---------------------------------------------------------------------------
// Builder steps, as functions on the ghost table.
// ---------------------------------------------------------------------------

/// Appends one atom to the module's record.
pub open spec fn add_atom_m(t: Seq<ModuleEntryM>, module: Seq<char>, a: AtomM) -> Seq<
    ModuleEntryM,
> {
    let e = tbl_entry(t, module);
    tbl_set(t, module, ModuleM { atoms: e.atoms.push(a), ..e })
}

/// Appends one submodule invocation to the module's record.
pub open spec fn add_submodule_m(
    t: Seq<ModuleEntryM>,
    module: Seq<char>,
    name: Seq<char>,
    kind: Seq<char>,
) -> Seq<ModuleEntryM> {
    let e = tbl_entry(t, module);
    tbl_set(t, module, ModuleM { sub_modules: e.sub_modules.push(SubM { kind, name }), ..e })
}

/// Sets the module's code body.
pub open spec fn add_code_m(t: Seq<ModuleEntryM>, module: Seq<char>, code: VerilogM) -> Seq<
    ModuleEntryM,
> {
    let e = tbl_entry(t, module);
    tbl_set(t, module, ModuleM { code, ..e })
}

/// One definition per discriminant of an enumerated shape, in order.
pub open spec fn label_defs(type_label: Seq<char>, labels: Seq<Seq<char>>) -> Seq<EnumM> {
    Seq::new(labels.len(), |i: int| EnumM { type_label, discriminant: labels[i], value: i as nat })
}

/// All enum definitions found in a structural shape, depth first.
pub open spec fn desc_enum_defs(desc: TypeDescM) -> Seq<EnumM>
    decreases desc,
{
    match desc.kind {
        TypeKindM::Enumerated(labels) => label_defs(desc.name, labels),
        TypeKindM::Composite(items) => descs_enum_defs(items),
        TypeKindM::Scalar => Seq::empty(),
    }
}

pub open spec fn descs_enum_defs(items: Seq<TypeDescM>) -> Seq<EnumM>
    decreases items,
{
    if items.len() == 0 {
        Seq::empty()
    } else {
        descs_enum_defs(items.subrange(0, items.len() - 1)) + desc_enum_defs(items.last())
    }
}

/// Membership by value: the relation the deduplication uses.
pub open spec fn enums_contain(es: Seq<EnumM>, d: EnumM) -> bool {
    exists|i: int| 0 <= i < es.len() && es[i] == d
}

/// Appends each definition not already present, in order.
pub open spec fn dedup_append(es: Seq<EnumM>, defs: Seq<EnumM>) -> Seq<EnumM>
    decreases defs.len(),
{
    if defs.len() == 0 {
        es
    } else {
        let es1 = if enums_contain(es, defs[0]) {
            es
        } else {
            es.push(defs[0])
        };
        dedup_append(es1, defs.subrange(1, defs.len() as int))
    }
}

/// Registers every enum definition of the shape against the module,
/// deduplicated by value; the module's entry is created even when the shape
/// holds no enum.
pub open spec fn add_enums_m(t: Seq<ModuleEntryM>, module: Seq<char>, desc: TypeDescM) -> Seq<
    ModuleEntryM,
> {
    let e = tbl_entry(t, module);
    tbl_set(t, module, ModuleM { enums: dedup_append(e.enums, desc_enum_defs(desc)), ..e })
}

/// Collects every enum definition of the shape, depth first, onto `out`.
#[verifier::loop_isolation(false)]
pub fn collect_enum_defs(desc: &TypeDescriptor, out: &mut Vec<EnumDefinition>)
    ensures
        final(out).deep_view() == old(out).deep_view() + desc_enum_defs(desc@),
    decreases *desc,
{
    let ghost base = out.deep_view();
    match &desc.kind {
        crate::descriptor::TypeKind::Enumerated(labels) => {
            let ghost defs = label_defs(desc.name@, labels.deep_view());
            let mut i: usize = 0;
            proof {
                assert(base + defs.take(0) =~= base);
            }
            while i < labels.len()
                invariant
                    i <= labels@.len(),
                    defs == label_defs(desc.name@, labels.deep_view()),
                    defs.len() == labels@.len(),
                    out.deep_view() == base + defs.take(i as int),
                decreases labels@.len() - i,
            {
                let ghost dv0 = out.deep_view();
                let def = EnumDefinition {
                    type_label: desc.name.clone(),
                    discriminant: labels[i].clone(),
                    value: i,
                };
                proof {
                    lemma_vec_deep_view(*out);
                }
                out.push(def);
                proof {
                    lemma_vec_deep_view(*out);
                    lemma_vec_deep_view(*labels);
                    assert(out.deep_view() =~= dv0.push(def@));
                    assert(def@ == defs[i as int]);
                    assert(base + defs.take(i + 1) =~= (base + defs.take(i as int)).push(
                        defs[i as int],
                    ));
                }
                i = i + 1;
            }
            proof {
                assert(defs.take(labels@.len() as int) =~= defs);
                assert(desc@.kind == crate::descriptor::kind_view(desc.kind));
            }
        },
        crate::descriptor::TypeKind::Composite(items) => {
            let ghost iv = crate::descriptor::descs_view(items@);
            let mut i: usize = 0;
            proof {
                crate::descriptor::lemma_descs_view_len(items@);
                assert(base + descs_enum_defs(iv.take(0)) =~= base);
            }
            while i < items.len()
                invariant
                    i <= items@.len(),
                    iv == crate::descriptor::descs_view(items@),
                    iv.len() == items@.len(),
                    forall|j: int| 0 <= j < items@.len() ==> iv[j] == crate::descriptor::desc_view(
                        items@[j],
                    ),
                    out.deep_view() == base + descs_enum_defs(iv.take(i as int)),
                decreases items@.len() - i,
            {
                let ghost dv0 = out.deep_view();
                proof {
                    assert(decreases_to!(*desc => desc.kind));
                    assert(decreases_to!(desc.kind => *items));
                    assert(decreases_to!(*items => items@));
                    assert(decreases_to!(items@ => items@[i as int]));
                    assert(decreases_to!(*desc => items@[i as int]));
                }
                collect_enum_defs(&items[i], out);
                proof {
                    assert(iv.take(i + 1).subrange(0, i as int) =~= iv.take(i as int));
                    assert(iv.take(i + 1).last() == iv[i as int]);
                    assert(out.deep_view() =~= base + descs_enum_defs(iv.take(i + 1)));
                }
                i = i + 1;
            }
            proof {
                assert(iv.take(items@.len() as int) =~= iv);
                assert(desc@.kind == crate::descriptor::kind_view(desc.kind));
            }
        },
        crate::descriptor::TypeKind::Scalar => {
            proof {
                assert(base + desc_enum_defs(desc@) =~= base);
            }
        },
    }
}

/// Decides value-membership of a definition in the list.
pub fn enums_hold(es: &Vec<EnumDefinition>, d: &EnumDefinition) -> (r: bool)
    ensures
        r == enums_contain(es.deep_view(), d@),
{
    let mut i: usize = 0;
    proof {
        lemma_vec_deep_view(*es);
    }
    while i < es.len()
        invariant
            i <= es@.len(),
            forall|j: int| 0 <= j < i ==> es@[j]@ != d@,
            es.deep_view().len() == es@.len(),
            forall|j: int| 0 <= j < es@.len() ==> es.deep_view()[j] == es@[j]@,
        decreases es@.len() - i,
    {
        if es[i].same_as(d) {
            proof {
                assert(es.deep_view()[i as int] == d@);
            }
            return true;
        }
        i = i + 1;
    }
    false
}

} // verus!
