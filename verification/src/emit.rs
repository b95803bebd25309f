//! The code emitter: renders the completed table into one text blob, module
//! by module in table order, followed by the verbatim trailing texts of
//! blackboxes and wrappers.

use vstd::prelude::*;
use crate::atom::AtomDetails;
use crate::atom::AtomKind;
use crate::atom::AtomM;
use crate::descriptor::EnumDefinition;
use crate::descriptor::EnumM;
use crate::ir::tbl_entry;
use crate::ir::tbl_get;
use crate::ir::lemma_tbl_get_skip;
use crate::ir::lemma_tbl_get_none;
use crate::ir::ModuleDetails;
use crate::ir::ModuleEntry;
use crate::ir::ModuleEntryM;
use crate::ir::ModuleM;
use crate::ir::SubM;
use crate::text::dec_digits;
use crate::text::flatten_type_sep;
use crate::text::flatten_type_separator;
use crate::text::join_with;
use crate::text::join_strings;
use crate::text::lemma_cat_assoc;
use crate::text::lemma_cat_empty;
use crate::text::lemma_vec_deep_view;
use crate::text::str_eq;
use crate::text::usize_to_string;
use crate::text::written_line;
use crate::text::CodeWriter;
use crate::verilog::VerilogM;

verus! {

/// Why one generation call failed.
#[derive(Clone, Copy, Debug, PartialEq, Eq, Structural)]
pub enum GenerationError {
    /// A recorded submodule invocation's kind has no table entry.
    UnresolvedSubModule,
    /// The driver-completeness check found an unmarked terminal.
    UnconnectedSignal,
}

/// The declaration keyword of an atom kind.
pub open spec fn kind_word(k: AtomKind) -> Seq<char> {
    match k {
        AtomKind::InputParameter => "input wire"@,
        AtomKind::OutputParameter => "output reg"@,
        AtomKind::InOutParameter => "inout wire"@,
        AtomKind::Constant => "localparam"@,
        AtomKind::LocalSignal => "reg"@,
        AtomKind::StubInputSignal => "reg"@,
        AtomKind::StubOutputSignal => "wire"@,
        AtomKind::OutputPassthrough => "output wire"@,
    }
}

/// The signedness token, empty for unsigned atoms.
pub open spec fn signed_tok(signed: bool) -> Seq<char> {
    if signed {
        " signed"@
    } else {
        ""@
    }
}

/// One declaration line: keyword, signedness, bit range for multi-bit atoms,
/// name, and an initializer for constants.
pub open spec fn decl_m(a: AtomM) -> Seq<char> {
    let head = kind_word(a.kind) + signed_tok(a.signed) + " "@;
    if a.kind == AtomKind::Constant {
        head + a.name + " = "@ + a.const_val + ";"@
    } else if a.width <= 1 {
        head + a.name + ";"@
    } else {
        head + "["@ + dec_digits((a.width - 1) as nat) + ":0] "@ + a.name + ";"@
    }
}

/// The declaration keyword of an atom kind.
pub fn verilog_atom_name(x: &AtomKind) -> (r: &'static str)
    ensures
        r@ == kind_word(*x),
{
    match x {
        AtomKind::InputParameter => "input wire",
        AtomKind::OutputParameter => "output reg",
        AtomKind::InOutParameter => "inout wire",
        AtomKind::Constant => "localparam",
        AtomKind::LocalSignal => "reg",
        AtomKind::StubInputSignal => "reg",
        AtomKind::StubOutputSignal => "wire",
        AtomKind::OutputPassthrough => "output wire",
    }
}

/// Renders one declaration line.
pub fn decl(x: &AtomDetails) -> (r: String)
    ensures
        r@ == decl_m(x@),
{
    let mut out = String::new();
    out.append(verilog_atom_name(&x.kind));
    if x.signed {
        out.append(" signed");
    } else {
        proof {
            reveal_strlit("");
            assert(out@ + ""@ =~= out@);
        }
    }
    out.append(" ");
    if matches!(x.kind, AtomKind::Constant) {
        out.append(x.name.as_str());
        out.append(" = ");
        out.append(x.const_val.as_str());
        out.append(";");
    } else if x.width <= 1 {
        out.append(x.name.as_str());
        out.append(";");
    } else {
        out.append("[");
        let range = usize_to_string(x.width - 1);
        out.append(range.as_str());
        out.append(":0] ");
        out.append(x.name.as_str());
        out.append(";");
    }
    out
}

/// The partition an atom falls into when a module is emitted.
#[derive(Clone, Copy, Debug, PartialEq, Eq, Structural)]
pub enum AtomClass {
    Params,
    Stubs,
    Consts,
    Locals,
}

pub open spec fn in_class(cl: AtomClass, k: AtomKind) -> bool {
    match cl {
        AtomClass::Params => k.spec_is_parameter(),
        AtomClass::Stubs => k.spec_is_stub(),
        AtomClass::Consts => k == AtomKind::Constant,
        AtomClass::Locals => k == AtomKind::LocalSignal,
    }
}

/// The atoms of one partition, in recorded order.
pub open spec fn filter_class(atoms: Seq<AtomM>, cl: AtomClass) -> Seq<AtomM>
    decreases atoms.len(),
{
    if atoms.len() == 0 {
        Seq::empty()
    } else {
        let rest = filter_class(atoms.drop_last(), cl);
        if in_class(cl, atoms.last().kind) {
            rest.push(atoms.last())
        } else {
            rest
        }
    }
}

fn kind_in_class(cl: AtomClass, k: &AtomKind) -> (r: bool)
    ensures
        r == in_class(cl, *k),
{
    match cl {
        AtomClass::Params => k.is_parameter(),
        AtomClass::Stubs => k.is_stub(),
        AtomClass::Consts => matches!(k, AtomKind::Constant),
        AtomClass::Locals => matches!(k, AtomKind::LocalSignal),
    }
}

/// Copies out the atoms of one partition, in recorded order.
pub fn atoms_in_class(atoms: &Vec<AtomDetails>, cl: AtomClass) -> (r: Vec<AtomDetails>)
    ensures
        r.deep_view() == filter_class(atoms.deep_view(), cl),
{
    let ghost adv = atoms.deep_view();
    let mut out: Vec<AtomDetails> = Vec::new();
    let mut i: usize = 0;
    proof {
        lemma_vec_deep_view(*atoms);
        assert(out.deep_view() =~= filter_class(adv.take(0), cl));
    }
    while i < atoms.len()
        invariant
            i <= atoms@.len(),
            adv == atoms.deep_view(),
            adv.len() == atoms@.len(),
            forall|j: int| 0 <= j < atoms@.len() ==> adv[j] == atoms@[j]@,
            out.deep_view() == filter_class(adv.take(i as int), cl),
        decreases atoms@.len() - i,
    {
        let ghost dv0 = out.deep_view();
        proof {
            assert(adv.take(i + 1).drop_last() =~= adv.take(i as int));
            assert(adv.take(i + 1).last() == adv[i as int]);
        }
        if kind_in_class(cl, &atoms[i].kind) {
            out.push(atoms[i].duplicate());
            proof {
                lemma_vec_deep_view(out);
                assert(out.deep_view() =~= dv0.push(adv[i as int]));
            }
        }
        i = i + 1;
    }
    proof {
        assert(adv.take(adv.len() as int) =~= adv);
    }
    out
}

/// An output parameter seen as a passthrough net; anything else unchanged.
pub open spec fn remap_out(a: AtomM) -> AtomM {
    if a.kind == AtomKind::OutputParameter {
        AtomM { kind: AtomKind::OutputPassthrough, ..a }
    } else {
        a
    }
}

/// The wrapper-mode view of the atom list: outputs become nets.
pub open spec fn remap_m(atoms: Seq<AtomM>) -> Seq<AtomM> {
    Seq::new(atoms.len(), |i: int| remap_out(atoms[i]))
}

/// Copies the atom list with every output parameter remapped to a
/// passthrough net; the table itself is never changed.
pub fn remap_passthrough(atoms: &Vec<AtomDetails>) -> (r: Vec<AtomDetails>)
    ensures
        r.deep_view() == remap_m(atoms.deep_view()),
{
    let ghost adv = atoms.deep_view();
    let mut out: Vec<AtomDetails> = Vec::new();
    let mut i: usize = 0;
    proof {
        lemma_vec_deep_view(*atoms);
    }
    while i < atoms.len()
        invariant
            i <= atoms@.len(),
            adv == atoms.deep_view(),
            adv.len() == atoms@.len(),
            forall|j: int| 0 <= j < atoms@.len() ==> adv[j] == atoms@[j]@,
            out.deep_view().len() == i,
            forall|j: int| 0 <= j < i ==> out.deep_view()[j] == remap_out(adv[j]),
        decreases atoms@.len() - i,
    {
        let ghost dv0 = out.deep_view();
        let ghost v0 = out@;
        let mut a = atoms[i].duplicate();
        if matches!(a.kind, AtomKind::OutputParameter) {
            a.kind = AtomKind::OutputPassthrough;
        }
        proof {
            assert(a@ == remap_out(adv[i as int]));
        }
        out.push(a);
        proof {
            lemma_vec_deep_view(out);
            assert forall|j: int| 0 <= j < i + 1 implies out.deep_view()[j] == remap_out(
                adv[j],
            ) by {
                if j < i {
                    assert(out@[j] == v0[j]);
                    assert(dv0[j] == v0[j]@);
                }
            };
        }
        i = i + 1;
    }
    proof {
        assert(out.deep_view() =~= remap_m(adv));
    }
    out
}

/// The parameter names, in partition order.
pub open spec fn names_of(atoms: Seq<AtomM>) -> Seq<Seq<char>> {
    Seq::new(atoms.len(), |i: int| atoms[i].name)
}

/// Copies out the names of the given atoms.
pub fn atom_names(atoms: &Vec<AtomDetails>) -> (r: Vec<String>)
    ensures
        r.deep_view() == names_of(atoms.deep_view()),
{
    let ghost adv = atoms.deep_view();
    let mut out: Vec<String> = Vec::new();
    let mut i: usize = 0;
    proof {
        lemma_vec_deep_view(*atoms);
    }
    while i < atoms.len()
        invariant
            i <= atoms@.len(),
            adv == atoms.deep_view(),
            adv.len() == atoms@.len(),
            forall|j: int| 0 <= j < atoms@.len() ==> adv[j] == atoms@[j]@,
            out.deep_view().len() == i,
            forall|j: int| 0 <= j < i ==> out.deep_view()[j] == adv[j].name,
        decreases atoms@.len() - i,
    {
        let ghost dv0 = out.deep_view();
        let ghost v0 = out@;
        out.push(atoms[i].name.clone());
        proof {
            lemma_vec_deep_view(out);
            assert forall|j: int| 0 <= j < i + 1 implies out.deep_view()[j] == adv[j].name by {
                if j < i {
                    assert(out@[j] == v0[j]);
                    assert(dv0[j] == v0[j]@);
                }
            };
        }
        i = i + 1;
    }
    proof {
        assert(out.deep_view() =~= names_of(adv));
    }
    out
}

// ---------------------------------------------------------------------------
// What one module block looks like.
// ---------------------------------------------------------------------------

/// One enum constant declaration: the discriminant with its type-path
/// separator flattened to the join token, bound to its ordinal.
pub open spec fn enum_line_m(e: EnumM) -> Seq<char> {
    "localparam "@ + flatten_type_sep(e.discriminant) + " = "@ + dec_digits(e.value) + ";"@
}

/// One port binding of an instantiation: the child's port bound by name to
/// the parent's stub wire.
pub open spec fn binding_of(child: Seq<char>, a: AtomM) -> Seq<char> {
    "."@ + a.name + "("@ + child + "$"@ + a.name + ")"@
}

pub open spec fn bindings_of(child: Seq<char>, params: Seq<AtomM>) -> Seq<Seq<char>> {
    Seq::new(params.len(), |i: int| binding_of(child, params[i]))
}

/// One instantiation statement: a blackbox child is instantiated under its
/// declared external type name, any other under its hierarchical path.
pub open spec fn sub_line_m(sub: SubM, t: Seq<ModuleEntryM>) -> Seq<char> {
    let child = tbl_entry(t, sub.kind);
    let kindname = match child.code {
        VerilogM::Blackbox { name, .. } => name,
        _ => sub.kind,
    };
    let params = filter_class(child.atoms, AtomClass::Params);
    kindname + " "@ + sub.name + "("@ + join_with(bindings_of(sub.name, params), ","@) + ");"@
}

pub open spec fn decl_lines_m(atoms: Seq<AtomM>, ind: nat) -> Seq<char>
    decreases atoms.len(),
{
    if atoms.len() == 0 {
        Seq::empty()
    } else {
        decl_lines_m(atoms.drop_last(), ind) + written_line(ind, decl_m(atoms.last()))
    }
}

pub open spec fn enum_lines_m(enums: Seq<EnumM>, ind: nat) -> Seq<char>
    decreases enums.len(),
{
    if enums.len() == 0 {
        Seq::empty()
    } else {
        enum_lines_m(enums.drop_last(), ind) + written_line(ind, enum_line_m(enums.last()))
    }
}

pub open spec fn sub_lines_m(subs: Seq<SubM>, t: Seq<ModuleEntryM>, ind: nat) -> Seq<char>
    decreases subs.len(),
{
    if subs.len() == 0 {
        Seq::empty()
    } else {
        sub_lines_m(subs.drop_last(), t, ind) + written_line(ind, sub_line_m(subs.last(), t))
    }
}

pub open spec fn raw_lines_m(lines: Seq<Seq<char>>, ind: nat) -> Seq<char>
    decreases lines.len(),
{
    if lines.len() == 0 {
        Seq::empty()
    } else {
        raw_lines_m(lines.drop_last(), ind) + written_line(ind, lines.last())
    }
}

/// What the module's own code body contributes inside the block.
pub open spec fn code_lines_m(code: VerilogM) -> Seq<char> {
    match code {
        VerilogM::Combinatorial(lines) => written_line(1, "// Update code"@) + written_line(
            1,
            "always @(*) begin"@,
        ) + raw_lines_m(lines, 2) + written_line(1, "end"@),
        VerilogM::Custom(c) => written_line(1, "// Update code (custom)"@) + written_line(1, c),
        VerilogM::Wrapper { code, .. } => written_line(1, "// Update code (wrapper)"@)
            + written_line(1, code),
        VerilogM::Blackbox { .. } => Seq::empty(),
        VerilogM::Empty => Seq::empty(),
    }
}

/// The note emitted above a wrapper's header.
pub open spec fn wrapper_note() -> Seq<char> {
    "// Output parameters are declared as nets for the wrapped code."@
}

/// One emitted module block: blank separator, header, the declaration
/// sections in order, the instantiations, the code body, and the closing
/// line.  Wrapper modules keep only their argument and constant sections.
pub open spec fn module_block_m(p: Seq<char>, d: ModuleM, t: Seq<ModuleEntryM>) -> Seq<char> {
    let wrapper = d.code is Wrapper;
    let atoms = if wrapper {
        remap_m(d.atoms)
    } else {
        d.atoms
    };
    let args = filter_class(atoms, AtomClass::Params);
    let consts = filter_class(atoms, AtomClass::Consts);
    let stubs = filter_class(atoms, AtomClass::Stubs);
    let locals = filter_class(atoms, AtomClass::Locals);
    written_line(0, Seq::empty()) + (if wrapper {
        written_line(0, wrapper_note())
    } else {
        Seq::empty()
    }) + written_line(0, "module "@ + p + "("@ + join_with(names_of(args), ","@) + ");"@) + (
    if args.len() > 0 {
        written_line(1, "// Module arguments"@) + decl_lines_m(args, 1)
    } else {
        Seq::empty()
    }) + (if consts.len() > 0 {
        written_line(1, "// Constant declarations"@) + decl_lines_m(consts, 1)
    } else {
        Seq::empty()
    }) + (if !wrapper && d.enums.len() > 0 {
        written_line(1, "// Enums"@) + enum_lines_m(d.enums, 1)
    } else {
        Seq::empty()
    }) + (if !wrapper && stubs.len() > 0 {
        written_line(1, "// Stub signals"@) + decl_lines_m(stubs, 1)
    } else {
        Seq::empty()
    }) + (if !wrapper && locals.len() > 0 {
        written_line(1, "// Local signals"@) + decl_lines_m(locals, 1)
    } else {
        Seq::empty()
    }) + (if !wrapper && d.sub_modules.len() > 0 {
        written_line(1, "// Sub module instances"@) + sub_lines_m(d.sub_modules, t, 1)
    } else {
        Seq::empty()
    }) + code_lines_m(d.code) + written_line(0, "endmodule // "@ + p)
}

/// A module is emitted when its path is not the synthetic empty root and its
/// body is not a blackbox.
pub open spec fn emitted(e: ModuleEntryM) -> bool {
    e.path.len() > 0 && !(e.details.code is Blackbox)
}

pub open spec fn entry_text(e: ModuleEntryM, t: Seq<ModuleEntryM>) -> Seq<char> {
    if emitted(e) {
        module_block_m(e.path, e.details, t)
    } else {
        Seq::empty()
    }
}

pub open spec fn modules_text(entries: Seq<ModuleEntryM>, t: Seq<ModuleEntryM>) -> Seq<char>
    decreases entries.len(),
{
    if entries.len() == 0 {
        Seq::empty()
    } else {
        modules_text(entries.drop_last(), t) + entry_text(entries.last(), t)
    }
}

/// What one entry appends after all modules: a blackbox's verbatim text or a
/// wrapper's support text, once per entry whatever its instantiation count.
pub open spec fn trail_text(e: ModuleEntryM) -> Seq<char> {
    match e.details.code {
        VerilogM::Blackbox { code, .. } => written_line(0, code),
        VerilogM::Wrapper { cores, .. } => written_line(0, cores),
        _ => Seq::empty(),
    }
}

pub open spec fn trailer_text(entries: Seq<ModuleEntryM>) -> Seq<char>
    decreases entries.len(),
{
    if entries.len() == 0 {
        Seq::empty()
    } else {
        trailer_text(entries.drop_last()) + trail_text(entries.last())
    }
}

/// The whole rendered text of a table.
pub open spec fn render_m(t: Seq<ModuleEntryM>) -> Seq<char> {
    modules_text(t, t) + trailer_text(t)
}

/// Whether an emitted entry's instantiations all have a table entry to bind
/// against; wrappers never look their children up.
pub open spec fn entry_resolves(e: ModuleEntryM, t: Seq<ModuleEntryM>) -> bool {
    (emitted(e) && !(e.details.code is Wrapper)) ==> forall|j: int|
        0 <= j < e.details.sub_modules.len() ==> tbl_get(
            t,
            #[trigger] e.details.sub_modules[j].kind,
        ) is Some
}

/// Whether the whole table renders without a lookup failure.
pub open spec fn tbl_resolves(t: Seq<ModuleEntryM>) -> bool {
    forall|i: int| 0 <= i < t.len() ==> entry_resolves(#[trigger] t[i], t)
}

/// Finds the first entry recorded under the key.
pub fn find_entry<'a>(table: &'a Vec<ModuleEntry>, key: &str) -> (r: Option<&'a ModuleDetails>)
    ensures
        match r {
            Option::Some(d) => tbl_get(table.deep_view(), key@) == Option::Some(d@),
            Option::None => tbl_get(table.deep_view(), key@) is None,
        },
{
    let ghost t = table.deep_view();
    let mut i: usize = 0;
    proof {
        lemma_vec_deep_view(*table);
    }
    while i < table.len()
        invariant
            i <= table@.len(),
            t == table.deep_view(),
            t.len() == table@.len(),
            forall|j: int| 0 <= j < table@.len() ==> t[j] == table@[j]@,
            forall|j: int| 0 <= j < i ==> t[j].path != key@,
        decreases table@.len() - i,
    {
        if str_eq(table[i].path.as_str(), key) {
            proof {
                lemma_tbl_get_skip(t, key@, i as int);
                let rest = t.subrange(i as int, t.len() as int);
                assert(rest[0] == t[i as int]);
            }
            return Option::Some(&table[i].details);
        }
        i = i + 1;
    }
    proof {
        lemma_tbl_get_none(t, key@);
    }
    Option::None
}

/// A field-wise copy of an atom list, model-preserving.
fn copy_atoms(atoms: &Vec<AtomDetails>) -> (r: Vec<AtomDetails>)
    ensures
        r.deep_view() == atoms.deep_view(),
{
    let ghost adv = atoms.deep_view();
    let mut out: Vec<AtomDetails> = Vec::new();
    let mut i: usize = 0;
    proof {
        lemma_vec_deep_view(*atoms);
    }
    while i < atoms.len()
        invariant
            i <= atoms@.len(),
            adv == atoms.deep_view(),
            adv.len() == atoms@.len(),
            forall|j: int| 0 <= j < atoms@.len() ==> adv[j] == atoms@[j]@,
            out.deep_view().len() == i,
            forall|j: int| 0 <= j < i ==> out.deep_view()[j] == adv[j],
        decreases atoms@.len() - i,
    {
        let ghost dv0 = out.deep_view();
        let ghost v0 = out@;
        out.push(atoms[i].duplicate());
        proof {
            lemma_vec_deep_view(out);
            assert forall|j: int| 0 <= j < i + 1 implies out.deep_view()[j] == adv[j] by {
                if j < i {
                    assert(out@[j] == v0[j]);
                    assert(dv0[j] == v0[j]@);
                }
            };
        }
        i = i + 1;
    }
    proof {
        assert(out.deep_view() =~= adv);
    }
    out
}

/// Emits one declaration section: a comment header and one line per atom,
/// nothing when the partition is empty.
fn emit_decl_section(io: &mut CodeWriter, header: &str, atoms: &Vec<AtomDetails>)
    requires
        old(io).spec_indent() == 1,
    ensures
        final(io).spec_indent() == 1,
        final(io).spec_text() == old(io).spec_text() + (if atoms.deep_view().len() > 0 {
            written_line(1, header@) + decl_lines_m(atoms.deep_view(), 1)
        } else {
            Seq::<char>::empty()
        }),
{
    let ghost base = io.spec_text();
    let ghost adv = atoms.deep_view();
    proof {
        lemma_vec_deep_view(*atoms);
    }
    if atoms.len() == 0 {
        proof {
            assert(base + Seq::<char>::empty() =~= base);
        }
        return ;
    }
    io.add(header);
    let mut i: usize = 0;
    proof {
        assert(io.spec_text() =~= base + written_line(1, header@) + decl_lines_m(
            adv.take(0),
            1,
        ));
    }
    while i < atoms.len()
        invariant
            i <= atoms@.len(),
            adv == atoms.deep_view(),
            adv.len() == atoms@.len(),
            forall|j: int| 0 <= j < atoms@.len() ==> adv[j] == atoms@[j]@,
            io.spec_indent() == 1,
            io.spec_text() == base + written_line(1, header@) + decl_lines_m(adv.take(i as int), 1),
        decreases atoms@.len() - i,
    {
        let line = decl(&atoms[i]);
        io.add(line.as_str());
        proof {
            assert(adv.take(i + 1).drop_last() =~= adv.take(i as int));
            assert(adv.take(i + 1).last() == adv[i as int]);
            assert(io.spec_text() =~= base + written_line(1, header@) + decl_lines_m(
                adv.take(i + 1),
                1,
            ));
        }
        i = i + 1;
    }
    proof {
        assert(adv.take(adv.len() as int) =~= adv);
        assert(base + written_line(1, header@) + decl_lines_m(adv, 1) =~= base + (written_line(
            1,
            header@,
        ) + decl_lines_m(adv, 1)));
    }
}

/// Emits the enum constant section.
fn emit_enum_section(io: &mut CodeWriter, enums: &Vec<EnumDefinition>)
    requires
        old(io).spec_indent() == 1,
    ensures
        final(io).spec_indent() == 1,
        final(io).spec_text() == old(io).spec_text() + (if enums.deep_view().len() > 0 {
            written_line(1, "// Enums"@) + enum_lines_m(enums.deep_view(), 1)
        } else {
            Seq::<char>::empty()
        }),
{
    let ghost base = io.spec_text();
    let ghost edv = enums.deep_view();
    proof {
        lemma_vec_deep_view(*enums);
    }
    if enums.len() == 0 {
        proof {
            assert(base + Seq::<char>::empty() =~= base);
        }
        return ;
    }
    io.add("// Enums");
    let mut i: usize = 0;
    proof {
        assert(io.spec_text() =~= base + written_line(1, "// Enums"@) + enum_lines_m(
            edv.take(0),
            1,
        ));
    }
    while i < enums.len()
        invariant
            i <= enums@.len(),
            edv == enums.deep_view(),
            edv.len() == enums@.len(),
            forall|j: int| 0 <= j < enums@.len() ==> edv[j] == enums@[j]@,
            io.spec_indent() == 1,
            io.spec_text() == base + written_line(1, "// Enums"@) + enum_lines_m(
                edv.take(i as int),
                1,
            ),
        decreases enums@.len() - i,
    {
        let d = &enums[i];
        let mut line = String::new();
        line.append("localparam ");
        let flat = flatten_type_separator(d.discriminant.as_str());
        line.append(flat.as_str());
        line.append(" = ");
        let val = usize_to_string(d.value);
        line.append(val.as_str());
        line.append(";");
        io.add(line.as_str());
        proof {
            assert(line@ == enum_line_m(edv[i as int]));
            assert(edv.take(i + 1).drop_last() =~= edv.take(i as int));
            assert(edv.take(i + 1).last() == edv[i as int]);
            assert(io.spec_text() =~= base + written_line(1, "// Enums"@) + enum_lines_m(
                edv.take(i + 1),
                1,
            ));
        }
        i = i + 1;
    }
    proof {
        assert(edv.take(edv.len() as int) =~= edv);
        assert(base + written_line(1, "// Enums"@) + enum_lines_m(edv, 1) =~= base + (written_line(
            1,
            "// Enums"@,
        ) + enum_lines_m(edv, 1)));
    }
}

/// Builds the port bindings of one instantiation.
fn bindings_vec(child_name: &str, params: &Vec<AtomDetails>) -> (r: Vec<String>)
    ensures
        r.deep_view() == bindings_of(child_name@, params.deep_view()),
{
    let ghost pdv = params.deep_view();
    let mut out: Vec<String> = Vec::new();
    let mut i: usize = 0;
    proof {
        lemma_vec_deep_view(*params);
    }
    while i < params.len()
        invariant
            i <= params@.len(),
            pdv == params.deep_view(),
            pdv.len() == params@.len(),
            forall|j: int| 0 <= j < params@.len() ==> pdv[j] == params@[j]@,
            out.deep_view().len() == i,
            forall|j: int| 0 <= j < i ==> out.deep_view()[j] == binding_of(child_name@, pdv[j]),
        decreases params@.len() - i,
    {
        let ghost dv0 = out.deep_view();
        let ghost v0 = out@;
        let mut b = String::new();
        b.append(".");
        b.append(params[i].name.as_str());
        b.append("(");
        b.append(child_name);
        b.append("$");
        b.append(params[i].name.as_str());
        b.append(")");
        proof {
            assert(b@ == binding_of(child_name@, pdv[i as int]));
        }
        out.push(b);
        proof {
            lemma_vec_deep_view(out);
            assert forall|j: int| 0 <= j < i + 1 implies out.deep_view()[j] == binding_of(
                child_name@,
                pdv[j],
            ) by {
                if j < i {
                    assert(out@[j] == v0[j]);
                    assert(dv0[j] == v0[j]@);
                }
            };
        }
        i = i + 1;
    }
    proof {
        assert(out.deep_view() =~= bindings_of(child_name@, pdv));
    }
    out
}

/// Emits the instantiation section; fails on the first invocation whose kind
/// has no table entry.
fn emit_subs_section(
    io: &mut CodeWriter,
    subs: &Vec<crate::ir::SubModuleInvocation>,
    table: &Vec<ModuleEntry>,
) -> (r: Result<(), GenerationError>)
    requires
        old(io).spec_indent() == 1,
    ensures
        r is Ok <==> (forall|j: int|
            0 <= j < subs.deep_view().len() ==> tbl_get(
                table.deep_view(),
                #[trigger] subs.deep_view()[j].kind,
            ) is Some),
        r is Ok ==> final(io).spec_indent() == 1 && final(io).spec_text() == old(io).spec_text()
            + (if subs.deep_view().len() > 0 {
            written_line(1, "// Sub module instances"@) + sub_lines_m(
                subs.deep_view(),
                table.deep_view(),
                1,
            )
        } else {
            Seq::<char>::empty()
        }),
        r is Err ==> r->Err_0 == GenerationError::UnresolvedSubModule,
{
    let ghost base = io.spec_text();
    let ghost sdv = subs.deep_view();
    let ghost t = table.deep_view();
    proof {
        lemma_vec_deep_view(*subs);
    }
    if subs.len() == 0 {
        proof {
            assert(base + Seq::<char>::empty() =~= base);
        }
        return Result::Ok(());
    }
    io.add("// Sub module instances");
    let mut i: usize = 0;
    proof {
        assert(io.spec_text() =~= base + written_line(1, "// Sub module instances"@) + sub_lines_m(
            sdv.take(0),
            t,
            1,
        ));
    }
    while i < subs.len()
        invariant
            i <= subs@.len(),
            sdv == subs.deep_view(),
            t == table.deep_view(),
            sdv.len() == subs@.len(),
            forall|j: int| 0 <= j < subs@.len() ==> sdv[j] == subs@[j]@,
            forall|j: int| 0 <= j < i ==> tbl_get(t, #[trigger] sdv[j].kind) is Some,
            io.spec_indent() == 1,
            io.spec_text() == base + written_line(1, "// Sub module instances"@) + sub_lines_m(
                sdv.take(i as int),
                t,
                1,
            ),
        decreases subs@.len() - i,
    {
        let sub = &subs[i];
        let child = match find_entry(table, sub.kind.as_str()) {
            Option::Some(child) => child,
            Option::None => {
                return Result::Err(GenerationError::UnresolvedSubModule);
            },
        };
        let kindname: String = match &child.code {
            crate::verilog::Verilog::Blackbox(b) => b.name.clone(),
            _ => sub.kind.clone(),
        };
        let params = atoms_in_class(&child.atoms, AtomClass::Params);
        let binds = bindings_vec(sub.name.as_str(), &params);
        let joined = join_strings(&binds, ",");
        let mut line = kindname;
        line.append(" ");
        line.append(sub.name.as_str());
        line.append("(");
        line.append(joined.as_str());
        line.append(");");
        io.add(line.as_str());
        proof {
            assert(tbl_entry(t, sdv[i as int].kind) == child@);
            assert(line@ == sub_line_m(sdv[i as int], t));
            assert(sdv.take(i + 1).drop_last() =~= sdv.take(i as int));
            assert(sdv.take(i + 1).last() == sdv[i as int]);
            assert(io.spec_text() =~= base + written_line(1, "// Sub module instances"@)
                + sub_lines_m(sdv.take(i + 1), t, 1));
        }
        i = i + 1;
    }
    proof {
        assert(sdv.take(sdv.len() as int) =~= sdv);
        assert(base + written_line(1, "// Sub module instances"@) + sub_lines_m(sdv, t, 1) =~= base
            + (written_line(1, "// Sub module instances"@) + sub_lines_m(sdv, t, 1)));
    }
    Result::Ok(())
}

/// Emits one module block.
#[verifier::rlimit(50)]
pub fn emit_module(
    io: &mut CodeWriter,
    path: &str,
    details: &ModuleDetails,
    table: &Vec<ModuleEntry>,
) -> (r: Result<(), GenerationError>)
    requires
        old(io).spec_indent() == 0,
        !(details@.code is Blackbox),
    ensures
        r is Ok <==> (details@.code is Wrapper || forall|j: int|
            0 <= j < details@.sub_modules.len() ==> tbl_get(
                table.deep_view(),
                #[trigger] details@.sub_modules[j].kind,
            ) is Some),
        r is Ok ==> final(io).spec_indent() == 0 && final(io).spec_text() == old(io).spec_text()
            + module_block_m(path@, details@, table.deep_view()),
        r is Err ==> r->Err_0 == GenerationError::UnresolvedSubModule,
{
    let ghost base = io.spec_text();
    let ghost d = details@;
    let ghost t = table.deep_view();
    let wrapper = details.code.is_wrapper();
    let atoms_eff: Vec<AtomDetails> = if wrapper {
        remap_passthrough(&details.atoms)
    } else {
        copy_atoms(&details.atoms)
    };
    let ghost atoms_m = if d.code is Wrapper {
        remap_m(d.atoms)
    } else {
        d.atoms
    };
    let ghost argseq = filter_class(atoms_m, AtomClass::Params);
    let ghost constseq = filter_class(atoms_m, AtomClass::Consts);
    let ghost stubseq = filter_class(atoms_m, AtomClass::Stubs);
    let ghost localseq = filter_class(atoms_m, AtomClass::Locals);
    let args = atoms_in_class(&atoms_eff, AtomClass::Params);
    let consts = atoms_in_class(&atoms_eff, AtomClass::Consts);
    let stubs = atoms_in_class(&atoms_eff, AtomClass::Stubs);
    let locals = atoms_in_class(&atoms_eff, AtomClass::Locals);
    io.add("");
    let ghost seg1 = written_line(0, Seq::<char>::empty());
    proof {
        reveal_strlit("");
        assert(""@ =~= Seq::<char>::empty());
    }
    if wrapper {
        io.add("// Output parameters are declared as nets for the wrapped code.");
    }
    let ghost seg2 = seg1 + (if d.code is Wrapper {
        written_line(0, wrapper_note())
    } else {
        Seq::<char>::empty()
    });
    proof {
        if d.code is Wrapper {
            lemma_cat_assoc(base, seg1, written_line(0, wrapper_note()));
        } else {
            lemma_cat_empty(seg1);
        }
        assert(io.spec_text() == base + seg2);
    }
    let names = atom_names(&args);
    let joined = join_strings(&names, ",");
    let mut header = String::new();
    header.append("module ");
    header.append(path);
    header.append("(");
    header.append(joined.as_str());
    header.append(");");
    io.add(header.as_str());
    io.push();
    let ghost seg3 = seg2 + written_line(
        0,
        "module "@ + path@ + "("@ + join_with(names_of(argseq), ","@) + ");"@,
    );
    proof {
        assert(header@ == "module "@ + path@ + "("@ + join_with(names_of(argseq), ","@) + ");"@);
        lemma_cat_assoc(base, seg2, header@);
        assert(io.spec_text() == base + seg3);
    }
    emit_decl_section(io, "// Module arguments", &args);
    let ghost seg4 = seg3 + (if argseq.len() > 0 {
        written_line(1, "// Module arguments"@) + decl_lines_m(argseq, 1)
    } else {
        Seq::<char>::empty()
    });
    proof {
        lemma_cat_assoc(base, seg3, (if argseq.len() > 0 {
            written_line(1, "// Module arguments"@) + decl_lines_m(argseq, 1)
        } else {
            Seq::<char>::empty()
        }));
        lemma_cat_empty(seg3);
        assert(io.spec_text() == base + seg4);
    }
    emit_decl_section(io, "// Constant declarations", &consts);
    let ghost seg5 = seg4 + (if constseq.len() > 0 {
        written_line(1, "// Constant declarations"@) + decl_lines_m(constseq, 1)
    } else {
        Seq::<char>::empty()
    });
    proof {
        lemma_cat_assoc(base, seg4, (if constseq.len() > 0 {
            written_line(1, "// Constant declarations"@) + decl_lines_m(constseq, 1)
        } else {
            Seq::<char>::empty()
        }));
        lemma_cat_empty(seg4);
        assert(io.spec_text() == base + seg5);
    }
    if !wrapper {
        emit_enum_section(io, &details.enums);
    }
    let ghost seg6 = seg5 + (if !(d.code is Wrapper) && d.enums.len() > 0 {
        written_line(1, "// Enums"@) + enum_lines_m(d.enums, 1)
    } else {
        Seq::<char>::empty()
    });
    proof {
        lemma_cat_assoc(base, seg5, (if !(d.code is Wrapper) && d.enums.len() > 0 {
            written_line(1, "// Enums"@) + enum_lines_m(d.enums, 1)
        } else {
            Seq::<char>::empty()
        }));
        lemma_cat_empty(seg5);
        assert(io.spec_text() == base + seg6);
    }
    if !wrapper {
        emit_decl_section(io, "// Stub signals", &stubs);
    }
    let ghost seg7 = seg6 + (if !(d.code is Wrapper) && stubseq.len() > 0 {
        written_line(1, "// Stub signals"@) + decl_lines_m(stubseq, 1)
    } else {
        Seq::<char>::empty()
    });
    proof {
        lemma_cat_assoc(base, seg6, (if !(d.code is Wrapper) && stubseq.len() > 0 {
            written_line(1, "// Stub signals"@) + decl_lines_m(stubseq, 1)
        } else {
            Seq::<char>::empty()
        }));
        lemma_cat_empty(seg6);
        assert(io.spec_text() == base + seg7);
    }
    if !wrapper {
        emit_decl_section(io, "// Local signals", &locals);
    }
    let ghost seg8 = seg7 + (if !(d.code is Wrapper) && localseq.len() > 0 {
        written_line(1, "// Local signals"@) + decl_lines_m(localseq, 1)
    } else {
        Seq::<char>::empty()
    });
    proof {
        lemma_cat_assoc(base, seg7, (if !(d.code is Wrapper) && localseq.len() > 0 {
            written_line(1, "// Local signals"@) + decl_lines_m(localseq, 1)
        } else {
            Seq::<char>::empty()
        }));
        lemma_cat_empty(seg7);
        assert(io.spec_text() == base + seg8);
    }
    if !wrapper {
        let sres = emit_subs_section(io, &details.sub_modules, table);
        match sres {
            Result::Ok(()) => {},
            Result::Err(e) => {
                return Result::Err(e);
            },
        }
    }
    let ghost seg9 = seg8 + (if !(d.code is Wrapper) && d.sub_modules.len() > 0 {
        written_line(1, "// Sub module instances"@) + sub_lines_m(d.sub_modules, t, 1)
    } else {
        Seq::<char>::empty()
    });
    proof {
        lemma_cat_assoc(base, seg8, (if !(d.code is Wrapper) && d.sub_modules.len() > 0 {
            written_line(1, "// Sub module instances"@) + sub_lines_m(d.sub_modules, t, 1)
        } else {
            Seq::<char>::empty()
        }));
        lemma_cat_empty(seg8);
        assert(io.spec_text() == base + seg9);
    }
    emit_code_body(io, details);
    let ghost seg10 = seg9 + code_lines_m(d.code);
    proof {
        lemma_cat_assoc(base, seg9, code_lines_m(d.code));
        assert(io.spec_text() == base + seg10);
    }
    io.pop();
    let mut tail = String::new();
    tail.append("endmodule // ");
    tail.append(path);
    io.add(tail.as_str());
    let ghost seg11 = seg10 + written_line(0, "endmodule // "@ + path@);
    proof {
        assert(tail@ == "endmodule // "@ + path@);
        lemma_cat_assoc(base, seg10, written_line(0, "endmodule // "@ + path@));
        assert(io.spec_text() == base + seg11);
        assert(seg11 == module_block_m(path@, d, t));
    }
    Result::Ok(())
}

impl crate::module_defines::ModuleDefines {
    /// Renders the collected table: one block per module whose path is not
    /// the synthetic empty root and whose body is not a blackbox, in table
    /// order, then every blackbox's verbatim text and every wrapper's
    /// support text, once per entry.  Fails, emitting nothing, when a
    /// recorded submodule invocation resolves to no table entry.
    pub fn defines(&self) -> (r: Result<String, GenerationError>)
        ensures
            r is Ok <==> tbl_resolves(self@.table),
            r is Ok ==> r->Ok_0@ == render_m(self@.table),
            r is Err ==> r->Err_0 == GenerationError::UnresolvedSubModule,
    {
        let table = self.entries();
        let ghost t = table.deep_view();
        let mut io = CodeWriter::new();
        let mut i: usize = 0;
        proof {
            lemma_vec_deep_view(*table);
            assert(io.spec_text() =~= modules_text(t.take(0), t));
        }
        while i < table.len()
            invariant
                i <= table@.len(),
                t == table.deep_view(),
                t == self@.table,
                t.len() == table@.len(),
                forall|j: int| 0 <= j < table@.len() ==> t[j] == table@[j]@,
                io.spec_indent() == 0,
                io.spec_text() == modules_text(t.take(i as int), t),
                forall|j: int| 0 <= j < i ==> entry_resolves(#[trigger] t[j], t),
            decreases table@.len() - i,
        {
            let ghost pre = io.spec_text();
            let e = &table[i];
            let skip_entry = e.path.as_str().unicode_len() == 0 || e.details.code.is_blackbox();
            if skip_entry {
                proof {
                    assert(!emitted(t[i as int]));
                    assert(t.take(i + 1).drop_last() =~= t.take(i as int));
                    assert(t.take(i + 1).last() == t[i as int]);
                    lemma_cat_empty(pre);
                    assert(io.spec_text() == modules_text(t.take(i + 1), t));
                }
            } else {
                let res = emit_module(&mut io, e.path.as_str(), &e.details, table);
                match res {
                    Result::Ok(()) => {
                        proof {
                            assert(t.take(i + 1).drop_last() =~= t.take(i as int));
                            assert(t.take(i + 1).last() == t[i as int]);
                            assert(entry_text(t[i as int], t) == module_block_m(
                                t[i as int].path,
                                t[i as int].details,
                                t,
                            ));
                            assert(io.spec_text() == modules_text(t.take(i + 1), t));
                        }
                    },
                    Result::Err(err) => {
                        proof {
                            assert(emitted(t[i as int]));
                            assert(!(t[i as int].details.code is Wrapper));
                            assert(!entry_resolves(t[i as int], t));
                            assert(!tbl_resolves(t));
                        }
                        return Result::Err(err);
                    },
                }
            }
            i = i + 1;
        }
        proof {
            assert(t.take(t.len() as int) =~= t);
            assert(tbl_resolves(t));
        }
        let ghost mbase = io.spec_text();
        let mut k: usize = 0;
        proof {
            lemma_cat_empty(mbase);
            assert(trailer_text(t.take(0)) =~= Seq::<char>::empty());
        }
        while k < table.len()
            invariant
                k <= table@.len(),
                t == table.deep_view(),
                t == self@.table,
                t.len() == table@.len(),
                forall|j: int| 0 <= j < table@.len() ==> t[j] == table@[j]@,
                io.spec_indent() == 0,
                io.spec_text() == mbase + trailer_text(t.take(k as int)),
                mbase == modules_text(t, t),
            decreases table@.len() - k,
        {
            let ghost prev = trailer_text(t.take(k as int));
            match &table[k].details.code {
                crate::verilog::Verilog::Blackbox(b) => {
                    io.add(b.code.as_str());
                    proof {
                        lemma_cat_assoc(mbase, prev, written_line(0, b.code@));
                    }
                },
                crate::verilog::Verilog::Wrapper(w) => {
                    io.add(w.cores.as_str());
                    proof {
                        lemma_cat_assoc(mbase, prev, written_line(0, w.cores@));
                    }
                },
                _ => {
                    proof {
                        lemma_cat_empty(prev);
                        lemma_cat_assoc(mbase, prev, Seq::<char>::empty());
                    }
                },
            }
            proof {
                assert(t.take(k + 1).drop_last() =~= t.take(k as int));
                assert(t.take(k + 1).last() == t[k as int]);
                assert(io.spec_text() == mbase + trailer_text(t.take(k + 1)));
            }
            k = k + 1;
        }
        proof {
            assert(t.take(t.len() as int) =~= t);
            assert(io.spec_text() == render_m(t));
        }
        Result::Ok(io.into_text())
    }
}

/// Emits what the module's own code body contributes.
fn emit_code_body(io: &mut CodeWriter, details: &ModuleDetails)
    requires
        old(io).spec_indent() == 1,
        !(details@.code is Blackbox),
    ensures
        final(io).spec_indent() == 1,
        final(io).spec_text() == old(io).spec_text() + code_lines_m(details@.code),
{
    let ghost base = io.spec_text();
    let ghost d = details@;
    match &details.code {
        crate::verilog::Verilog::Combinatorial(lines) => {
            io.add("// Update code");
            io.add("always @(*) begin");
            io.push();
            let ghost ldv = lines.deep_view();
            let ghost cbase = io.spec_text();
            let mut i: usize = 0;
            proof {
                lemma_vec_deep_view(*lines);
                assert(io.spec_text() =~= cbase + raw_lines_m(ldv.take(0), 2));
            }
            while i < lines.len()
                invariant
                    i <= lines@.len(),
                    ldv == lines.deep_view(),
                    ldv.len() == lines@.len(),
                    forall|j: int| 0 <= j < lines@.len() ==> ldv[j] == lines@[j]@,
                    io.spec_indent() == 2,
                    io.spec_text() == cbase + raw_lines_m(ldv.take(i as int), 2),
                    cbase == base + written_line(1, "// Update code"@) + written_line(
                        1,
                        "always @(*) begin"@,
                    ),
                decreases lines@.len() - i,
            {
                io.add(lines[i].as_str());
                proof {
                    assert(ldv.take(i + 1).drop_last() =~= ldv.take(i as int));
                    assert(ldv.take(i + 1).last() == ldv[i as int]);
                    assert(io.spec_text() =~= cbase + raw_lines_m(ldv.take(i + 1), 2));
                }
                i = i + 1;
            }
            io.pop();
            io.add("end");
            proof {
                assert(ldv.take(ldv.len() as int) =~= ldv);
                assert(io.spec_text() =~= base + code_lines_m(d.code));
            }
        },
        crate::verilog::Verilog::Custom(code) => {
            io.add("// Update code (custom)");
            io.add(code.as_str());
            proof {
                assert(io.spec_text() =~= base + code_lines_m(d.code));
            }
        },
        crate::verilog::Verilog::Wrapper(w) => {
            io.add("// Update code (wrapper)");
            io.add(w.code.as_str());
            proof {
                assert(io.spec_text() =~= base + code_lines_m(d.code));
            }
        },
        crate::verilog::Verilog::Blackbox(_) => {
            proof {
                assert(false);
            }
        },
        crate::verilog::Verilog::Empty => {
            proof {
                assert(base + code_lines_m(d.code) =~= base);
            }
        },
    }
}

/// Every recorded kind being a key means every lookup the emitter makes
/// succeeds.
pub proof fn lemma_subs_resolve(t: Seq<ModuleEntryM>)
    requires
        crate::ir::subs_all_present(t),
    ensures
        tbl_resolves(t),
{
    assert forall|i: int| 0 <= i < t.len() implies entry_resolves(#[trigger] t[i], t) by {
        assert forall|j: int| 0 <= j < t[i].details.sub_modules.len() implies tbl_get(
            t,
            #[trigger] t[i].details.sub_modules[j].kind,
        ) is Some by {
            assert(crate::ir::tbl_contains(t, t[i].details.sub_modules[j].kind));
        };
    };
}

/// What one generation call returns: the render of the table that one walk
/// of the circuit, entered under the root name, leaves behind.
pub open spec fn verilog_m(c: crate::circuit::CircuitM) -> Seq<char> {
    render_m(
        crate::circuit::walk_node(crate::module_defines::empty_defines(), "top"@, c).table,
    )
}

/// Walks the circuit and renders the collected table, without the
/// driver-completeness check.
pub fn generate_verilog_unchecked(uut: &crate::circuit::Circuit) -> (r: String)
    requires
        uut@ is Scope,
    ensures
        r@ == verilog_m(uut@),
{
    let mut defines = crate::module_defines::ModuleDefines::new();
    uut.accept("top", &mut defines);
    proof {
        crate::circuit::lemma_walk_subs(crate::module_defines::empty_defines(), "top"@, uut@);
        lemma_subs_resolve(defines@.table);
    }
    match defines.defines() {
        Result::Ok(text) => text,
        Result::Err(_) => {
            proof {
                assert(false);
            }
            String::new()
        },
    }
}

/// The checked call: runs the driver-completeness check first and fails
/// before any traversal when a terminal is unmarked.
pub fn generate_verilog(uut: &crate::circuit::Circuit) -> (r: Result<String, GenerationError>)
    requires
        uut@ is Scope,
    ensures
        r is Ok <==> crate::circuit::all_connected_m(uut@),
        r is Ok ==> r->Ok_0@ == verilog_m(uut@),
        r is Err ==> r->Err_0 == GenerationError::UnconnectedSignal,
{
    if !uut.is_fully_connected() {
        return Result::Err(GenerationError::UnconnectedSignal);
    }
    Result::Ok(generate_verilog_unchecked(uut))
}

} // verus!
