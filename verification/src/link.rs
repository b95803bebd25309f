//! The linking protocol: field-wise cross-wiring of two same-typed duplex
//! interface instances, used during circuit construction, independent of
//! traversal.

use vstd::prelude::*;
use crate::atom::AtomKind;
use crate::circuit::connect_m;
use crate::circuit::fields_view;
use crate::circuit::lemma_fields_view;
use crate::circuit::Circuit;
use crate::circuit::CircuitM;
use crate::circuit::FieldM;
use crate::module_defines::qualify;
use crate::text::lemma_vec_deep_view;

verus! {

/// One port of an interface as the linking protocol sees it: its name, role
/// and width.
pub ghost struct PortM {
    pub name: Seq<char>,
    pub kind: AtomKind,
    pub width: nat,
}

/// The ports of an interface instance, in field order; only leaf signals
/// count, and only a group node is an interface.
pub open spec fn interface_shape(c: CircuitM) -> Seq<PortM>
    decreases c,
{
    match c {
        CircuitM::Group(fields) => ports_of(fields),
        _ => Seq::empty(),
    }
}

pub open spec fn ports_of(fields: Seq<FieldM>) -> Seq<PortM>
    decreases fields,
{
    if fields.len() == 0 {
        Seq::empty()
    } else {
        let rest = ports_of(fields.subrange(0, fields.len() - 1));
        match fields.last().node {
            CircuitM::Atom(sig) => rest.push(
                PortM { name: fields.last().name, kind: sig.kind, width: sig.width },
            ),
            _ => rest,
        }
    }
}

/// Cross-assigns two instances of the same interface type, so each side's
/// outputs drive the other's inputs: both sides' terminals are marked.
pub fn link(a: &mut Circuit, b: &mut Circuit)
    requires
        old(a)@ is Group,
        old(b)@ is Group,
        interface_shape(old(a)@) == interface_shape(old(b)@),
    ensures
        final(a)@ == connect_m(old(a)@),
        final(b)@ == connect_m(old(b)@),
{
    a.connect_all();
    b.connect_all();
}

/// One side of a cross-wiring statement: the label, the owning field's name
/// and the port's name, joined hierarchically.
pub open spec fn port_ref(label: Seq<char>, own: Seq<char>, name: Seq<char>) -> Seq<char> {
    label + seq!['$'] + qualify(own, name)
}

/// The textual cross-wiring descriptor of one port: the driving side's
/// output assigned to the other side's matching input.
pub open spec fn link_line(p: PortM, own: Seq<char>, this: Seq<char>, that: Seq<char>) -> Seq<
    char,
> {
    if p.kind == AtomKind::InputParameter {
        "assign "@ + port_ref(this, own, p.name) + " = "@ + port_ref(that, own, p.name) + ";"@
    } else {
        "assign "@ + port_ref(that, own, p.name) + " = "@ + port_ref(this, own, p.name) + ";"@
    }
}

/// Whether a port takes part in cross-wiring: only boundary-crossing roles do.
pub open spec fn port_linked(p: PortM) -> bool {
    p.kind == AtomKind::InputParameter || p.kind == AtomKind::OutputParameter || p.kind
        == AtomKind::OutputPassthrough
}

/// One descriptor per cross-wired port, in field order.
pub open spec fn link_render_m(
    ports: Seq<PortM>,
    own: Seq<char>,
    this: Seq<char>,
    that: Seq<char>,
) -> Seq<Seq<char>>
    decreases ports.len(),
{
    if ports.len() == 0 {
        Seq::empty()
    } else {
        let rest = link_render_m(ports.drop_last(), own, this, that);
        if port_linked(ports.last()) {
            rest.push(link_line(ports.last(), own, this, that))
        } else {
            rest
        }
    }
}

/// Produces one textual cross-wiring descriptor per boundary-crossing port
/// of the interface, for cases needing explicit assignment statements rather
/// than structural linking.
#[verifier::rlimit(50)]
pub fn link_render(c: &Circuit, own_name: &str, this: &str, that: &str) -> (r: Vec<String>)
    ensures
        r.deep_view() == link_render_m(interface_shape(c@), own_name@, this@, that@),
{
    let fields: &Vec<crate::circuit::CircuitField> = match c {
        Circuit::Group(fields) => fields,
        _ => {
            let r: Vec<String> = Vec::new();
            proof {
                assert(r.deep_view() =~= link_render_m(
                    interface_shape(c@),
                    own_name@,
                    this@,
                    that@,
                ));
            }
            return r;
        },
    };
    let ghost ports = ports_of(fields_view(fields@));
    proof {
        lemma_fields_view(fields@);
        lemma_ports_of(fields_view(fields@));
    }
    let mut out: Vec<String> = Vec::new();
    let mut i: usize = 0;
    let mut taken: usize = 0;
    proof {
        assert(out.deep_view() =~= link_render_m(ports.take(0), own_name@, this@, that@));
        assert(ports_of(fields_view(fields@).take(0)) =~= Seq::<PortM>::empty());
    }
    while i < fields.len()
        invariant
            i <= fields@.len(),
            taken <= i,
            ports == ports_of(fields_view(fields@)),
            fields_view(fields@).len() == fields@.len(),
            forall|j: int| 0 <= j < fields@.len() ==> fields_view(fields@)[j] == (FieldM {
                name: fields@[j].name@,
                node: crate::circuit::circuit_view(fields@[j].node),
            }),
            taken == ports_of(fields_view(fields@).take(i as int)).len(),
            ports_of(fields_view(fields@).take(i as int)) == ports.take(taken as int),
            taken <= ports.len(),
            out.deep_view() == link_render_m(ports.take(taken as int), own_name@, this@, that@),
        decreases fields@.len() - i,
    {
        let ghost fv = fields_view(fields@);
        let f = &fields[i];
        proof {
            assert(fv.take(i + 1).drop_last() =~= fv.take(i as int));
            assert(fv.take(i + 1).last() == fv[i as int]);
            lemma_ports_take_step(fv, i as int);
        }
        match &f.node {
            Circuit::Atom(sig) => {
                proof {
                    lemma_ports_prefix(fv, i as int);
                    lemma_ports_prefix(fv, i + 1);
                    let port = PortM { name: f.name@, kind: sig.kind, width: sig@.width };
                    assert(fv[i as int].node is Atom);
                    assert(ports_of(fv.take(i + 1)) == ports_of(fv.take(i as int)).push(port));
                    assert(ports_of(fv.take(i + 1)).len() == taken + 1);
                    assert(taken + 1 <= ports.len());
                    assert(ports_of(fv.take(i + 1)) == ports.take(taken + 1));
                    assert(ports.take(taken + 1)[taken as int] == ports[taken as int]);
                    assert(ports[taken as int] == port);
                    assert(ports.take(taken + 1).drop_last() =~= ports.take(taken as int));
                    assert(ports.take(taken + 1).last() == ports[taken as int]);
                }
                let emit_line = matches!(
                    sig.kind,
                    AtomKind::InputParameter | AtomKind::OutputParameter
                        | AtomKind::OutputPassthrough
                );
                if emit_line {
                    let ghost dv0 = out.deep_view();
                    let ghost v0 = out@;
                    let is_input = matches!(sig.kind, AtomKind::InputParameter);
                    let mut qn = String::new();
                    if own_name.unicode_len() == 0 {
                        qn.append(f.name.as_str());
                        proof {
                            assert(qn@ =~= qualify(own_name@, f.name@));
                        }
                    } else {
                        qn.append(own_name);
                        qn.append("$");
                        qn.append(f.name.as_str());
                        proof {
                            reveal_strlit("$");
                            assert("$"@ =~= seq!['$']);
                            assert(qn@ == qualify(own_name@, f.name@));
                        }
                    }
                    let mut line = String::new();
                    line.append("assign ");
                    if is_input {
                        line.append(this);
                    } else {
                        line.append(that);
                    }
                    line.append("$");
                    line.append(qn.as_str());
                    line.append(" = ");
                    if is_input {
                        line.append(that);
                    } else {
                        line.append(this);
                    }
                    line.append("$");
                    line.append(qn.as_str());
                    line.append(";");
                    proof {
                        reveal_strlit("$");
                        assert("$"@ =~= seq!['$']);
                        assert(line@ == link_line(ports[taken as int], own_name@, this@, that@));
                        lemma_vec_deep_view(out);
                        assert(dv0.len() == v0.len());
                    }
                    let ghost llval = link_line(ports[taken as int], own_name@, this@, that@);
                    out.push(line);
                    proof {
                        lemma_vec_deep_view(out);
                        assert forall|j: int| 0 <= j < v0.len() + 1 implies out.deep_view()[j]
                            == dv0.push(llval)[j] by {
                            if j < v0.len() {
                                assert(out@[j] == v0[j]);
                                assert(dv0[j] == v0[j]@);
                            } else {
                                assert(out.deep_view()[j] == out@[j]@);
                            }
                        };
                        assert(out.deep_view() =~= dv0.push(llval));
                        assert(port_linked(ports[taken as int]));
                        assert(out.deep_view() =~= link_render_m(
                            ports.take(taken + 1),
                            own_name@,
                            this@,
                            that@,
                        ));
                    }
                } else {
                    proof {
                        assert(out.deep_view() == link_render_m(
                            ports.take(taken + 1),
                            own_name@,
                            this@,
                            that@,
                        ));
                    }
                }
                taken = taken + 1;
            },
            _ => {},
        }
        i = i + 1;
    }
    proof {
        assert(fields_view(fields@).take(fields@.len() as int) =~= fields_view(fields@));
        assert(ports.take(taken as int) =~= ports);
    }
    out
}

pub proof fn lemma_ports_of(fields: Seq<FieldM>)
    ensures
        ports_of(fields).len() <= fields.len(),
    decreases fields,
{
    if fields.len() > 0 {
        lemma_ports_of(fields.subrange(0, fields.len() - 1));
    }
}

/// The ports of a prefix of the fields are a prefix of the ports.
proof fn lemma_ports_prefix(fv: Seq<FieldM>, i: int)
    requires
        0 <= i <= fv.len(),
    ensures
        ports_of(fv.take(i)).len() <= ports_of(fv).len(),
        ports_of(fv.take(i)) == ports_of(fv).take(ports_of(fv.take(i)).len() as int),
    decreases fv.len() - i,
{
    if i == fv.len() {
        assert(fv.take(i) =~= fv);
        assert(ports_of(fv).take(ports_of(fv).len() as int) =~= ports_of(fv));
    } else {
        lemma_ports_take_step(fv, i);
        lemma_ports_prefix(fv, i + 1);
        let pi = ports_of(fv.take(i));
        let pj = ports_of(fv.take(i + 1));
        if fv[i].node is Atom {
            assert(pj == pi.push(
                PortM {
                    name: fv[i].name,
                    kind: fv[i].node->Atom_0.kind,
                    width: fv[i].node->Atom_0.width,
                },
            ));
            assert(pi =~= pj.drop_last());
            assert(pj.drop_last() =~= ports_of(fv).take(pj.len() - 1));
        } else {
            assert(pi == pj);
        }
    }
}

/// How one more field extends the port list.
proof fn lemma_ports_take_step(fv: Seq<FieldM>, i: int)
    requires
        0 <= i < fv.len(),
    ensures
        (fv[i].node is Atom ==> ports_of(fv.take(i + 1)) == ports_of(fv.take(i)).push(
            PortM {
                name: fv[i].name,
                kind: fv[i].node->Atom_0.kind,
                width: fv[i].node->Atom_0.width,
            },
        )),
        !(fv[i].node is Atom) ==> ports_of(fv.take(i + 1)) == ports_of(fv.take(i)),
{
    assert(fv.take(i + 1).subrange(0, i) =~= fv.take(i));
    assert(fv.take(i + 1).last() == fv[i]);
}

} // verus!
