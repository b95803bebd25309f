//! Structural type descriptors: the shape of a signal's value, consulted to
//! discover enum constants that need declaring.

use vstd::prelude::*;

verus! {

/// The structural shape of a signal's value.
pub enum TypeKind {
    /// An enumeration, as its ordered discriminant names.
    Enumerated(Vec<String>),
    /// A composite of ordered sub-descriptors.
    Composite(Vec<TypeDescriptor>),
    /// Anything without enum content.
    Scalar,
}

/// A named structural shape.
pub struct TypeDescriptor {
    pub name: String,
    pub kind: TypeKind,
}

/// The mathematical shadow of a [`TypeKind`].
pub ghost enum TypeKindM {
    Enumerated(Seq<Seq<char>>),
    Composite(Seq<TypeDescM>),
    Scalar,
}

/// The mathematical shadow of a [`TypeDescriptor`].
pub ghost struct TypeDescM {
    pub name: Seq<char>,
    pub kind: TypeKindM,
}

pub open spec fn desc_view(d: TypeDescriptor) -> TypeDescM
    decreases d,
{
    TypeDescM { name: d.name@, kind: kind_view(d.kind) }
}

pub open spec fn kind_view(k: TypeKind) -> TypeKindM
    decreases k,
{
    match k {
        TypeKind::Enumerated(labels) => TypeKindM::Enumerated(labels.deep_view()),
        TypeKind::Composite(items) => TypeKindM::Composite(descs_view(items@)),
        TypeKind::Scalar => TypeKindM::Scalar,
    }
}

pub open spec fn descs_view(ds: Seq<TypeDescriptor>) -> Seq<TypeDescM>
    decreases ds,
{
    if ds.len() == 0 {
        Seq::empty()
    } else {
        seq![desc_view(ds[0])] + descs_view(ds.subrange(1, ds.len() as int))
    }
}

pub proof fn lemma_descs_view_len(ds: Seq<TypeDescriptor>)
    ensures
        descs_view(ds).len() == ds.len(),
        forall|i: int| 0 <= i < ds.len() ==> descs_view(ds)[i] == desc_view(ds[i]),
    decreases ds,
{
    if ds.len() > 0 {
        lemma_descs_view_len(ds.subrange(1, ds.len() as int));
    }
}

impl View for TypeDescriptor {
    type V = TypeDescM;

    open spec fn view(&self) -> TypeDescM {
        desc_view(*self)
    }
}

impl TypeDescriptor {
    /// A field-wise copy whose model equals this one's.
    #[verifier::loop_isolation(false)]
    pub fn duplicate(&self) -> (r: TypeDescriptor)
        ensures
            r@ == self@,
        decreases *self,
    {
        let kind = match &self.kind {
            TypeKind::Enumerated(labels) => TypeKind::Enumerated(
                crate::text::clone_strings(labels),
            ),
            TypeKind::Composite(items) => {
                let mut out: Vec<TypeDescriptor> = Vec::new();
                let mut i: usize = 0;
                while i < items.len()
                    invariant
                        i <= items@.len(),
                        out@.len() == i,
                        forall|j: int| 0 <= j < i ==> desc_view(out@[j]) == desc_view(items@[j]),
                    decreases items@.len() - i,
                {
                    proof {
                        assert(decreases_to!(*self => self.kind));
                        assert(decreases_to!(self.kind => *items));
                        assert(decreases_to!(*items => items@));
                        assert(decreases_to!(items@ => items@[i as int]));
                        assert(decreases_to!(*self => items@[i as int]));
                    }
                    out.push(items[i].duplicate());
                    i = i + 1;
                }
                proof {
                    lemma_descs_view_len(out@);
                    lemma_descs_view_len(items@);
                    assert(descs_view(out@) =~= descs_view(items@));
                }
                TypeKind::Composite(out)
            },
            TypeKind::Scalar => TypeKind::Scalar,
        };
        TypeDescriptor { name: self.name.clone(), kind }
    }
}

/// One enum constant to declare: a discriminant of a named enum type with its
/// ordinal, deduplicated by full value-equality.
pub struct EnumDefinition {
    pub type_label: String,
    pub discriminant: String,
    pub value: usize,
}

/// The mathematical shadow of an [`EnumDefinition`].
pub ghost struct EnumM {
    pub type_label: Seq<char>,
    pub discriminant: Seq<char>,
    pub value: nat,
}

impl View for EnumDefinition {
    type V = EnumM;

    open spec fn view(&self) -> EnumM {
        EnumM {
            type_label: self.type_label@,
            discriminant: self.discriminant@,
            value: self.value as nat,
        }
    }
}

impl DeepView for EnumDefinition {
    type V = EnumM;

    open spec fn deep_view(&self) -> EnumM {
        self.view()
    }
}

impl EnumDefinition {
    /// Value-equality, the relation the deduplication uses.
    pub fn same_as(&self, other: &EnumDefinition) -> (r: bool)
        ensures
            r == (self@ == other@),
    {
        let names_eq = crate::text::str_eq(self.type_label.as_str(), other.type_label.as_str());
        let disc_eq = crate::text::str_eq(self.discriminant.as_str(), other.discriminant.as_str());
        names_eq && disc_eq && self.value == other.value
    }
}

} // verus!
