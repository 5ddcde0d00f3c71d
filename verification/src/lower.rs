//! Lowering of type expressions: a chain of pointer, reference, array and
//! qualifier nodes is followed down to a fundamental type, a record or an
//! enumeration.

use crate::ast::{Type, TypeView};
use crate::diag::{DiagnosticKind, Reject};
use crate::graph::{find, Graph};
use crate::model::views;
use crate::schema::{IdRef, Item, NameOrEmpty};
use vstd::prelude::*;

verus! {

/// The number of elements of an array with the given bounds: unknown where
/// the upper bound is absent, and no number where the bounds are reversed or
/// the count leaves `u64`.
pub open spec fn array_length(min: u64, max: Option<u64>) -> Option<Option<u64>> {
    match max {
        None => Some(None),
        Some(top) => if min <= top && top - min < u64::MAX {
            Some(Some((top - min + 1) as u64))
        } else {
            None
        },
    }
}

/// The lowered form of the type that `id` names, following at most `fuel`
/// nodes; or the first failure on the way.
///
/// A chain that is still open when the fuel is spent is unsupported: with
/// as much fuel as the table has nodes, only a chain that returns to a node
/// it has left can spend it.
pub open spec fn lower_type(items: Seq<Item>, id: u64, fuel: nat) -> Result<TypeView, Reject>
    decreases fuel, 0nat,
{
    if fuel == 0 {
        Err(Reject { kind: DiagnosticKind::UnsupportedConstruct, reference: id })
    } else {
        match find(items, id) {
            None => Err(Reject { kind: DiagnosticKind::UnknownId, reference: id }),
            Some(p) => match items[p] {
                Item::FundamentalType { name, .. } => Ok(TypeView::Fundamental(name.0@)),
                Item::PointerType { type_, .. } => match lower_type(items, type_.0, (fuel - 1) as nat) {
                    Ok(inner) => Ok(TypeView::Pointer(Box::new(inner))),
                    Err(e) => Err(e),
                },
                Item::ReferenceType { type_, .. } => match lower_type(items, type_.0, (fuel - 1) as nat) {
                    Ok(inner) => Ok(TypeView::Reference(Box::new(inner))),
                    Err(e) => Err(e),
                },
                Item::CvQualifiedType { type_, const_, volatile_, restrict_, .. } => match lower_type(
                    items,
                    type_.0,
                    (fuel - 1) as nat,
                ) {
                    Ok(inner) => Ok(
                        TypeView::Qualified {
                            inner: Box::new(inner),
                            const_: const_.0,
                            volatile_: volatile_.0,
                            restrict_: restrict_.0,
                        },
                    ),
                    Err(e) => Err(e),
                },
                Item::ArrayType { type_, min, max, .. } => match array_length(min, max) {
                    None => Err(Reject { kind: DiagnosticKind::InvalidAttributeValue, reference: id }),
                    Some(length) => match lower_type(items, type_.0, (fuel - 1) as nat) {
                        Ok(inner) => Ok(TypeView::Array(Box::new(inner), length)),
                        Err(e) => Err(e),
                    },
                },
                Item::Typedef { type_, .. } => lower_type(items, type_.0, (fuel - 1) as nat),
                Item::ElaboratedType { type_, .. } => lower_type(items, type_.0, (fuel - 1) as nat),
                Item::Struct(r) => Ok(TypeView::RecordRef { id, name: r.name.text() }),
                Item::Union(r) => Ok(TypeView::RecordRef { id, name: r.name.text() }),
                Item::Class(r) => Ok(TypeView::RecordRef { id, name: r.name.text() }),
                Item::Enumeration { name, size, align, .. } => Ok(
                    TypeView::EnumRef { id, name: name.text(), size, align },
                ),
                Item::FunctionType(t) => match lower_type(items, t.returns_.0, (fuel - 1) as nat) {
                    Err(e) => Err(e),
                    Ok(returns_) => match lower_types(items, t.arguments@, (fuel - 1) as nat) {
                        Err(e) => Err(e),
                        Ok(arguments) => Ok(
                            TypeView::FunctionSignature { returns_: Box::new(returns_), arguments },
                        ),
                    },
                },
                _ => Err(Reject { kind: DiagnosticKind::UnsupportedConstruct, reference: id }),
            },
        }
    }
}

/// The lowered forms of the types that `ids` name, in order; or the failure
/// of the first that fails.
pub open spec fn lower_types(items: Seq<Item>, ids: Seq<IdRef>, fuel: nat) -> Result<
    Seq<TypeView>,
    Reject,
>
    decreases fuel, 1 + ids.len(),
{
    if ids.len() == 0 {
        Ok(Seq::empty())
    } else {
        match lower_types(items, ids.drop_last(), fuel) {
            Err(e) => Err(e),
            Ok(front) => match lower_type(items, ids.last().0, fuel) {
                Err(e) => Err(e),
                Ok(t) => Ok(front.push(t)),
            },
        }
    }
}

/// The lowered form of the type that `id` names in a table.
pub open spec fn lowered(items: Seq<Item>, id: u64) -> Result<TypeView, Reject> {
    lower_type(items, id, items.len())
}

/// The text of a name as an owned string; the empty string for an empty
/// name.
pub fn name_text(name: &NameOrEmpty) -> (r: String)
    ensures
        r@ == name.text(),
{
    match &name.0 {
        Ok(n) => n.0.clone(),
        Err(_) => String::new(),
    }
}

/// The number of elements of an array with the given bounds.
pub fn array_len(min: u64, max: Option<u64>) -> (r: Option<Option<u64>>)
    ensures
        r == array_length(min, max),
{
    match max {
        None => Some(None),
        Some(top) => if min <= top && top - min < u64::MAX {
            Some(Some(top - min + 1))
        } else {
            None
        },
    }
}

impl Graph {
    /// Lowers the type that `idref` names, following at most `fuel` nodes.
    pub fn lower_type(&self, idref: IdRef, fuel: usize) -> (r: Result<Type, Reject>)
        requires
            self.wf(),
        ensures
            match r {
                Ok(t) => lower_type(self.items(), idref.0, fuel as nat) == Ok::<TypeView, Reject>(t@),
                Err(e) => lower_type(self.items(), idref.0, fuel as nat) == Err::<TypeView, Reject>(e),
            },
        decreases fuel, 0nat,
    {
        let id: u64 = idref.0;
        if fuel == 0 {
            return Err(Reject { kind: DiagnosticKind::UnsupportedConstruct, reference: id });
        }
        let position: usize = match self.resolve(idref) {
            None => {
                return Err(Reject { kind: DiagnosticKind::UnknownId, reference: id });
            },
            Some(p) => p,
        };
        match self.node(position) {
            Item::FundamentalType { name, .. } => Ok(Type::Fundamental(name.0.clone())),
            Item::PointerType { type_, .. } => match self.lower_type(*type_, fuel - 1) {
                Ok(inner) => Ok(Type::Pointer(Box::new(inner))),
                Err(e) => Err(e),
            },
            Item::ReferenceType { type_, .. } => match self.lower_type(*type_, fuel - 1) {
                Ok(inner) => Ok(Type::Reference(Box::new(inner))),
                Err(e) => Err(e),
            },
            Item::CvQualifiedType { type_, const_, volatile_, restrict_, .. } => match self.lower_type(
                *type_,
                fuel - 1,
            ) {
                Ok(inner) => Ok(
                    Type::Qualified {
                        inner: Box::new(inner),
                        const_: const_.0,
                        volatile_: volatile_.0,
                        restrict_: restrict_.0,
                    },
                ),
                Err(e) => Err(e),
            },
            Item::ArrayType { type_, min, max, .. } => match array_len(*min, *max) {
                None => Err(Reject { kind: DiagnosticKind::InvalidAttributeValue, reference: id }),
                Some(length) => match self.lower_type(*type_, fuel - 1) {
                    Ok(inner) => Ok(Type::Array(Box::new(inner), length)),
                    Err(e) => Err(e),
                },
            },
            Item::Typedef { type_, .. } => self.lower_type(*type_, fuel - 1),
            Item::ElaboratedType { type_, .. } => self.lower_type(*type_, fuel - 1),
            Item::Struct(r) => Ok(Type::RecordRef { id, name: name_text(&r.name) }),
            Item::Union(r) => Ok(Type::RecordRef { id, name: name_text(&r.name) }),
            Item::Class(r) => Ok(Type::RecordRef { id, name: name_text(&r.name) }),
            Item::Enumeration { name, size, align, .. } => Ok(
                Type::EnumRef { id, name: name_text(name), size: *size, align: *align },
            ),
            Item::FunctionType(t) => match self.lower_type(t.returns_, fuel - 1) {
                Err(e) => Err(e),
                Ok(returns_) => match self.lower_types(&t.arguments, fuel - 1) {
                    Err(e) => Err(e),
                    Ok(arguments) => {
                        let lowered = Type::FunctionSignature { returns_: Box::new(returns_), arguments };
                        proof {
                            assert(lowered@->FunctionSignature_arguments =~= views(arguments@));
                        }
                        Ok(lowered)
                    },
                },
            },
            _ => Err(Reject { kind: DiagnosticKind::UnsupportedConstruct, reference: id }),
        }
    }

    /// Lowers the types that `ids` name, in order, each following at most
    /// `fuel` nodes; the first that fails ends the work.
    pub fn lower_types(&self, ids: &Vec<IdRef>, fuel: usize) -> (r: Result<Vec<Type>, Reject>)
        requires
            self.wf(),
        ensures
            match r {
                Ok(ts) => lower_types(self.items(), ids@, fuel as nat) == Ok::<Seq<TypeView>, Reject>(
                    views(ts@),
                ),
                Err(e) => lower_types(self.items(), ids@, fuel as nat) == Err::<Seq<TypeView>, Reject>(e),
            },
        decreases fuel, 1 + ids@.len(),
    {
        let mut out: Vec<Type> = Vec::new();
        let n: usize = ids.len();
        let mut i: usize = 0;
        proof {
            assert(ids@.take(0) =~= Seq::<IdRef>::empty());
            assert(views(out@) =~= Seq::<TypeView>::empty());
        }
        while i < n
            invariant
                self.wf(),
                n == ids@.len(),
                0 <= i <= n,
                lower_types(self.items(), ids@.take(i as int), fuel as nat) == Ok::<Seq<TypeView>, Reject>(
                    views(out@),
                ),
            decreases n - i,
        {
            proof {
                assert(ids@.take(i + 1).drop_last() =~= ids@.take(i as int));
                assert(ids@.take(i + 1).last() == ids@[i as int]);
            }
            match self.lower_type(ids[i], fuel) {
                Err(e) => {
                    proof {
                        lemma_lower_types_prefix_err(self.items(), ids@, i + 1, fuel as nat);
                    }
                    return Err(e);
                },
                Ok(t) => {
                    let ghost before = out@;
                    out.push(t);
                    proof {
                        assert(views(out@) =~= views(before).push(t@));
                    }
                },
            }
            i = i + 1;
        }
        proof {
            assert(ids@.take(n as int) =~= ids@);
        }
        Ok(out)
    }

    /// Lowers the type that `idref` names.
    pub fn lower(&self, idref: IdRef) -> (r: Result<Type, Reject>)
        requires
            self.wf(),
        ensures
            match r {
                Ok(t) => lowered(self.items(), idref.0) == Ok::<TypeView, Reject>(t@),
                Err(e) => lowered(self.items(), idref.0) == Err::<TypeView, Reject>(e),
            },
    {
        self.lower_type(idref, self.len())
    }
}

/// A failure among the first `k` types is the failure of the whole list.
pub proof fn lemma_lower_types_prefix_err(items: Seq<Item>, ids: Seq<IdRef>, k: int, fuel: nat)
    requires
        0 <= k <= ids.len(),
        lower_types(items, ids.take(k), fuel) is Err,
    ensures
        lower_types(items, ids, fuel) == lower_types(items, ids.take(k), fuel),
    decreases ids.len() - k,
{
    if k == ids.len() {
        assert(ids.take(k) =~= ids);
    } else {
        assert(ids.take(k + 1).drop_last() =~= ids.take(k));
        lemma_lower_types_prefix_err(items, ids, k + 1, fuel);
    }
}

} // verus!
