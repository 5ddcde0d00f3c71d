//! Closure of the tree under reference: every identifier that the tree
//! holds is declared in the node table, by a node of the kind that the
//! place of the identifier asks for.

use crate::ast::{
    ASTView, BaseView, FieldView, FunctionView, ItemView, MethodView, OverrideView, RecordKind,
    RecordView, SignatureView, TypeView,
};
use crate::bases::{as_record, base_branch, base_chain, root_bases};
use crate::decl::{as_method, lower_arguments, lower_overrides, lower_signature};
use crate::graph::{find, lemma_find, lemma_find_unique, unique_ids};
use crate::lower::{lower_type, lower_types, lowered};
use crate::members::{
    fields_of, inherit_members, member_list, member_outcome, methods_of, own_members,
    resolved_members, MemberView, Outcome,
};
use crate::record::{flatten_members, lower_record, record_members};
use crate::schema;
use crate::schema::{Access, Base, IdRef, Item};
use crate::transform::{as_function, item_output, transformed, transformed_at, tree_of};
use vstd::prelude::*;

verus! {

/// A record declares the identifier.
pub open spec fn names_record(items: Seq<Item>, id: u64) -> bool {
    match find(items, id) {
        Some(p) => as_record(items[p]) is Some,
        None => false,
    }
}

/// An enumeration declares the identifier.
pub open spec fn names_enumeration(items: Seq<Item>, id: u64) -> bool {
    match find(items, id) {
        Some(p) => items[p] is Enumeration,
        None => false,
    }
}

/// A method declares the identifier.
pub open spec fn names_method(items: Seq<Item>, id: u64) -> bool {
    match find(items, id) {
        Some(p) => as_method(items[p]) is Some,
        None => false,
    }
}

/// Every record and enumeration that the type refers to is declared.
pub open spec fn type_closed(items: Seq<Item>, t: TypeView) -> bool
    decreases t,
{
    match t {
        TypeView::Fundamental(_) => true,
        TypeView::Pointer(inner) => type_closed(items, *inner),
        TypeView::Reference(inner) => type_closed(items, *inner),
        TypeView::Array(inner, _) => type_closed(items, *inner),
        TypeView::Qualified { inner, .. } => type_closed(items, *inner),
        TypeView::RecordRef { id, .. } => names_record(items, id),
        TypeView::EnumRef { id, .. } => names_enumeration(items, id),
        TypeView::FunctionSignature { returns_, arguments } => {
            &&& type_closed(items, *returns_)
            &&& forall|i: int| 0 <= i < arguments.len() ==> type_closed(items, #[trigger] arguments[i])
        },
    }
}

/// The return type and the argument types of the signature are closed.
pub open spec fn signature_closed(items: Seq<Item>, s: SignatureView) -> bool {
    &&& s.returns_ matches Some(t) ==> type_closed(items, t)
    &&& forall|i: int| 0 <= i < s.arguments.len() ==> type_closed(items, (#[trigger] s.arguments[i]).type_)
}

/// The function is declared, and its signature is closed.
pub open spec fn function_closed(items: Seq<Item>, f: FunctionView) -> bool {
    find(items, f.id) is Some && signature_closed(items, f.signature)
}

/// The edge leads to a declared method, and its signature is closed.
pub open spec fn override_closed(items: Seq<Item>, o: OverrideView) -> bool {
    names_method(items, o.id) && signature_closed(items, o.signature)
}

/// The method and the record that declares it are declared, and its
/// signature and its override edges are closed.
pub open spec fn method_closed(items: Seq<Item>, m: MethodView) -> bool {
    &&& function_closed(items, m.function)
    &&& names_record(items, m.owner)
    &&& forall|i: int| 0 <= i < m.overrides.len() ==> override_closed(items, #[trigger] m.overrides[i])
}

/// The field and the record that declares it are declared, and its type is
/// closed.
pub open spec fn field_closed(items: Seq<Item>, f: FieldView) -> bool {
    &&& find(items, f.id) is Some
    &&& names_record(items, f.owner)
    &&& type_closed(items, f.type_)
}

/// The member is closed, as a field or as a method.
pub open spec fn member_closed(items: Seq<Item>, m: MemberView) -> bool {
    match m {
        MemberView::Field(f) => field_closed(items, f),
        MemberView::Method(x) => method_closed(items, x),
    }
}

/// The record is declared, its fields and methods are closed, and each of
/// its bases is a declared record.
pub open spec fn record_closed(items: Seq<Item>, r: RecordView) -> bool {
    &&& names_record(items, r.id)
    &&& forall|i: int| 0 <= i < r.fields.len() ==> field_closed(items, #[trigger] r.fields[i])
    &&& forall|i: int| 0 <= i < r.methods.len() ==> method_closed(items, #[trigger] r.methods[i])
    &&& forall|i: int| 0 <= i < r.bases.len() ==> names_record(items, (#[trigger] r.bases[i]).id)
}

/// The declaration is closed, as a function or as a record.
pub open spec fn item_closed(items: Seq<Item>, x: ItemView) -> bool {
    match x {
        ItemView::Function(f) => function_closed(items, f),
        ItemView::Record(r) => record_closed(items, r),
    }
}

/// No reference of the tree dangles.
pub open spec fn tree_closed(items: Seq<Item>, tree: ASTView) -> bool {
    forall|i: int| 0 <= i < tree.items.len() ==> item_closed(items, #[trigger] tree.items[i])
}

/// A lowered type is closed.
pub proof fn lemma_lower_type_closed(items: Seq<Item>, id: u64, fuel: nat)
    ensures
        lower_type(items, id, fuel) matches Ok(t) ==> type_closed(items, t),
    decreases fuel, 0nat,
{
    if fuel > 0 {
        lemma_find(items, id);
        match find(items, id) {
            None => {},
            Some(p) => {
                let below = (fuel - 1) as nat;
                match items[p] {
                    Item::PointerType { type_, .. } => lemma_lower_type_closed(items, type_.0, below),
                    Item::ReferenceType { type_, .. } => lemma_lower_type_closed(items, type_.0, below),
                    Item::CvQualifiedType { type_, .. } => lemma_lower_type_closed(items, type_.0, below),
                    Item::ArrayType { type_, .. } => lemma_lower_type_closed(items, type_.0, below),
                    Item::Typedef { type_, .. } => lemma_lower_type_closed(items, type_.0, below),
                    Item::ElaboratedType { type_, .. } => lemma_lower_type_closed(items, type_.0, below),
                    Item::FunctionType(t) => {
                        lemma_lower_type_closed(items, t.returns_.0, below);
                        lemma_lower_types_closed(items, t.arguments@, below);
                    },
                    _ => {},
                }
            },
        }
    }
}

/// Lowered types are closed, each of them.
pub proof fn lemma_lower_types_closed(items: Seq<Item>, ids: Seq<IdRef>, fuel: nat)
    ensures
        lower_types(items, ids, fuel) matches Ok(ts) ==> forall|i: int|
            0 <= i < ts.len() ==> type_closed(items, #[trigger] ts[i]),
    decreases fuel, 1 + ids.len(),
{
    if ids.len() > 0 {
        lemma_lower_types_closed(items, ids.drop_last(), fuel);
        lemma_lower_type_closed(items, ids.last().0, fuel);
    }
}

/// Lowered arguments have closed types.
pub proof fn lemma_arguments_closed(items: Seq<Item>, args: Seq<schema::Argument>)
    ensures
        lower_arguments(items, args) matches Ok(lowered_args) ==> forall|i: int|
            0 <= i < lowered_args.len() ==> type_closed(items, (#[trigger] lowered_args[i]).type_),
    decreases args.len(),
{
    if args.len() > 0 {
        lemma_arguments_closed(items, args.drop_last());
        lemma_lower_type_closed(items, args.last().type_.0, items.len());
    }
}

/// A lowered signature is closed.
pub proof fn lemma_signature_closed(items: Seq<Item>, f: schema::Function)
    ensures
        lower_signature(items, f) matches Ok(s) ==> signature_closed(items, s),
{
    lemma_arguments_closed(items, f.arguments@);
    match f.returns_ {
        Some(r) => lemma_lower_type_closed(items, r.0, items.len()),
        None => {},
    }
}

/// Lowered override edges are closed.
pub proof fn lemma_overrides_closed(items: Seq<Item>, ids: Seq<IdRef>)
    ensures
        lower_overrides(items, ids) matches Ok(edges) ==> forall|i: int|
            0 <= i < edges.len() ==> override_closed(items, #[trigger] edges[i]),
    decreases ids.len(),
{
    if ids.len() > 0 {
        lemma_overrides_closed(items, ids.drop_last());
        let id = ids.last().0;
        match find(items, id) {
            None => {},
            Some(p) => match as_method(items[p]) {
                None => {},
                Some(pair) => lemma_signature_closed(items, pair.0.function),
            },
        }
    }
}

/// A member that is kept belongs to the record that lists it, and is closed
/// where that record is declared.
pub proof fn lemma_outcome_closed(items: Seq<Item>, rec: schema::Record, p: usize)
    requires
        p < items.len(),
        names_record(items, rec.id.0),
    ensures
        member_outcome(items, rec, p) matches Outcome::Kept(m) ==> member_closed(items, m) && m.owner()
            == rec.id.0,
{
    let item = items[p as int];
    lemma_find(items, item.spec_id());
    match item {
        Item::Field { type_, .. } => {
            lemma_lower_type_closed(items, type_.0, items.len());
        },
        _ => match as_method(item) {
            None => {},
            Some(pair) => {
                lemma_signature_closed(items, pair.0.function);
                lemma_overrides_closed(items, pair.0.overrides@);
            },
        },
    }
}

/// Resolved members stand inside the table.
pub proof fn lemma_resolved_in_table(items: Seq<Item>, ids: Seq<IdRef>)
    requires
        items.len() <= usize::MAX,
    ensures
        forall|i: int|
            0 <= i < resolved_members(items, ids).len() ==> (#[trigger] resolved_members(items, ids)[i])
                < items.len(),
    decreases ids.len(),
{
    if ids.len() > 0 {
        lemma_resolved_in_table(items, ids.drop_last());
        lemma_find(items, ids.last().0);
        let front = resolved_members(items, ids.drop_last());
        let all = resolved_members(items, ids);
        assert forall|i: int| 0 <= i < all.len() implies (#[trigger] all[i]) < items.len() by {
            if i < front.len() {
                assert(all[i] == front[i]);
            }
        }
    }
}

/// The own members of a declared record are closed.
pub proof fn lemma_own_members_closed(items: Seq<Item>, rec: schema::Record, positions: Seq<usize>)
    requires
        names_record(items, rec.id.0),
        forall|i: int| 0 <= i < positions.len() ==> (#[trigger] positions[i]) < items.len(),
    ensures
        forall|i: int|
            0 <= i < own_members(items, rec, positions).len() ==> member_closed(
                items,
                #[trigger] own_members(items, rec, positions)[i],
            ),
    decreases positions.len(),
{
    if positions.len() > 0 {
        let shorter = positions.drop_last();
        assert forall|i: int| 0 <= i < shorter.len() implies (#[trigger] shorter[i]) < items.len() by {
            assert(shorter[i] == positions[i]);
        }
        lemma_own_members_closed(items, rec, shorter);
        lemma_outcome_closed(items, rec, positions.last());
        let front = own_members(items, rec, shorter);
        let all = own_members(items, rec, positions);
        assert forall|i: int| 0 <= i < all.len() implies member_closed(items, #[trigger] all[i]) by {
            if i < front.len() {
                assert(all[i] == front[i]);
            }
        }
    }
}

/// Taking members over from a declared base keeps a list of members closed.
pub proof fn lemma_inherit_closed(
    items: Seq<Item>,
    nearer: Seq<MemberView>,
    base: schema::Record,
    positions: Seq<usize>,
)
    requires
        names_record(items, base.id.0),
        forall|i: int| 0 <= i < positions.len() ==> (#[trigger] positions[i]) < items.len(),
        forall|i: int| 0 <= i < nearer.len() ==> member_closed(items, #[trigger] nearer[i]),
    ensures
        forall|i: int|
            0 <= i < inherit_members(items, nearer, base, positions).len() ==> member_closed(
                items,
                #[trigger] inherit_members(items, nearer, base, positions)[i],
            ),
    decreases positions.len(),
{
    if positions.len() > 0 {
        let shorter = positions.drop_last();
        assert forall|i: int| 0 <= i < shorter.len() implies (#[trigger] shorter[i]) < items.len() by {
            assert(shorter[i] == positions[i]);
        }
        lemma_inherit_closed(items, nearer, base, shorter);
        lemma_outcome_closed(items, base, positions.last());
        let front = inherit_members(items, nearer, base, shorter);
        let all = inherit_members(items, nearer, base, positions);
        assert forall|i: int| 0 <= i < all.len() implies member_closed(items, #[trigger] all[i]) by {
            if i < front.len() {
                assert(all[i] == front[i]);
            }
        }
    }
}

/// Flattening keeps a list of members closed.
pub proof fn lemma_flatten_closed(items: Seq<Item>, own: Seq<MemberView>, bases: Seq<BaseView>)
    requires
        items.len() <= usize::MAX,
        forall|i: int| 0 <= i < own.len() ==> member_closed(items, #[trigger] own[i]),
    ensures
        forall|i: int|
            0 <= i < flatten_members(items, own, bases).len() ==> member_closed(
                items,
                #[trigger] flatten_members(items, own, bases)[i],
            ),
    decreases bases.len(),
{
    if bases.len() > 0 {
        lemma_flatten_closed(items, own, bases.drop_last());
        let nearer = flatten_members(items, own, bases.drop_last());
        let id = bases.last().id;
        lemma_find(items, id);
        match find(items, id) {
            None => {},
            Some(p) => match as_record(items[p]) {
                None => {},
                Some(pair) => {
                    assert(pair.0.id.0 == id);
                    lemma_resolved_in_table(items, member_list(pair.0));
                    lemma_inherit_closed(
                        items,
                        nearer,
                        pair.0,
                        resolved_members(items, member_list(pair.0)),
                    );
                },
            },
        }
    }
}

/// Every base of a chain is a declared record.
pub proof fn lemma_base_chain_closed(items: Seq<Item>, bases: Seq<Base>, path: Seq<usize>, access: Access)
    ensures
        base_chain(items, bases, path, access) matches Some(entries) ==> forall|i: int|
            0 <= i < entries.len() ==> names_record(items, (#[trigger] entries[i]).id),
    decreases items.len() - path.len(), 1 + bases.len(),
{
    if bases.len() > 0 {
        lemma_base_chain_closed(items, bases.drop_last(), path, access);
        lemma_base_branch_closed(items, bases.last(), path, access);
    }
}

/// Every base of a branch is a declared record.
pub proof fn lemma_base_branch_closed(items: Seq<Item>, b: Base, path: Seq<usize>, access: Access)
    ensures
        base_branch(items, b, path, access) matches Some(entries) ==> forall|i: int|
            0 <= i < entries.len() ==> names_record(items, (#[trigger] entries[i]).id),
    decreases items.len() - path.len(), 0nat,
{
    match find(items, b.type_.0) {
        None => {},
        Some(p) => match as_record(items[p]) {
            None => {},
            Some(pair) => if !(path.contains(p as usize) || path.len() >= items.len()) {
                lemma_base_chain_closed(
                    items,
                    pair.0.base@,
                    path.push(p as usize),
                    crate::bases::restrict(access, b.access),
                );
            },
        },
    }
}

/// Every flattened base of a record is a declared record.
pub proof fn lemma_root_bases_closed(items: Seq<Item>, bases: Seq<Base>, root: usize)
    ensures
        forall|i: int|
            0 <= i < root_bases(items, bases, root).len() ==> names_record(
                items,
                (#[trigger] root_bases(items, bases, root)[i]).id,
            ),
    decreases bases.len(),
{
    if bases.len() > 0 {
        lemma_root_bases_closed(items, bases.drop_last(), root);
        lemma_base_branch_closed(items, bases.last(), seq![root], Access::Public);
    }
}

/// Every field among the fields of a list of members is one of the members.
pub proof fn lemma_fields_are_members(members: Seq<MemberView>)
    ensures
        forall|i: int|
            0 <= i < fields_of(members).len() ==> members.contains(
                MemberView::Field(#[trigger] fields_of(members)[i]),
            ),
    decreases members.len(),
{
    if members.len() > 0 {
        lemma_fields_are_members(members.drop_last());
        let front = members.drop_last();
        assert forall|i: int| 0 <= i < fields_of(members).len() implies members.contains(
            MemberView::Field(#[trigger] fields_of(members)[i]),
        ) by {
            if i < fields_of(front).len() {
                let m = MemberView::Field(fields_of(front)[i]);
                assert(front.contains(m));
                let j = choose|j: int| 0 <= j < front.len() && front[j] == m;
                assert(members[j] == m);
            } else {
                assert(members[members.len() - 1] == members.last());
            }
        }
    }
}

/// Every method among the methods of a list of members is one of the
/// members.
pub proof fn lemma_methods_are_members(members: Seq<MemberView>)
    ensures
        forall|i: int|
            0 <= i < methods_of(members).len() ==> members.contains(
                MemberView::Method(#[trigger] methods_of(members)[i]),
            ),
    decreases members.len(),
{
    if members.len() > 0 {
        lemma_methods_are_members(members.drop_last());
        let front = members.drop_last();
        assert forall|i: int| 0 <= i < methods_of(members).len() implies members.contains(
            MemberView::Method(#[trigger] methods_of(members)[i]),
        ) by {
            if i < methods_of(front).len() {
                let m = MemberView::Method(methods_of(front)[i]);
                assert(front.contains(m));
                let j = choose|j: int| 0 <= j < front.len() && front[j] == m;
                assert(members[j] == m);
            } else {
                assert(members[members.len() - 1] == members.last());
            }
        }
    }
}

/// The lowered form of a record of the table is closed.
pub proof fn lemma_record_closed(items: Seq<Item>, root: usize, rec: schema::Record, kind: RecordKind)
    requires
        unique_ids(items),
        items.len() <= usize::MAX,
        root < items.len(),
        as_record(items[root as int]) == Some((rec, kind)),
    ensures
        record_closed(items, lower_record(items, root, rec, kind)),
{
    lemma_find_unique(items, root as int);
    let positions = resolved_members(items, member_list(rec));
    let own = own_members(items, rec, positions);
    let bases = root_bases(items, rec.base@, root);
    let flat = record_members(items, root, rec);
    lemma_resolved_in_table(items, member_list(rec));
    lemma_own_members_closed(items, rec, positions);
    lemma_root_bases_closed(items, rec.base@, root);
    lemma_flatten_closed(items, own, bases);
    lemma_fields_are_members(flat);
    lemma_methods_are_members(flat);
    assert forall|i: int| 0 <= i < fields_of(flat).len() implies field_closed(
        items,
        #[trigger] fields_of(flat)[i],
    ) by {
        let m = MemberView::Field(fields_of(flat)[i]);
        let j = choose|j: int| 0 <= j < flat.len() && flat[j] == m;
        assert(member_closed(items, flat[j]));
    }
    assert forall|i: int| 0 <= i < methods_of(flat).len() implies method_closed(
        items,
        #[trigger] methods_of(flat)[i],
    ) by {
        let m = MemberView::Method(methods_of(flat)[i]);
        let j = choose|j: int| 0 <= j < flat.len() && flat[j] == m;
        assert(member_closed(items, flat[j]));
    }
}

/// What a node of the table contributes to the tree is closed.
pub proof fn lemma_item_output_closed(items: Seq<Item>, p: int)
    requires
        unique_ids(items),
        items.len() <= usize::MAX,
        0 <= p < items.len(),
    ensures
        item_output(items, p) matches Some(x) ==> item_closed(items, x),
{
    let item = items[p];
    match as_record(item) {
        Some(pair) => {
            lemma_record_closed(items, p as usize, pair.0, pair.1);
        },
        None => match as_function(item) {
            None => {},
            Some(f) => {
                lemma_signature_closed(items, f);
                lemma_find(items, f.id.0);
            },
        },
    }
}

/// The declarations that the first `k` nodes contribute are closed.
pub proof fn lemma_transformed_closed(items: Seq<Item>, k: int)
    requires
        unique_ids(items),
        items.len() <= usize::MAX,
        0 <= k <= items.len(),
    ensures
        forall|i: int|
            0 <= i < transformed(items, k).len() ==> item_closed(items, #[trigger] transformed(items, k)[i]),
    decreases k,
{
    if k > 0 {
        lemma_transformed_closed(items, k - 1);
        lemma_item_output_closed(items, k - 1);
        let front = transformed(items, k - 1);
        let all = transformed(items, k);
        assert forall|i: int| 0 <= i < all.len() implies item_closed(items, #[trigger] all[i]) by {
            if i < front.len() {
                assert(all[i] == front[i]);
            }
        }
    }
}

/// No reference dangles in the tree of a selection of nodes.
pub proof fn lemma_selection_closed(items: Seq<Item>, positions: Seq<usize>)
    requires
        unique_ids(items),
        items.len() <= usize::MAX,
        forall|i: int| 0 <= i < positions.len() ==> positions[i] < items.len(),
    ensures
        tree_closed(items, ASTView { items: transformed_at(items, positions) }),
    decreases positions.len(),
{
    if positions.len() > 0 {
        let shorter = positions.drop_last();
        assert forall|i: int| 0 <= i < shorter.len() implies shorter[i] < items.len() by {
            assert(shorter[i] == positions[i]);
        }
        lemma_selection_closed(items, shorter);
        lemma_item_output_closed(items, positions.last() as int);
        let front = transformed_at(items, shorter);
        let all = transformed_at(items, positions);
        assert forall|i: int| 0 <= i < all.len() implies item_closed(items, #[trigger] all[i]) by {
            if i < front.len() {
                assert(all[i] == front[i]);
                assert(item_closed(items, (ASTView { items: front }).items[i]));
            }
        }
    }
}

/// No reference survives into the tree that the node table does not
/// resolve: every record, enumeration, method and declaration that the tree
/// of a table names is declared in the table.
pub proof fn lemma_tree_closed(items: Seq<Item>)
    requires
        unique_ids(items),
        items.len() <= usize::MAX,
    ensures
        tree_closed(items, tree_of(items)),
{
    lemma_transformed_closed(items, items.len() as int);
}

} // verus!
