//! Shadowing among the members of a lowered record: a name that a nearer
//! level declares keeps every farther declaration of it out.

use crate::ast::{RecordKind, RecordView};
use crate::closure::{lemma_fields_are_members, lemma_methods_are_members};
use crate::members::{
    declares, fields_of, inherit_members, member_list, member_outcome, methods_of, names_of,
    own_members, resolved_members, MemberView, Outcome,
};
use crate::bases::{as_record, root_bases};
use crate::graph::find;
use crate::record::{flatten_members, lemma_inherit_prefix, lower_record, record_members};
use crate::ast::BaseView;
use crate::schema;
use crate::schema::Item;
use vstd::prelude::*;

verus! {

/// Members of one name, where the name is not empty, have one owner.
pub open spec fn one_owner_per_name(members: Seq<MemberView>) -> bool {
    forall|i: int, j: int|
        0 <= i < members.len() && 0 <= j < members.len() && (#[trigger] members[i]).name() == (
        #[trigger] members[j]).name() && members[i].name().len() > 0 ==> members[i].owner()
            == members[j].owner()
}

/// The member is a field or a method of the lowered record.
pub open spec fn record_member(r: RecordView, m: MemberView) -> bool {
    match m {
        MemberView::Field(f) => r.fields.contains(f),
        MemberView::Method(x) => r.methods.contains(x),
    }
}

/// A member that is kept has for owner the record that lists it.
pub proof fn lemma_outcome_owner(items: Seq<Item>, rec: schema::Record, p: usize)
    ensures
        member_outcome(items, rec, p) matches Outcome::Kept(m) ==> m.owner() == rec.id.0,
{
}

/// The own members of a record all have the record for owner.
pub proof fn lemma_own_members_owner(items: Seq<Item>, rec: schema::Record, positions: Seq<usize>)
    ensures
        forall|i: int|
            0 <= i < own_members(items, rec, positions).len() ==> (#[trigger] own_members(
                items,
                rec,
                positions,
            )[i]).owner() == rec.id.0,
    decreases positions.len(),
{
    if positions.len() > 0 {
        let shorter = positions.drop_last();
        lemma_own_members_owner(items, rec, shorter);
        lemma_outcome_owner(items, rec, positions.last());
        let front = own_members(items, rec, shorter);
        let all = own_members(items, rec, positions);
        assert forall|i: int| 0 <= i < all.len() implies (#[trigger] all[i]).owner() == rec.id.0 by {
            if i < front.len() {
                assert(all[i] == front[i]);
            }
        }
    }
}

/// What is taken over from a base has the base for owner and a name that no
/// nearer member has; and where the nearer members have one owner per name,
/// so has the longer list.
pub proof fn lemma_inherit_one_owner(
    items: Seq<Item>,
    nearer: Seq<MemberView>,
    base: schema::Record,
    positions: Seq<usize>,
)
    requires
        one_owner_per_name(nearer),
    ensures
        one_owner_per_name(inherit_members(items, nearer, base, positions)),
        forall|i: int|
            nearer.len() <= i < inherit_members(items, nearer, base, positions).len() ==> {
                &&& (#[trigger] inherit_members(items, nearer, base, positions)[i]).owner() == base.id.0
                &&& !declares(nearer, inherit_members(items, nearer, base, positions)[i].name())
            },
    decreases positions.len(),
{
    if positions.len() > 0 {
        let shorter = positions.drop_last();
        lemma_inherit_one_owner(items, nearer, base, shorter);
        lemma_inherit_prefix(items, nearer, base, shorter);
        lemma_inherit_prefix(items, nearer, base, positions);
        lemma_outcome_owner(items, base, positions.last());
        let front = inherit_members(items, nearer, base, shorter);
        let all = inherit_members(items, nearer, base, positions);
        assert forall|i: int| nearer.len() <= i < all.len() implies {
            &&& (#[trigger] all[i]).owner() == base.id.0
            &&& !declares(nearer, all[i].name())
        } by {
            if i < front.len() {
                assert(all[i] == front[i]);
            }
        }
        assert forall|i: int, j: int|
            0 <= i < all.len() && 0 <= j < all.len() && (#[trigger] all[i]).name() == (
            #[trigger] all[j]).name() && all[i].name().len() > 0 implies all[i].owner()
            == all[j].owner() by {
            if i < nearer.len() {
                assert(all.take(nearer.len() as int)[i] == all[i]);
                assert(names_of(nearer)[i] == nearer[i].name());
            }
            if j < nearer.len() {
                assert(all.take(nearer.len() as int)[j] == all[j]);
                assert(names_of(nearer)[j] == nearer[j].name());
            }
        }
    }
}

/// Flattening keeps one owner per name.
pub proof fn lemma_flatten_one_owner(items: Seq<Item>, own: Seq<MemberView>, bases: Seq<BaseView>)
    requires
        one_owner_per_name(own),
    ensures
        one_owner_per_name(flatten_members(items, own, bases)),
        flatten_members(items, own, bases).len() >= own.len(),
        flatten_members(items, own, bases).take(own.len() as int) == own,
    decreases bases.len(),
{
    if bases.len() == 0 {
        assert(own.take(own.len() as int) =~= own);
    } else {
        lemma_flatten_one_owner(items, own, bases.drop_last());
        let nearer = flatten_members(items, own, bases.drop_last());
        let all = flatten_members(items, own, bases);
        match find(items, bases.last().id) {
            None => {},
            Some(p) => match as_record(items[p]) {
                None => {},
                Some(pair) => {
                    let positions = resolved_members(items, member_list(pair.0));
                    lemma_inherit_one_owner(items, nearer, pair.0, positions);
                    lemma_inherit_prefix(items, nearer, pair.0, positions);
                    assert(all.take(own.len() as int) =~= all.take(nearer.len() as int).take(
                        own.len() as int,
                    ));
                },
            },
        }
    }
}

/// In a lowered record, two members of one name, where the name is not
/// empty, are declared by one record: a name that the record or a nearer
/// base declares is taken over from no base farther away.
pub proof fn lemma_members_shadow(
    items: Seq<Item>,
    root: usize,
    rec: schema::Record,
    kind: RecordKind,
    a: MemberView,
    b: MemberView,
)
    requires
        record_member(lower_record(items, root, rec, kind), a),
        record_member(lower_record(items, root, rec, kind), b),
        a.name() == b.name(),
        a.name().len() > 0,
    ensures
        a.owner() == b.owner(),
{
    let positions = resolved_members(items, member_list(rec));
    let own = own_members(items, rec, positions);
    let flat = record_members(items, root, rec);
    lemma_own_members_owner(items, rec, positions);
    lemma_flatten_one_owner(items, own, root_bases(items, rec.base@, root));
    lemma_fields_are_members(flat);
    lemma_methods_are_members(flat);
    lemma_in_flat(flat, lower_record(items, root, rec, kind), a);
    lemma_in_flat(flat, lower_record(items, root, rec, kind), b);
    let i = choose|i: int| 0 <= i < flat.len() && flat[i] == a;
    let j = choose|j: int| 0 <= j < flat.len() && flat[j] == b;
    assert(flat[i].name() == flat[j].name());
}

/// A member of a record whose fields and methods are those of a list of
/// members is one of the list.
pub proof fn lemma_in_flat(flat: Seq<MemberView>, r: RecordView, m: MemberView)
    requires
        r.fields == fields_of(flat),
        r.methods == methods_of(flat),
        record_member(r, m),
    ensures
        flat.contains(m),
{
    lemma_fields_are_members(flat);
    lemma_methods_are_members(flat);
    match m {
        MemberView::Field(f) => {
            let i = choose|i: int| 0 <= i < r.fields.len() && r.fields[i] == f;
            assert(flat.contains(MemberView::Field(fields_of(flat)[i])));
        },
        MemberView::Method(x) => {
            let i = choose|i: int| 0 <= i < r.methods.len() && r.methods[i] == x;
            assert(flat.contains(MemberView::Method(methods_of(flat)[i])));
        },
    }
}

/// The record's own members are all among its flattened members, in front
/// and in order: no inherited member displaces a member that the record
/// declares itself.
pub proof fn lemma_own_members_first(items: Seq<Item>, root: usize, rec: schema::Record)
    ensures
        ({
            let own = own_members(items, rec, resolved_members(items, member_list(rec)));
            let flat = record_members(items, root, rec);
            &&& own.len() <= flat.len()
            &&& flat.take(own.len() as int) == own
            &&& forall|i: int| 0 <= i < own.len() ==> (#[trigger] flat[i]).owner() == rec.id.0
            &&& forall|i: int|
                own.len() <= i < flat.len() ==> !declares(own, (#[trigger] flat[i]).name())
        }),
{
    let positions = resolved_members(items, member_list(rec));
    let own = own_members(items, rec, positions);
    let flat = record_members(items, root, rec);
    lemma_own_members_owner(items, rec, positions);
    lemma_flatten_one_owner(items, own, root_bases(items, rec.base@, root));
    lemma_farther_not_declared(items, own, root_bases(items, rec.base@, root));
    assert forall|i: int| 0 <= i < own.len() implies (#[trigger] flat[i]).owner() == rec.id.0 by {
        assert(flat.take(own.len() as int)[i] == flat[i]);
    }
}

/// No member that flattening adds has a name that the own members declare.
pub proof fn lemma_farther_not_declared(items: Seq<Item>, own: Seq<MemberView>, bases: Seq<BaseView>)
    ensures
        flatten_members(items, own, bases).len() >= own.len(),
        forall|i: int|
            own.len() <= i < flatten_members(items, own, bases).len() ==> !declares(
                own,
                (#[trigger] flatten_members(items, own, bases)[i]).name(),
            ),
    decreases bases.len(),
{
    if bases.len() > 0 {
        lemma_farther_not_declared(items, own, bases.drop_last());
        let nearer = flatten_members(items, own, bases.drop_last());
        let all = flatten_members(items, own, bases);
        lemma_flatten_prefix(items, own, bases.drop_last());
        match find(items, bases.last().id) {
            None => {},
            Some(p) => match as_record(items[p]) {
                None => {},
                Some(pair) => {
                    let positions = resolved_members(items, member_list(pair.0));
                    lemma_inherit_added(items, nearer, pair.0, positions);
                    lemma_inherit_prefix(items, nearer, pair.0, positions);
                    assert forall|i: int| own.len() <= i < all.len() implies !declares(
                        own,
                        (#[trigger] all[i]).name(),
                    ) by {
                        if i < nearer.len() {
                            assert(all.take(nearer.len() as int)[i] == all[i]);
                        } else {
                            let name = all[i].name();
                            if declares(own, name) {
                                let k = choose|k: int|
                                    0 <= k < names_of(own).len() && names_of(own)[k] == name;
                                assert(nearer.take(own.len() as int)[k] == nearer[k]);
                                assert(names_of(nearer)[k] == name);
                                assert(declares(nearer, name));
                            }
                        }
                    }
                },
            },
        }
    }
}

/// Flattening leaves the own members in front.
pub proof fn lemma_flatten_prefix(items: Seq<Item>, own: Seq<MemberView>, bases: Seq<BaseView>)
    ensures
        flatten_members(items, own, bases).len() >= own.len(),
        flatten_members(items, own, bases).take(own.len() as int) == own,
    decreases bases.len(),
{
    if bases.len() == 0 {
        assert(own.take(own.len() as int) =~= own);
    } else {
        lemma_flatten_prefix(items, own, bases.drop_last());
        let nearer = flatten_members(items, own, bases.drop_last());
        let all = flatten_members(items, own, bases);
        match find(items, bases.last().id) {
            None => {},
            Some(p) => match as_record(items[p]) {
                None => {},
                Some(pair) => {
                    let positions = resolved_members(items, member_list(pair.0));
                    lemma_inherit_prefix(items, nearer, pair.0, positions);
                    assert(all.take(own.len() as int) =~= all.take(nearer.len() as int).take(
                        own.len() as int,
                    ));
                },
            },
        }
    }
}

/// What is taken over from a base has a name that no nearer member has.
pub proof fn lemma_inherit_added(
    items: Seq<Item>,
    nearer: Seq<MemberView>,
    base: schema::Record,
    positions: Seq<usize>,
)
    ensures
        forall|i: int|
            nearer.len() <= i < inherit_members(items, nearer, base, positions).len() ==> !declares(
                nearer,
                (#[trigger] inherit_members(items, nearer, base, positions)[i]).name(),
            ),
    decreases positions.len(),
{
    if positions.len() > 0 {
        let shorter = positions.drop_last();
        lemma_inherit_added(items, nearer, base, shorter);
        lemma_inherit_prefix(items, nearer, base, shorter);
        let front = inherit_members(items, nearer, base, shorter);
        let all = inherit_members(items, nearer, base, positions);
        assert forall|i: int| nearer.len() <= i < all.len() implies !declares(
            nearer,
            (#[trigger] all[i]).name(),
        ) by {
            if i < front.len() {
                assert(all[i] == front[i]);
            }
        }
    }
}

} // verus!
