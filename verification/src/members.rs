//! Members of a record: which of the listed identifiers resolve, what
//! becomes of each resolved member, and which inherited members a record
//! takes over from its bases.

use crate::ast::{Field, FieldView, Method, MethodKind, MethodView};
use crate::decl::{as_method, lower_field, lower_method, method_of};
use crate::diag::{report_of, Diagnostic, DiagnosticKind, DiagnosticView, Reject};
use crate::graph::{find, Graph};
use crate::model::{lemma_views_empty, lemma_views_push, text_of, views};
use crate::schema;
use crate::schema::{IdRef, Item};
use vstd::prelude::*;

verus! {

/// A member of a lowered record.
#[derive(Debug, PartialEq, Eq)]
pub enum Member {
    Field(Field),
    Method(Method),
}

/// What a member of a lowered record is.
pub ghost enum MemberView {
    Field(FieldView),
    Method(MethodView),
}

impl View for Member {
    type V = MemberView;

    open spec fn view(&self) -> MemberView {
        match self {
            Member::Field(f) => MemberView::Field(f@),
            Member::Method(m) => MemberView::Method(m@),
        }
    }
}

impl MemberView {
    /// The member's name.
    pub open spec fn name(self) -> Seq<char> {
        match self {
            MemberView::Field(f) => f.name,
            MemberView::Method(m) => m.function.name,
        }
    }

    /// The record that declares the member.
    pub open spec fn owner(self) -> u64 {
        match self {
            MemberView::Field(f) => f.owner,
            MemberView::Method(m) => m.owner,
        }
    }

    /// Whether a derived record takes the member over: every field, and
    /// every method but constructors and destructors.
    pub open spec fn inheritable(self) -> bool {
        match self {
            MemberView::Field(_) => true,
            MemberView::Method(m) => !(m.kind is Constructor) && !(m.kind is Destructor),
        }
    }
}

/// What becomes of one resolved member of a record.
#[derive(Debug, PartialEq, Eq)]
pub enum MemberOutcome {
    /// The member is part of the lowered record.
    Kept(Member),
    /// The member has no place in a lowered record and is passed over.
    Skipped,
    /// The member could not be lowered and is reported.
    Dropped(Diagnostic),
}

/// What an outcome is.
pub ghost enum Outcome {
    Kept(MemberView),
    Skipped,
    Dropped(DiagnosticView),
}

impl View for MemberOutcome {
    type V = Outcome;

    open spec fn view(&self) -> Outcome {
        match self {
            MemberOutcome::Kept(m) => Outcome::Kept(m@),
            MemberOutcome::Skipped => Outcome::Skipped,
            MemberOutcome::Dropped(d) => Outcome::Dropped(d@),
        }
    }
}

/// The member identifiers that a record lists; none where it has no list.
pub open spec fn member_list(rec: schema::Record) -> Seq<IdRef> {
    match rec.members {
        Some(v) => v@,
        None => Seq::empty(),
    }
}

/// The positions of the members among `ids` that resolve, in the order in
/// which the record lists them.
pub open spec fn resolved_members(items: Seq<Item>, ids: Seq<IdRef>) -> Seq<usize>
    decreases ids.len(),
{
    if ids.len() == 0 {
        Seq::empty()
    } else {
        let front = resolved_members(items, ids.drop_last());
        match find(items, ids.last().0) {
            Some(p) => front.push(p as usize),
            None => front,
        }
    }
}

/// One report for each member among `ids` that no node declares, in the
/// order in which the record lists them.
pub open spec fn unknown_members(items: Seq<Item>, rec: schema::Record, ids: Seq<IdRef>) -> Seq<
    DiagnosticView,
>
    decreases ids.len(),
{
    if ids.len() == 0 {
        Seq::empty()
    } else {
        let front = unknown_members(items, rec, ids.drop_last());
        match find(items, ids.last().0) {
            Some(_) => front,
            None => front.push(
                report_of(
                    rec.id.0,
                    text_of(rec.location),
                    Reject { kind: DiagnosticKind::UnknownId, reference: ids.last().0 },
                ),
            ),
        }
    }
}

/// What becomes of the member at position `p` of the record `rec`.
///
/// A field or method is kept as lowered. It is passed over where it is
/// compiler-made, and dropped with a report where its context is not the
/// record that lists it, or where lowering fails. Nodes of other kinds are
/// passed over.
pub open spec fn member_outcome(items: Seq<Item>, rec: schema::Record, p: usize) -> Outcome {
    let item = items[p as int];
    match item {
        Item::Field { id, context, artificial, location, .. } => if artificial.0 {
            Outcome::Skipped
        } else if context.0 != rec.id.0 {
            Outcome::Dropped(
                report_of(
                    id.0,
                    text_of(location),
                    Reject { kind: DiagnosticKind::InvalidAttributeValue, reference: rec.id.0 },
                ),
            )
        } else {
            match lower_field(items, rec.id.0, item) {
                Ok(f) => Outcome::Kept(MemberView::Field(f)),
                Err(e) => Outcome::Dropped(report_of(id.0, text_of(location), e)),
            }
        },
        _ => match as_method(item) {
            None => Outcome::Skipped,
            Some(pair) => if pair.0.function.artificial.0 {
                Outcome::Skipped
            } else if pair.0.function.context != Some(IdRef(rec.id.0)) {
                Outcome::Dropped(
                    report_of(
                        pair.0.function.id.0,
                        text_of(pair.0.function.location),
                        Reject { kind: DiagnosticKind::InvalidAttributeValue, reference: rec.id.0 },
                    ),
                )
            } else {
                match lower_method(items, rec.id.0, pair.0, pair.1) {
                    Ok(m) => Outcome::Kept(MemberView::Method(m)),
                    Err(e) => Outcome::Dropped(
                        report_of(pair.0.function.id.0, text_of(pair.0.function.location), e),
                    ),
                }
            },
        },
    }
}

/// The members of `rec` at `positions` that are kept, in order.
pub open spec fn own_members(items: Seq<Item>, rec: schema::Record, positions: Seq<usize>) -> Seq<
    MemberView,
>
    decreases positions.len(),
{
    if positions.len() == 0 {
        Seq::empty()
    } else {
        let front = own_members(items, rec, positions.drop_last());
        match member_outcome(items, rec, positions.last()) {
            Outcome::Kept(m) => front.push(m),
            _ => front,
        }
    }
}

/// The reports of the members of `rec` at `positions` that are dropped, in
/// order.
pub open spec fn dropped_members(items: Seq<Item>, rec: schema::Record, positions: Seq<usize>) -> Seq<
    DiagnosticView,
>
    decreases positions.len(),
{
    if positions.len() == 0 {
        Seq::empty()
    } else {
        let front = dropped_members(items, rec, positions.drop_last());
        match member_outcome(items, rec, positions.last()) {
            Outcome::Dropped(d) => front.push(d),
            _ => front,
        }
    }
}

/// The names of a list of members, in order.
pub open spec fn names_of(members: Seq<MemberView>) -> Seq<Seq<char>> {
    Seq::new(members.len(), |i: int| members[i].name())
}

/// Whether one of the members has the name; the empty name is never
/// declared.
pub open spec fn declares(members: Seq<MemberView>, name: Seq<char>) -> bool {
    name.len() > 0 && names_of(members).contains(name)
}

/// The members `nearer` followed by those that the record takes over from
/// the base `base`, whose resolved members stand at `positions`: each kept
/// member of the base that is inheritable and whose name `nearer` does not
/// declare.
pub open spec fn inherit_members(
    items: Seq<Item>,
    nearer: Seq<MemberView>,
    base: schema::Record,
    positions: Seq<usize>,
) -> Seq<MemberView>
    decreases positions.len(),
{
    if positions.len() == 0 {
        nearer
    } else {
        let front = inherit_members(items, nearer, base, positions.drop_last());
        match member_outcome(items, base, positions.last()) {
            Outcome::Kept(m) => if m.inheritable() && !declares(nearer, m.name()) {
                front.push(m)
            } else {
                front
            },
            _ => front,
        }
    }
}

/// The fields among the members, in order.
pub open spec fn fields_of(members: Seq<MemberView>) -> Seq<FieldView>
    decreases members.len(),
{
    if members.len() == 0 {
        Seq::empty()
    } else {
        let front = fields_of(members.drop_last());
        match members.last() {
            MemberView::Field(f) => front.push(f),
            MemberView::Method(_) => front,
        }
    }
}

/// The methods among the members, in order.
pub open spec fn methods_of(members: Seq<MemberView>) -> Seq<MethodView>
    decreases members.len(),
{
    if members.len() == 0 {
        Seq::empty()
    } else {
        let front = methods_of(members.drop_last());
        match members.last() {
            MemberView::Field(_) => front,
            MemberView::Method(m) => front.push(m),
        }
    }
}

impl Member {
    /// The member's name.
    pub fn name(&self) -> (r: &String)
        ensures
            r@ == self@.name(),
    {
        match self {
            Member::Field(f) => &f.name,
            Member::Method(m) => &m.function.name,
        }
    }

    /// Whether a derived record takes the member over.
    pub fn inheritable(&self) -> (r: bool)
        ensures
            r == self@.inheritable(),
    {
        match self {
            Member::Field(_) => true,
            Member::Method(m) => match m.kind {
                MethodKind::Constructor => false,
                MethodKind::Destructor => false,
                _ => true,
            },
        }
    }
}

impl Graph {
    /// The node that a reference names, or `None` for a dangling reference.
    pub fn idref_to_item(&self, idref: IdRef) -> (r: Option<&Item>)
        requires
            self.wf(),
        ensures
            match r {
                Some(item) => match find(self.items(), idref.0) {
                    Some(p) => *item == self.items()[p],
                    None => false,
                },
                None => find(self.items(), idref.0) is None,
            },
    {
        match self.resolve(idref) {
            Some(p) => Some(self.node(p)),
            None => None,
        }
    }

    /// Resolves the members that a record lists. The positions of those
    /// that resolve come back in the order of the list, with one report for
    /// each that no node declares.
    pub fn resolve_members(&self, rec: &schema::Record) -> (r: (Vec<usize>, Vec<Diagnostic>))
        requires
            self.wf(),
        ensures
            r.0@ == resolved_members(self.items(), member_list(*rec)),
            views(r.1@) == unknown_members(self.items(), *rec, member_list(*rec)),
            forall|i: int| 0 <= i < r.0@.len() ==> r.0@[i] < self.items().len(),
    {
        let mut positions: Vec<usize> = Vec::new();
        let mut reports: Vec<Diagnostic> = Vec::new();
        proof {
            lemma_views_empty(reports@);
        }
        let ids: &Vec<IdRef> = match &rec.members {
            None => {
                return (positions, reports);
            },
            Some(v) => v,
        };
        let n: usize = ids.len();
        let mut i: usize = 0;
        proof {
            assert(ids@.take(0) =~= Seq::<IdRef>::empty());
        }
        while i < n
            invariant
                self.wf(),
                n == ids@.len(),
                0 <= i <= n,
                positions@ == resolved_members(self.items(), ids@.take(i as int)),
                views(reports@) == unknown_members(self.items(), *rec, ids@.take(i as int)),
                forall|j: int| 0 <= j < positions@.len() ==> positions@[j] < self.items().len(),
            decreases n - i,
        {
            proof {
                assert(ids@.take(i + 1).drop_last() =~= ids@.take(i as int));
                assert(ids@.take(i + 1).last() == ids@[i as int]);
            }
            match self.resolve(ids[i]) {
                Some(p) => {
                    positions.push(p);
                },
                None => {
                    let d = Diagnostic::report(
                        rec.id.0,
                        &rec.location,
                        Reject { kind: DiagnosticKind::UnknownId, reference: ids[i].0 },
                    );
                    proof {
                        lemma_views_push(reports@, d);
                    }
                    reports.push(d);
                },
            }
            i = i + 1;
        }
        proof {
            assert(ids@.take(n as int) =~= ids@);
        }
        (positions, reports)
    }

    /// Decides what becomes of the member at position `p` of `rec`.
    pub fn member_outcome(&self, rec: &schema::Record, p: usize) -> (r: MemberOutcome)
        requires
            self.wf(),
            p < self.items().len(),
        ensures
            r@ == member_outcome(self.items(), *rec, p),
    {
        let item: &Item = self.node(p);
        match item {
            Item::Field { id, context, artificial, location, .. } => {
                if artificial.0 {
                    MemberOutcome::Skipped
                } else if context.0 != rec.id.0 {
                    MemberOutcome::Dropped(
                        Diagnostic::report(
                            id.0,
                            location,
                            Reject { kind: DiagnosticKind::InvalidAttributeValue, reference: rec.id.0 },
                        ),
                    )
                } else {
                    match self.lower_field(rec.id.0, item) {
                        Ok(f) => MemberOutcome::Kept(Member::Field(f)),
                        Err(e) => MemberOutcome::Dropped(Diagnostic::report(id.0, location, e)),
                    }
                }
            },
            _ => match method_of(item) {
                None => MemberOutcome::Skipped,
                Some(pair) => {
                    let m: &schema::Method = pair.0;
                    let in_record: bool = match m.function.context {
                        Some(c) => c.0 == rec.id.0,
                        None => false,
                    };
                    if m.function.artificial.0 {
                        MemberOutcome::Skipped
                    } else if !in_record {
                        MemberOutcome::Dropped(
                            Diagnostic::report(
                                m.function.id.0,
                                &m.function.location,
                                Reject {
                                    kind: DiagnosticKind::InvalidAttributeValue,
                                    reference: rec.id.0,
                                },
                            ),
                        )
                    } else {
                        match self.lower_method(rec.id.0, m, pair.1) {
                            Ok(x) => MemberOutcome::Kept(Member::Method(x)),
                            Err(e) => MemberOutcome::Dropped(
                                Diagnostic::report(m.function.id.0, &m.function.location, e),
                            ),
                        }
                    }
                },
            },
        }
    }
}

} // verus!
