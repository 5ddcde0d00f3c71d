//! Lowering of records: the flattened bases, the record's own members, and
//! the members that it takes over from its bases, nearest base first.

use crate::ast;
use crate::ast::{BaseEntry, BaseView, Field, Method, RecordKind, RecordView};
use crate::bases::{as_record, base_branch, base_reports, record_of, root_bases};
use crate::model::{lemma_views_add, lemma_views_empty, lemma_views_push, views};
use crate::cycles::{base_at, lemma_no_own_base};
use crate::diag::{Diagnostic, DiagnosticKind, DiagnosticView, Reject};
use crate::shadow::{lemma_members_shadow, record_member};
use crate::graph::{find, Graph};
use crate::lower::name_text;
use crate::members::{
    declares, dropped_members, fields_of, inherit_members, member_list, member_outcome,
    methods_of, names_of, own_members, resolved_members, unknown_members, Member, MemberOutcome,
    MemberView,
};
use crate::schema;
use crate::schema::{Access, IdRef, Item};
use vstd::prelude::*;

verus! {

/// The members `nearer` followed by those that the record takes over from
/// the base that `b` names.
pub open spec fn base_members(items: Seq<Item>, nearer: Seq<MemberView>, b: BaseView) -> Seq<MemberView> {
    match find(items, b.id) {
        None => nearer,
        Some(p) => match as_record(items[p]) {
            None => nearer,
            Some(pair) => inherit_members(
                items,
                nearer,
                pair.0,
                resolved_members(items, member_list(pair.0)),
            ),
        },
    }
}

/// The record's own members followed by those that it takes over from its
/// flattened bases, in the order of the bases. A member of a base is taken
/// over unless a nearer level declares its name.
pub open spec fn flatten_members(items: Seq<Item>, own: Seq<MemberView>, bases: Seq<BaseView>) -> Seq<
    MemberView,
>
    decreases bases.len(),
{
    if bases.len() == 0 {
        own
    } else {
        base_members(items, flatten_members(items, own, bases.drop_last()), bases.last())
    }
}

/// The flattened members of the record `rec` at position `root`.
pub open spec fn record_members(items: Seq<Item>, root: usize, rec: schema::Record) -> Seq<MemberView> {
    flatten_members(
        items,
        own_members(items, rec, resolved_members(items, member_list(rec))),
        root_bases(items, rec.base@, root),
    )
}

/// The lowered form of the record `rec` at position `root`.
pub open spec fn lower_record(items: Seq<Item>, root: usize, rec: schema::Record, kind: RecordKind) -> RecordView {
    RecordView {
        id: rec.id.0,
        name: rec.name.text(),
        kind,
        fields: fields_of(record_members(items, root, rec)),
        bases: root_bases(items, rec.base@, root),
        methods: methods_of(record_members(items, root, rec)),
        size: rec.size,
        align: rec.align,
    }
}

/// What is reported of the record `rec` at position `root`: of its bases,
/// then of the listed members that no node declares, then of the members
/// that are dropped.
pub open spec fn record_reports(items: Seq<Item>, root: usize, rec: schema::Record) -> Seq<DiagnosticView> {
    base_reports(items, rec, root, rec.base@) + unknown_members(items, rec, member_list(rec))
        + dropped_members(items, rec, resolved_members(items, member_list(rec)))
}

/// Taking members over from a base leaves the nearer members in front.
pub proof fn lemma_inherit_prefix(
    items: Seq<Item>,
    nearer: Seq<MemberView>,
    base: schema::Record,
    positions: Seq<usize>,
)
    ensures
        inherit_members(items, nearer, base, positions).len() >= nearer.len(),
        inherit_members(items, nearer, base, positions).take(nearer.len() as int) == nearer,
    decreases positions.len(),
{
    if positions.len() == 0 {
        assert(nearer.take(nearer.len() as int) =~= nearer);
    } else {
        lemma_inherit_prefix(items, nearer, base, positions.drop_last());
        let front = inherit_members(items, nearer, base, positions.drop_last());
        let all = inherit_members(items, nearer, base, positions);
        assert(all.take(nearer.len() as int) =~= front.take(nearer.len() as int));
    }
}

/// The fields, methods and names of a list of members extended by one.
pub proof fn lemma_push_member(members: Seq<MemberView>, m: MemberView)
    ensures
        fields_of(members.push(m)) == match m {
            MemberView::Field(f) => fields_of(members).push(f),
            MemberView::Method(_) => fields_of(members),
        },
        methods_of(members.push(m)) == match m {
            MemberView::Field(_) => methods_of(members),
            MemberView::Method(x) => methods_of(members).push(x),
        },
        names_of(members.push(m)) == names_of(members).push(m.name()),
{
    assert(members.push(m).drop_last() =~= members);
    assert(names_of(members.push(m)) =~= names_of(members).push(m.name()));
}

/// The members gathered so far, by kind, with the name of each in order.
struct Buckets {
    fields: Vec<Field>,
    methods: Vec<Method>,
    names: Vec<String>,
}

impl Buckets {
    spec fn holds(&self, members: Seq<MemberView>) -> bool {
        &&& views(self.fields@) == fields_of(members)
        &&& views(self.methods@) == methods_of(members)
        &&& views(self.names@) == names_of(members)
    }

    fn new() -> (b: Buckets)
        ensures
            b.holds(Seq::empty()),
    {
        let b = Buckets { fields: Vec::new(), methods: Vec::new(), names: Vec::new() };
        proof {
            lemma_views_empty(b.fields@);
            lemma_views_empty(b.methods@);
            lemma_views_empty(b.names@);
            assert(names_of(Seq::<MemberView>::empty()) =~= Seq::<Seq<char>>::empty());
        }
        b
    }

    fn add(&mut self, m: Member, Ghost(members): Ghost<Seq<MemberView>>)
        requires
            old(self).holds(members),
        ensures
            final(self).holds(members.push(m@)),
    {
        proof {
            lemma_push_member(members, m@);
        }
        let name: String = m.name().clone();
        proof {
            lemma_views_push(self.names@, name);
        }
        self.names.push(name);
        match m {
            Member::Field(f) => {
                proof {
                    lemma_views_push(self.fields@, f);
                }
                self.fields.push(f);
            },
            Member::Method(x) => {
                proof {
                    lemma_views_push(self.methods@, x);
                }
                self.methods.push(x);
            },
        }
    }

    /// Whether one of the first `limit` members has the name.
    fn declares(&self, limit: usize, name: &String, Ghost(members): Ghost<Seq<MemberView>>) -> (r: bool)
        requires
            self.holds(members),
            limit <= members.len(),
        ensures
            r == declares(members.take(limit as int), name@),
    {
        let ghost nearer = members.take(limit as int);
        proof {
            assert(views(self.names@).len() == members.len());
            assert(names_of(nearer) =~= names_of(members).take(limit as int));
        }
        if name.as_str().is_empty() {
            return false;
        }
        let mut k: usize = 0;
        while k < limit
            invariant
                0 <= k <= limit <= self.names@.len(),
                self.names@.len() == members.len(),
                views(self.names@) == names_of(members),
                names_of(nearer) == names_of(members).take(limit as int),
                names_of(nearer).len() == limit,
                nearer == members.take(limit as int),
                name@.len() > 0,
                forall|j: int| 0 <= j < k ==> names_of(nearer)[j] != name@,
            decreases limit - k,
        {
            if self.names[k] == *name {
                proof {
                    assert(views(self.names@)[k as int] == self.names@[k as int]@);
                    assert(names_of(nearer)[k as int] == name@);
                    assert(names_of(nearer).contains(name@));
                }
                return true;
            }
            proof {
                assert(views(self.names@)[k as int] == self.names@[k as int]@);
            }
            k = k + 1;
        }
        false
    }
}

impl Graph {
    /// Flattens the bases of the record `rec` at position `root`. The bases
    /// come back depth first in the order of the entries, a cyclic branch
    /// cut, with the reports of the record's own entries: a base that no
    /// node declares, a base that is no record, and a cycle that returns to
    /// the record through records that all stand after it.
    pub fn resolve_bases(&self, root: usize, rec: &schema::Record) -> (r: (Vec<BaseEntry>, Vec<Diagnostic>))
        requires
            self.wf(),
        ensures
            views(r.0@) == root_bases(self.items(), rec.base@, root),
            views(r.1@) == base_reports(self.items(), *rec, root, rec.base@),
            forall|i: int| 0 <= i < r.0@.len() ==> !base_at(self.items(), (#[trigger] r.0@[i])@, root as int),
    {
        proof {
            self.lemma_unique();
        }
        let mut out: Vec<BaseEntry> = Vec::new();
        let mut reports: Vec<Diagnostic> = Vec::new();
        let mut path: Vec<usize> = Vec::new();
        path.push(root);
        let n: usize = rec.base.len();
        let mut i: usize = 0;
        proof {
            assert(rec.base@.take(0) =~= Seq::<schema::Base>::empty());
            lemma_views_empty(out@);
            lemma_views_empty(reports@);
            assert(path@ =~= seq![root]);
        }
        while i < n
            invariant
                self.wf(),
                n == rec.base@.len(),
                0 <= i <= n,
                path@ == seq![root],
                views(out@) == root_bases(self.items(), rec.base@.take(i as int), root),
                views(reports@) == base_reports(self.items(), *rec, root, rec.base@.take(i as int)),
            decreases n - i,
        {
            proof {
                assert(rec.base@.take(i + 1).drop_last() =~= rec.base@.take(i as int));
                assert(rec.base@.take(i + 1).last() == rec.base@[i as int]);
            }
            let b: &schema::Base = &rec.base[i];
            match self.base_branch(b, &path, Access::Public) {
                Some(mut branch) => {
                    proof {
                        lemma_views_add(out@, branch@);
                    }
                    out.append(&mut branch);
                },
                None => {
                    proof {
                        assert(views(out@) + Seq::<BaseView>::empty() =~= views(out@));
                    }
                },
            }
            let kind: Option<DiagnosticKind> = match self.resolve(b.type_) {
                None => Some(DiagnosticKind::UnknownId),
                Some(p) => match record_of(self.node(p)) {
                    None => Some(DiagnosticKind::UnsupportedConstruct),
                    Some(_) => if self.branch_returns(b, &path) {
                        Some(DiagnosticKind::CyclicInheritance)
                    } else {
                        None
                    },
                },
            };
            match kind {
                Some(k) => {
                    let d = Diagnostic::report(rec.id.0, &rec.location, Reject { kind: k, reference: b.type_.0 });
                    proof {
                        lemma_views_push(reports@, d);
                    }
                    reports.push(d);
                },
                None => {},
            }
            i = i + 1;
        }
        proof {
            assert(rec.base@.take(n as int) =~= rec.base@);
            lemma_no_own_base(self.items(), rec.base@, root);
            assert forall|i: int| 0 <= i < out@.len() implies !base_at(
                self.items(),
                (#[trigger] out@[i])@,
                root as int,
            ) by {
                assert(views(out@)[i] == out@[i]@);
            }
        }
        (out, reports)
    }

    /// Lowers the record `rec` at position `root`: its flattened bases, its
    /// own members in the order of its list, then the members that it takes
    /// over from each base in turn. The reports of what was cut or dropped
    /// come back beside it.
    pub fn lower_record(&self, root: usize, rec: &schema::Record, kind: RecordKind) -> (r: (
        ast::Record,
        Vec<Diagnostic>,
    ))
        requires
            self.wf(),
        ensures
            r.0@ == lower_record(self.items(), root, *rec, kind),
            views(r.1@) == record_reports(self.items(), root, *rec),
            forall|a: MemberView, b: MemberView|
                record_member(r.0@, a) && record_member(r.0@, b) && a.name() == b.name() && a.name().len()
                    > 0 ==> a.owner() == b.owner(),
    {
        proof {
            assert forall|a: MemberView, b: MemberView|
                record_member(lower_record(self.items(), root, *rec, kind), a) && record_member(
                    lower_record(self.items(), root, *rec, kind),
                    b,
                ) && a.name() == b.name() && a.name().len() > 0 implies a.owner() == b.owner() by {
                lemma_members_shadow(self.items(), root, *rec, kind, a, b);
            }
        }
        let (bases, mut reports) = self.resolve_bases(root, rec);
        let (positions, mut unknown) = self.resolve_members(rec);
        proof {
            lemma_views_add(reports@, unknown@);
        }
        reports.append(&mut unknown);
        let mut buckets = Buckets::new();
        let ghost mut flat: Seq<MemberView> = Seq::empty();
        let ghost base_part = base_reports(self.items(), *rec, root, rec.base@) + unknown_members(
            self.items(),
            *rec,
            member_list(*rec),
        );
        let ghost mut dropped: Seq<DiagnosticView> = Seq::empty();
        let n: usize = positions.len();
        let mut i: usize = 0;
        proof {
            assert(positions@.take(0) =~= Seq::<usize>::empty());
            assert(base_part + dropped =~= base_part);
        }
        while i < n
            invariant
                self.wf(),
                n == positions@.len(),
                0 <= i <= n,
                forall|j: int| 0 <= j < positions@.len() ==> positions@[j] < self.items().len(),
                buckets.holds(flat),
                flat == own_members(self.items(), *rec, positions@.take(i as int)),
                dropped == dropped_members(self.items(), *rec, positions@.take(i as int)),
                views(reports@) == base_part + dropped,
            decreases n - i,
        {
            proof {
                assert(positions@.take(i + 1).drop_last() =~= positions@.take(i as int));
                assert(positions@.take(i + 1).last() == positions@[i as int]);
            }
            match self.member_outcome(rec, positions[i]) {
                MemberOutcome::Kept(m) => {
                    buckets.add(m, Ghost(flat));
                    proof {
                        flat = flat.push(m@);
                    }
                },
                MemberOutcome::Skipped => {},
                MemberOutcome::Dropped(d) => {
                    proof {
                        lemma_views_push(reports@, d);
                        assert((base_part + dropped).push(d@) =~= base_part + dropped.push(d@));
                        dropped = dropped.push(d@);
                    }
                    reports.push(d);
                },
            }
            i = i + 1;
        }
        proof {
            assert(positions@.take(n as int) =~= positions@);
        }
        let ghost own = flat;
        let count: usize = bases.len();
        let mut level: usize = 0;
        proof {
            assert(views(bases@).take(0) =~= Seq::<BaseView>::empty());
        }
        while level < count
            invariant
                self.wf(),
                count == bases@.len(),
                0 <= level <= count,
                buckets.holds(flat),
                flat == flatten_members(self.items(), own, views(bases@).take(level as int)),
            decreases count - level,
        {
            proof {
                assert(views(bases@).take(level + 1).drop_last() =~= views(bases@).take(level as int));
                assert(views(bases@).take(level + 1).last() == bases@[level as int]@);
            }
            self.inherit_from(&mut buckets, bases[level].id, Ghost(flat));
            proof {
                flat = base_members(self.items(), flat, bases@[level as int]@);
            }
            level = level + 1;
        }
        proof {
            assert(views(bases@).take(count as int) =~= views(bases@));
        }
        let record = ast::Record {
            id: rec.id.0,
            name: name_text(&rec.name),
            kind,
            fields: buckets.fields,
            bases,
            methods: buckets.methods,
            size: rec.size,
            align: rec.align,
        };
        (record, reports)
    }

    /// Adds to `buckets` the members that are taken over from the base with
    /// the identifier `id`.
    fn inherit_from(&self, buckets: &mut Buckets, id: u64, Ghost(nearer): Ghost<Seq<MemberView>>)
        requires
            self.wf(),
            old(buckets).holds(nearer),
        ensures
            final(buckets).holds(
                base_members(
                    self.items(),
                    nearer,
                    BaseView { id, name: Seq::empty(), access: Access::Public, virtual_: false, depth: 0 },
                ),
            ),
    {
        let p: usize = match self.resolve(IdRef(id)) {
            None => {
                return ;
            },
            Some(p) => p,
        };
        let base: &schema::Record = match record_of(self.node(p)) {
            None => {
                return ;
            },
            Some(pair) => pair.0,
        };
        let (positions, _unknown) = self.resolve_members(base);
        let limit: usize = buckets.names.len();
        let ghost mut flat: Seq<MemberView> = nearer;
        let n: usize = positions.len();
        let mut i: usize = 0;
        proof {
            assert(positions@.take(0) =~= Seq::<usize>::empty());
            assert(views(buckets.names@).len() == nearer.len());
        }
        while i < n
            invariant
                self.wf(),
                n == positions@.len(),
                0 <= i <= n,
                limit == nearer.len(),
                forall|j: int| 0 <= j < positions@.len() ==> positions@[j] < self.items().len(),
                buckets.holds(flat),
                flat == inherit_members(self.items(), nearer, *base, positions@.take(i as int)),
            decreases n - i,
        {
            proof {
                assert(positions@.take(i + 1).drop_last() =~= positions@.take(i as int));
                assert(positions@.take(i + 1).last() == positions@[i as int]);
                lemma_inherit_prefix(self.items(), nearer, *base, positions@.take(i as int));
            }
            match self.member_outcome(base, positions[i]) {
                MemberOutcome::Kept(m) => {
                    if m.inheritable() && !buckets.declares(limit, m.name(), Ghost(flat)) {
                        buckets.add(m, Ghost(flat));
                        proof {
                            flat = flat.push(m@);
                        }
                    }
                },
                _ => {},
            }
            i = i + 1;
        }
        proof {
            assert(positions@.take(n as int) =~= positions@);
        }
    }
}

} // verus!
