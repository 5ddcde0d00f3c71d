//! Cycles among bases: that a cyclic branch is cut, that no record is among
//! its own flattened bases, and that a cycle is reported at the record of
//! it that stands first in the table.

use crate::ast::BaseView;
use crate::bases::{
    as_record, base_branch, base_chain, base_report, base_reports, branch_returns, chain_returns,
    record_at, restrict, root_bases,
};
use crate::diag::{report_of, DiagnosticKind, DiagnosticView, Reject};
use crate::graph::{find, lemma_find};
use crate::model::text_of;
use crate::schema;
use crate::schema::{Access, Base, Item};
use vstd::prelude::*;
use vstd::set_lib::{lemma_int_range, lemma_len_subset, set_int_range};

verus! {

/// The report of a cycle that returns to `rec` through the base `b`.
pub open spec fn cycle_report(rec: schema::Record, b: Base) -> DiagnosticView {
    report_of(
        rec.id.0,
        text_of(rec.location),
        Reject { kind: DiagnosticKind::CyclicInheritance, reference: b.type_.0 },
    )
}

/// The record that the base is, stands at position `p`.
pub open spec fn base_at(items: Seq<Item>, b: BaseView, p: int) -> bool {
    find(items, b.id) == Some(p)
}

/// No base of a chain stands on the path that led to it.
pub proof fn lemma_chain_off_path(items: Seq<Item>, bases: Seq<Base>, path: Seq<usize>, access: Access)
    requires
        items.len() <= usize::MAX,
    ensures
        base_chain(items, bases, path, access) matches Some(entries) ==> forall|i: int, k: int|
            0 <= i < entries.len() && 0 <= k < path.len() ==> !base_at(
                items,
                #[trigger] entries[i],
                #[trigger] path[k] as int,
            ),
    decreases items.len() - path.len(), 1 + bases.len(),
{
    if bases.len() > 0 {
        lemma_chain_off_path(items, bases.drop_last(), path, access);
        lemma_branch_off_path(items, bases.last(), path, access);
    }
}

/// No base of a branch stands on the path that led to it.
pub proof fn lemma_branch_off_path(items: Seq<Item>, b: Base, path: Seq<usize>, access: Access)
    requires
        items.len() <= usize::MAX,
    ensures
        base_branch(items, b, path, access) matches Some(entries) ==> forall|i: int, k: int|
            0 <= i < entries.len() && 0 <= k < path.len() ==> !base_at(
                items,
                #[trigger] entries[i],
                #[trigger] path[k] as int,
            ),
    decreases items.len() - path.len(), 0nat,
{
    lemma_find(items, b.type_.0);
    match find(items, b.type_.0) {
        None => {},
        Some(p) => match as_record(items[p]) {
            None => {},
            Some(pair) => if !(path.contains(p as usize) || path.len() >= items.len()) {
                let longer = path.push(p as usize);
                lemma_chain_off_path(items, pair.0.base@, longer, restrict(access, b.access));
                match base_chain(items, pair.0.base@, longer, restrict(access, b.access)) {
                    None => {},
                    Some(below) => {
                        let entries = base_branch(items, b, path, access)->0;
                        assert forall|i: int, k: int|
                            0 <= i < entries.len() && 0 <= k < path.len() implies !base_at(
                            items,
                            #[trigger] entries[i],
                            #[trigger] path[k] as int,
                        ) by {
                            if i == 0 {
                                if path[k] as int == p {
                                    assert(path.contains(p as usize));
                                }
                            } else {
                                assert(entries[i] == below[i - 1]);
                                assert(longer[k] == path[k]);
                            }
                        }
                    },
                }
            },
        },
    }
}

/// A record is not among its own flattened bases: no flattened base of the
/// record at position `root` stands at `root`.
pub proof fn lemma_no_own_base(items: Seq<Item>, bases: Seq<Base>, root: usize)
    requires
        items.len() <= usize::MAX,
    ensures
        forall|i: int|
            0 <= i < root_bases(items, bases, root).len() ==> !base_at(
                items,
                #[trigger] root_bases(items, bases, root)[i],
                root as int,
            ),
    decreases bases.len(),
{
    if bases.len() > 0 {
        lemma_no_own_base(items, bases.drop_last(), root);
        let path = seq![root];
        lemma_branch_off_path(items, bases.last(), path, Access::Public);
        let front = root_bases(items, bases.drop_last(), root);
        let all = root_bases(items, bases, root);
        assert forall|i: int| 0 <= i < all.len() implies !base_at(items, #[trigger] all[i], root as int) by {
            if i < front.len() {
                assert(all[i] == front[i]);
            } else {
                let branch = base_branch(items, bases.last(), path, Access::Public)->0;
                assert(all[i] == branch[i - front.len()]);
                assert(path[0] == root);
            }
        }
    }
}

/// A chain from which a cycle returns is cut.
pub proof fn lemma_returning_chain_cut(items: Seq<Item>, bases: Seq<Base>, path: Seq<usize>, access: Access)
    requires
        chain_returns(items, bases, path),
    ensures
        base_chain(items, bases, path, access) is None,
    decreases items.len() - path.len(), 1 + bases.len(),
{
    if chain_returns(items, bases.drop_last(), path) {
        lemma_returning_chain_cut(items, bases.drop_last(), path, access);
    } else {
        lemma_returning_branch_cut(items, bases.last(), path, access);
    }
}

/// A branch from which a cycle returns is cut: it adds nothing to the
/// flattened bases.
pub proof fn lemma_returning_branch_cut(items: Seq<Item>, b: Base, path: Seq<usize>, access: Access)
    requires
        branch_returns(items, b, path),
    ensures
        base_branch(items, b, path, access) is None,
    decreases items.len() - path.len(), 0nat,
{
    lemma_find(items, b.type_.0);
    match find(items, b.type_.0) {
        None => {},
        Some(p) => match as_record(items[p]) {
            None => {},
            Some(pair) => {
                if p == path[0] {
                    assert(path.contains(p as usize));
                } else {
                    lemma_returning_chain_cut(
                        items,
                        pair.0.base@,
                        path.push(p as usize),
                        restrict(access, b.access),
                    );
                }
            },
        },
    }
}

/// A returning branch among the entries makes the chain a returning one.
pub proof fn lemma_chain_returns_through(items: Seq<Item>, bases: Seq<Base>, j: int, path: Seq<usize>)
    requires
        0 <= j < bases.len(),
        branch_returns(items, bases[j], path),
    ensures
        chain_returns(items, bases, path),
    decreases bases.len(),
{
    if j < bases.len() - 1 {
        assert(bases.drop_last()[j] == bases[j]);
        lemma_chain_returns_through(items, bases.drop_last(), j, path);
    }
}

/// A report among the reports of the entries.
pub proof fn lemma_report_listed(items: Seq<Item>, rec: schema::Record, root: usize, bases: Seq<Base>, j: int)
    requires
        0 <= j < bases.len(),
        base_report(items, rec, root, bases[j]) is Some,
    ensures
        base_reports(items, rec, root, bases).contains(base_report(items, rec, root, bases[j])->0),
    decreases bases.len(),
{
    let all = base_reports(items, rec, root, bases);
    let front = base_reports(items, rec, root, bases.drop_last());
    if j < bases.len() - 1 {
        assert(bases.drop_last()[j] == bases[j]);
        lemma_report_listed(items, rec, root, bases.drop_last(), j);
        let d = base_report(items, rec, root, bases[j])->0;
        let k = choose|k: int| 0 <= k < front.len() && front[k] == d;
        assert(all[k] == d);
    } else {
        assert(all[all.len() - 1] == base_report(items, rec, root, bases[j])->0);
    }
}

/// Distinct positions of a table are no more than the table has nodes.
pub proof fn lemma_distinct_bounded(s: Seq<usize>, n: nat)
    requires
        s.no_duplicates(),
        forall|i: int| 0 <= i < s.len() ==> (#[trigger] s[i]) < n,
    ensures
        s.len() <= n,
{
    let t = Seq::new(s.len(), |i: int| s[i] as int);
    assert(t.no_duplicates());
    t.unique_seq_to_set();
    lemma_int_range(0, n as int);
    assert forall|x: int| t.to_set().contains(x) implies set_int_range(0, n as int).contains(x) by {
        let i = choose|i: int| 0 <= i < t.len() && t[i] == x;
        assert(s[i] < n);
    }
    lemma_len_subset(t.to_set(), set_int_range(0, n as int));
}

/// The records at the positions `path` form a chain of bases: each but the
/// last has, as its entry numbered `links[i]`, a base that is the next
/// record. No record stands twice on it, and the first stands before all
/// others in the table.
pub open spec fn is_base_path(items: Seq<Item>, path: Seq<usize>, links: Seq<int>) -> bool {
    &&& path.len() > 0
    &&& links.len() == path.len() - 1
    &&& path.no_duplicates()
    &&& forall|i: int| 0 < i < path.len() ==> path[0] < #[trigger] path[i]
    &&& forall|i: int|
        0 <= i < path.len() ==> {
            &&& (#[trigger] path[i]) < items.len()
            &&& as_record(items[path[i] as int]) is Some
        }
    &&& forall|i: int|
        0 <= i < path.len() - 1 ==> {
            &&& 0 <= (#[trigger] links[i]) < record_at(items, path[i]).base@.len()
            &&& find(items, record_at(items, path[i]).base@[links[i]].type_.0) == Some(path[i + 1] as int)
        }
}

/// The records at the positions `cycle` form a cycle of bases: a chain of
/// bases whose last record has, as its entry numbered by the last of
/// `links`, a base that is the first record.
pub open spec fn is_base_cycle(items: Seq<Item>, cycle: Seq<usize>, links: Seq<int>) -> bool {
    &&& cycle.len() > 0
    &&& links.len() == cycle.len()
    &&& is_base_path(items, cycle, links.drop_last())
    &&& 0 <= links.last() < record_at(items, cycle.last()).base@.len()
    &&& find(items, record_at(items, cycle.last()).base@[links.last()].type_.0) == Some(cycle[0] as int)
}

/// The base entry by which the record numbered `i` of a cycle reaches the
/// next.
pub open spec fn link_of(items: Seq<Item>, cycle: Seq<usize>, links: Seq<int>, i: int) -> Base {
    record_at(items, cycle[i]).base@[links[i]]
}

/// From each record of a cycle on, the cycle returns to its first record.
pub proof fn lemma_cycle_returns(items: Seq<Item>, cycle: Seq<usize>, links: Seq<int>, i: int)
    requires
        is_base_cycle(items, cycle, links),
        0 <= i < cycle.len(),
    ensures
        branch_returns(items, link_of(items, cycle, links, i), cycle.take(i + 1)),
    decreases cycle.len() - i,
{
    let path = cycle.take(i + 1);
    let inner = links.drop_last();
    assert(path[0] == cycle[0]);
    assert(cycle[i] < items.len());
    if i + 1 < cycle.len() {
        let p = cycle[i + 1];
        assert(inner[i] == links[i]);
        lemma_cycle_returns(items, cycle, links, i + 1);
        lemma_distinct_bounded(cycle, items.len());
        assert(cycle[0] < cycle[i + 1]);
        assert(p < items.len());
        assert(!path.contains(p)) by {
            if path.contains(p) {
                let k = choose|k: int| 0 <= k < path.len() && path[k] == p;
                assert(cycle[k] == cycle[i + 1]);
            }
        }
        assert(path.push(p) =~= cycle.take(i + 2));
        let rec = record_at(items, p);
        if i + 2 < cycle.len() {
            assert(inner[i + 1] == links[i + 1]);
        } else {
            assert(links[i + 1] == links.last());
            assert(cycle[i + 1] == cycle.last());
        }
        lemma_chain_returns_through(items, rec.base@, links[i + 1], path.push(p));
    } else {
        assert(links[i] == links.last());
        assert(cycle[i] == cycle.last());
    }
}

/// A cycle of bases is reported at its first record, for the entry by which
/// that record enters the cycle; and the branch of that entry is cut.
pub proof fn lemma_cycle_reported(items: Seq<Item>, cycle: Seq<usize>, links: Seq<int>)
    requires
        is_base_cycle(items, cycle, links),
    ensures
        ({
            let rec = record_at(items, cycle[0]);
            let b = link_of(items, cycle, links, 0);
            &&& 0 <= links[0] < rec.base@.len()
            &&& base_report(items, rec, cycle[0], b) == Some(cycle_report(rec, b))
            &&& base_reports(items, rec, cycle[0], rec.base@).contains(cycle_report(rec, b))
            &&& base_branch(items, b, seq![cycle[0]], Access::Public) is None
        }),
{
    let rec = record_at(items, cycle[0]);
    let b = link_of(items, cycle, links, 0);
    let inner = links.drop_last();
    lemma_cycle_returns(items, cycle, links, 0);
    assert(cycle.take(1) =~= seq![cycle[0]]);
    lemma_find(items, b.type_.0);
    assert(cycle[0] < items.len());
    if cycle.len() > 1 {
        assert(inner[0] == links[0]);
        assert(cycle[1] < items.len());
    } else {
        assert(links[0] == links.last());
        assert(cycle[0] == cycle.last());
    }
    lemma_report_listed(items, rec, cycle[0], rec.base@, links[0]);
    lemma_returning_branch_cut(items, b, seq![cycle[0]], Access::Public);
}

/// A returning chain has a returning branch among its entries.
pub proof fn lemma_chain_returns_from(items: Seq<Item>, bases: Seq<Base>, path: Seq<usize>) -> (j: int)
    requires
        chain_returns(items, bases, path),
    ensures
        0 <= j < bases.len(),
        branch_returns(items, bases[j], path),
    decreases bases.len(),
{
    if chain_returns(items, bases.drop_last(), path) {
        let j = lemma_chain_returns_from(items, bases.drop_last(), path);
        assert(bases.drop_last()[j] == bases[j]);
        j
    } else {
        bases.len() - 1
    }
}

/// A chain of bases from whose last record a cycle returns is the front of
/// a cycle of bases.
pub proof fn lemma_returning_path(items: Seq<Item>, path: Seq<usize>, links: Seq<int>, j: int) -> (found: (
    Seq<usize>,
    Seq<int>,
))
    requires
        items.len() <= usize::MAX,
        is_base_path(items, path, links),
        0 <= j < record_at(items, path.last()).base@.len(),
        branch_returns(items, record_at(items, path.last()).base@[j], path),
    ensures
        is_base_cycle(items, found.0, found.1),
        found.0.len() >= path.len(),
        found.0.take(path.len() as int) == path,
        found.1.take(path.len() as int) == links.push(j),
    decreases items.len() - path.len(),
{
    let b = record_at(items, path.last()).base@[j];
    lemma_find(items, b.type_.0);
    let p = find(items, b.type_.0)->0;
    if p == path[0] {
        let all = links.push(j);
        assert(all.drop_last() =~= links);
        assert(path.take(path.len() as int) =~= path);
        assert(all.take(path.len() as int) =~= all);
        (path, all)
    } else {
        let longer = path.push(p as usize);
        let further = links.push(j);
        let rec = record_at(items, p as usize);
        assert(as_record(items[p]) is Some);
        assert(path[0] < p);
        assert(!path.contains(p as usize));
        assert(chain_returns(items, rec.base@, longer));
        let k = lemma_chain_returns_from(items, rec.base@, longer);
        assert(is_base_path(items, longer, further)) by {
            assert forall|x: int, y: int|
                0 <= x < longer.len() && 0 <= y < longer.len() && x != y implies longer[x] != longer[y] by {
                if x == path.len() {
                    assert(path[y] == longer[y]);
                    if longer[y] == longer[x] {
                        assert(path.contains(p as usize));
                    }
                } else if y == path.len() {
                    assert(path[x] == longer[x]);
                    if longer[y] == longer[x] {
                        assert(path.contains(p as usize));
                    }
                } else {
                    assert(path[x] == longer[x] && path[y] == longer[y]);
                }
            }
            assert forall|i: int| 0 < i < longer.len() implies longer[0] < #[trigger] longer[i] by {
                if i < path.len() {
                    assert(path[i] == longer[i]);
                }
            }
            assert forall|i: int| 0 <= i < longer.len() implies {
                &&& (#[trigger] longer[i]) < items.len()
                &&& as_record(items[longer[i] as int]) is Some
            } by {
                if i < path.len() {
                    assert(path[i] == longer[i]);
                }
            }
            assert forall|i: int| 0 <= i < longer.len() - 1 implies {
                &&& 0 <= (#[trigger] further[i]) < record_at(items, longer[i]).base@.len()
                &&& find(items, record_at(items, longer[i]).base@[further[i]].type_.0) == Some(
                    longer[i + 1] as int,
                )
            } by {
                assert(longer[i] == path[i]);
                if i < path.len() - 1 {
                    assert(further[i] == links[i]);
                    assert(longer[i + 1] == path[i + 1]);
                } else {
                    assert(path[i] == path.last());
                }
            }
        }
        assert(longer.last() == p as usize);
        let found = lemma_returning_path(items, longer, further, k);
        assert(found.0.take(path.len() as int) =~= found.0.take(longer.len() as int).take(
            path.len() as int,
        ));
        assert(longer.take(path.len() as int) =~= path);
        assert(found.1.take(path.len() as int) =~= found.1.take(longer.len() as int).take(
            path.len() as int,
        ));
        assert(further.push(k).take(path.len() as int) =~= further);
        found
    }
}

/// A cycle is reported for an entry of a record exactly where a cycle of
/// bases begins at the record with that entry and the record stands first
/// on it: each cycle has one report, at the record of it that stands first
/// in the table.
pub proof fn lemma_report_means_cycle(items: Seq<Item>, root: usize, j: int)
    requires
        items.len() <= usize::MAX,
        root < items.len(),
        as_record(items[root as int]) is Some,
        0 <= j < record_at(items, root).base@.len(),
    ensures
        base_report(items, record_at(items, root), root, record_at(items, root).base@[j]) == Some(
            cycle_report(record_at(items, root), record_at(items, root).base@[j]),
        ) <==> exists|cycle: Seq<usize>, links: Seq<int>|
            #[trigger] is_base_cycle(items, cycle, links) && cycle[0] == root && links[0] == j,
{
    let rec = record_at(items, root);
    let b = rec.base@[j];
    let start = seq![root];
    if base_report(items, rec, root, b) == Some(cycle_report(rec, b)) {
        assert(branch_returns(items, b, start));
        assert(is_base_path(items, start, Seq::<int>::empty()));
        assert(start.last() == root);
        let found = lemma_returning_path(items, start, Seq::<int>::empty(), j);
        assert(found.0.take(1)[0] == found.0[0]);
        assert(found.1.take(1)[0] == found.1[0]);
        assert(Seq::<int>::empty().push(j)[0] == j);
        assert(is_base_cycle(items, found.0, found.1) && found.0[0] == root && found.1[0] == j);
    }
    if exists|cycle: Seq<usize>, links: Seq<int>|
        #[trigger] is_base_cycle(items, cycle, links) && cycle[0] == root && links[0] == j {
        let (cycle, links) = choose|cycle: Seq<usize>, links: Seq<int>|
            #[trigger] is_base_cycle(items, cycle, links) && cycle[0] == root && links[0] == j;
        lemma_cycle_reported(items, cycle, links);
    }
}

/// Two records that have each other for their only base: the cycle is
/// reported once, at the record that stands first, and neither record has
/// a flattened base.
pub proof fn lemma_mutual_bases(items: Seq<Item>, a: usize, b: usize)
    requires
        a < b < items.len(),
        as_record(items[a as int]) is Some,
        as_record(items[b as int]) is Some,
        record_at(items, a).base@.len() == 1,
        record_at(items, b).base@.len() == 1,
        find(items, record_at(items, a).base@[0].type_.0) == Some(b as int),
        find(items, record_at(items, b).base@[0].type_.0) == Some(a as int),
    ensures
        ({
            let first = record_at(items, a);
            let second = record_at(items, b);
            &&& root_bases(items, first.base@, a) == Seq::<BaseView>::empty()
            &&& root_bases(items, second.base@, b) == Seq::<BaseView>::empty()
            &&& base_reports(items, first, a, first.base@) == seq![cycle_report(first, first.base@[0])]
            &&& base_reports(items, second, b, second.base@) == Seq::<DiagnosticView>::empty()
        }),
{
    let first = record_at(items, a);
    let second = record_at(items, b);
    let to_b = first.base@[0];
    let to_a = second.base@[0];
    assert(first.base@.drop_last() =~= Seq::<Base>::empty());
    assert(second.base@.drop_last() =~= Seq::<Base>::empty());
    assert(first.base@.last() == to_b);
    assert(second.base@.last() == to_a);
    let from_a = seq![a];
    let from_b = seq![b];
    assert(from_a[0] == a);
    assert(from_b[0] == b);
    // From the first record: on to the second, and back.
    assert(branch_returns(items, to_a, from_a.push(b))) by {
        assert(from_a.push(b)[0] == a);
    }
    assert(chain_returns(items, second.base@, from_a.push(b))) by {
        reveal_with_fuel(chain_returns, 2);
    }
    assert(!from_a.contains(b));
    assert(branch_returns(items, to_b, from_a));
    lemma_returning_branch_cut(items, to_b, from_a, Access::Public);
    // From the second record: the first stands before it.
    assert(!branch_returns(items, to_a, from_b));
    assert(from_b.push(a).contains(b)) by {
        assert(from_b.push(a)[0] == b);
    }
    assert(base_branch(items, to_b, from_b.push(a), restrict(Access::Public, to_a.access)) is None);
    assert(base_chain(items, first.base@, from_b.push(a), restrict(Access::Public, to_a.access)) is None)
        by {
        reveal_with_fuel(base_chain, 2);
    }
    assert(!from_b.contains(a));
    assert(base_branch(items, to_a, from_b, Access::Public) is None);
    reveal_with_fuel(root_bases, 2);
    reveal_with_fuel(base_reports, 2);
    assert(root_bases(items, first.base@, a) =~= Seq::<BaseView>::empty());
    assert(root_bases(items, second.base@, b) =~= Seq::<BaseView>::empty());
    assert(base_reports(items, first, a, first.base@) =~= seq![cycle_report(first, to_b)]);
    assert(base_reports(items, second, b, second.base@) =~= Seq::<DiagnosticView>::empty());
}

} // verus!
