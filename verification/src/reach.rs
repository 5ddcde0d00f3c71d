//! Selection of declarations from roots: a walk, depth first, from each
//! root through the member lists of namespaces and records, which selects
//! every record and free function that it meets, once.

use crate::bases::{as_record, record_of};
use crate::diag::{report_of, Diagnostic, DiagnosticKind, DiagnosticView, Reject};
use crate::graph::{find, lemma_find, Graph};
use crate::members::member_list;
use crate::model::{lemma_views_empty, lemma_views_push, views};
use crate::schema::{IdRef, Item};
use crate::transform::{as_function, function_of};
use vstd::prelude::*;

verus! {

/// How far a walk has come: which positions it has visited, and which it
/// has selected, in the order in which it met them.
pub ghost struct Walk {
    pub visited: Seq<bool>,
    pub selected: Seq<usize>,
}

/// The members through which a walk goes on from a node: those of a
/// namespace or of a record, where the node lists any.
pub open spec fn onward(item: Item) -> Seq<IdRef> {
    match item {
        Item::Namespace { members, .. } => match members {
            Some(v) => v@,
            None => Seq::empty(),
        },
        _ => match as_record(item) {
            Some(pair) => member_list(pair.0),
            None => Seq::empty(),
        },
    }
}

/// Whether a walk selects the node: it is a record or a free function.
pub open spec fn selects(item: Item) -> bool {
    as_record(item) is Some || as_function(item) is Some
}

/// The walk after it has gone to the node that `id` names and on from it,
/// at most `fuel` nodes deep. A node that no node declares, or that the
/// walk has visited, leaves the walk as it is.
pub open spec fn visit(items: Seq<Item>, id: u64, w: Walk, fuel: nat) -> Walk
    decreases fuel, 0nat,
{
    if fuel == 0 {
        w
    } else {
        match find(items, id) {
            None => w,
            Some(p) => if p >= w.visited.len() || w.visited[p] {
                w
            } else {
                visit_all(
                    items,
                    onward(items[p]),
                    Walk {
                        visited: w.visited.update(p, true),
                        selected: if selects(items[p]) {
                            w.selected.push(p as usize)
                        } else {
                            w.selected
                        },
                    },
                    (fuel - 1) as nat,
                )
            },
        }
    }
}

/// The walk after it has gone to each of the nodes that `ids` name, in
/// order.
pub open spec fn visit_all(items: Seq<Item>, ids: Seq<IdRef>, w: Walk, fuel: nat) -> Walk
    decreases fuel, 1 + ids.len(),
{
    if ids.len() == 0 {
        w
    } else {
        visit(items, ids.last().0, visit_all(items, ids.drop_last(), w, fuel), fuel)
    }
}

/// A walk that has visited nothing yet.
pub open spec fn start(items: Seq<Item>) -> Walk {
    Walk { visited: Seq::new(items.len(), |i: int| false), selected: Seq::empty() }
}

/// The positions of the records and free functions that are reached from
/// the roots, each once, in the order in which a walk from the roots meets
/// them.
pub open spec fn selected_from(items: Seq<Item>, roots: Seq<IdRef>) -> Seq<usize> {
    visit_all(items, roots, start(items), items.len()).selected
}

/// One report for each root that no node declares, in the order of the
/// roots.
pub open spec fn unknown_roots(items: Seq<Item>, roots: Seq<IdRef>) -> Seq<DiagnosticView>
    decreases roots.len(),
{
    if roots.len() == 0 {
        Seq::empty()
    } else {
        let front = unknown_roots(items, roots.drop_last());
        match find(items, roots.last().0) {
            Some(_) => front,
            None => front.push(
                report_of(
                    roots.last().0,
                    None,
                    Reject { kind: DiagnosticKind::UnknownId, reference: roots.last().0 },
                ),
            ),
        }
    }
}

/// The members through which a walk goes on from a node.
pub fn onward_of(item: &Item) -> (r: Option<&Vec<IdRef>>)
    ensures
        match r {
            Some(v) => onward(*item) == v@,
            None => onward(*item) == Seq::<IdRef>::empty(),
        },
{
    match item {
        Item::Namespace { members, .. } => match members {
            Some(v) => Some(v),
            None => None,
        },
        _ => match record_of(item) {
            Some(pair) => match &pair.0.members {
                Some(v) => Some(v),
                None => None,
            },
            None => None,
        },
    }
}

/// Whether a walk selects the node.
pub fn selected(item: &Item) -> (r: bool)
    ensures
        r == selects(*item),
{
    record_of(item).is_some() || function_of(item).is_some()
}

impl Graph {
    /// Goes to the node that `idref` names and on from it, at most `fuel`
    /// nodes deep.
    pub fn visit(&self, idref: IdRef, visited: &mut Vec<bool>, selection: &mut Vec<usize>, fuel: usize)
        requires
            self.wf(),
            old(visited)@.len() == self.items().len(),
            forall|i: int| 0 <= i < old(selection)@.len() ==> old(selection)@[i] < self.items().len(),
        ensures
            (Walk { visited: final(visited)@, selected: final(selection)@ }) == visit(
                self.items(),
                idref.0,
                Walk { visited: old(visited)@, selected: old(selection)@ },
                fuel as nat,
            ),
            final(visited)@.len() == self.items().len(),
            forall|i: int| 0 <= i < final(selection)@.len() ==> final(selection)@[i] < self.items().len(),
        decreases fuel, 0nat,
    {
        if fuel == 0 {
            return ;
        }
        let p: usize = match self.resolve(idref) {
            None => {
                return ;
            },
            Some(p) => p,
        };
        if visited[p] {
            return ;
        }
        visited.set(p, true);
        let item: &Item = self.node(p);
        if selected(item) {
            selection.push(p);
        }
        match onward_of(item) {
            Some(members) => self.visit_all(members, visited, selection, fuel - 1),
            None => {},
        }
    }

    /// Goes to each of the nodes that `ids` name, in order.
    pub fn visit_all(&self, ids: &Vec<IdRef>, visited: &mut Vec<bool>, selection: &mut Vec<usize>, fuel: usize)
        requires
            self.wf(),
            old(visited)@.len() == self.items().len(),
            forall|i: int| 0 <= i < old(selection)@.len() ==> old(selection)@[i] < self.items().len(),
        ensures
            (Walk { visited: final(visited)@, selected: final(selection)@ }) == visit_all(
                self.items(),
                ids@,
                Walk { visited: old(visited)@, selected: old(selection)@ },
                fuel as nat,
            ),
            final(visited)@.len() == self.items().len(),
            forall|i: int| 0 <= i < final(selection)@.len() ==> final(selection)@[i] < self.items().len(),
        decreases fuel, 1 + ids@.len(),
    {
        let ghost begin = Walk { visited: visited@, selected: selection@ };
        let n: usize = ids.len();
        let mut i: usize = 0;
        proof {
            assert(ids@.take(0) =~= Seq::<IdRef>::empty());
        }
        while i < n
            invariant
                self.wf(),
                n == ids@.len(),
                0 <= i <= n,
                visited@.len() == self.items().len(),
                forall|k: int| 0 <= k < selection@.len() ==> selection@[k] < self.items().len(),
                (Walk { visited: visited@, selected: selection@ }) == visit_all(
                    self.items(),
                    ids@.take(i as int),
                    begin,
                    fuel as nat,
                ),
            decreases n - i,
        {
            proof {
                assert(ids@.take(i + 1).drop_last() =~= ids@.take(i as int));
                assert(ids@.take(i + 1).last() == ids@[i as int]);
            }
            self.visit(ids[i], visited, selection, fuel);
            i = i + 1;
        }
        proof {
            assert(ids@.take(n as int) =~= ids@);
        }
    }

    /// Selects the records and free functions that are reached from the
    /// roots, each once, in the order in which a walk from the roots meets
    /// them; with one report for each root that no node declares.
    pub fn select(&self, roots: &Vec<IdRef>) -> (r: (Vec<usize>, Vec<Diagnostic>))
        requires
            self.wf(),
        ensures
            r.0@ == selected_from(self.items(), roots@),
            views(r.1@) == unknown_roots(self.items(), roots@),
            forall|i: int| 0 <= i < r.0@.len() ==> r.0@[i] < self.items().len(),
    {
        let count: usize = self.len();
        let mut visited: Vec<bool> = Vec::new();
        let mut k: usize = 0;
        while k < count
            invariant
                0 <= k <= count,
                visited@.len() == k,
                forall|j: int| 0 <= j < k ==> !visited@[j],
            decreases count - k,
        {
            visited.push(false);
            k = k + 1;
        }
        proof {
            assert(visited@ =~= start(self.items()).visited);
        }
        let mut selection: Vec<usize> = Vec::new();
        self.visit_all(roots, &mut visited, &mut selection, count);
        let mut reports: Vec<Diagnostic> = Vec::new();
        let n: usize = roots.len();
        let mut i: usize = 0;
        proof {
            assert(roots@.take(0) =~= Seq::<IdRef>::empty());
            lemma_views_empty(reports@);
        }
        while i < n
            invariant
                self.wf(),
                n == roots@.len(),
                0 <= i <= n,
                views(reports@) == unknown_roots(self.items(), roots@.take(i as int)),
            decreases n - i,
        {
            proof {
                assert(roots@.take(i + 1).drop_last() =~= roots@.take(i as int));
                assert(roots@.take(i + 1).last() == roots@[i as int]);
            }
            match self.resolve(roots[i]) {
                Some(_) => {},
                None => {
                    let d = Diagnostic::report(
                        roots[i].0,
                        &None,
                        Reject { kind: DiagnosticKind::UnknownId, reference: roots[i].0 },
                    );
                    proof {
                        lemma_views_push(reports@, d);
                    }
                    reports.push(d);
                },
            }
            i = i + 1;
        }
        proof {
            assert(roots@.take(n as int) =~= roots@);
        }
        (selection, reports)
    }
}

} // verus!
