//! Flattening of base chains. A record's bases are walked depth first, each
//! branch along a path of records on which none stands twice; a branch that
//! would enter a record of its own path is cyclic and is cut.

use crate::ast::{BaseEntry, BaseView, RecordKind};
use crate::diag::{report_of, DiagnosticKind, DiagnosticView, Reject};
use crate::graph::{find, Graph};
use crate::lower::name_text;
use crate::model::{lemma_views_add, lemma_views_empty, lemma_views_push, text_of, views};
use crate::schema;
use crate::schema::{Access, Base, Item};
use vstd::prelude::*;

verus! {

/// The record that a node is, with its kind, if it is one.
pub open spec fn as_record(item: Item) -> Option<(schema::Record, RecordKind)> {
    match item {
        Item::Struct(r) => Some((r, RecordKind::Struct)),
        Item::Union(r) => Some((r, RecordKind::Union)),
        Item::Class(r) => Some((r, RecordKind::Class)),
        _ => None,
    }
}

/// The record at a position of the table that holds one.
pub open spec fn record_at(items: Seq<Item>, p: usize) -> schema::Record
    recommends
        p < items.len(),
        as_record(items[p as int]) is Some,
{
    match as_record(items[p as int]) {
        Some(pair) => pair.0,
        None => arbitrary(),
    }
}

/// The more restrictive of two access levels.
pub open spec fn restrict(a: Access, b: Access) -> Access {
    if a is Private || b is Private {
        Access::Private
    } else if a is Protected || b is Protected {
        Access::Protected
    } else {
        Access::Public
    }
}

/// The bases reached through the entries `bases` of the record that ends
/// `path`, each entry's branch in turn; `None` where a branch is cyclic.
pub open spec fn base_chain(items: Seq<Item>, bases: Seq<Base>, path: Seq<usize>, access: Access) -> Option<
    Seq<BaseView>,
>
    decreases items.len() - path.len(), 1 + bases.len(),
{
    if bases.len() == 0 {
        Some(Seq::empty())
    } else {
        match base_chain(items, bases.drop_last(), path, access) {
            None => None,
            Some(front) => match base_branch(items, bases.last(), path, access) {
                None => None,
                Some(branch) => Some(front + branch),
            },
        }
    }
}

/// The branch of one base entry: the base itself, then the bases reached
/// through it. An entry that names no record has an empty branch. `None`
/// where the base stands on `path` already, or a branch below it is cyclic.
pub open spec fn base_branch(items: Seq<Item>, b: Base, path: Seq<usize>, access: Access) -> Option<
    Seq<BaseView>,
>
    decreases items.len() - path.len(), 0nat,
{
    match find(items, b.type_.0) {
        None => Some(Seq::empty()),
        Some(p) => match as_record(items[p]) {
            None => Some(Seq::empty()),
            Some(pair) => if path.contains(p as usize) || path.len() >= items.len() {
                None
            } else {
                match base_chain(items, pair.0.base@, path.push(p as usize), restrict(access, b.access)) {
                    None => None,
                    Some(below) => Some(
                        seq![
                            BaseView {
                                id: b.type_.0,
                                name: pair.0.name.text(),
                                access: restrict(access, b.access),
                                virtual_: b.virtual_.0,
                                depth: path.len(),
                            },
                        ] + below,
                    ),
                }
            },
        },
    }
}

/// Whether a chain of bases that begins with one of the entries `bases`
/// returns to the record that `path` began at, through records that stand
/// after that record in the table and of which none is on `path`.
pub open spec fn chain_returns(items: Seq<Item>, bases: Seq<Base>, path: Seq<usize>) -> bool
    decreases items.len() - path.len(), 1 + bases.len(),
{
    bases.len() > 0 && (chain_returns(items, bases.drop_last(), path) || branch_returns(
        items,
        bases.last(),
        path,
    ))
}

/// Whether a chain of bases that begins with the entry `b` returns to the
/// record that `path` began at, through records that stand after that
/// record in the table and of which none is on `path`.
pub open spec fn branch_returns(items: Seq<Item>, b: Base, path: Seq<usize>) -> bool
    decreases items.len() - path.len(), 0nat,
{
    match find(items, b.type_.0) {
        None => false,
        Some(p) => match as_record(items[p]) {
            None => false,
            Some(pair) => if path.len() == 0 {
                false
            } else if p == path[0] {
                true
            } else if p < path[0] || path.contains(p as usize) || path.len() >= items.len() {
                false
            } else {
                chain_returns(items, pair.0.base@, path.push(p as usize))
            },
        },
    }
}

/// The flattened bases that the entries `bases` of the record at position
/// `root` contribute: each entry's branch in turn, a cyclic branch cut.
pub open spec fn root_bases(items: Seq<Item>, bases: Seq<Base>, root: usize) -> Seq<BaseView>
    decreases bases.len(),
{
    if bases.len() == 0 {
        Seq::empty()
    } else {
        root_bases(items, bases.drop_last(), root) + match base_branch(
            items,
            bases.last(),
            seq![root],
            Access::Public,
        ) {
            Some(branch) => branch,
            None => Seq::empty(),
        }
    }
}

/// What is reported of one base entry of the record `rec` at position
/// `root`: a base that no node declares, a base that is no record, or a
/// cycle that returns to `rec` through records that all stand after it.
pub open spec fn base_report(items: Seq<Item>, rec: schema::Record, root: usize, b: Base) -> Option<
    DiagnosticView,
> {
    match find(items, b.type_.0) {
        None => Some(
            report_of(
                rec.id.0,
                text_of(rec.location),
                Reject { kind: DiagnosticKind::UnknownId, reference: b.type_.0 },
            ),
        ),
        Some(p) => match as_record(items[p]) {
            None => Some(
                report_of(
                    rec.id.0,
                    text_of(rec.location),
                    Reject { kind: DiagnosticKind::UnsupportedConstruct, reference: b.type_.0 },
                ),
            ),
            Some(_) => if branch_returns(items, b, seq![root]) {
                Some(
                    report_of(
                        rec.id.0,
                        text_of(rec.location),
                        Reject { kind: DiagnosticKind::CyclicInheritance, reference: b.type_.0 },
                    ),
                )
            } else {
                None
            },
        },
    }
}

/// What is reported of the base entries `bases` of `rec`, in order.
pub open spec fn base_reports(items: Seq<Item>, rec: schema::Record, root: usize, bases: Seq<Base>) -> Seq<
    DiagnosticView,
>
    decreases bases.len(),
{
    if bases.len() == 0 {
        Seq::empty()
    } else {
        let front = base_reports(items, rec, root, bases.drop_last());
        match base_report(items, rec, root, bases.last()) {
            Some(d) => front.push(d),
            None => front,
        }
    }
}

/// A cyclic branch among the first `k` entries makes the whole chain cyclic.
pub proof fn lemma_base_chain_prefix_none(
    items: Seq<Item>,
    bases: Seq<Base>,
    k: int,
    path: Seq<usize>,
    access: Access,
)
    requires
        0 <= k <= bases.len(),
        base_chain(items, bases.take(k), path, access) is None,
    ensures
        base_chain(items, bases, path, access) is None,
    decreases bases.len() - k,
{
    if k == bases.len() {
        assert(bases.take(k) =~= bases);
    } else {
        assert(bases.take(k + 1).drop_last() =~= bases.take(k));
        lemma_base_chain_prefix_none(items, bases, k + 1, path, access);
    }
}

/// A returning chain among the first `k` entries is one of the whole list.
pub proof fn lemma_chain_returns_prefix(items: Seq<Item>, bases: Seq<Base>, k: int, path: Seq<usize>)
    requires
        0 <= k <= bases.len(),
        chain_returns(items, bases.take(k), path),
    ensures
        chain_returns(items, bases, path),
    decreases bases.len() - k,
{
    if k == bases.len() {
        assert(bases.take(k) =~= bases);
    } else {
        assert(bases.take(k + 1).drop_last() =~= bases.take(k));
        lemma_chain_returns_prefix(items, bases, k + 1, path);
    }
}

/// The record that a node is, with its kind, if it is one.
pub fn record_of(item: &Item) -> (r: Option<(&schema::Record, RecordKind)>)
    ensures
        match r {
            Some(pair) => as_record(*item) == Some((*pair.0, pair.1)),
            None => as_record(*item) is None,
        },
{
    match item {
        Item::Struct(r) => Some((r, RecordKind::Struct)),
        Item::Union(r) => Some((r, RecordKind::Union)),
        Item::Class(r) => Some((r, RecordKind::Class)),
        _ => None,
    }
}

/// The more restrictive of two access levels.
pub fn restricted(a: Access, b: Access) -> (r: Access)
    ensures
        r == restrict(a, b),
{
    match (a, b) {
        (Access::Private, _) => Access::Private,
        (_, Access::Private) => Access::Private,
        (Access::Protected, _) => Access::Protected,
        (_, Access::Protected) => Access::Protected,
        _ => Access::Public,
    }
}

/// Whether `p` stands on the path.
pub fn on_path(path: &Vec<usize>, p: usize) -> (r: bool)
    ensures
        r == path@.contains(p),
{
    let n: usize = path.len();
    let mut i: usize = 0;
    while i < n
        invariant
            n == path@.len(),
            0 <= i <= n,
            forall|j: int| 0 <= j < i ==> path@[j] != p,
        decreases n - i,
    {
        if path[i] == p {
            return true;
        }
        i = i + 1;
    }
    false
}

/// The path with one more record at its end.
pub fn extended(path: &Vec<usize>, p: usize) -> (r: Vec<usize>)
    ensures
        r@ == path@.push(p),
{
    let mut out: Vec<usize> = Vec::new();
    let n: usize = path.len();
    let mut i: usize = 0;
    while i < n
        invariant
            n == path@.len(),
            0 <= i <= n,
            out@ == path@.take(i as int),
        decreases n - i,
    {
        out.push(path[i]);
        proof {
            assert(out@ =~= path@.take(i + 1));
        }
        i = i + 1;
    }
    proof {
        assert(path@.take(n as int) =~= path@);
    }
    out.push(p);
    out
}

impl Graph {
    /// Walks the branches of the entries `bases` of the record that ends
    /// `path`.
    pub fn base_chain(&self, bases: &Vec<Base>, path: &Vec<usize>, access: Access) -> (r: Option<
        Vec<BaseEntry>,
    >)
        requires
            self.wf(),
        ensures
            match r {
                Some(v) => base_chain(self.items(), bases@, path@, access) == Some(views(v@)),
                None => base_chain(self.items(), bases@, path@, access) is None,
            },
        decreases self.items().len() - path@.len(), 1 + bases@.len(),
    {
        let mut out: Vec<BaseEntry> = Vec::new();
        let n: usize = bases.len();
        let mut i: usize = 0;
        proof {
            assert(bases@.take(0) =~= Seq::<Base>::empty());
            lemma_views_empty(out@);
        }
        while i < n
            invariant
                self.wf(),
                n == bases@.len(),
                0 <= i <= n,
                base_chain(self.items(), bases@.take(i as int), path@, access) == Some(views(out@)),
            decreases n - i,
        {
            proof {
                assert(bases@.take(i + 1).drop_last() =~= bases@.take(i as int));
                assert(bases@.take(i + 1).last() == bases@[i as int]);
            }
            match self.base_branch(&bases[i], path, access) {
                None => {
                    proof {
                        lemma_base_chain_prefix_none(self.items(), bases@, i + 1, path@, access);
                    }
                    return None;
                },
                Some(mut branch) => {
                    proof {
                        lemma_views_add(out@, branch@);
                    }
                    out.append(&mut branch);
                },
            }
            i = i + 1;
        }
        proof {
            assert(bases@.take(n as int) =~= bases@);
        }
        Some(out)
    }

    /// Walks the branch of one base entry of the record that ends `path`.
    pub fn base_branch(&self, b: &Base, path: &Vec<usize>, access: Access) -> (r: Option<Vec<BaseEntry>>)
        requires
            self.wf(),
        ensures
            match r {
                Some(v) => base_branch(self.items(), *b, path@, access) == Some(views(v@)),
                None => base_branch(self.items(), *b, path@, access) is None,
            },
        decreases self.items().len() - path@.len(), 0nat,
    {
        let mut out: Vec<BaseEntry> = Vec::new();
        proof {
            lemma_views_empty(out@);
        }
        let p: usize = match self.resolve(b.type_) {
            None => {
                return Some(out);
            },
            Some(p) => p,
        };
        let rec: &schema::Record = match record_of(self.node(p)) {
            None => {
                return Some(out);
            },
            Some(pair) => pair.0,
        };
        if on_path(path, p) || path.len() >= self.len() {
            return None;
        }
        let reach: Access = restricted(access, b.access);
        let longer: Vec<usize> = extended(path, p);
        match self.base_chain(&rec.base, &longer, reach) {
            None => None,
            Some(mut below) => {
                let entry = BaseEntry {
                    id: b.type_.0,
                    name: name_text(&rec.name),
                    access: reach,
                    virtual_: b.virtual_.0,
                    depth: path.len(),
                };
                proof {
                    lemma_views_push(out@, entry);
                    lemma_views_add(out@.push(entry), below@);
                    assert(Seq::<BaseView>::empty().push(entry@) =~= seq![entry@]);
                }
                out.push(entry);
                out.append(&mut below);
                Some(out)
            },
        }
    }

    /// Whether a chain that begins with one of the entries `bases` returns
    /// to the record that `path` began at.
    pub fn chain_returns(&self, bases: &Vec<Base>, path: &Vec<usize>) -> (r: bool)
        requires
            self.wf(),
        ensures
            r == chain_returns(self.items(), bases@, path@),
        decreases self.items().len() - path@.len(), 1 + bases@.len(),
    {
        let n: usize = bases.len();
        let mut i: usize = 0;
        proof {
            assert(bases@.take(0) =~= Seq::<Base>::empty());
        }
        while i < n
            invariant
                self.wf(),
                n == bases@.len(),
                0 <= i <= n,
                !chain_returns(self.items(), bases@.take(i as int), path@),
            decreases n - i,
        {
            proof {
                assert(bases@.take(i + 1).drop_last() =~= bases@.take(i as int));
                assert(bases@.take(i + 1).last() == bases@[i as int]);
            }
            if self.branch_returns(&bases[i], path) {
                proof {
                    lemma_chain_returns_prefix(self.items(), bases@, i + 1, path@);
                }
                return true;
            }
            i = i + 1;
        }
        proof {
            assert(bases@.take(n as int) =~= bases@);
        }
        false
    }

    /// Whether a chain that begins with the entry `b` returns to the record
    /// that `path` began at.
    pub fn branch_returns(&self, b: &Base, path: &Vec<usize>) -> (r: bool)
        requires
            self.wf(),
        ensures
            r == branch_returns(self.items(), *b, path@),
        decreases self.items().len() - path@.len(), 0nat,
    {
        let p: usize = match self.resolve(b.type_) {
            None => {
                return false;
            },
            Some(p) => p,
        };
        let rec: &schema::Record = match record_of(self.node(p)) {
            None => {
                return false;
            },
            Some(pair) => pair.0,
        };
        if path.len() == 0 {
            return false;
        }
        if p == path[0] {
            return true;
        }
        if p < path[0] || on_path(path, p) || path.len() >= self.len() {
            return false;
        }
        let longer: Vec<usize> = extended(path, p);
        self.chain_returns(&rec.base, &longer)
    }
}

} // verus!
