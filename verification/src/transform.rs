//! The transform: every record and free function of the node table, in
//! document order, lowered or reported.

use crate::ast::{ASTView, Item, ItemView, RecordKind, AST};
use crate::bases::{as_record, record_of};
use crate::closure::{lemma_selection_closed, lemma_tree_closed, tree_closed};
use crate::decl::lower_function;
use crate::diag::{report_of, Diagnostic, DiagnosticKind, DiagnosticView, Reject};
use crate::graph::{find, redeclares, unique_ids, Graph};
use crate::text::{id_from, id_numeral, parse_idref, split_tokens, tokens};
use crate::model::{lemma_views_add, lemma_views_empty, lemma_views_push, text_of, views};
use crate::reach::{selected_from, unknown_roots};
use crate::record::{lower_record, record_reports};
use crate::schema;
use crate::schema::CastXML;
use std::sync::Arc;
use vstd::prelude::*;

verus! {

/// The free function that a node is, if it is one.
pub open spec fn as_function(item: schema::Item) -> Option<schema::Function> {
    match item {
        schema::Item::Function(f) => Some(f),
        schema::Item::OperatorFunction(f) => Some(f),
        _ => None,
    }
}

/// The declaration that the node at position `i` contributes to the tree:
/// a record as lowered, a free function where it can be lowered, and
/// nothing for any other node.
pub open spec fn item_output(items: Seq<schema::Item>, i: int) -> Option<ItemView> {
    match as_record(items[i]) {
        Some(pair) => Some(ItemView::Record(lower_record(items, i as usize, pair.0, pair.1))),
        None => match as_function(items[i]) {
            None => None,
            Some(f) => match lower_function(items, f) {
                Ok(x) => Some(ItemView::Function(x)),
                Err(_) => None,
            },
        },
    }
}

/// What the node at position `i` adds to the diagnostics: the reports of a
/// record, and one report for a free function that cannot be lowered.
pub open spec fn item_reports(items: Seq<schema::Item>, i: int) -> Seq<DiagnosticView> {
    match as_record(items[i]) {
        Some(pair) => record_reports(items, i as usize, pair.0),
        None => match as_function(items[i]) {
            None => Seq::empty(),
            Some(f) => match lower_function(items, f) {
                Ok(_) => Seq::empty(),
                Err(e) => seq![report_of(f.id.0, text_of(f.location), e)],
            },
        },
    }
}

/// The declarations that the first `k` nodes contribute, in document order.
pub open spec fn transformed(items: Seq<schema::Item>, k: int) -> Seq<ItemView>
    decreases k,
{
    if k <= 0 {
        Seq::empty()
    } else {
        match item_output(items, k - 1) {
            Some(x) => transformed(items, k - 1).push(x),
            None => transformed(items, k - 1),
        }
    }
}

/// The diagnostics of the first `k` nodes, in document order.
pub open spec fn reported(items: Seq<schema::Item>, k: int) -> Seq<DiagnosticView>
    decreases k,
{
    if k <= 0 {
        Seq::empty()
    } else {
        reported(items, k - 1) + item_reports(items, k - 1)
    }
}

/// The tree of a node table.
pub open spec fn tree_of(items: Seq<schema::Item>) -> ASTView {
    ASTView { items: transformed(items, items.len() as int) }
}

/// The diagnostics of a node table.
pub open spec fn diagnostics_of(items: Seq<schema::Item>) -> Seq<DiagnosticView> {
    reported(items, items.len() as int)
}

/// The declarations that the nodes at `positions` contribute, in the order
/// of the positions.
pub open spec fn transformed_at(items: Seq<schema::Item>, positions: Seq<usize>) -> Seq<ItemView>
    decreases positions.len(),
{
    if positions.len() == 0 {
        Seq::empty()
    } else {
        match item_output(items, positions.last() as int) {
            Some(x) => transformed_at(items, positions.drop_last()).push(x),
            None => transformed_at(items, positions.drop_last()),
        }
    }
}

/// The diagnostics of the nodes at `positions`, in the order of the
/// positions.
pub open spec fn reported_at(items: Seq<schema::Item>, positions: Seq<usize>) -> Seq<DiagnosticView>
    decreases positions.len(),
{
    if positions.len() == 0 {
        Seq::empty()
    } else {
        reported_at(items, positions.drop_last()) + item_reports(items, positions.last() as int)
    }
}

/// The tree of what is reached from the roots.
pub open spec fn tree_within(items: Seq<schema::Item>, roots: Seq<schema::IdRef>) -> ASTView {
    ASTView { items: transformed_at(items, selected_from(items, roots)) }
}

/// The diagnostics of what is reached from the roots: of the roots that no
/// node declares, then of the declarations in the order of the tree.
pub open spec fn diagnostics_within(items: Seq<schema::Item>, roots: Seq<schema::IdRef>) -> Seq<
    DiagnosticView,
> {
    unknown_roots(items, roots) + reported_at(items, selected_from(items, roots))
}

/// The fatal diagnostic for a table in which position `j` declares an
/// identifier again.
pub open spec fn redeclared(items: Seq<schema::Item>, j: int) -> DiagnosticView {
    report_of(
        items[j].spec_id(),
        None,
        Reject { kind: DiagnosticKind::MalformedDocument, reference: items[j].spec_id() },
    )
}

/// The node that an identifier, as written, names: none where the text is
/// no identifier, and none where no node declares it.
pub open spec fn named_node(items: Seq<schema::Item>, text: Seq<char>) -> Option<schema::Item> {
    match id_numeral(text) {
        None => None,
        Some(n) => match find(items, n) {
            None => None,
            Some(p) => Some(items[p]),
        },
    }
}

/// The nodes that the tokens name, in the order of the tokens; a token
/// that names no node is passed over.
pub open spec fn listed_nodes(items: Seq<schema::Item>, parts: Seq<Seq<char>>) -> Seq<schema::Item>
    decreases parts.len(),
{
    if parts.len() == 0 {
        Seq::empty()
    } else {
        let front = listed_nodes(items, parts.drop_last());
        match named_node(items, parts.last()) {
            Some(item) => front.push(item),
            None => front,
        }
    }
}

/// The free function that a node is, if it is one.
pub fn function_of(item: &schema::Item) -> (r: Option<&schema::Function>)
    ensures
        match r {
            Some(f) => as_function(*item) == Some(*f),
            None => as_function(*item) is None,
        },
{
    match item {
        schema::Item::Function(f) => Some(f),
        schema::Item::OperatorFunction(f) => Some(f),
        _ => None,
    }
}

/// A run of the transform over one graph: the declarations and the
/// diagnostics gathered so far.
pub struct Transform<'a> {
    input: &'a Graph,
    output: AST,
    diagnostics: Vec<Diagnostic>,
}

impl<'a> Transform<'a> {
    /// The node table that the run reads.
    pub closed spec fn items(&self) -> Seq<schema::Item> {
        self.input.items()
    }

    /// The declarations gathered so far.
    pub closed spec fn gathered(&self) -> Seq<ItemView> {
        views(self.output.items@)
    }

    /// The diagnostics gathered so far.
    pub closed spec fn noted(&self) -> Seq<DiagnosticView> {
        views(self.diagnostics@)
    }

    /// The graph that the run reads is well formed.
    pub closed spec fn wf(&self) -> bool {
        self.input.wf()
    }

    /// A run that has gathered nothing yet.
    pub fn new(input: &'a Graph) -> (t: Transform<'a>)
        requires
            input.wf(),
        ensures
            t.wf(),
            t.items() == input.items(),
            t.gathered() == Seq::<ItemView>::empty(),
            t.noted() == Seq::<DiagnosticView>::empty(),
    {
        let t = Transform { input, output: AST { items: Vec::new() }, diagnostics: Vec::new() };
        proof {
            lemma_views_empty(t.output.items@);
            lemma_views_empty(t.diagnostics@);
        }
        t
    }

    /// The node that an identifier, as written, names.
    pub fn idref_to_item(&self, idref: &str) -> (r: Option<&'a schema::Item>)
        requires
            self.wf(),
        ensures
            match r {
                Some(item) => named_node(self.items(), idref@) == Some(*item),
                None => named_node(self.items(), idref@) is None,
            },
    {
        let input: &'a Graph = self.input;
        match parse_idref(idref) {
            None => None,
            Some(reference) => input.idref_to_item(reference),
        }
    }

    /// The members that a list of identifiers, as written, names: the node
    /// of each identifier that resolves, in the order of the list.
    pub fn iter_members(&self, members: &str) -> (r: Vec<&'a schema::Item>)
        requires
            self.wf(),
        ensures
            r@.len() == listed_nodes(self.items(), tokens(members@)).len(),
            forall|i: int|
                0 <= i < r@.len() ==> *(#[trigger] r@[i]) == listed_nodes(self.items(), tokens(members@))[i],
    {
        let input: &'a Graph = self.input;
        let parts = split_tokens(members);
        let mut out: Vec<&'a schema::Item> = Vec::new();
        let n: usize = parts.len();
        let mut i: usize = 0;
        let ghost all = tokens(members@);
        proof {
            assert(all.take(0) =~= Seq::<Seq<char>>::empty());
        }
        while i < n
            invariant
                n == parts@.len(),
                0 <= i <= n,
                input.wf(),
                input.items() == self.items(),
                views(parts@) == all,
                out@.len() == listed_nodes(self.items(), all.take(i as int)).len(),
                forall|j: int|
                    0 <= j < out@.len() ==> *(#[trigger] out@[j]) == listed_nodes(
                        self.items(),
                        all.take(i as int),
                    )[j],
            decreases n - i,
        {
            proof {
                assert(all.take(i + 1).drop_last() =~= all.take(i as int));
                assert(all.take(i + 1).last() == parts@[i as int]@);
            }
            let ghost before = listed_nodes(self.items(), all.take(i as int));
            match id_from(&parts[i]) {
                None => {},
                Some(numeral) => match input.idref_to_item(schema::IdRef(numeral)) {
                    None => {},
                    Some(item) => {
                        out.push(item);
                        proof {
                            let after = listed_nodes(self.items(), all.take(i + 1));
                            assert forall|j: int| 0 <= j < out@.len() implies *(#[trigger] out@[j])
                                == after[j] by {
                                if j < before.len() {
                                    assert(after[j] == before[j]);
                                }
                            }
                        }
                    },
                },
            }
            i = i + 1;
        }
        proof {
            assert(all.take(n as int) =~= all);
        }
        out
    }

    /// Lowers the record `kls` at position `root` and appends it, with its
    /// reports, to what the run has gathered.
    pub fn apply_class(&mut self, root: usize, kls: &schema::Record, kind: RecordKind)
        requires
            old(self).wf(),
        ensures
            final(self).wf(),
            final(self).items() == old(self).items(),
            final(self).gathered() == old(self).gathered().push(
                ItemView::Record(lower_record(old(self).items(), root, *kls, kind)),
            ),
            final(self).noted() == old(self).noted() + record_reports(old(self).items(), root, *kls),
    {
        let (record, mut reports) = self.input.lower_record(root, kls, kind);
        let item = Arc::new(Item::Record(record));
        proof {
            lemma_views_push(self.output.items@, item);
            lemma_views_add(self.diagnostics@, reports@);
        }
        self.output.items.push(item);
        self.diagnostics.append(&mut reports);
    }

    /// Lowers the free function `f` and appends it to what the run has
    /// gathered, or appends the report of why it cannot be lowered.
    pub fn apply_function(&mut self, f: &schema::Function)
        requires
            old(self).wf(),
        ensures
            final(self).wf(),
            final(self).items() == old(self).items(),
            match lower_function(old(self).items(), *f) {
                Ok(x) => {
                    &&& final(self).gathered() == old(self).gathered().push(ItemView::Function(x))
                    &&& final(self).noted() == old(self).noted()
                },
                Err(e) => {
                    &&& final(self).gathered() == old(self).gathered()
                    &&& final(self).noted() == old(self).noted().push(
                        report_of(f.id.0, text_of(f.location), e),
                    )
                },
            },
    {
        match self.input.lower_function(f) {
            Ok(x) => {
                let item = Arc::new(Item::Function(x));
                proof {
                    lemma_views_push(self.output.items@, item);
                }
                self.output.items.push(item);
            },
            Err(e) => {
                let d = Diagnostic::report(f.id.0, &f.location, e);
                proof {
                    lemma_views_push(self.diagnostics@, d);
                }
                self.diagnostics.push(d);
            },
        }
    }

    /// Applies the node at a position: a record or a free function is
    /// lowered and appended, with its reports, to what the run has
    /// gathered; any other node is passed over.
    pub fn apply_at(&mut self, position: usize)
        requires
            old(self).wf(),
            position < old(self).items().len(),
        ensures
            final(self).wf(),
            final(self).items() == old(self).items(),
            final(self).gathered() == match item_output(old(self).items(), position as int) {
                Some(x) => old(self).gathered().push(x),
                None => old(self).gathered(),
            },
            final(self).noted() == old(self).noted() + item_reports(old(self).items(), position as int),
    {
        let input: &'a Graph = self.input;
        let item: &schema::Item = input.node(position);
        let ghost noted = self.noted();
        match record_of(item) {
            Some(pair) => {
                self.apply_class(position, pair.0, pair.1);
            },
            None => match function_of(item) {
                Some(f) => {
                    self.apply_function(f);
                    proof {
                        match lower_function(self.items(), *f) {
                            Ok(_) => {
                                assert(noted + Seq::<DiagnosticView>::empty() =~= noted);
                            },
                            Err(e) => {
                                let d = report_of(f.id.0, text_of(f.location), e);
                                assert(noted.push(d) =~= noted + seq![d]);
                            },
                        }
                    }
                },
                None => {
                    proof {
                        assert(noted + Seq::<DiagnosticView>::empty() =~= noted);
                    }
                },
            },
        }
    }

    /// Walks the node table in document order and applies every record and
    /// every free function.
    pub fn apply_root(&mut self)
        requires
            old(self).wf(),
        ensures
            final(self).wf(),
            final(self).items() == old(self).items(),
            final(self).gathered() == old(self).gathered() + tree_of(old(self).items()).items,
            final(self).noted() == old(self).noted() + diagnostics_of(old(self).items()),
    {
        let input: &'a Graph = self.input;
        let n: usize = input.len();
        let mut i: usize = 0;
        let ghost items = self.items();
        let ghost gathered = self.gathered();
        let ghost noted = self.noted();
        proof {
            assert(gathered + transformed(items, 0) =~= gathered);
            assert(noted + reported(items, 0) =~= noted);
        }
        while i < n
            invariant
                self.wf(),
                self.items() == items,
                n == items.len(),
                0 <= i <= n,
                self.gathered() == gathered + transformed(items, i as int),
                self.noted() == noted + reported(items, i as int),
            decreases n - i,
        {
            self.apply_at(i);
            proof {
                let front = transformed(items, i as int);
                match item_output(items, i as int) {
                    Some(x) => {
                        assert((gathered + front).push(x) =~= gathered + front.push(x));
                    },
                    None => {},
                }
                assert((noted + reported(items, i as int)) + item_reports(items, i as int) =~= noted
                    + reported(items, i + 1));
            }
            i = i + 1;
        }
    }

    /// Applies the nodes at the positions, in order.
    pub fn apply_selection(&mut self, positions: &Vec<usize>)
        requires
            old(self).wf(),
            forall|i: int| 0 <= i < positions@.len() ==> positions@[i] < old(self).items().len(),
        ensures
            final(self).wf(),
            final(self).items() == old(self).items(),
            final(self).gathered() == old(self).gathered() + transformed_at(old(self).items(), positions@),
            final(self).noted() == old(self).noted() + reported_at(old(self).items(), positions@),
    {
        let n: usize = positions.len();
        let mut i: usize = 0;
        let ghost items = self.items();
        let ghost gathered = self.gathered();
        let ghost noted = self.noted();
        proof {
            assert(positions@.take(0) =~= Seq::<usize>::empty());
            assert(gathered + Seq::<ItemView>::empty() =~= gathered);
            assert(noted + Seq::<DiagnosticView>::empty() =~= noted);
        }
        while i < n
            invariant
                self.wf(),
                self.items() == items,
                n == positions@.len(),
                0 <= i <= n,
                forall|k: int| 0 <= k < positions@.len() ==> positions@[k] < items.len(),
                self.gathered() == gathered + transformed_at(items, positions@.take(i as int)),
                self.noted() == noted + reported_at(items, positions@.take(i as int)),
            decreases n - i,
        {
            proof {
                assert(positions@.take(i + 1).drop_last() =~= positions@.take(i as int));
                assert(positions@.take(i + 1).last() == positions@[i as int]);
            }
            self.apply_at(positions[i]);
            proof {
                let front = transformed_at(items, positions@.take(i as int));
                match item_output(items, positions@[i as int] as int) {
                    Some(x) => {
                        assert((gathered + front).push(x) =~= gathered + front.push(x));
                    },
                    None => {},
                }
                assert((noted + reported_at(items, positions@.take(i as int))) + item_reports(
                    items,
                    positions@[i as int] as int,
                ) =~= noted + reported_at(items, positions@.take(i + 1)));
            }
            i = i + 1;
        }
        proof {
            assert(positions@.take(n as int) =~= positions@);
        }
    }

    /// Transforms what is reached from the roots: the tree of the records
    /// and free functions that a walk from the roots through the member
    /// lists of namespaces and records meets, in the order in which it
    /// meets them, and the diagnostics of the run.
    pub fn apply_within(cast_xml: &'a Graph, roots: &Vec<schema::IdRef>) -> (r: (AST, Vec<Diagnostic>))
        requires
            cast_xml.wf(),
        ensures
            r.0@ == tree_within(cast_xml.items(), roots@),
            views(r.1@) == diagnostics_within(cast_xml.items(), roots@),
            tree_closed(cast_xml.items(), r.0@),
    {
        let (positions, reports) = cast_xml.select(roots);
        let mut transform = Transform { input: cast_xml, output: AST { items: Vec::new() }, diagnostics: reports };
        proof {
            lemma_views_empty(transform.output.items@);
        }
        transform.apply_selection(&positions);
        proof {
            cast_xml.lemma_unique();
            lemma_selection_closed(cast_xml.items(), positions@);
            assert(Seq::<ItemView>::empty() + transformed_at(cast_xml.items(), positions@)
                =~= transformed_at(cast_xml.items(), positions@));
        }
        (transform.output, transform.diagnostics)
    }

    /// Transforms a graph: the tree of its node table and the diagnostics
    /// of the run.
    pub fn apply(cast_xml: &'a Graph) -> (r: (AST, Vec<Diagnostic>))
        requires
            cast_xml.wf(),
        ensures
            r.0@ == tree_of(cast_xml.items()),
            views(r.1@) == diagnostics_of(cast_xml.items()),
            tree_closed(cast_xml.items(), r.0@),
    {
        let mut transform = Transform::new(cast_xml);
        transform.apply_root();
        proof {
            cast_xml.lemma_unique();
            lemma_tree_closed(cast_xml.items());
            assert(Seq::<ItemView>::empty() + tree_of(cast_xml.items()).items =~= tree_of(
                cast_xml.items(),
            ).items);
            assert(Seq::<DiagnosticView>::empty() + diagnostics_of(cast_xml.items()) =~= diagnostics_of(
                cast_xml.items(),
            ));
        }
        (transform.output, transform.diagnostics)
    }
}

/// `j` is the first position that declares an identifier again.
pub open spec fn first_redeclared(items: Seq<schema::Item>, j: int) -> bool {
    &&& redeclares(items, j)
    &&& forall|k: int| 0 <= k < j ==> !redeclares(items, k)
}

/// What a run over a node table comes to. Where no identifier is declared
/// twice, it is the tree and the diagnostics of the table, and no reference
/// of the tree dangles. Where one is, it is the fatal diagnostic for the
/// first position that declares an identifier again.
pub open spec fn is_outcome(items: Seq<schema::Item>, r: Result<(AST, Vec<Diagnostic>), Diagnostic>) -> bool {
    match r {
        Ok(pair) => {
            &&& unique_ids(items)
            &&& pair.0@ == tree_of(items)
            &&& views(pair.1@) == diagnostics_of(items)
            &&& tree_closed(items, pair.0@)
        },
        Err(d) => exists|j: int| #[trigger] first_redeclared(items, j) && d@ == redeclared(items, j),
    }
}

/// Two runs over one node table agree: both yield a tree, and then the same
/// tree and the same diagnostics, or both end with the same fatal
/// diagnostic.
pub proof fn lemma_transform_deterministic(
    items: Seq<schema::Item>,
    first: Result<(AST, Vec<Diagnostic>), Diagnostic>,
    second: Result<(AST, Vec<Diagnostic>), Diagnostic>,
)
    requires
        is_outcome(items, first),
        is_outcome(items, second),
    ensures
        first is Ok <==> second is Ok,
        first matches Ok(a) ==> second matches Ok(b) ==> a.0@ == b.0@ && views(a.1@) == views(b.1@),
        first matches Err(d) ==> second matches Err(e) ==> d@ == e@,
{
    if first is Err {
        let j = choose|j: int| #[trigger] first_redeclared(items, j) && first->Err_0@ == redeclared(items, j);
        let w = choose|w: int| 0 <= w < j && items[w].spec_id() == items[j].spec_id();
        assert(!unique_ids(items));
    }
    if second is Err {
        let j = choose|j: int| #[trigger] first_redeclared(items, j) && second->Err_0@ == redeclared(items, j);
        let w = choose|w: int| 0 <= w < j && items[w].spec_id() == items[j].spec_id();
        assert(!unique_ids(items));
    }
    if first is Err && second is Err {
        let j = choose|j: int| #[trigger] first_redeclared(items, j) && first->Err_0@ == redeclared(items, j);
        let k = choose|k: int| #[trigger] first_redeclared(items, k) && second->Err_0@ == redeclared(items, k);
        assert(j == k) by {
            if j < k {
                assert(!redeclares(items, j));
            }
            if k < j {
                assert(!redeclares(items, k));
            }
        }
    }
}

/// Indexes a node table and transforms it. A table that declares an
/// identifier twice is malformed: the run ends with one fatal diagnostic
/// for the first position that declares an identifier again, and no tree.
pub fn transform(doc: CastXML) -> (r: Result<(AST, Vec<Diagnostic>), Diagnostic>)
    ensures
        r is Ok <==> unique_ids(doc.items@),
        is_outcome(doc.items@, r),
{
    let ghost items = doc.items@;
    match Graph::build(doc) {
        Ok(graph) => Ok(Transform::apply(&graph)),
        Err(e) => {
            let d = Diagnostic::report(
                e.id,
                &None,
                Reject { kind: DiagnosticKind::MalformedDocument, reference: e.id },
            );
            proof {
                assert(first_redeclared(items, e.position as int));
            }
            Err(d)
        },
    }
}

/// Emits the header text for a tree. Nothing is emitted here: what a header
/// looks like is up to the writer that takes the tree over.
pub fn write_headers(root: &AST) {
}

/// Emits the source text for a tree. Nothing is emitted here: what a source
/// file looks like is up to the writer that takes the tree over.
pub fn write_source(root: &AST) {
}

} // verus!
