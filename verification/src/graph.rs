//! The identifier index: from the numeral of an identifier to the position
//! of the node that declares it.

use crate::schema::{CastXML, IdRef, Item};
use std::collections::HashMap;
use vstd::prelude::*;

verus! {

broadcast use vstd::std_specs::hash::group_hash_axioms;

/// The position of the first node of `items` that declares `id`.
pub open spec fn find(items: Seq<Item>, id: u64) -> Option<int>
    decreases items.len(),
{
    if items.len() == 0 {
        None
    } else {
        match find(items.drop_last(), id) {
            Some(i) => Some(i),
            None => if items.last().spec_id() == id {
                Some(items.len() - 1)
            } else {
                None
            },
        }
    }
}

/// No identifier is declared twice.
pub open spec fn unique_ids(items: Seq<Item>) -> bool {
    forall|i: int, j: int| 0 <= i < j < items.len() ==> items[i].spec_id() != items[j].spec_id()
}

/// `j` is a position whose identifier an earlier node has declared already.
pub open spec fn redeclares(items: Seq<Item>, j: int) -> bool {
    &&& 0 <= j < items.len()
    &&& exists|i: int| 0 <= i < j && items[i].spec_id() == items[j].spec_id()
}

/// `find` gives the least position that declares `id`, and `None` exactly
/// when no position does.
pub proof fn lemma_find(items: Seq<Item>, id: u64)
    ensures
        match find(items, id) {
            Some(i) => {
                &&& 0 <= i < items.len()
                &&& items[i].spec_id() == id
                &&& forall|j: int| 0 <= j < i ==> items[j].spec_id() != id
            },
            None => forall|j: int| 0 <= j < items.len() ==> items[j].spec_id() != id,
        },
    decreases items.len(),
{
    if items.len() > 0 {
        let init = items.drop_last();
        lemma_find(init, id);
        assert forall|j: int| 0 <= j < init.len() implies init[j] == items[j] by {}
        match find(init, id) {
            Some(i) => {
                assert(init[i] == items[i]);
                assert forall|j: int| 0 <= j < i implies items[j].spec_id() != id by {
                    assert(init[j] == items[j]);
                }
            },
            None => {
                assert forall|j: int| 0 <= j < items.len() - 1 implies items[j].spec_id() != id by {
                    assert(init[j] == items[j]);
                }
            },
        }
    }
}

/// Where identifiers are unique, `find` gives the one position that declares
/// the identifier.
pub proof fn lemma_find_unique(items: Seq<Item>, i: int)
    requires
        unique_ids(items),
        0 <= i < items.len(),
    ensures
        find(items, items[i].spec_id()) == Some(i),
{
    lemma_find(items, items[i].spec_id());
}

/// Why a node table was refused.
#[derive(Debug, Clone, Copy, PartialEq, Eq, Structural)]
pub struct DuplicateId {
    /// The numeral that is declared twice.
    pub id: u64,
    /// The position of the second declaration.
    pub position: usize,
}

/// A node table together with its identifier index.
pub struct Graph {
    doc: CastXML,
    index: HashMap<u64, usize>,
}

impl Graph {
    /// The node table, in document order.
    pub closed spec fn items(&self) -> Seq<Item> {
        self.doc.items@
    }

    /// The format version that the dump declared.
    pub closed spec fn format(&self) -> Seq<char> {
        self.doc.format@
    }

    /// The index holds each declared identifier with its position, and no
    /// identifier is declared twice.
    pub closed spec fn wf(&self) -> bool {
        &&& unique_ids(self.doc.items@)
        &&& forall|k: u64| #[trigger]
            self.index@.contains_key(k) ==> {
                &&& 0 <= self.index@[k] < self.doc.items@.len()
                &&& self.doc.items@[self.index@[k] as int].spec_id() == k
            }
        &&& forall|i: int|
            0 <= i < self.doc.items@.len() ==> self.index@.contains_key(
                #[trigger] self.doc.items@[i].spec_id(),
            )
    }

    /// In a well-formed graph no identifier is declared twice, and the
    /// positions of its nodes fit in a machine word.
    pub proof fn lemma_unique(&self)
        requires
            self.wf(),
        ensures
            unique_ids(self.items()),
            self.items().len() <= usize::MAX,
    {
        vstd::std_specs::vec::axiom_spec_len(&self.doc.items);
    }

    /// Indexes a node table in one pass. The table is refused at the first
    /// node whose identifier an earlier node has declared.
    pub fn build(doc: CastXML) -> (r: Result<Graph, DuplicateId>)
        ensures
            r is Ok <==> unique_ids(doc.items@),
            match r {
                Ok(g) => g.wf() && g.items() == doc.items@ && g.format() == doc.format@,
                Err(e) => {
                    &&& redeclares(doc.items@, e.position as int)
                    &&& forall|j: int| 0 <= j < e.position ==> !redeclares(doc.items@, j)
                    &&& e.id == doc.items@[e.position as int].spec_id()
                },
            },
    {
        let mut index: HashMap<u64, usize> = HashMap::new();
        let n: usize = doc.items.len();
        let mut i: usize = 0;
        while i < n
            invariant
                n == doc.items@.len(),
                0 <= i <= n,
                unique_ids(doc.items@.take(i as int)),
                forall|k: u64| #[trigger]
                    index@.contains_key(k) ==> {
                        &&& 0 <= index@[k] < i
                        &&& doc.items@[index@[k] as int].spec_id() == k
                    },
                forall|j: int| 0 <= j < i ==> index@.contains_key(#[trigger] doc.items@[j].spec_id()),
            decreases n - i,
        {
            let id: u64 = doc.items[i].id().0;
            if index.contains_key(&id) {
                proof {
                    let first = index@[id] as int;
                    assert(redeclares(doc.items@, i as int));
                    assert forall|j: int| 0 <= j < i implies !redeclares(doc.items@, j) by {
                        if redeclares(doc.items@, j) {
                            let w = choose|w: int| 0 <= w < j && doc.items@[w].spec_id() == doc.items@[j].spec_id();
                            assert(doc.items@.take(i as int)[w] == doc.items@[w]);
                            assert(doc.items@.take(i as int)[j] == doc.items@[j]);
                        }
                    }
                    assert(!unique_ids(doc.items@));
                }
                return Err(DuplicateId { id, position: i });
            }
            index.insert(id, i);
            proof {
                let before = doc.items@.take(i as int);
                let after = doc.items@.take(i + 1);
                assert forall|a: int, b: int| 0 <= a < b < after.len() implies after[a].spec_id()
                    != after[b].spec_id() by {
                    if b < i {
                        assert(before[a] == doc.items@[a]);
                        assert(before[b] == doc.items@[b]);
                    }
                }
            }
            i = i + 1;
        }
        proof {
            assert(doc.items@.take(n as int) =~= doc.items@);
        }
        Ok(Graph { doc, index })
    }

    /// The number of nodes.
    pub fn len(&self) -> (n: usize)
        ensures
            n == self.items().len(),
    {
        self.doc.items.len()
    }

    /// The node at a position.
    pub fn node(&self, position: usize) -> (item: &Item)
        requires
            position < self.items().len(),
        ensures
            *item == self.items()[position as int],
    {
        &self.doc.items[position]
    }

    /// The position of the node that a reference names, or `None` for a
    /// dangling reference.
    pub fn resolve(&self, idref: IdRef) -> (r: Option<usize>)
        requires
            self.wf(),
        ensures
            match r {
                Some(p) => find(self.items(), idref.0) == Some(p as int) && p < self.items().len(),
                None => find(self.items(), idref.0) is None,
            },
    {
        proof {
            lemma_find(self.doc.items@, idref.0);
        }
        match self.index.get(&idref.0) {
            Some(p) => {
                proof {
                    lemma_find_unique(self.doc.items@, *p as int);
                }
                Some(*p)
            },
            None => None,
        }
    }
}

} // verus!
