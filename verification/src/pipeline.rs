//! The whole run: a raw document is ingested, indexed and transformed. A
//! violation of the wire grammar ends it with one fatal diagnostic.

use crate::ast::AST;
use crate::model::{lemma_views_add, views};
use crate::closure::tree_closed;
use crate::diag::{Diagnostic, DiagnosticKind, DiagnosticView};
use crate::document::{document_is, document_notes, document_violation, ingest};
use crate::graph::unique_ids;
use crate::raw::{subject, Fault, Malformed, MalformedView, RawDocument};
use crate::schema::{CastXML, Item};
use crate::transform::{diagnostics_of, first_redeclared, redeclared, transform, tree_of};
use vstd::prelude::*;
use vstd::string::StringExecFns;

verus! {

/// What a fault is called in a message.
pub open spec fn fault_text(fault: Fault) -> Seq<char> {
    match fault {
        Fault::UnknownRoot => ": unknown root element"@,
        Fault::UnknownElement => ": unknown element"@,
        Fault::MissingAttribute => ": required attribute is missing: "@,
        Fault::InvalidValue => ": attribute value is invalid: "@,
    }
}

/// The fatal diagnostic for a violation of the wire grammar. Its message
/// names the kind of the element, the fault, and the attribute.
pub open spec fn fatal_of(m: MalformedView) -> DiagnosticView {
    DiagnosticView {
        declaration: subject(m.id),
        location: None,
        kind: DiagnosticKind::MalformedDocument,
        reference: subject(m.id),
        message: m.element + fault_text(m.fault) + m.attribute,
    }
}

impl Malformed {
    /// The fatal diagnostic for the violation.
    pub fn diagnostic(&self) -> (d: Diagnostic)
        ensures
            d@ == fatal_of(self@),
            d@.kind.spec_is_fatal(),
    {
        let subject: u64 = match self.id {
            Some(id) => id,
            None => 0,
        };
        let mut message: String = self.element.clone();
        match self.fault {
            Fault::UnknownRoot => message.append(": unknown root element"),
            Fault::UnknownElement => message.append(": unknown element"),
            Fault::MissingAttribute => message.append(": required attribute is missing: "),
            Fault::InvalidValue => message.append(": attribute value is invalid: "),
        }
        message.append(self.attribute.as_str());
        Diagnostic {
            declaration: subject,
            location: None,
            kind: DiagnosticKind::MalformedDocument,
            reference: subject,
            message,
        }
    }
}

/// What a run comes to that has ingested a node table and noted `notes` on
/// the way. Where no identifier is declared twice, it is the tree of the
/// table, in which no reference dangles, and the notes followed by the
/// diagnostics of the table. Where one is, it is the fatal diagnostic for
/// the first position that declares an identifier again.
pub open spec fn follows(
    items: Seq<Item>,
    notes: Seq<DiagnosticView>,
    r: Result<(AST, Vec<Diagnostic>), Diagnostic>,
) -> bool {
    match r {
        Ok(pair) => {
            &&& unique_ids(items)
            &&& pair.0@ == tree_of(items)
            &&& views(pair.1@) == notes + diagnostics_of(items)
            &&& tree_closed(items, pair.0@)
        },
        Err(x) => exists|j: int| #[trigger] first_redeclared(items, j) && x@ == redeclared(items, j),
    }
}

/// What a run over a raw document comes to. Where the document violates
/// the wire grammar, it is the fatal diagnostic for the first violation.
/// Where it does not, it is what follows from a node table that is what
/// the document holds, and from what ingestion notes of the document.
pub open spec fn is_result(d: RawDocument, r: Result<(AST, Vec<Diagnostic>), Diagnostic>) -> bool {
    match document_violation(d) {
        Some(m) => r matches Err(x) && x@ == fatal_of(m),
        None => exists|doc: CastXML| #[trigger]
            document_is(d, doc) && follows(doc.items@, document_notes(d), r),
    }
}

/// Runs the whole pipeline on a raw document: the tree and the diagnostics
/// of the run, or one fatal diagnostic and no tree.
pub fn run(d: &RawDocument) -> (r: Result<(AST, Vec<Diagnostic>), Diagnostic>)
    ensures
        is_result(*d, r),
{
    match ingest(d) {
        Err(m) => Err(m.diagnostic()),
        Ok((doc, mut notes)) => {
            let ghost table = doc;
            let ghost noted = views(notes@);
            match transform(doc) {
                Ok((tree, mut diagnostics)) => {
                    proof {
                        lemma_views_add(notes@, diagnostics@);
                    }
                    notes.append(&mut diagnostics);
                    let r = Ok((tree, notes));
                    proof {
                        assert(document_is(*d, table) && follows(table.items@, noted, r));
                    }
                    r
                },
                Err(fatal) => {
                    let r = Err(fatal);
                    proof {
                        assert(document_is(*d, table) && follows(table.items@, noted, r));
                    }
                    r
                },
            }
        },
    }
}

} // verus!
