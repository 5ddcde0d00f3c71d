//! Diagnostics: what went wrong, for which declaration, and about which
//! reference.

use crate::model::{copy_text, text_of};
use vstd::prelude::*;
use vstd::string::StringExecFns;

verus! {

/// The kinds of diagnostics.
#[derive(Debug, Clone, Copy, PartialEq, Eq, Structural)]
pub enum DiagnosticKind {
    /// The input could not be opened or read. Fatal.
    IoError,
    /// The document violates the wire grammar. Fatal.
    MalformedDocument,
    /// A reference names no node. The entity is skipped.
    UnknownId,
    /// A chain of bases returns to where it began. The chain is cut.
    CyclicInheritance,
    /// A kind or a type shape that has no place in the tree. The declaration
    /// is skipped.
    UnsupportedConstruct,
    /// A value violates its encoding.
    InvalidAttributeValue,
}

impl DiagnosticKind {
    /// Whether a diagnostic of this kind ends the run.
    pub open spec fn spec_is_fatal(self) -> bool {
        self is IoError || self is MalformedDocument
    }

    /// Whether a diagnostic of this kind ends the run.
    pub fn is_fatal(self) -> (r: bool)
        ensures
            r == self.spec_is_fatal(),
    {
        match self {
            DiagnosticKind::IoError => true,
            DiagnosticKind::MalformedDocument => true,
            _ => false,
        }
    }

    /// The message that goes with a kind.
    pub open spec fn text(self) -> Seq<char> {
        match self {
            DiagnosticKind::IoError => "input cannot be read"@,
            DiagnosticKind::MalformedDocument => "document is malformed"@,
            DiagnosticKind::UnknownId => "reference to an unknown id"@,
            DiagnosticKind::CyclicInheritance => "base chain is cyclic"@,
            DiagnosticKind::UnsupportedConstruct => "construct is not supported"@,
            DiagnosticKind::InvalidAttributeValue => "attribute value is invalid"@,
        }
    }

    /// The message that goes with a kind.
    pub fn describe(self) -> (r: String)
        ensures
            r@ == self.text(),
    {
        match self {
            DiagnosticKind::IoError => String::from_str("input cannot be read"),
            DiagnosticKind::MalformedDocument => String::from_str("document is malformed"),
            DiagnosticKind::UnknownId => String::from_str("reference to an unknown id"),
            DiagnosticKind::CyclicInheritance => String::from_str("base chain is cyclic"),
            DiagnosticKind::UnsupportedConstruct => String::from_str("construct is not supported"),
            DiagnosticKind::InvalidAttributeValue => String::from_str("attribute value is invalid"),
        }
    }
}

/// Why something could not be resolved: the kind of failure and the
/// numeral of the identifier at which it showed.
#[derive(Debug, Clone, Copy, PartialEq, Eq, Structural)]
pub struct Reject {
    pub kind: DiagnosticKind,
    pub reference: u64,
}

/// One entry of the diagnostics list.
#[derive(Debug, Clone, PartialEq, Eq)]
pub struct Diagnostic {
    /// The numeral of the declaration that the diagnostic is about.
    pub declaration: u64,
    /// Where the declaration stands in the source, if the dump says so.
    pub location: Option<String>,
    pub kind: DiagnosticKind,
    /// The numeral of the identifier at which the failure showed.
    pub reference: u64,
    pub message: String,
}

/// What a diagnostic is, with sequences in place of strings.
pub ghost struct DiagnosticView {
    pub declaration: u64,
    pub location: Option<Seq<char>>,
    pub kind: DiagnosticKind,
    pub reference: u64,
    pub message: Seq<char>,
}

impl View for Diagnostic {
    type V = DiagnosticView;

    open spec fn view(&self) -> DiagnosticView {
        DiagnosticView {
            declaration: self.declaration,
            location: text_of(self.location),
            kind: self.kind,
            reference: self.reference,
            message: self.message@,
        }
    }
}

/// The diagnostic that reports `reject` for a declaration.
pub open spec fn report_of(declaration: u64, location: Option<Seq<char>>, reject: Reject) -> DiagnosticView {
    DiagnosticView {
        declaration,
        location,
        kind: reject.kind,
        reference: reject.reference,
        message: reject.kind.text(),
    }
}

impl Diagnostic {
    /// Reports `reject` for a declaration.
    pub fn report(declaration: u64, location: &Option<String>, reject: Reject) -> (d: Diagnostic)
        ensures
            d@ == report_of(declaration, text_of(*location), reject),
    {
        Diagnostic {
            declaration,
            location: copy_text(location),
            kind: reject.kind,
            reference: reject.reference,
            message: reject.kind.describe(),
        }
    }
}

} // verus!
