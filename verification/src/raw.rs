//! The raw form of a dump: elements with their attributes as text, before
//! anything is decoded; and the checked reading of single attributes.

use crate::diag::{Diagnostic, DiagnosticKind, DiagnosticView};
use crate::model::{lemma_views_empty, lemma_views_push, views};
use crate::schema::{Access, Bool, Empty, IdRef, Name, NameOrEmpty};
use crate::text::{
    access_word, flag_value, id_numeral, idref_list, integer, numeral, numerals_of,
    parse_access, parse_flag, parse_idref, parse_idrefs, parse_integer, parse_number,
};
use vstd::prelude::*;
use vstd::string::StringExecFns;

verus! {

/// One attribute of an element, as written.
#[derive(Debug, Clone, PartialEq, Eq)]
pub struct RawAttribute {
    pub name: String,
    pub value: String,
}

/// A child element: an argument, a base or an enumerator.
#[derive(Debug, Clone, PartialEq, Eq)]
pub struct RawChild {
    pub tag: String,
    pub attributes: Vec<RawAttribute>,
}

/// A declaration element.
#[derive(Debug, Clone, PartialEq, Eq)]
pub struct RawElement {
    pub tag: String,
    pub attributes: Vec<RawAttribute>,
    pub children: Vec<RawChild>,
}

/// A whole dump: the root element's tag and attributes, and the declaration
/// elements in document order.
#[derive(Debug, Clone, PartialEq, Eq)]
pub struct RawDocument {
    pub root: String,
    pub attributes: Vec<RawAttribute>,
    pub elements: Vec<RawElement>,
}

/// In what way a document violates the wire grammar.
#[derive(Debug, Clone, Copy, PartialEq, Eq, Structural)]
pub enum Fault {
    /// The root element is none of the known ones.
    UnknownRoot,
    /// The element is of no known kind.
    UnknownElement,
    /// A required attribute is absent.
    MissingAttribute,
    /// An attribute's value violates its encoding.
    InvalidValue,
}

/// A violation of the wire grammar: the kind of the element, the numeral of
/// its identifier where that was decoded before the violation showed, the
/// attribute, and the fault.
#[derive(Debug, Clone, PartialEq, Eq)]
pub struct Malformed {
    pub element: String,
    pub id: Option<u64>,
    pub attribute: String,
    pub fault: Fault,
}

/// What a violation is.
pub ghost struct MalformedView {
    pub element: Seq<char>,
    pub id: Option<u64>,
    pub attribute: Seq<char>,
    pub fault: Fault,
}

impl View for Malformed {
    type V = MalformedView;

    open spec fn view(&self) -> MalformedView {
        MalformedView { element: self.element@, id: self.id, attribute: self.attribute@, fault: self.fault }
    }
}

/// The position of the first attribute of the name.
pub open spec fn attribute_index(attrs: Seq<RawAttribute>, name: Seq<char>) -> Option<int>
    decreases attrs.len(),
{
    if attrs.len() == 0 {
        None
    } else {
        match attribute_index(attrs.drop_last(), name) {
            Some(i) => Some(i),
            None => if attrs.last().name@ == name {
                Some(attrs.len() - 1)
            } else {
                None
            },
        }
    }
}

/// The value of the first attribute of the name, if there is one.
pub open spec fn lookup(attrs: Seq<RawAttribute>, name: Seq<char>) -> Option<Seq<char>> {
    match attribute_index(attrs, name) {
        Some(i) => Some(attrs[i].value@),
        None => None,
    }
}

/// `attribute_index` gives the least position of the name, and `None`
/// exactly where no attribute has the name.
pub proof fn lemma_attribute_index(attrs: Seq<RawAttribute>, name: Seq<char>)
    ensures
        match attribute_index(attrs, name) {
            Some(i) => {
                &&& 0 <= i < attrs.len()
                &&& attrs[i].name@ == name
                &&& forall|j: int| 0 <= j < i ==> attrs[j].name@ != name
            },
            None => forall|j: int| 0 <= j < attrs.len() ==> attrs[j].name@ != name,
        },
    decreases attrs.len(),
{
    if attrs.len() > 0 {
        let init = attrs.drop_last();
        lemma_attribute_index(init, name);
        assert forall|j: int| 0 <= j < init.len() implies init[j] == attrs[j] by {}
        match attribute_index(init, name) {
            Some(i) => {
                assert(init[i] == attrs[i]);
                assert forall|j: int| 0 <= j < i implies attrs[j].name@ != name by {
                    assert(init[j] == attrs[j]);
                }
            },
            None => {
                assert forall|j: int| 0 <= j < attrs.len() - 1 implies attrs[j].name@ != name by {
                    assert(init[j] == attrs[j]);
                }
            },
        }
    }
}

/// What an attribute's value has to be.
#[derive(Debug, Clone, Copy, PartialEq, Eq, Structural)]
pub enum Shape {
    /// Any text.
    Text,
    /// An identifier.
    Reference,
    /// A list of identifiers delimited by whitespace.
    References,
    /// A number of 64 bits.
    Number,
    /// A number of 32 bits.
    Short,
    /// An integer of 64 bits, with its sign.
    Integer,
    /// A presence-encoded flag.
    Flag,
    /// An access word.
    AccessWord,
}

/// Whether the value has the shape.
pub open spec fn shaped(shape: Shape, value: Seq<char>) -> bool {
    match shape {
        Shape::Text => true,
        Shape::Reference => id_numeral(value) is Some,
        Shape::References => idref_list(value) is Some,
        Shape::Number => numeral(value) is Some,
        Shape::Short => numeral(value) matches Some(n) && n <= u32::MAX,
        Shape::Integer => integer(value) is Some,
        Shape::Flag => flag_value(Some(value)) is Some,
        Shape::AccessWord => access_word(value) is Some,
    }
}

/// Whether a value that has not the shape spoils the document. It does for
/// identifiers; any other ill-encoded value is noted, and the run goes on.
pub open spec fn strict(shape: Shape) -> bool {
    shape is Reference || shape is References
}

/// What is wrong with one attribute of a list in a way that ends the run:
/// it is absent though required, or it is no identifier where one has to
/// stand.
pub open spec fn check(attrs: Seq<RawAttribute>, name: Seq<char>, shape: Shape, required: bool) -> Option<
    Fault,
> {
    match lookup(attrs, name) {
        None => if required {
            Some(Fault::MissingAttribute)
        } else {
            None
        },
        Some(value) => if strict(shape) && !shaped(shape, value) {
            Some(Fault::InvalidValue)
        } else {
            None
        },
    }
}

/// Whether the attribute is present with a value that violates its
/// encoding in a way that the run survives.
pub open spec fn ill_encoded(attrs: Seq<RawAttribute>, name: Seq<char>, shape: Shape) -> bool {
    match lookup(attrs, name) {
        None => false,
        Some(value) => !strict(shape) && !shaped(shape, value),
    }
}

/// The element that is being read: its kind, the numeral of its identifier
/// once decoded, and its attributes; with what has been noted of it so far,
/// and whether it has to be skipped.
pub struct Context<'a> {
    pub tag: &'a String,
    pub id: Option<u64>,
    pub attributes: &'a Vec<RawAttribute>,
    pub notes: Vec<Diagnostic>,
    pub skip: bool,
}

/// What of a reading stays the same while it goes on: the element.
pub ghost struct ContextView {
    pub tag: Seq<char>,
    pub id: Option<u64>,
    pub attributes: Seq<RawAttribute>,
}

impl<'a> View for Context<'a> {
    type V = ContextView;

    open spec fn view(&self) -> ContextView {
        ContextView { tag: self.tag@, id: self.id, attributes: self.attributes@ }
    }
}

/// The violation, if any, that one attribute of the element makes.
pub open spec fn violation(c: ContextView, name: Seq<char>, shape: Shape, required: bool) -> Option<
    MalformedView,
> {
    match check(c.attributes, name, shape, required) {
        None => None,
        Some(fault) => Some(MalformedView { element: c.tag, id: c.id, attribute: name, fault }),
    }
}

/// The first of two violations.
pub open spec fn first(a: Option<MalformedView>, b: Option<MalformedView>) -> Option<MalformedView> {
    match a {
        Some(_) => a,
        None => b,
    }
}

/// The numeral that stands for an element: that of its identifier where
/// that was decoded, and zero where it was not.
pub open spec fn subject(id: Option<u64>) -> u64 {
    match id {
        Some(n) => n,
        None => 0,
    }
}

/// The diagnostic for an ill-encoded value of the attribute. Its message
/// names the kind of the element and the attribute.
pub open spec fn invalid_value(c: ContextView, name: Seq<char>) -> DiagnosticView {
    DiagnosticView {
        declaration: subject(c.id),
        location: lookup(c.attributes, "location"@),
        kind: DiagnosticKind::InvalidAttributeValue,
        reference: subject(c.id),
        message: c.tag + ": attribute value is invalid: "@ + name,
    }
}

/// What is noted of one attribute: one diagnostic where its value is ill
/// encoded, and nothing else.
pub open spec fn note(c: ContextView, name: Seq<char>, shape: Shape) -> Seq<DiagnosticView> {
    if ill_encoded(c.attributes, name, shape) {
        seq![invalid_value(c, name)]
    } else {
        Seq::empty()
    }
}

/// Between two states of a reading, the element is the same, `added` has
/// been noted, and the element has to be skipped if it had to before or
/// `skipped` holds.
pub open spec fn advanced(before: &Context, after: &Context, added: Seq<DiagnosticView>, skipped: bool) -> bool {
    &&& after@ == before@
    &&& views(after.notes@) == views(before.notes@) + added
    &&& after.skip == (before.skip || skipped)
}

/// The numeral of the reference that the attribute holds.
pub open spec fn reference_of(c: ContextView, name: Seq<char>) -> Option<u64> {
    match lookup(c.attributes, name) {
        Some(value) => id_numeral(value),
        None => None,
    }
}

/// The numerals of the references that the attribute lists.
pub open spec fn references_of(c: ContextView, name: Seq<char>) -> Option<Seq<u64>> {
    match lookup(c.attributes, name) {
        Some(value) => idref_list(value),
        None => None,
    }
}

/// The number that the attribute holds.
pub open spec fn number_of(c: ContextView, name: Seq<char>) -> Option<u64> {
    match lookup(c.attributes, name) {
        Some(value) => numeral(value),
        None => None,
    }
}

/// The number of 32 bits that the attribute holds.
pub open spec fn short_of(c: ContextView, name: Seq<char>) -> Option<u32> {
    match number_of(c, name) {
        Some(n) => if n <= u32::MAX {
            Some(n as u32)
        } else {
            None
        },
        None => None,
    }
}

/// The integer that the attribute holds.
pub open spec fn integer_of(c: ContextView, name: Seq<char>) -> Option<i64> {
    match lookup(c.attributes, name) {
        Some(value) => integer(value),
        None => None,
    }
}

/// The name is what the attribute holds: empty where the attribute is
/// absent or holds nothing.
pub open spec fn name_or_empty_is(c: ContextView, name: Seq<char>, n: NameOrEmpty) -> bool {
    match lookup(c.attributes, name) {
        Some(value) => if value.len() > 0 {
            n.0 matches Ok(x) && x.0@ == value
        } else {
            n.0 is Err
        },
        None => n.0 is Err,
    }
}

/// The optional name is what the attribute holds.
pub open spec fn optional_name_is(c: ContextView, name: Seq<char>, n: Option<Name>) -> bool {
    match lookup(c.attributes, name) {
        Some(value) => n matches Some(x) && x.0@ == value,
        None => n is None,
    }
}

/// The optional text is what the attribute holds.
pub open spec fn optional_text_is(c: ContextView, name: Seq<char>, s: Option<String>) -> bool {
    match lookup(c.attributes, name) {
        Some(value) => s matches Some(x) && x@ == value,
        None => s is None,
    }
}

/// The optional list of references is what the attribute holds.
pub open spec fn optional_references_are(c: ContextView, name: Seq<char>, v: Option<Vec<IdRef>>) -> bool {
    match v {
        Some(x) => references_of(c, name) == Some(numerals_of(x@)),
        None => lookup(c.attributes, name) is None,
    }
}

/// The optional reference is what the attribute holds.
pub open spec fn optional_reference_is(c: ContextView, name: Seq<char>, r: Option<IdRef>) -> bool {
    match r {
        Some(x) => reference_of(c, name) == Some(x.0),
        None => lookup(c.attributes, name) is None,
    }
}

/// What the flag of the name says.
pub open spec fn flag_of(c: ContextView, name: Seq<char>) -> bool {
    flag_value(lookup(c.attributes, name)) == Some(true)
}

/// The access level that the attribute names.
pub open spec fn access_of(c: ContextView, name: Seq<char>) -> Option<Access> {
    match lookup(c.attributes, name) {
        Some(value) => access_word(value),
        None => None,
    }
}

impl<'a> Context<'a> {
    /// A reading of an element of which nothing has been noted yet.
    pub fn new(tag: &'a String, id: Option<u64>, attributes: &'a Vec<RawAttribute>) -> (c: Context<'a>)
        ensures
            c@ == (ContextView { tag: tag@, id, attributes: attributes@ }),
            views(c.notes@) == Seq::<DiagnosticView>::empty(),
            !c.skip,
    {
        let c = Context { tag, id, attributes, notes: Vec::new(), skip: false };
        proof {
            lemma_views_empty(c.notes@);
        }
        c
    }

    /// The violation that names this element and the attribute.
    pub fn malformed(&self, name: &str, fault: Fault) -> (m: Malformed)
        ensures
            m@ == (MalformedView { element: self@.tag, id: self@.id, attribute: name@, fault }),
    {
        Malformed { element: self.tag.clone(), id: self.id, attribute: name.to_owned(), fault }
    }

    /// The value of the first attribute of the name, if there is one.
    pub fn find(&self, name: &str) -> (r: Option<&'a String>)
        ensures
            match r {
                Some(value) => lookup(self@.attributes, name@) == Some(value@),
                None => lookup(self@.attributes, name@) is None,
            },
    {
        let wanted: String = name.to_owned();
        let attributes: &'a Vec<RawAttribute> = self.attributes;
        let n: usize = attributes.len();
        let mut i: usize = 0;
        while i < n
            invariant
                n == attributes@.len(),
                0 <= i <= n,
                wanted@ == name@,
                attributes@ == self@.attributes,
                forall|j: int| 0 <= j < i ==> attributes@[j].name@ != name@,
            decreases n - i,
        {
            if attributes[i].name == wanted {
                proof {
                    lemma_attribute_index(attributes@, name@);
                }
                return Some(&attributes[i].value);
            }
            i = i + 1;
        }
        proof {
            lemma_attribute_index(attributes@, name@);
        }
        None
    }

    /// Notes that the value of the attribute is ill encoded.
    pub fn flaw(&mut self, name: &str, required: bool)
        ensures
            advanced(old(self), final(self), seq![invalid_value(old(self)@, name@)], required),
    {
        let subject: u64 = match self.id {
            Some(id) => id,
            None => 0,
        };
        let location: Option<String> = match self.find("location") {
            Some(l) => Some(l.clone()),
            None => None,
        };
        let mut message: String = self.tag.clone();
        message.append(": attribute value is invalid: ");
        message.append(name);
        let d = Diagnostic {
            declaration: subject,
            location,
            kind: DiagnosticKind::InvalidAttributeValue,
            reference: subject,
            message,
        };
        proof {
            lemma_views_push(self.notes@, d);
            assert(views(self.notes@).push(d@) =~= views(self.notes@) + seq![d@]);
        }
        self.notes.push(d);
        if required {
            self.skip = true;
        }
    }

    /// Reads a required attribute that holds any text.
    pub fn text(&self, name: &str) -> (r: Result<&'a String, Malformed>)
        ensures
            match r {
                Ok(value) => violation(self@, name@, Shape::Text, true) is None && lookup(
                    self@.attributes,
                    name@,
                ) == Some(value@),
                Err(m) => violation(self@, name@, Shape::Text, true) == Some(m@),
            },
    {
        match self.find(name) {
            Some(value) => Ok(value),
            None => Err(self.malformed(name, Fault::MissingAttribute)),
        }
    }

    /// Reads a required reference.
    pub fn reference(&self, name: &str) -> (r: Result<IdRef, Malformed>)
        ensures
            match r {
                Ok(idref) => violation(self@, name@, Shape::Reference, true) is None && reference_of(
                    self@,
                    name@,
                ) == Some(idref.0),
                Err(m) => violation(self@, name@, Shape::Reference, true) == Some(m@),
            },
    {
        match self.find(name) {
            None => Err(self.malformed(name, Fault::MissingAttribute)),
            Some(value) => match parse_idref(value.as_str()) {
                Some(idref) => Ok(idref),
                None => Err(self.malformed(name, Fault::InvalidValue)),
            },
        }
    }

    /// Reads an optional reference.
    pub fn optional_reference(&self, name: &str) -> (r: Result<Option<IdRef>, Malformed>)
        ensures
            match r {
                Ok(found) => violation(self@, name@, Shape::Reference, false) is None
                    && optional_reference_is(self@, name@, found),
                Err(m) => violation(self@, name@, Shape::Reference, false) == Some(m@),
            },
    {
        match self.find(name) {
            None => Ok(None),
            Some(value) => match parse_idref(value.as_str()) {
                Some(idref) => Ok(Some(idref)),
                None => Err(self.malformed(name, Fault::InvalidValue)),
            },
        }
    }

    /// Reads an optional list of references.
    pub fn optional_references(&self, name: &str) -> (r: Result<Option<Vec<IdRef>>, Malformed>)
        ensures
            match r {
                Ok(found) => violation(self@, name@, Shape::References, false) is None
                    && optional_references_are(self@, name@, found),
                Err(m) => violation(self@, name@, Shape::References, false) == Some(m@),
            },
    {
        match self.find(name) {
            None => Ok(None),
            Some(value) => match parse_idrefs(value.as_str()) {
                Some(v) => Ok(Some(v)),
                None => Err(self.malformed(name, Fault::InvalidValue)),
            },
        }
    }

    /// Reads a required number. An ill-encoded value is noted, and the
    /// element has to be skipped.
    pub fn number(&mut self, name: &str) -> (r: Result<u64, Malformed>)
        ensures
            final(self)@ == old(self)@,
            match r {
                Ok(n) => {
                    &&& violation(old(self)@, name@, Shape::Number, true) is None
                    &&& advanced(
                        old(self),
                        final(self),
                        note(old(self)@, name@, Shape::Number),
                        ill_encoded(old(self)@.attributes, name@, Shape::Number),
                    )
                    &&& !ill_encoded(old(self)@.attributes, name@, Shape::Number) ==> number_of(
                        old(self)@,
                        name@,
                    ) == Some(n)
                },
                Err(m) => violation(old(self)@, name@, Shape::Number, true) == Some(m@),
            },
    {
        match self.find(name) {
            None => Err(self.malformed(name, Fault::MissingAttribute)),
            Some(value) => match parse_number(value.as_str()) {
                Some(n) => {
                    proof {
                        assert(views(self.notes@) + Seq::<DiagnosticView>::empty() =~= views(self.notes@));
                    }
                    Ok(n)
                },
                None => {
                    self.flaw(name, true);
                    Ok(0)
                },
            },
        }
    }

    /// Reads an optional number. An ill-encoded value is noted and counts
    /// as absent.
    pub fn optional_number(&mut self, name: &str) -> (r: Option<u64>)
        ensures
            advanced(old(self), final(self), note(old(self)@, name@, Shape::Number), false),
            r == number_of(old(self)@, name@),
    {
        match self.find(name) {
            None => {
                proof {
                    assert(views(self.notes@) + Seq::<DiagnosticView>::empty() =~= views(self.notes@));
                }
                None
            },
            Some(value) => match parse_number(value.as_str()) {
                Some(n) => {
                    proof {
                        assert(views(self.notes@) + Seq::<DiagnosticView>::empty() =~= views(self.notes@));
                    }
                    Some(n)
                },
                None => {
                    self.flaw(name, false);
                    None
                },
            },
        }
    }

    /// Reads a required number of 32 bits. An ill-encoded value is noted,
    /// and the element has to be skipped.
    pub fn short(&mut self, name: &str) -> (r: Result<u32, Malformed>)
        ensures
            final(self)@ == old(self)@,
            match r {
                Ok(n) => {
                    &&& violation(old(self)@, name@, Shape::Short, true) is None
                    &&& advanced(
                        old(self),
                        final(self),
                        note(old(self)@, name@, Shape::Short),
                        ill_encoded(old(self)@.attributes, name@, Shape::Short),
                    )
                    &&& !ill_encoded(old(self)@.attributes, name@, Shape::Short) ==> short_of(
                        old(self)@,
                        name@,
                    ) == Some(n)
                },
                Err(m) => violation(old(self)@, name@, Shape::Short, true) == Some(m@),
            },
    {
        match self.find(name) {
            None => Err(self.malformed(name, Fault::MissingAttribute)),
            Some(value) => match parse_number(value.as_str()) {
                Some(n) => if n <= 0xffff_ffff {
                    proof {
                        assert(views(self.notes@) + Seq::<DiagnosticView>::empty() =~= views(self.notes@));
                    }
                    Ok(n as u32)
                } else {
                    self.flaw(name, true);
                    Ok(0)
                },
                None => {
                    self.flaw(name, true);
                    Ok(0)
                },
            },
        }
    }

    /// Reads an optional number of 32 bits. An ill-encoded value is noted
    /// and counts as absent.
    pub fn optional_short(&mut self, name: &str) -> (r: Option<u32>)
        ensures
            advanced(old(self), final(self), note(old(self)@, name@, Shape::Short), false),
            r == short_of(old(self)@, name@),
    {
        match self.find(name) {
            None => {
                proof {
                    assert(views(self.notes@) + Seq::<DiagnosticView>::empty() =~= views(self.notes@));
                }
                None
            },
            Some(value) => match parse_number(value.as_str()) {
                Some(n) => if n <= 0xffff_ffff {
                    proof {
                        assert(views(self.notes@) + Seq::<DiagnosticView>::empty() =~= views(self.notes@));
                    }
                    Some(n as u32)
                } else {
                    self.flaw(name, false);
                    None
                },
                None => {
                    self.flaw(name, false);
                    None
                },
            },
        }
    }

    /// Reads a required integer. An ill-encoded value is noted, and the
    /// element has to be skipped.
    pub fn integer(&mut self, name: &str) -> (r: Result<i64, Malformed>)
        ensures
            final(self)@ == old(self)@,
            match r {
                Ok(n) => {
                    &&& violation(old(self)@, name@, Shape::Integer, true) is None
                    &&& advanced(
                        old(self),
                        final(self),
                        note(old(self)@, name@, Shape::Integer),
                        ill_encoded(old(self)@.attributes, name@, Shape::Integer),
                    )
                    &&& !ill_encoded(old(self)@.attributes, name@, Shape::Integer) ==> integer_of(
                        old(self)@,
                        name@,
                    ) == Some(n)
                },
                Err(m) => violation(old(self)@, name@, Shape::Integer, true) == Some(m@),
            },
    {
        match self.find(name) {
            None => Err(self.malformed(name, Fault::MissingAttribute)),
            Some(value) => match parse_integer(value.as_str()) {
                Some(n) => {
                    proof {
                        assert(views(self.notes@) + Seq::<DiagnosticView>::empty() =~= views(self.notes@));
                    }
                    Ok(n)
                },
                None => {
                    self.flaw(name, true);
                    Ok(0)
                },
            },
        }
    }

    /// Reads a presence-encoded flag. An ill-encoded value is noted and
    /// counts as absent.
    pub fn flag(&mut self, name: &str) -> (r: Bool)
        ensures
            advanced(old(self), final(self), note(old(self)@, name@, Shape::Flag), false),
            r.0 == flag_of(old(self)@, name@),
    {
        match self.find(name) {
            None => {
                proof {
                    assert(views(self.notes@) + Seq::<DiagnosticView>::empty() =~= views(self.notes@));
                }
                Bool(false)
            },
            Some(value) => match parse_flag(Some(value.as_str())) {
                Some(b) => {
                    proof {
                        assert(views(self.notes@) + Seq::<DiagnosticView>::empty() =~= views(self.notes@));
                    }
                    b
                },
                None => {
                    self.flaw(name, false);
                    Bool(false)
                },
            },
        }
    }

    /// Reads a required access word. An ill-encoded value is noted, and the
    /// element has to be skipped.
    pub fn access(&mut self, name: &str) -> (r: Result<Access, Malformed>)
        ensures
            final(self)@ == old(self)@,
            match r {
                Ok(a) => {
                    &&& violation(old(self)@, name@, Shape::AccessWord, true) is None
                    &&& advanced(
                        old(self),
                        final(self),
                        note(old(self)@, name@, Shape::AccessWord),
                        ill_encoded(old(self)@.attributes, name@, Shape::AccessWord),
                    )
                    &&& !ill_encoded(old(self)@.attributes, name@, Shape::AccessWord) ==> access_of(
                        old(self)@,
                        name@,
                    ) == Some(a)
                },
                Err(m) => violation(old(self)@, name@, Shape::AccessWord, true) == Some(m@),
            },
    {
        match self.find(name) {
            None => Err(self.malformed(name, Fault::MissingAttribute)),
            Some(value) => match parse_access(value.as_str()) {
                Some(a) => {
                    proof {
                        assert(views(self.notes@) + Seq::<DiagnosticView>::empty() =~= views(self.notes@));
                    }
                    Ok(a)
                },
                None => {
                    self.flaw(name, true);
                    Ok(Access::Public)
                },
            },
        }
    }

    /// Reads an optional access word. An ill-encoded value is noted and
    /// counts as absent.
    pub fn optional_access(&mut self, name: &str) -> (r: Option<Access>)
        ensures
            advanced(old(self), final(self), note(old(self)@, name@, Shape::AccessWord), false),
            r == access_of(old(self)@, name@),
    {
        match self.find(name) {
            None => {
                proof {
                    assert(views(self.notes@) + Seq::<DiagnosticView>::empty() =~= views(self.notes@));
                }
                None
            },
            Some(value) => match parse_access(value.as_str()) {
                Some(a) => {
                    proof {
                        assert(views(self.notes@) + Seq::<DiagnosticView>::empty() =~= views(self.notes@));
                    }
                    Some(a)
                },
                None => {
                    self.flaw(name, false);
                    None
                },
            },
        }
    }

    /// Reads a required name.
    pub fn name(&self, name: &str) -> (r: Result<Name, Malformed>)
        ensures
            match r {
                Ok(n) => violation(self@, name@, Shape::Text, true) is None && lookup(
                    self@.attributes,
                    name@,
                ) == Some(n.0@),
                Err(m) => violation(self@, name@, Shape::Text, true) == Some(m@),
            },
    {
        match self.find(name) {
            Some(value) => Ok(Name(value.clone())),
            None => Err(self.malformed(name, Fault::MissingAttribute)),
        }
    }

    /// Reads an optional name.
    pub fn optional_name(&self, name: &str) -> (r: Option<Name>)
        ensures
            optional_name_is(self@, name@, r),
    {
        match self.find(name) {
            Some(value) => Some(Name(value.clone())),
            None => None,
        }
    }

    /// Reads a name that may be absent or empty.
    pub fn name_or_empty(&self, name: &str) -> (r: NameOrEmpty)
        ensures
            name_or_empty_is(self@, name@, r),
    {
        match self.find(name) {
            Some(value) => if value.as_str().is_empty() {
                NameOrEmpty(Err(Empty()))
            } else {
                NameOrEmpty(Ok(Name(value.clone())))
            },
            None => NameOrEmpty(Err(Empty())),
        }
    }

    /// Reads an optional attribute that holds any text.
    pub fn optional_text(&self, name: &str) -> (r: Option<String>)
        ensures
            optional_text_is(self@, name@, r),
    {
        match self.find(name) {
            Some(value) => Some(value.clone()),
            None => None,
        }
    }
}

} // verus!
