//! Ingestion of a whole dump: every element is held to the rules of its
//! kind and decoded, in document order; the first violation ends the work.

use crate::model::{lemma_views_add, lemma_views_empty, views};
use crate::diag::{Diagnostic, DiagnosticView};
use crate::ingest::{
    children_are, children_notes, children_skipped, children_violation, enumerator_noting,
    enumerator_relation, enumerator_rule, enumerator_skipping, enumerators, expression,
    expression_string, function, function_is, function_notes, function_type, function_type_is,
    function_type_notes, function_type_violation, function_violation, lemma_add_associative,
    method, method_is, method_notes, method_skipped, method_violation, record, record_is,
    record_notes, record_skipped, record_violation,
};
use crate::raw::{
    access_of, advanced, first, flag_of, ill_encoded, lookup, name_or_empty_is, note, number_of,
    optional_name_is, optional_reference_is, optional_references_are, optional_text_is,
    reference_of, short_of, violation, Context, ContextView, Fault, Malformed, MalformedView,
    RawChild, RawDocument, RawElement, Shape,
};
use crate::schema::{CastXML, Id, Item};
use vstd::prelude::*;
use vstd::string::StringExecFns;

verus! {

/// The kinds of declaration elements.
#[derive(Debug, Clone, Copy, PartialEq, Eq, Structural)]
pub enum Kind {
    File,
    Namespace,
    Comment,
    Struct,
    Union,
    Class,
    Enumeration,
    Variable,
    Field,
    Function,
    OperatorFunction,
    Constructor,
    Destructor,
    Method,
    OperatorMethod,
    Converter,
    Typedef,
    FundamentalType,
    CvQualifiedType,
    PointerType,
    OffsetType,
    ReferenceType,
    ArrayType,
    ElaboratedType,
    FunctionType,
    MethodType,
    Unimplemented,
}

/// The kind that an element's tag names.
pub open spec fn kind_named(tag: Seq<char>) -> Option<Kind> {
    if tag == "File"@ {
        Some(Kind::File)
    } else if tag == "Namespace"@ {
        Some(Kind::Namespace)
    } else if tag == "Comment"@ {
        Some(Kind::Comment)
    } else if tag == "Struct"@ {
        Some(Kind::Struct)
    } else if tag == "Union"@ {
        Some(Kind::Union)
    } else if tag == "Class"@ {
        Some(Kind::Class)
    } else if tag == "Enumeration"@ {
        Some(Kind::Enumeration)
    } else if tag == "Variable"@ {
        Some(Kind::Variable)
    } else if tag == "Field"@ {
        Some(Kind::Field)
    } else if tag == "Function"@ {
        Some(Kind::Function)
    } else if tag == "OperatorFunction"@ {
        Some(Kind::OperatorFunction)
    } else if tag == "Constructor"@ {
        Some(Kind::Constructor)
    } else if tag == "Destructor"@ {
        Some(Kind::Destructor)
    } else if tag == "Method"@ {
        Some(Kind::Method)
    } else if tag == "OperatorMethod"@ {
        Some(Kind::OperatorMethod)
    } else if tag == "Converter"@ {
        Some(Kind::Converter)
    } else if tag == "Typedef"@ {
        Some(Kind::Typedef)
    } else if tag == "FundamentalType"@ {
        Some(Kind::FundamentalType)
    } else if tag == "CvQualifiedType"@ {
        Some(Kind::CvQualifiedType)
    } else if tag == "PointerType"@ {
        Some(Kind::PointerType)
    } else if tag == "OffsetType"@ {
        Some(Kind::OffsetType)
    } else if tag == "ReferenceType"@ {
        Some(Kind::ReferenceType)
    } else if tag == "ArrayType"@ {
        Some(Kind::ArrayType)
    } else if tag == "ElaboratedType"@ {
        Some(Kind::ElaboratedType)
    } else if tag == "FunctionType"@ {
        Some(Kind::FunctionType)
    } else if tag == "MethodType"@ {
        Some(Kind::MethodType)
    } else if tag == "Unimplemented"@ {
        Some(Kind::Unimplemented)
    } else {
        None
    }
}

/// What an element of the kind has to hold beside its identifier, lest
/// the run end: the attributes that it requires, and an identifier
/// wherever one has to stand.
pub open spec fn kind_violation(kind: Kind, c: ContextView, children: Seq<RawChild>, id: u64) -> Option<
    MalformedView,
> {
    match kind {
        Kind::File => violation(c, "name"@, Shape::Text, true),
        Kind::Namespace => first(
            violation(c, "context"@, Shape::Reference, false),
            violation(c, "members"@, Shape::References, false),
        ),
        Kind::Comment => first(
            violation(c, "attached"@, Shape::Reference, true),
            first(
                violation(c, "file"@, Shape::Reference, true),
                first(
                    violation(c, "begin_line"@, Shape::Short, true),
                    violation(c, "end_line"@, Shape::Short, true),
                ),
            ),
        ),
        Kind::Struct => record_violation(c, children, id),
        Kind::Union => record_violation(c, children, id),
        Kind::Class => record_violation(c, children, id),
        Kind::Enumeration => first(
            violation(c, "type"@, Shape::Reference, true),
            first(
                violation(c, "context"@, Shape::Reference, false),
                first(
                    violation(c, "size"@, Shape::Number, true),
                    first(
                        violation(c, "align"@, Shape::Number, true),
                        children_violation(children, "EnumValue"@, id, enumerator_rule()),
                    ),
                ),
            ),
        ),
        Kind::Variable => first(
            violation(c, "name"@, Shape::Text, true),
            first(
                violation(c, "type"@, Shape::Reference, true),
                violation(c, "context"@, Shape::Reference, false),
            ),
        ),
        Kind::Field => first(
            violation(c, "type"@, Shape::Reference, true),
            first(
                violation(c, "context"@, Shape::Reference, true),
                first(
                    violation(c, "access"@, Shape::AccessWord, true),
                    violation(c, "offset"@, Shape::Number, true),
                ),
            ),
        ),
        Kind::Function => function_violation(c, children, id),
        Kind::OperatorFunction => function_violation(c, children, id),
        Kind::Constructor => method_violation(c, children, id),
        Kind::Destructor => method_violation(c, children, id),
        Kind::Method => method_violation(c, children, id),
        Kind::OperatorMethod => method_violation(c, children, id),
        Kind::Converter => method_violation(c, children, id),
        Kind::Typedef => first(
            violation(c, "name"@, Shape::Text, true),
            first(
                violation(c, "type"@, Shape::Reference, true),
                violation(c, "context"@, Shape::Reference, false),
            ),
        ),
        Kind::FundamentalType => violation(c, "name"@, Shape::Text, true),
        Kind::CvQualifiedType => violation(c, "type"@, Shape::Reference, true),
        Kind::PointerType => violation(c, "type"@, Shape::Reference, true),
        Kind::OffsetType => first(
            violation(c, "basetype"@, Shape::Reference, true),
            violation(c, "type"@, Shape::Reference, true),
        ),
        Kind::ReferenceType => violation(c, "type"@, Shape::Reference, true),
        Kind::ArrayType => first(
            violation(c, "type"@, Shape::Reference, true),
            violation(c, "min"@, Shape::Number, true),
        ),
        Kind::ElaboratedType => violation(c, "type"@, Shape::Reference, true),
        Kind::FunctionType => function_type_violation(c, children, id),
        Kind::MethodType => first(function_type_violation(c, children, id), violation(c, "basetype"@, Shape::Reference, true)),
        Kind::Unimplemented => None,
    }
}

/// What is noted of an element of the kind: one diagnostic for each value
/// that is ill encoded, in the order in which the kind lists them.
pub open spec fn kind_notes(kind: Kind, c: ContextView, children: Seq<RawChild>, id: u64) -> Seq<
    DiagnosticView,
> {
    match kind {
        Kind::File => Seq::empty(),
        Kind::Namespace => Seq::empty(),
        Kind::Comment => note(c, "begin_line"@, Shape::Short) + note(c, "end_line"@, Shape::Short),
        Kind::Struct => record_notes(c, children, id),
        Kind::Union => record_notes(c, children, id),
        Kind::Class => record_notes(c, children, id),
        Kind::Enumeration => note(c, "size"@, Shape::Number)
            + note(c, "align"@, Shape::Number)
            + note(c, "access"@, Shape::AccessWord)
            + note(c, "scoped"@, Shape::Flag)
            + note(c, "artificial"@, Shape::Flag)
            + children_notes(children, "EnumValue"@, id, enumerator_noting()),
        Kind::Variable => note(c, "access"@, Shape::AccessWord)
            + note(c, "static"@, Shape::Flag)
            + note(c, "extern"@, Shape::Flag)
            + note(c, "artificial"@, Shape::Flag),
        Kind::Field => note(c, "access"@, Shape::AccessWord)
            + note(c, "offset"@, Shape::Number)
            + note(c, "bits"@, Shape::Short)
            + note(c, "mutable"@, Shape::Flag)
            + note(c, "artificial"@, Shape::Flag),
        Kind::Function => function_notes(c),
        Kind::OperatorFunction => function_notes(c),
        Kind::Constructor => method_notes(c),
        Kind::Destructor => method_notes(c),
        Kind::Method => method_notes(c),
        Kind::OperatorMethod => method_notes(c),
        Kind::Converter => method_notes(c),
        Kind::Typedef => note(c, "access"@, Shape::AccessWord),
        Kind::FundamentalType => note(c, "size"@, Shape::Number) + note(c, "align"@, Shape::Number),
        Kind::CvQualifiedType => note(c, "const"@, Shape::Flag)
            + note(c, "volatile"@, Shape::Flag)
            + note(c, "restrict"@, Shape::Flag),
        Kind::PointerType => note(c, "size"@, Shape::Number) + note(c, "align"@, Shape::Number),
        Kind::OffsetType => Seq::empty(),
        Kind::ReferenceType => note(c, "size"@, Shape::Number) + note(c, "align"@, Shape::Number),
        Kind::ArrayType => note(c, "min"@, Shape::Number) + note(c, "max"@, Shape::Number),
        Kind::ElaboratedType => Seq::empty(),
        Kind::FunctionType => function_type_notes(c),
        Kind::MethodType => function_type_notes(c),
        Kind::Unimplemented => Seq::empty(),
    }
}

/// Whether an element of the kind has to be skipped: a value that it
/// requires is ill encoded.
pub open spec fn kind_skipped(kind: Kind, c: ContextView, children: Seq<RawChild>, id: u64) -> bool {
    match kind {
        Kind::File => false,
        Kind::Namespace => false,
        Kind::Comment => ill_encoded(c.attributes, "begin_line"@, Shape::Short)
            || ill_encoded(c.attributes, "end_line"@, Shape::Short),
        Kind::Struct => record_skipped(children, id),
        Kind::Union => record_skipped(children, id),
        Kind::Class => record_skipped(children, id),
        Kind::Enumeration => ill_encoded(c.attributes, "size"@, Shape::Number)
            || ill_encoded(c.attributes, "align"@, Shape::Number)
            || children_skipped(children, "EnumValue"@, id, enumerator_skipping()),
        Kind::Variable => false,
        Kind::Field => ill_encoded(c.attributes, "access"@, Shape::AccessWord)
            || ill_encoded(c.attributes, "offset"@, Shape::Number),
        Kind::Function => false,
        Kind::OperatorFunction => false,
        Kind::Constructor => method_skipped(c),
        Kind::Destructor => method_skipped(c),
        Kind::Method => method_skipped(c),
        Kind::OperatorMethod => method_skipped(c),
        Kind::Converter => method_skipped(c),
        Kind::Typedef => false,
        Kind::FundamentalType => false,
        Kind::CvQualifiedType => false,
        Kind::PointerType => false,
        Kind::OffsetType => false,
        Kind::ReferenceType => false,
        Kind::ArrayType => ill_encoded(c.attributes, "min"@, Shape::Number),
        Kind::ElaboratedType => false,
        Kind::FunctionType => false,
        Kind::MethodType => false,
        Kind::Unimplemented => false,
    }
}

/// The node is what an element of the kind holds.
pub open spec fn kind_is(kind: Kind, c: ContextView, children: Seq<RawChild>, id: u64, item: Item) -> bool {
    match kind {
        Kind::File => item matches Item::File { id: i, name } && i.0 == id && lookup(
            c.attributes,
            "name"@,
        ) == Some(name.0@),
        Kind::Namespace => item matches Item::Namespace { id: i, name, context, members } && {
            &&& i.0 == id
            &&& name_or_empty_is(c, "name"@, name)
            &&& optional_reference_is(c, "context"@, context)
            &&& optional_references_are(c, "members"@, members)
        },
        Kind::Comment => item matches Item::Comment { id: i, attached, file, begin_line, end_line } && {
            &&& i.0 == id
            &&& reference_of(c, "attached"@) == Some(attached.0)
            &&& reference_of(c, "file"@) == Some(file.0)
            &&& short_of(c, "begin_line"@) == Some(begin_line)
            &&& short_of(c, "end_line"@) == Some(end_line)
        },
        Kind::Struct => item matches Item::Struct(r) && record_is(c, children, id, r),
        Kind::Union => item matches Item::Union(r) && record_is(c, children, id, r),
        Kind::Class => item matches Item::Class(r) && record_is(c, children, id, r),
        Kind::Enumeration => item matches Item::Enumeration {
            values,
            id: i,
            name,
            type_,
            context,
            access,
            scoped,
            artificial,
            size,
            align,
        } && {
            &&& i.0 == id
            &&& name_or_empty_is(c, "name"@, name)
            &&& reference_of(c, "type"@) == Some(type_.0)
            &&& optional_reference_is(c, "context"@, context)
            &&& access == access_of(c, "access"@)
            &&& scoped.0 == flag_of(c, "scoped"@)
            &&& artificial.0 == flag_of(c, "artificial"@)
            &&& number_of(c, "size"@) == Some(size)
            &&& number_of(c, "align"@) == Some(align)
            &&& children_are(children, "EnumValue"@, id, values@, enumerator_relation())
        },
        Kind::Variable => item matches Item::Variable {
            id: i,
            name,
            type_,
            init,
            context,
            access,
            static_,
            extern_,
            artificial,
            mangled,
        } && {
            &&& i.0 == id
            &&& lookup(c.attributes, "name"@) == Some(name.0@)
            &&& reference_of(c, "type"@) == Some(type_.0)
            &&& optional_text_is(c, "init"@, expression_string(init))
            &&& optional_reference_is(c, "context"@, context)
            &&& access == access_of(c, "access"@)
            &&& static_.0 == flag_of(c, "static"@)
            &&& extern_.0 == flag_of(c, "extern"@)
            &&& artificial.0 == flag_of(c, "artificial"@)
            &&& optional_text_is(c, "mangled"@, mangled)
        },
        Kind::Field => item matches Item::Field {
            id: i,
            name,
            type_,
            bits,
            context,
            access,
            offset,
            mutable,
            artificial,
            location,
        } && {
            &&& i.0 == id
            &&& name_or_empty_is(c, "name"@, name)
            &&& reference_of(c, "type"@) == Some(type_.0)
            &&& bits == short_of(c, "bits"@)
            &&& reference_of(c, "context"@) == Some(context.0)
            &&& access_of(c, "access"@) == Some(access)
            &&& number_of(c, "offset"@) == Some(offset)
            &&& mutable.0 == flag_of(c, "mutable"@)
            &&& artificial.0 == flag_of(c, "artificial"@)
            &&& optional_text_is(c, "location"@, location)
        },
        Kind::Function => item matches Item::Function(f) && function_is(c, children, id, f),
        Kind::OperatorFunction => item matches Item::OperatorFunction(f) && function_is(c, children, id, f),
        Kind::Constructor => item matches Item::Constructor(m) && method_is(c, children, id, m),
        Kind::Destructor => item matches Item::Destructor(m) && method_is(c, children, id, m),
        Kind::Method => item matches Item::Method(m) && method_is(c, children, id, m),
        Kind::OperatorMethod => item matches Item::OperatorMethod(m) && method_is(c, children, id, m),
        Kind::Converter => item matches Item::Converter(m) && method_is(c, children, id, m),
        Kind::Typedef => item matches Item::Typedef { id: i, name, type_, context, access } && {
            &&& i.0 == id
            &&& lookup(c.attributes, "name"@) == Some(name.0@)
            &&& reference_of(c, "type"@) == Some(type_.0)
            &&& optional_reference_is(c, "context"@, context)
            &&& access == access_of(c, "access"@)
        },
        Kind::FundamentalType => item matches Item::FundamentalType { id: i, name, size, align } && {
            &&& i.0 == id
            &&& lookup(c.attributes, "name"@) == Some(name.0@)
            &&& size == number_of(c, "size"@)
            &&& align == number_of(c, "align"@)
        },
        Kind::CvQualifiedType => item matches Item::CvQualifiedType {
            id: i,
            type_,
            const_,
            volatile_,
            restrict_,
        } && {
            &&& i.0 == id
            &&& reference_of(c, "type"@) == Some(type_.0)
            &&& const_.0 == flag_of(c, "const"@)
            &&& volatile_.0 == flag_of(c, "volatile"@)
            &&& restrict_.0 == flag_of(c, "restrict"@)
        },
        Kind::PointerType => item matches Item::PointerType { id: i, type_, size, align } && {
            &&& i.0 == id
            &&& reference_of(c, "type"@) == Some(type_.0)
            &&& size == number_of(c, "size"@)
            &&& align == number_of(c, "align"@)
        },
        Kind::OffsetType => item matches Item::OffsetType { id: i, basetype, type_ } && {
            &&& i.0 == id
            &&& reference_of(c, "basetype"@) == Some(basetype.0)
            &&& reference_of(c, "type"@) == Some(type_.0)
        },
        Kind::ReferenceType => item matches Item::ReferenceType { id: i, type_, size, align } && {
            &&& i.0 == id
            &&& reference_of(c, "type"@) == Some(type_.0)
            &&& size == number_of(c, "size"@)
            &&& align == number_of(c, "align"@)
        },
        Kind::ArrayType => item matches Item::ArrayType { id: i, type_, min, max } && {
            &&& i.0 == id
            &&& reference_of(c, "type"@) == Some(type_.0)
            &&& number_of(c, "min"@) == Some(min)
            &&& max == number_of(c, "max"@)
        },
        Kind::ElaboratedType => item matches Item::ElaboratedType { id: i, type_ } && {
            &&& i.0 == id
            &&& reference_of(c, "type"@) == Some(type_.0)
        },
        Kind::FunctionType => item matches Item::FunctionType(t) && function_type_is(c, children, id, t),
        Kind::MethodType => item matches Item::MethodType { signature, basetype } && {
            &&& function_type_is(c, children, id, signature)
            &&& reference_of(c, "basetype"@) == Some(basetype.0)
        },
        Kind::Unimplemented => item matches Item::Unimplemented { id: i, kind: k, type_class } && {
            &&& i.0 == id
            &&& optional_name_is(c, "kind"@, k)
            &&& optional_name_is(c, "type_class"@, type_class)
        },
    }
}

/// The kind that a tag names.
pub fn kind_of(tag: &String) -> (r: Option<Kind>)
    ensures
        r == kind_named(tag@),
{
    if *tag == String::from_str("File") {
        Some(Kind::File)
    } else if *tag == String::from_str("Namespace") {
        Some(Kind::Namespace)
    } else if *tag == String::from_str("Comment") {
        Some(Kind::Comment)
    } else if *tag == String::from_str("Struct") {
        Some(Kind::Struct)
    } else if *tag == String::from_str("Union") {
        Some(Kind::Union)
    } else if *tag == String::from_str("Class") {
        Some(Kind::Class)
    } else if *tag == String::from_str("Enumeration") {
        Some(Kind::Enumeration)
    } else if *tag == String::from_str("Variable") {
        Some(Kind::Variable)
    } else if *tag == String::from_str("Field") {
        Some(Kind::Field)
    } else if *tag == String::from_str("Function") {
        Some(Kind::Function)
    } else if *tag == String::from_str("OperatorFunction") {
        Some(Kind::OperatorFunction)
    } else if *tag == String::from_str("Constructor") {
        Some(Kind::Constructor)
    } else if *tag == String::from_str("Destructor") {
        Some(Kind::Destructor)
    } else if *tag == String::from_str("Method") {
        Some(Kind::Method)
    } else if *tag == String::from_str("OperatorMethod") {
        Some(Kind::OperatorMethod)
    } else if *tag == String::from_str("Converter") {
        Some(Kind::Converter)
    } else if *tag == String::from_str("Typedef") {
        Some(Kind::Typedef)
    } else if *tag == String::from_str("FundamentalType") {
        Some(Kind::FundamentalType)
    } else if *tag == String::from_str("CvQualifiedType") {
        Some(Kind::CvQualifiedType)
    } else if *tag == String::from_str("PointerType") {
        Some(Kind::PointerType)
    } else if *tag == String::from_str("OffsetType") {
        Some(Kind::OffsetType)
    } else if *tag == String::from_str("ReferenceType") {
        Some(Kind::ReferenceType)
    } else if *tag == String::from_str("ArrayType") {
        Some(Kind::ArrayType)
    } else if *tag == String::from_str("ElaboratedType") {
        Some(Kind::ElaboratedType)
    } else if *tag == String::from_str("FunctionType") {
        Some(Kind::FunctionType)
    } else if *tag == String::from_str("MethodType") {
        Some(Kind::MethodType)
    } else if *tag == String::from_str("Unimplemented") {
        Some(Kind::Unimplemented)
    } else {
        None
    }
}

/// Reads a source file whose identifier has been decoded.
pub fn file(c: &mut Context, children: &Vec<RawChild>, id: u64) -> (r: Result<Item, Malformed>)
    ensures
        final(c)@ == old(c)@,
        match r {
            Ok(item) => {
                &&& kind_violation(Kind::File, old(c)@, children@, id) is None
                &&& advanced(
                    old(c),
                    final(c),
                    kind_notes(Kind::File, old(c)@, children@, id),
                    kind_skipped(Kind::File, old(c)@, children@, id),
                )
                &&& !kind_skipped(Kind::File, old(c)@, children@, id) ==> kind_is(
                    Kind::File,
                    old(c)@,
                    children@,
                    id,
                    item,
                )
            },
            Err(m) => kind_violation(Kind::File, old(c)@, children@, id) == Some(m@),
        },
{
    let ghost start = views(c.notes@);
    let name = c.name("name")?;
    proof {
        assert(start + Seq::<DiagnosticView>::empty() =~= start);
    }
    Ok(
        Item::File { id: Id(id), name },
    )
}

/// Reads a namespace whose identifier has been decoded.
pub fn namespace(c: &mut Context, children: &Vec<RawChild>, id: u64) -> (r: Result<Item, Malformed>)
    ensures
        final(c)@ == old(c)@,
        match r {
            Ok(item) => {
                &&& kind_violation(Kind::Namespace, old(c)@, children@, id) is None
                &&& advanced(
                    old(c),
                    final(c),
                    kind_notes(Kind::Namespace, old(c)@, children@, id),
                    kind_skipped(Kind::Namespace, old(c)@, children@, id),
                )
                &&& !kind_skipped(Kind::Namespace, old(c)@, children@, id) ==> kind_is(
                    Kind::Namespace,
                    old(c)@,
                    children@,
                    id,
                    item,
                )
            },
            Err(m) => kind_violation(Kind::Namespace, old(c)@, children@, id) == Some(m@),
        },
{
    let ghost start = views(c.notes@);
    let context = c.optional_reference("context")?;
    let members = c.optional_references("members")?;
    proof {
        assert(start + Seq::<DiagnosticView>::empty() =~= start);
    }
    Ok(
        Item::Namespace { id: Id(id), name: c.name_or_empty("name"), context, members },
    )
}

/// Reads a comment whose identifier has been decoded.
pub fn comment(c: &mut Context, children: &Vec<RawChild>, id: u64) -> (r: Result<Item, Malformed>)
    ensures
        final(c)@ == old(c)@,
        match r {
            Ok(item) => {
                &&& kind_violation(Kind::Comment, old(c)@, children@, id) is None
                &&& advanced(
                    old(c),
                    final(c),
                    kind_notes(Kind::Comment, old(c)@, children@, id),
                    kind_skipped(Kind::Comment, old(c)@, children@, id),
                )
                &&& !kind_skipped(Kind::Comment, old(c)@, children@, id) ==> kind_is(
                    Kind::Comment,
                    old(c)@,
                    children@,
                    id,
                    item,
                )
            },
            Err(m) => kind_violation(Kind::Comment, old(c)@, children@, id) == Some(m@),
        },
{
    let ghost start = views(c.notes@);
    let ghost element = c@;
    let attached = c.reference("attached")?;
    let file = c.reference("file")?;
    let begin_line = c.short("begin_line")?;
    let ghost noted_begin_line = note(element, "begin_line"@, Shape::Short);
    let end_line = c.short("end_line")?;
    proof {
        lemma_add_associative(start, noted_begin_line, note(element, "end_line"@, Shape::Short));
    }
    Ok(
        Item::Comment { id: Id(id), attached, file, begin_line, end_line },
    )
}

/// Reads a variable whose identifier has been decoded.
pub fn variable(c: &mut Context, children: &Vec<RawChild>, id: u64) -> (r: Result<Item, Malformed>)
    ensures
        final(c)@ == old(c)@,
        match r {
            Ok(item) => {
                &&& kind_violation(Kind::Variable, old(c)@, children@, id) is None
                &&& advanced(
                    old(c),
                    final(c),
                    kind_notes(Kind::Variable, old(c)@, children@, id),
                    kind_skipped(Kind::Variable, old(c)@, children@, id),
                )
                &&& !kind_skipped(Kind::Variable, old(c)@, children@, id) ==> kind_is(
                    Kind::Variable,
                    old(c)@,
                    children@,
                    id,
                    item,
                )
            },
            Err(m) => kind_violation(Kind::Variable, old(c)@, children@, id) == Some(m@),
        },
{
    let ghost start = views(c.notes@);
    let ghost element = c@;
    let name = c.name("name")?;
    let type_ = c.reference("type")?;
    let context = c.optional_reference("context")?;
    let access = c.optional_access("access");
    let ghost noted_access = note(element, "access"@, Shape::AccessWord);
    let static_ = c.flag("static");
    proof {
        lemma_add_associative(start, noted_access, note(element, "static"@, Shape::Flag));
    }
    let ghost noted_static = noted_access + note(element, "static"@, Shape::Flag);
    let extern_ = c.flag("extern");
    proof {
        lemma_add_associative(start, noted_static, note(element, "extern"@, Shape::Flag));
    }
    let ghost noted_extern = noted_static + note(element, "extern"@, Shape::Flag);
    let artificial = c.flag("artificial");
    proof {
        lemma_add_associative(start, noted_extern, note(element, "artificial"@, Shape::Flag));
    }
    Ok(
        Item::Variable {
            id: Id(id),
            name,
            type_,
            init: expression(c.optional_text("init")),
            context,
            access,
            static_,
            extern_,
            artificial,
            mangled: c.optional_text("mangled"),
        },
    )
}

/// Reads a field whose identifier has been decoded.
pub fn field(c: &mut Context, children: &Vec<RawChild>, id: u64) -> (r: Result<Item, Malformed>)
    ensures
        final(c)@ == old(c)@,
        match r {
            Ok(item) => {
                &&& kind_violation(Kind::Field, old(c)@, children@, id) is None
                &&& advanced(
                    old(c),
                    final(c),
                    kind_notes(Kind::Field, old(c)@, children@, id),
                    kind_skipped(Kind::Field, old(c)@, children@, id),
                )
                &&& !kind_skipped(Kind::Field, old(c)@, children@, id) ==> kind_is(
                    Kind::Field,
                    old(c)@,
                    children@,
                    id,
                    item,
                )
            },
            Err(m) => kind_violation(Kind::Field, old(c)@, children@, id) == Some(m@),
        },
{
    let ghost start = views(c.notes@);
    let ghost element = c@;
    let type_ = c.reference("type")?;
    let context = c.reference("context")?;
    let access = c.access("access")?;
    let ghost noted_access = note(element, "access"@, Shape::AccessWord);
    let offset = c.number("offset")?;
    proof {
        lemma_add_associative(start, noted_access, note(element, "offset"@, Shape::Number));
    }
    let ghost noted_offset = noted_access + note(element, "offset"@, Shape::Number);
    let bits = c.optional_short("bits");
    proof {
        lemma_add_associative(start, noted_offset, note(element, "bits"@, Shape::Short));
    }
    let ghost noted_bits = noted_offset + note(element, "bits"@, Shape::Short);
    let mutable = c.flag("mutable");
    proof {
        lemma_add_associative(start, noted_bits, note(element, "mutable"@, Shape::Flag));
    }
    let ghost noted_mutable = noted_bits + note(element, "mutable"@, Shape::Flag);
    let artificial = c.flag("artificial");
    proof {
        lemma_add_associative(start, noted_mutable, note(element, "artificial"@, Shape::Flag));
    }
    Ok(
        Item::Field {
            id: Id(id),
            name: c.name_or_empty("name"),
            type_,
            bits,
            context,
            access,
            offset,
            mutable,
            artificial,
            location: c.optional_text("location"),
        },
    )
}

/// Reads a type alias whose identifier has been decoded.
pub fn typedef(c: &mut Context, children: &Vec<RawChild>, id: u64) -> (r: Result<Item, Malformed>)
    ensures
        final(c)@ == old(c)@,
        match r {
            Ok(item) => {
                &&& kind_violation(Kind::Typedef, old(c)@, children@, id) is None
                &&& advanced(
                    old(c),
                    final(c),
                    kind_notes(Kind::Typedef, old(c)@, children@, id),
                    kind_skipped(Kind::Typedef, old(c)@, children@, id),
                )
                &&& !kind_skipped(Kind::Typedef, old(c)@, children@, id) ==> kind_is(
                    Kind::Typedef,
                    old(c)@,
                    children@,
                    id,
                    item,
                )
            },
            Err(m) => kind_violation(Kind::Typedef, old(c)@, children@, id) == Some(m@),
        },
{
    let name = c.name("name")?;
    let type_ = c.reference("type")?;
    let context = c.optional_reference("context")?;
    let access = c.optional_access("access");
    Ok(
        Item::Typedef { id: Id(id), name, type_, context, access },
    )
}

/// Reads a fundamental type whose identifier has been decoded.
pub fn fundamental_type(c: &mut Context, children: &Vec<RawChild>, id: u64) -> (r: Result<Item, Malformed>)
    ensures
        final(c)@ == old(c)@,
        match r {
            Ok(item) => {
                &&& kind_violation(Kind::FundamentalType, old(c)@, children@, id) is None
                &&& advanced(
                    old(c),
                    final(c),
                    kind_notes(Kind::FundamentalType, old(c)@, children@, id),
                    kind_skipped(Kind::FundamentalType, old(c)@, children@, id),
                )
                &&& !kind_skipped(Kind::FundamentalType, old(c)@, children@, id) ==> kind_is(
                    Kind::FundamentalType,
                    old(c)@,
                    children@,
                    id,
                    item,
                )
            },
            Err(m) => kind_violation(Kind::FundamentalType, old(c)@, children@, id) == Some(m@),
        },
{
    let ghost start = views(c.notes@);
    let ghost element = c@;
    let name = c.name("name")?;
    let size = c.optional_number("size");
    let ghost noted_size = note(element, "size"@, Shape::Number);
    let align = c.optional_number("align");
    proof {
        lemma_add_associative(start, noted_size, note(element, "align"@, Shape::Number));
    }
    Ok(
        Item::FundamentalType { id: Id(id), name, size, align },
    )
}

/// Reads a qualified type whose identifier has been decoded.
pub fn qualified_type(c: &mut Context, children: &Vec<RawChild>, id: u64) -> (r: Result<Item, Malformed>)
    ensures
        final(c)@ == old(c)@,
        match r {
            Ok(item) => {
                &&& kind_violation(Kind::CvQualifiedType, old(c)@, children@, id) is None
                &&& advanced(
                    old(c),
                    final(c),
                    kind_notes(Kind::CvQualifiedType, old(c)@, children@, id),
                    kind_skipped(Kind::CvQualifiedType, old(c)@, children@, id),
                )
                &&& !kind_skipped(Kind::CvQualifiedType, old(c)@, children@, id) ==> kind_is(
                    Kind::CvQualifiedType,
                    old(c)@,
                    children@,
                    id,
                    item,
                )
            },
            Err(m) => kind_violation(Kind::CvQualifiedType, old(c)@, children@, id) == Some(m@),
        },
{
    let ghost start = views(c.notes@);
    let ghost element = c@;
    let type_ = c.reference("type")?;
    let const_ = c.flag("const");
    let ghost noted_const = note(element, "const"@, Shape::Flag);
    let volatile_ = c.flag("volatile");
    proof {
        lemma_add_associative(start, noted_const, note(element, "volatile"@, Shape::Flag));
    }
    let ghost noted_volatile = noted_const + note(element, "volatile"@, Shape::Flag);
    let restrict_ = c.flag("restrict");
    proof {
        lemma_add_associative(start, noted_volatile, note(element, "restrict"@, Shape::Flag));
    }
    Ok(
        Item::CvQualifiedType { id: Id(id), type_, const_, volatile_, restrict_ },
    )
}

/// Reads a pointer type whose identifier has been decoded.
pub fn pointer_type(c: &mut Context, children: &Vec<RawChild>, id: u64) -> (r: Result<Item, Malformed>)
    ensures
        final(c)@ == old(c)@,
        match r {
            Ok(item) => {
                &&& kind_violation(Kind::PointerType, old(c)@, children@, id) is None
                &&& advanced(
                    old(c),
                    final(c),
                    kind_notes(Kind::PointerType, old(c)@, children@, id),
                    kind_skipped(Kind::PointerType, old(c)@, children@, id),
                )
                &&& !kind_skipped(Kind::PointerType, old(c)@, children@, id) ==> kind_is(
                    Kind::PointerType,
                    old(c)@,
                    children@,
                    id,
                    item,
                )
            },
            Err(m) => kind_violation(Kind::PointerType, old(c)@, children@, id) == Some(m@),
        },
{
    let ghost start = views(c.notes@);
    let ghost element = c@;
    let type_ = c.reference("type")?;
    let size = c.optional_number("size");
    let ghost noted_size = note(element, "size"@, Shape::Number);
    let align = c.optional_number("align");
    proof {
        lemma_add_associative(start, noted_size, note(element, "align"@, Shape::Number));
    }
    Ok(
        Item::PointerType { id: Id(id), type_, size, align },
    )
}

/// Reads a pointer to a member whose identifier has been decoded.
pub fn offset_type(c: &mut Context, children: &Vec<RawChild>, id: u64) -> (r: Result<Item, Malformed>)
    ensures
        final(c)@ == old(c)@,
        match r {
            Ok(item) => {
                &&& kind_violation(Kind::OffsetType, old(c)@, children@, id) is None
                &&& advanced(
                    old(c),
                    final(c),
                    kind_notes(Kind::OffsetType, old(c)@, children@, id),
                    kind_skipped(Kind::OffsetType, old(c)@, children@, id),
                )
                &&& !kind_skipped(Kind::OffsetType, old(c)@, children@, id) ==> kind_is(
                    Kind::OffsetType,
                    old(c)@,
                    children@,
                    id,
                    item,
                )
            },
            Err(m) => kind_violation(Kind::OffsetType, old(c)@, children@, id) == Some(m@),
        },
{
    let ghost start = views(c.notes@);
    let basetype = c.reference("basetype")?;
    let type_ = c.reference("type")?;
    proof {
        assert(start + Seq::<DiagnosticView>::empty() =~= start);
    }
    Ok(
        Item::OffsetType { id: Id(id), basetype, type_ },
    )
}

/// Reads a reference type whose identifier has been decoded.
pub fn reference_type(c: &mut Context, children: &Vec<RawChild>, id: u64) -> (r: Result<Item, Malformed>)
    ensures
        final(c)@ == old(c)@,
        match r {
            Ok(item) => {
                &&& kind_violation(Kind::ReferenceType, old(c)@, children@, id) is None
                &&& advanced(
                    old(c),
                    final(c),
                    kind_notes(Kind::ReferenceType, old(c)@, children@, id),
                    kind_skipped(Kind::ReferenceType, old(c)@, children@, id),
                )
                &&& !kind_skipped(Kind::ReferenceType, old(c)@, children@, id) ==> kind_is(
                    Kind::ReferenceType,
                    old(c)@,
                    children@,
                    id,
                    item,
                )
            },
            Err(m) => kind_violation(Kind::ReferenceType, old(c)@, children@, id) == Some(m@),
        },
{
    let ghost start = views(c.notes@);
    let ghost element = c@;
    let type_ = c.reference("type")?;
    let size = c.optional_number("size");
    let ghost noted_size = note(element, "size"@, Shape::Number);
    let align = c.optional_number("align");
    proof {
        lemma_add_associative(start, noted_size, note(element, "align"@, Shape::Number));
    }
    Ok(
        Item::ReferenceType { id: Id(id), type_, size, align },
    )
}

/// Reads an array type whose identifier has been decoded.
pub fn array_type(c: &mut Context, children: &Vec<RawChild>, id: u64) -> (r: Result<Item, Malformed>)
    ensures
        final(c)@ == old(c)@,
        match r {
            Ok(item) => {
                &&& kind_violation(Kind::ArrayType, old(c)@, children@, id) is None
                &&& advanced(
                    old(c),
                    final(c),
                    kind_notes(Kind::ArrayType, old(c)@, children@, id),
                    kind_skipped(Kind::ArrayType, old(c)@, children@, id),
                )
                &&& !kind_skipped(Kind::ArrayType, old(c)@, children@, id) ==> kind_is(
                    Kind::ArrayType,
                    old(c)@,
                    children@,
                    id,
                    item,
                )
            },
            Err(m) => kind_violation(Kind::ArrayType, old(c)@, children@, id) == Some(m@),
        },
{
    let ghost start = views(c.notes@);
    let ghost element = c@;
    let type_ = c.reference("type")?;
    let min = c.number("min")?;
    let ghost noted_min = note(element, "min"@, Shape::Number);
    let max = c.optional_number("max");
    proof {
        lemma_add_associative(start, noted_min, note(element, "max"@, Shape::Number));
    }
    Ok(
        Item::ArrayType { id: Id(id), type_, min, max },
    )
}

/// Reads an elaborated type whose identifier has been decoded.
pub fn elaborated_type(c: &mut Context, children: &Vec<RawChild>, id: u64) -> (r: Result<Item, Malformed>)
    ensures
        final(c)@ == old(c)@,
        match r {
            Ok(item) => {
                &&& kind_violation(Kind::ElaboratedType, old(c)@, children@, id) is None
                &&& advanced(
                    old(c),
                    final(c),
                    kind_notes(Kind::ElaboratedType, old(c)@, children@, id),
                    kind_skipped(Kind::ElaboratedType, old(c)@, children@, id),
                )
                &&& !kind_skipped(Kind::ElaboratedType, old(c)@, children@, id) ==> kind_is(
                    Kind::ElaboratedType,
                    old(c)@,
                    children@,
                    id,
                    item,
                )
            },
            Err(m) => kind_violation(Kind::ElaboratedType, old(c)@, children@, id) == Some(m@),
        },
{
    let ghost start = views(c.notes@);
    let type_ = c.reference("type")?;
    proof {
        assert(start + Seq::<DiagnosticView>::empty() =~= start);
    }
    Ok(
        Item::ElaboratedType { id: Id(id), type_ },
    )
}

/// Reads a construct that the dump could not classify whose identifier has been decoded.
pub fn unimplemented(c: &mut Context, children: &Vec<RawChild>, id: u64) -> (r: Result<Item, Malformed>)
    ensures
        final(c)@ == old(c)@,
        match r {
            Ok(item) => {
                &&& kind_violation(Kind::Unimplemented, old(c)@, children@, id) is None
                &&& advanced(
                    old(c),
                    final(c),
                    kind_notes(Kind::Unimplemented, old(c)@, children@, id),
                    kind_skipped(Kind::Unimplemented, old(c)@, children@, id),
                )
                &&& !kind_skipped(Kind::Unimplemented, old(c)@, children@, id) ==> kind_is(
                    Kind::Unimplemented,
                    old(c)@,
                    children@,
                    id,
                    item,
                )
            },
            Err(m) => kind_violation(Kind::Unimplemented, old(c)@, children@, id) == Some(m@),
        },
{
    let ghost start = views(c.notes@);
    proof {
        assert(start + Seq::<DiagnosticView>::empty() =~= start);
    }
    Ok(
        Item::Unimplemented { id: Id(id), kind: c.optional_name("kind"), type_class: c.optional_name("type_class") },
    )
}

/// Reads an enumeration whose identifier has been decoded.
pub fn enumeration(c: &mut Context, children: &Vec<RawChild>, id: u64) -> (r: Result<Item, Malformed>)
    ensures
        final(c)@ == old(c)@,
        match r {
            Ok(item) => {
                &&& kind_violation(Kind::Enumeration, old(c)@, children@, id) is None
                &&& advanced(
                    old(c),
                    final(c),
                    kind_notes(Kind::Enumeration, old(c)@, children@, id),
                    kind_skipped(Kind::Enumeration, old(c)@, children@, id),
                )
                &&& !kind_skipped(Kind::Enumeration, old(c)@, children@, id) ==> kind_is(
                    Kind::Enumeration,
                    old(c)@,
                    children@,
                    id,
                    item,
                )
            },
            Err(m) => kind_violation(Kind::Enumeration, old(c)@, children@, id) == Some(m@),
        },
{
    let ghost start = views(c.notes@);
    let ghost element = c@;
    let type_ = c.reference("type")?;
    let context = c.optional_reference("context")?;
    let size = c.number("size")?;
    let ghost noted_size = note(element, "size"@, Shape::Number);
    let align = c.number("align")?;
    proof {
        lemma_add_associative(start, noted_size, note(element, "align"@, Shape::Number));
    }
    let ghost noted_align = noted_size + note(element, "align"@, Shape::Number);
    let access = c.optional_access("access");
    proof {
        lemma_add_associative(start, noted_align, note(element, "access"@, Shape::AccessWord));
    }
    let ghost noted_access = noted_align + note(element, "access"@, Shape::AccessWord);
    let scoped = c.flag("scoped");
    proof {
        lemma_add_associative(start, noted_access, note(element, "scoped"@, Shape::Flag));
    }
    let ghost noted_scoped = noted_access + note(element, "scoped"@, Shape::Flag);
    let artificial = c.flag("artificial");
    proof {
        lemma_add_associative(start, noted_scoped, note(element, "artificial"@, Shape::Flag));
    }
    let ghost noted_artificial = noted_scoped + note(element, "artificial"@, Shape::Flag);
    let values = enumerators(c, children, id)?;
    proof {
        lemma_add_associative(start, noted_artificial, children_notes(children@, "EnumValue"@, id, enumerator_noting()));
    }
    Ok(
        Item::Enumeration {
            values,
            id: Id(id),
            name: c.name_or_empty("name"),
            type_,
            context,
            access,
            scoped,
            artificial,
            size,
            align,
        },
    )
}

/// Reads the type of a method whose identifier has been decoded.
pub fn method_type(c: &mut Context, children: &Vec<RawChild>, id: u64) -> (r: Result<Item, Malformed>)
    ensures
        final(c)@ == old(c)@,
        match r {
            Ok(item) => {
                &&& kind_violation(Kind::MethodType, old(c)@, children@, id) is None
                &&& advanced(
                    old(c),
                    final(c),
                    kind_notes(Kind::MethodType, old(c)@, children@, id),
                    kind_skipped(Kind::MethodType, old(c)@, children@, id),
                )
                &&& !kind_skipped(Kind::MethodType, old(c)@, children@, id) ==> kind_is(
                    Kind::MethodType,
                    old(c)@,
                    children@,
                    id,
                    item,
                )
            },
            Err(m) => kind_violation(Kind::MethodType, old(c)@, children@, id) == Some(m@),
        },
{
    let signature = function_type(c, children, id)?;
    let basetype = c.reference("basetype")?;
    Ok(Item::MethodType { signature, basetype })
}

/// Reads a struct whose identifier has been decoded.
pub fn structure(c: &mut Context, children: &Vec<RawChild>, id: u64) -> (r: Result<Item, Malformed>)
    ensures
        final(c)@ == old(c)@,
        match r {
            Ok(item) => {
                &&& kind_violation(Kind::Struct, old(c)@, children@, id) is None
                &&& advanced(
                    old(c),
                    final(c),
                    kind_notes(Kind::Struct, old(c)@, children@, id),
                    kind_skipped(Kind::Struct, old(c)@, children@, id),
                )
                &&& !kind_skipped(Kind::Struct, old(c)@, children@, id) ==> kind_is(
                    Kind::Struct,
                    old(c)@,
                    children@,
                    id,
                    item,
                )
            },
            Err(m) => kind_violation(Kind::Struct, old(c)@, children@, id) == Some(m@),
        },
{
    Ok(Item::Struct(record(c, children, id)?))
}

/// Reads a union whose identifier has been decoded.
pub fn union(c: &mut Context, children: &Vec<RawChild>, id: u64) -> (r: Result<Item, Malformed>)
    ensures
        final(c)@ == old(c)@,
        match r {
            Ok(item) => {
                &&& kind_violation(Kind::Union, old(c)@, children@, id) is None
                &&& advanced(
                    old(c),
                    final(c),
                    kind_notes(Kind::Union, old(c)@, children@, id),
                    kind_skipped(Kind::Union, old(c)@, children@, id),
                )
                &&& !kind_skipped(Kind::Union, old(c)@, children@, id) ==> kind_is(
                    Kind::Union,
                    old(c)@,
                    children@,
                    id,
                    item,
                )
            },
            Err(m) => kind_violation(Kind::Union, old(c)@, children@, id) == Some(m@),
        },
{
    Ok(Item::Union(record(c, children, id)?))
}

/// Reads a class whose identifier has been decoded.
pub fn class(c: &mut Context, children: &Vec<RawChild>, id: u64) -> (r: Result<Item, Malformed>)
    ensures
        final(c)@ == old(c)@,
        match r {
            Ok(item) => {
                &&& kind_violation(Kind::Class, old(c)@, children@, id) is None
                &&& advanced(
                    old(c),
                    final(c),
                    kind_notes(Kind::Class, old(c)@, children@, id),
                    kind_skipped(Kind::Class, old(c)@, children@, id),
                )
                &&& !kind_skipped(Kind::Class, old(c)@, children@, id) ==> kind_is(
                    Kind::Class,
                    old(c)@,
                    children@,
                    id,
                    item,
                )
            },
            Err(m) => kind_violation(Kind::Class, old(c)@, children@, id) == Some(m@),
        },
{
    Ok(Item::Class(record(c, children, id)?))
}

/// Reads a function whose identifier has been decoded.
pub fn free_function(c: &mut Context, children: &Vec<RawChild>, id: u64) -> (r: Result<Item, Malformed>)
    ensures
        final(c)@ == old(c)@,
        match r {
            Ok(item) => {
                &&& kind_violation(Kind::Function, old(c)@, children@, id) is None
                &&& advanced(
                    old(c),
                    final(c),
                    kind_notes(Kind::Function, old(c)@, children@, id),
                    kind_skipped(Kind::Function, old(c)@, children@, id),
                )
                &&& !kind_skipped(Kind::Function, old(c)@, children@, id) ==> kind_is(
                    Kind::Function,
                    old(c)@,
                    children@,
                    id,
                    item,
                )
            },
            Err(m) => kind_violation(Kind::Function, old(c)@, children@, id) == Some(m@),
        },
{
    Ok(Item::Function(function(c, children, id)?))
}

/// Reads an operator function whose identifier has been decoded.
pub fn operator_function(c: &mut Context, children: &Vec<RawChild>, id: u64) -> (r: Result<Item, Malformed>)
    ensures
        final(c)@ == old(c)@,
        match r {
            Ok(item) => {
                &&& kind_violation(Kind::OperatorFunction, old(c)@, children@, id) is None
                &&& advanced(
                    old(c),
                    final(c),
                    kind_notes(Kind::OperatorFunction, old(c)@, children@, id),
                    kind_skipped(Kind::OperatorFunction, old(c)@, children@, id),
                )
                &&& !kind_skipped(Kind::OperatorFunction, old(c)@, children@, id) ==> kind_is(
                    Kind::OperatorFunction,
                    old(c)@,
                    children@,
                    id,
                    item,
                )
            },
            Err(m) => kind_violation(Kind::OperatorFunction, old(c)@, children@, id) == Some(m@),
        },
{
    Ok(Item::OperatorFunction(function(c, children, id)?))
}

/// Reads a constructor whose identifier has been decoded.
pub fn constructor(c: &mut Context, children: &Vec<RawChild>, id: u64) -> (r: Result<Item, Malformed>)
    ensures
        final(c)@ == old(c)@,
        match r {
            Ok(item) => {
                &&& kind_violation(Kind::Constructor, old(c)@, children@, id) is None
                &&& advanced(
                    old(c),
                    final(c),
                    kind_notes(Kind::Constructor, old(c)@, children@, id),
                    kind_skipped(Kind::Constructor, old(c)@, children@, id),
                )
                &&& !kind_skipped(Kind::Constructor, old(c)@, children@, id) ==> kind_is(
                    Kind::Constructor,
                    old(c)@,
                    children@,
                    id,
                    item,
                )
            },
            Err(m) => kind_violation(Kind::Constructor, old(c)@, children@, id) == Some(m@),
        },
{
    Ok(Item::Constructor(method(c, children, id)?))
}

/// Reads a destructor whose identifier has been decoded.
pub fn destructor(c: &mut Context, children: &Vec<RawChild>, id: u64) -> (r: Result<Item, Malformed>)
    ensures
        final(c)@ == old(c)@,
        match r {
            Ok(item) => {
                &&& kind_violation(Kind::Destructor, old(c)@, children@, id) is None
                &&& advanced(
                    old(c),
                    final(c),
                    kind_notes(Kind::Destructor, old(c)@, children@, id),
                    kind_skipped(Kind::Destructor, old(c)@, children@, id),
                )
                &&& !kind_skipped(Kind::Destructor, old(c)@, children@, id) ==> kind_is(
                    Kind::Destructor,
                    old(c)@,
                    children@,
                    id,
                    item,
                )
            },
            Err(m) => kind_violation(Kind::Destructor, old(c)@, children@, id) == Some(m@),
        },
{
    Ok(Item::Destructor(method(c, children, id)?))
}

/// Reads a method whose identifier has been decoded.
pub fn plain_method(c: &mut Context, children: &Vec<RawChild>, id: u64) -> (r: Result<Item, Malformed>)
    ensures
        final(c)@ == old(c)@,
        match r {
            Ok(item) => {
                &&& kind_violation(Kind::Method, old(c)@, children@, id) is None
                &&& advanced(
                    old(c),
                    final(c),
                    kind_notes(Kind::Method, old(c)@, children@, id),
                    kind_skipped(Kind::Method, old(c)@, children@, id),
                )
                &&& !kind_skipped(Kind::Method, old(c)@, children@, id) ==> kind_is(
                    Kind::Method,
                    old(c)@,
                    children@,
                    id,
                    item,
                )
            },
            Err(m) => kind_violation(Kind::Method, old(c)@, children@, id) == Some(m@),
        },
{
    Ok(Item::Method(method(c, children, id)?))
}

/// Reads an operator method whose identifier has been decoded.
pub fn operator_method(c: &mut Context, children: &Vec<RawChild>, id: u64) -> (r: Result<Item, Malformed>)
    ensures
        final(c)@ == old(c)@,
        match r {
            Ok(item) => {
                &&& kind_violation(Kind::OperatorMethod, old(c)@, children@, id) is None
                &&& advanced(
                    old(c),
                    final(c),
                    kind_notes(Kind::OperatorMethod, old(c)@, children@, id),
                    kind_skipped(Kind::OperatorMethod, old(c)@, children@, id),
                )
                &&& !kind_skipped(Kind::OperatorMethod, old(c)@, children@, id) ==> kind_is(
                    Kind::OperatorMethod,
                    old(c)@,
                    children@,
                    id,
                    item,
                )
            },
            Err(m) => kind_violation(Kind::OperatorMethod, old(c)@, children@, id) == Some(m@),
        },
{
    Ok(Item::OperatorMethod(method(c, children, id)?))
}

/// Reads a conversion operator whose identifier has been decoded.
pub fn converter(c: &mut Context, children: &Vec<RawChild>, id: u64) -> (r: Result<Item, Malformed>)
    ensures
        final(c)@ == old(c)@,
        match r {
            Ok(item) => {
                &&& kind_violation(Kind::Converter, old(c)@, children@, id) is None
                &&& advanced(
                    old(c),
                    final(c),
                    kind_notes(Kind::Converter, old(c)@, children@, id),
                    kind_skipped(Kind::Converter, old(c)@, children@, id),
                )
                &&& !kind_skipped(Kind::Converter, old(c)@, children@, id) ==> kind_is(
                    Kind::Converter,
                    old(c)@,
                    children@,
                    id,
                    item,
                )
            },
            Err(m) => kind_violation(Kind::Converter, old(c)@, children@, id) == Some(m@),
        },
{
    Ok(Item::Converter(method(c, children, id)?))
}

/// Reads a function type whose identifier has been decoded.
pub fn function_type_node(c: &mut Context, children: &Vec<RawChild>, id: u64) -> (r: Result<Item, Malformed>)
    ensures
        final(c)@ == old(c)@,
        match r {
            Ok(item) => {
                &&& kind_violation(Kind::FunctionType, old(c)@, children@, id) is None
                &&& advanced(
                    old(c),
                    final(c),
                    kind_notes(Kind::FunctionType, old(c)@, children@, id),
                    kind_skipped(Kind::FunctionType, old(c)@, children@, id),
                )
                &&& !kind_skipped(Kind::FunctionType, old(c)@, children@, id) ==> kind_is(
                    Kind::FunctionType,
                    old(c)@,
                    children@,
                    id,
                    item,
                )
            },
            Err(m) => kind_violation(Kind::FunctionType, old(c)@, children@, id) == Some(m@),
        },
{
    Ok(Item::FunctionType(function_type(c, children, id)?))
}

/// Reads an element of a known kind whose identifier has been decoded.
pub fn node(kind: Kind, c: &mut Context, children: &Vec<RawChild>, id: u64) -> (r: Result<Item, Malformed>)
    ensures
        final(c)@ == old(c)@,
        match r {
            Ok(item) => {
                &&& kind_violation(kind, old(c)@, children@, id) is None
                &&& advanced(
                    old(c),
                    final(c),
                    kind_notes(kind, old(c)@, children@, id),
                    kind_skipped(kind, old(c)@, children@, id),
                )
                &&& !kind_skipped(kind, old(c)@, children@, id) ==> kind_is(kind, old(c)@, children@, id, item)
            },
            Err(m) => kind_violation(kind, old(c)@, children@, id) == Some(m@),
        },
{
    match kind {
        Kind::File => file(c, children, id),
        Kind::Namespace => namespace(c, children, id),
        Kind::Comment => comment(c, children, id),
        Kind::Struct => structure(c, children, id),
        Kind::Union => union(c, children, id),
        Kind::Class => class(c, children, id),
        Kind::Enumeration => enumeration(c, children, id),
        Kind::Variable => variable(c, children, id),
        Kind::Field => field(c, children, id),
        Kind::Function => free_function(c, children, id),
        Kind::OperatorFunction => operator_function(c, children, id),
        Kind::Constructor => constructor(c, children, id),
        Kind::Destructor => destructor(c, children, id),
        Kind::Method => plain_method(c, children, id),
        Kind::OperatorMethod => operator_method(c, children, id),
        Kind::Converter => converter(c, children, id),
        Kind::Typedef => typedef(c, children, id),
        Kind::FundamentalType => fundamental_type(c, children, id),
        Kind::CvQualifiedType => qualified_type(c, children, id),
        Kind::PointerType => pointer_type(c, children, id),
        Kind::OffsetType => offset_type(c, children, id),
        Kind::ReferenceType => reference_type(c, children, id),
        Kind::ArrayType => array_type(c, children, id),
        Kind::ElaboratedType => elaborated_type(c, children, id),
        Kind::FunctionType => function_type_node(c, children, id),
        Kind::MethodType => method_type(c, children, id),
        Kind::Unimplemented => unimplemented(c, children, id),
    }
}

/// The context in which an element is read.
pub open spec fn context_of(e: RawElement, id: Option<u64>) -> ContextView {
    ContextView { tag: e.tag@, id, attributes: e.attributes@ }
}

/// The violation that an element of no known kind makes.
pub open spec fn unknown_element(e: RawElement) -> MalformedView {
    MalformedView { element: e.tag@, id: None, attribute: Seq::empty(), fault: Fault::UnknownElement }
}

/// The numeral of the element's identifier, where it has one.
pub open spec fn element_id(e: RawElement) -> Option<u64> {
    reference_of(context_of(e, None), "id"@)
}

/// The first violation of an element that ends the run: that its kind is
/// unknown, that its identifier is absent or no identifier, or what its
/// kind's rules find.
pub open spec fn element_violation(e: RawElement) -> Option<MalformedView> {
    match kind_named(e.tag@) {
        None => Some(unknown_element(e)),
        Some(kind) => first(
            violation(context_of(e, None), "id"@, Shape::Reference, true),
            match element_id(e) {
                Some(id) => kind_violation(kind, context_of(e, Some(id)), e.children@, id),
                None => None,
            },
        ),
    }
}

/// What is noted of an element.
pub open spec fn element_notes(e: RawElement) -> Seq<DiagnosticView> {
    match kind_named(e.tag@) {
        None => Seq::empty(),
        Some(kind) => match element_id(e) {
            Some(id) => kind_notes(kind, context_of(e, Some(id)), e.children@, id),
            None => Seq::empty(),
        },
    }
}

/// Whether an element has to be skipped.
pub open spec fn element_skipped(e: RawElement) -> bool {
    match kind_named(e.tag@) {
        None => false,
        Some(kind) => match element_id(e) {
            Some(id) => kind_skipped(kind, context_of(e, Some(id)), e.children@, id),
            None => false,
        },
    }
}

/// The node is what the element holds.
pub open spec fn element_is(e: RawElement, item: Item) -> bool {
    match kind_named(e.tag@) {
        None => false,
        Some(kind) => match element_id(e) {
            Some(id) => kind_is(kind, context_of(e, Some(id)), e.children@, id, item),
            None => false,
        },
    }
}

/// What reading one element gives: the node, unless the element has to be
/// skipped, and what was noted.
#[derive(Debug, PartialEq, Eq)]
pub struct Reading {
    pub item: Option<Item>,
    pub notes: Vec<Diagnostic>,
}

/// Reads one element: its kind, its identifier, then what its kind asks
/// for. A violation that ends the run is returned. An element of which a
/// required value is ill encoded gives no node.
pub fn element(e: &RawElement) -> (r: Result<Reading, Malformed>)
    ensures
        match r {
            Ok(reading) => {
                &&& element_violation(*e) is None
                &&& views(reading.notes@) == element_notes(*e)
                &&& reading.item is None <==> element_skipped(*e)
                &&& reading.item matches Some(item) ==> element_is(*e, item)
            },
            Err(m) => element_violation(*e) == Some(m@),
        },
{
    let kind: Kind = match kind_of(&e.tag) {
        Some(k) => k,
        None => {
            return Err(
                Malformed {
                    element: e.tag.clone(),
                    id: None,
                    attribute: String::new(),
                    fault: Fault::UnknownElement,
                },
            );
        },
    };
    let unnamed = Context::new(&e.tag, None, &e.attributes);
    let id: u64 = unnamed.reference("id")?.0;
    let mut c = Context::new(&e.tag, Some(id), &e.attributes);
    let item = node(kind, &mut c, &e.children, id)?;
    proof {
        assert(Seq::<DiagnosticView>::empty() + kind_notes(kind, c@, e.children@, id) =~= kind_notes(
            kind,
            c@,
            e.children@,
            id,
        ));
    }
    if c.skip {
        Ok(Reading { item: None, notes: c.notes })
    } else {
        Ok(Reading { item: Some(item), notes: c.notes })
    }
}

/// The first violation among the elements, in document order.
pub open spec fn elements_violation(elements: Seq<RawElement>) -> Option<MalformedView>
    decreases elements.len(),
{
    if elements.len() == 0 {
        None
    } else {
        first(elements_violation(elements.drop_last()), element_violation(elements.last()))
    }
}

/// What is noted of the elements, in document order.
pub open spec fn elements_notes(elements: Seq<RawElement>) -> Seq<DiagnosticView>
    decreases elements.len(),
{
    if elements.len() == 0 {
        Seq::empty()
    } else {
        elements_notes(elements.drop_last()) + element_notes(elements.last())
    }
}

/// The elements that are not skipped, in document order.
pub open spec fn kept(elements: Seq<RawElement>) -> Seq<RawElement>
    decreases elements.len(),
{
    if elements.len() == 0 {
        Seq::empty()
    } else if element_skipped(elements.last()) {
        kept(elements.drop_last())
    } else {
        kept(elements.drop_last()).push(elements.last())
    }
}

/// A violation among the first `k` elements is the violation of them all.
pub proof fn lemma_elements_violation_prefix(elements: Seq<RawElement>, k: int)
    requires
        0 <= k <= elements.len(),
        elements_violation(elements.take(k)) is Some,
    ensures
        elements_violation(elements) == elements_violation(elements.take(k)),
    decreases elements.len() - k,
{
    if k == elements.len() {
        assert(elements.take(k) =~= elements);
    } else {
        assert(elements.take(k + 1).drop_last() =~= elements.take(k));
        lemma_elements_violation_prefix(elements, k + 1);
    }
}

/// The attribute of the root element that holds the format version: for
/// the root `CastXML` its `format`, for the root `GCC_XML` its `version`.
pub open spec fn format_attribute(root: Seq<char>) -> Option<Seq<char>> {
    if root == "CastXML"@ {
        Some("format"@)
    } else if root == "GCC_XML"@ {
        Some("version"@)
    } else {
        None
    }
}

/// The context in which the root element is read.
pub open spec fn root_context(d: RawDocument) -> ContextView {
    ContextView { tag: d.root@, id: None, attributes: d.attributes@ }
}

/// The first violation of a document that ends the run: an unknown root, a
/// root without its format version, or the first such violation among the
/// elements.
pub open spec fn document_violation(d: RawDocument) -> Option<MalformedView> {
    match format_attribute(d.root@) {
        None => Some(
            MalformedView { element: d.root@, id: None, attribute: Seq::empty(), fault: Fault::UnknownRoot },
        ),
        Some(name) => first(
            violation(root_context(d), name, Shape::Text, true),
            elements_violation(d.elements@),
        ),
    }
}

/// What is noted of a document.
pub open spec fn document_notes(d: RawDocument) -> Seq<DiagnosticView> {
    elements_notes(d.elements@)
}

/// The node table is what the document holds: its format version, and one
/// node for each element that is not skipped, in document order.
pub open spec fn document_is(d: RawDocument, doc: CastXML) -> bool {
    &&& format_attribute(d.root@) matches Some(name) && lookup(d.attributes@, name) == Some(doc.format@)
    &&& doc.items@.len() == kept(d.elements@).len()
    &&& forall|i: int|
        0 <= i < doc.items@.len() ==> element_is(kept(d.elements@)[i], #[trigger] doc.items@[i])
}

/// Ingests a document: the node table in document order with what was
/// noted on the way, or the first violation that ends the run.
pub fn ingest(d: &RawDocument) -> (r: Result<(CastXML, Vec<Diagnostic>), Malformed>)
    ensures
        match r {
            Ok(pair) => {
                &&& document_violation(*d) is None
                &&& document_is(*d, pair.0)
                &&& views(pair.1@) == document_notes(*d)
            },
            Err(m) => document_violation(*d) == Some(m@),
        },
{
    let c = Context::new(&d.root, None, &d.attributes);
    let format: String = if d.root == String::from_str("CastXML") {
        c.text("format")?.clone()
    } else if d.root == String::from_str("GCC_XML") {
        c.text("version")?.clone()
    } else {
        return Err(
            Malformed {
                element: d.root.clone(),
                id: None,
                attribute: String::new(),
                fault: Fault::UnknownRoot,
            },
        );
    };
    let mut items: Vec<Item> = Vec::new();
    let mut notes: Vec<Diagnostic> = Vec::new();
    let n: usize = d.elements.len();
    let mut i: usize = 0;
    proof {
        assert(d.elements@.take(0) =~= Seq::<RawElement>::empty());
        lemma_views_empty(notes@);
    }
    while i < n
        invariant
            n == d.elements@.len(),
            0 <= i <= n,
            elements_violation(d.elements@.take(i as int)) is None,
            views(notes@) == elements_notes(d.elements@.take(i as int)),
            items@.len() == kept(d.elements@.take(i as int)).len(),
            forall|j: int|
                0 <= j < items@.len() ==> element_is(
                    kept(d.elements@.take(i as int))[j],
                    #[trigger] items@[j],
                ),
            format_attribute(d.root@) matches Some(name) && lookup(d.attributes@, name) == Some(format@)
                && violation(root_context(*d), name, Shape::Text, true) is None,
        decreases n - i,
    {
        proof {
            assert(d.elements@.take(i + 1).drop_last() =~= d.elements@.take(i as int));
            assert(d.elements@.take(i + 1).last() == d.elements@[i as int]);
        }
        let ghost before = kept(d.elements@.take(i as int));
        match element(&d.elements[i]) {
            Err(m) => {
                proof {
                    lemma_elements_violation_prefix(d.elements@, i + 1);
                }
                return Err(m);
            },
            Ok(reading) => {
                let mut noted = reading.notes;
                proof {
                    lemma_views_add(notes@, noted@);
                }
                notes.append(&mut noted);
                match reading.item {
                    Some(item) => {
                        items.push(item);
                        proof {
                            let after = kept(d.elements@.take(i + 1));
                            assert forall|j: int| 0 <= j < items@.len() implies element_is(
                                after[j],
                                #[trigger] items@[j],
                            ) by {
                                if j < before.len() {
                                    assert(after[j] == before[j]);
                                }
                            }
                        }
                    },
                    None => {},
                }
            },
        }
        i = i + 1;
    }
    proof {
        assert(d.elements@.take(n as int) =~= d.elements@);
    }
    Ok((CastXML { format, items }, notes))
}

} // verus!
