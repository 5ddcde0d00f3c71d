//! Ingestion of declarations that have child elements: functions and
//! methods with their arguments, function types, records with their bases,
//! and enumerations with their enumerators.

use crate::model::{lemma_views_add, views};
use crate::diag::DiagnosticView;
use crate::raw::{
    access_of, advanced, first, flag_of, ill_encoded, integer_of, lookup, name_or_empty_is, note,
    number_of, optional_name_is, optional_reference_is, optional_references_are,
    optional_text_is, reference_of, references_of, violation, Context, ContextView, Malformed,
    MalformedView, RawChild, Shape,
};
use crate::schema;
use crate::schema::{Attributes, Base, EnumValue, Expression, Id, IdRef};
use crate::text::numerals_of;
use vstd::prelude::*;

verus! {

/// The context in which a child element of the element `id` is read.
pub open spec fn child_context(child: RawChild, id: u64) -> ContextView {
    ContextView { tag: child.tag@, id: Some(id), attributes: child.attributes@ }
}

/// The first violation among the children of the kind `tag`, each held to
/// `rule`.
pub open spec fn children_violation(
    children: Seq<RawChild>,
    tag: Seq<char>,
    id: u64,
    rule: spec_fn(ContextView) -> Option<MalformedView>,
) -> Option<MalformedView>
    decreases children.len(),
{
    if children.len() == 0 {
        None
    } else {
        first(
            children_violation(children.drop_last(), tag, id, rule),
            if children.last().tag@ == tag {
                rule(child_context(children.last(), id))
            } else {
                None
            },
        )
    }
}

/// What is noted of the children of the kind `tag`, in order.
pub open spec fn children_notes(
    children: Seq<RawChild>,
    tag: Seq<char>,
    id: u64,
    noting: spec_fn(ContextView) -> Seq<DiagnosticView>,
) -> Seq<DiagnosticView>
    decreases children.len(),
{
    if children.len() == 0 {
        Seq::empty()
    } else {
        children_notes(children.drop_last(), tag, id, noting) + if children.last().tag@ == tag {
            noting(child_context(children.last(), id))
        } else {
            Seq::empty()
        }
    }
}

/// Whether one of the children of the kind `tag` makes that the element
/// has to be skipped.
pub open spec fn children_skipped(
    children: Seq<RawChild>,
    tag: Seq<char>,
    id: u64,
    skipping: spec_fn(ContextView) -> bool,
) -> bool
    decreases children.len(),
{
    children.len() > 0 && (children_skipped(children.drop_last(), tag, id, skipping) || (
    children.last().tag@ == tag && skipping(child_context(children.last(), id))))
}

/// The values `v` are what the children of the kind `tag` hold, one value
/// for each such child, in order.
pub open spec fn children_are<T>(
    children: Seq<RawChild>,
    tag: Seq<char>,
    id: u64,
    v: Seq<T>,
    relation: spec_fn(ContextView, T) -> bool,
) -> bool
    decreases children.len(),
{
    if children.len() == 0 {
        v.len() == 0
    } else if children.last().tag@ == tag {
        &&& v.len() > 0
        &&& children_are(children.drop_last(), tag, id, v.drop_last(), relation)
        &&& relation(child_context(children.last(), id), v.last())
    } else {
        children_are(children.drop_last(), tag, id, v, relation)
    }
}

/// A violation among the first `k` children is the violation of them all.
pub proof fn lemma_children_violation_prefix(
    children: Seq<RawChild>,
    k: int,
    tag: Seq<char>,
    id: u64,
    rule: spec_fn(ContextView) -> Option<MalformedView>,
)
    requires
        0 <= k <= children.len(),
        children_violation(children.take(k), tag, id, rule) is Some,
    ensures
        children_violation(children, tag, id, rule) == children_violation(children.take(k), tag, id, rule),
    decreases children.len() - k,
{
    if k == children.len() {
        assert(children.take(k) =~= children);
    } else {
        assert(children.take(k + 1).drop_last() =~= children.take(k));
        lemma_children_violation_prefix(children, k + 1, tag, id, rule);
    }
}

/// Notes may be gathered in any grouping.
pub proof fn lemma_add_associative(a: Seq<DiagnosticView>, b: Seq<DiagnosticView>, c: Seq<DiagnosticView>)
    ensures
        (a + b) + c == a + (b + c),
{
    assert((a + b) + c =~= a + (b + c));
}

/// The text of an optional expression.
pub open spec fn expression_string(e: Option<Expression>) -> Option<String> {
    match e {
        Some(x) => Some(x.0),
        None => None,
    }
}

/// The text of an optional attribute list.
pub open spec fn attributes_string(a: Option<Attributes>) -> Option<String> {
    match a {
        Some(x) => Some(x.0),
        None => None,
    }
}

/// What an argument of a function has to hold.
pub open spec fn argument_violation(c: ContextView) -> Option<MalformedView> {
    first(
        violation(c, "type"@, Shape::Reference, true),
        violation(c, "original_type"@, Shape::Reference, false),
    )
}

/// `argument_violation` as a rule for children.
pub open spec fn argument_rule() -> spec_fn(ContextView) -> Option<MalformedView> {
    |c: ContextView| argument_violation(c)
}

/// The argument is what the child element holds.
pub open spec fn argument_is(c: ContextView, a: schema::Argument) -> bool {
    &&& reference_of(c, "type"@) == Some(a.type_.0)
    &&& optional_reference_is(c, "original_type"@, a.original_type)
    &&& optional_name_is(c, "name"@, a.name)
    &&& optional_text_is(c, "location"@, a.location)
    &&& optional_text_is(c, "default"@, expression_string(a.default))
    &&& optional_text_is(c, "attributes"@, attributes_string(a.attributes))
}

/// `argument_is` as a relation for children.
pub open spec fn argument_relation() -> spec_fn(ContextView, schema::Argument) -> bool {
    |c: ContextView, a: schema::Argument| argument_is(c, a)
}

/// What an argument of a function type has to hold.
pub open spec fn parameter_violation(c: ContextView) -> Option<MalformedView> {
    violation(c, "type"@, Shape::Reference, true)
}

/// `parameter_violation` as a rule for children.
pub open spec fn parameter_rule() -> spec_fn(ContextView) -> Option<MalformedView> {
    |c: ContextView| parameter_violation(c)
}

/// The reference is the type that the child element holds.
pub open spec fn parameter_relation() -> spec_fn(ContextView, IdRef) -> bool {
    |c: ContextView, r: IdRef| reference_of(c, "type"@) == Some(r.0)
}

/// What a base of a record has to hold.
pub open spec fn base_violation(c: ContextView) -> Option<MalformedView> {
    first(violation(c, "type"@, Shape::Reference, true), violation(c, "access"@, Shape::AccessWord, true))
}

/// What is noted of a base.
pub open spec fn base_notes(c: ContextView) -> Seq<DiagnosticView> {
    note(c, "access"@, Shape::AccessWord) + note(c, "virtual"@, Shape::Flag) + note(
        c,
        "offset"@,
        Shape::Number,
    )
}

/// Whether a base makes that its record has to be skipped: its access is
/// ill encoded.
pub open spec fn base_skipped(c: ContextView) -> bool {
    ill_encoded(c.attributes, "access"@, Shape::AccessWord)
}

/// `base_notes` as what is noted of children.
pub open spec fn base_noting() -> spec_fn(ContextView) -> Seq<DiagnosticView> {
    |c: ContextView| base_notes(c)
}

/// `base_skipped` as what makes children skip their element.
pub open spec fn base_skipping() -> spec_fn(ContextView) -> bool {
    |c: ContextView| base_skipped(c)
}

/// `base_violation` as a rule for children.
pub open spec fn base_rule() -> spec_fn(ContextView) -> Option<MalformedView> {
    |c: ContextView| base_violation(c)
}

/// The base is what the child element holds.
pub open spec fn base_is(c: ContextView, b: Base) -> bool {
    &&& reference_of(c, "type"@) == Some(b.type_.0)
    &&& access_of(c, "access"@) == Some(b.access)
    &&& b.virtual_.0 == flag_of(c, "virtual"@)
    &&& b.offset == number_of(c, "offset"@)
}

/// `base_is` as a relation for children.
pub open spec fn base_relation() -> spec_fn(ContextView, Base) -> bool {
    |c: ContextView, b: Base| base_is(c, b)
}

/// What an enumerator has to hold.
pub open spec fn enumerator_violation(c: ContextView) -> Option<MalformedView> {
    first(violation(c, "name"@, Shape::Text, true), violation(c, "init"@, Shape::Integer, true))
}

/// What is noted of an enumerator.
pub open spec fn enumerator_notes(c: ContextView) -> Seq<DiagnosticView> {
    note(c, "init"@, Shape::Integer)
}

/// Whether an enumerator makes that its enumeration has to be skipped: its
/// value is ill encoded.
pub open spec fn enumerator_skipped(c: ContextView) -> bool {
    ill_encoded(c.attributes, "init"@, Shape::Integer)
}

/// `enumerator_notes` as what is noted of children.
pub open spec fn enumerator_noting() -> spec_fn(ContextView) -> Seq<DiagnosticView> {
    |c: ContextView| enumerator_notes(c)
}

/// `enumerator_skipped` as what makes children skip their element.
pub open spec fn enumerator_skipping() -> spec_fn(ContextView) -> bool {
    |c: ContextView| enumerator_skipped(c)
}

/// `enumerator_violation` as a rule for children.
pub open spec fn enumerator_rule() -> spec_fn(ContextView) -> Option<MalformedView> {
    |c: ContextView| enumerator_violation(c)
}

/// The enumerator is what the child element holds.
pub open spec fn enumerator_is(c: ContextView, v: EnumValue) -> bool {
    &&& lookup(c.attributes, "name"@) == Some(v.name.0@)
    &&& integer_of(c, "init"@) == Some(v.init)
    &&& optional_text_is(c, "attributes"@, attributes_string(v.attributes))
}

/// `enumerator_is` as a relation for children.
pub open spec fn enumerator_relation() -> spec_fn(ContextView, EnumValue) -> bool {
    |c: ContextView, v: EnumValue| enumerator_is(c, v)
}

/// What a function has to hold beside its identifier: its own attributes,
/// then its arguments.
pub open spec fn function_violation(c: ContextView, children: Seq<RawChild>, id: u64) -> Option<
    MalformedView,
> {
    first(
        violation(c, "returns"@, Shape::Reference, false),
        first(
            violation(c, "context"@, Shape::Reference, false),
            children_violation(children, "Argument"@, id, argument_rule()),
        ),
    )
}

/// What is noted of a function: of its flags.
pub open spec fn function_notes(c: ContextView) -> Seq<DiagnosticView> {
    note(c, "static"@, Shape::Flag) + note(c, "inline"@, Shape::Flag) + note(c, "extern"@, Shape::Flag)
        + note(c, "artificial"@, Shape::Flag)
}

/// The function is what the element holds.
pub open spec fn function_is(c: ContextView, children: Seq<RawChild>, id: u64, f: schema::Function) -> bool {
    &&& f.id.0 == id
    &&& name_or_empty_is(c, "name"@, f.name)
    &&& optional_reference_is(c, "returns"@, f.returns_)
    &&& optional_reference_is(c, "context"@, f.context)
    &&& f.static_.0 == flag_of(c, "static"@)
    &&& f.inline.0 == flag_of(c, "inline"@)
    &&& f.extern_.0 == flag_of(c, "extern"@)
    &&& f.artificial.0 == flag_of(c, "artificial"@)
    &&& optional_text_is(c, "mangled"@, f.mangled)
    &&& optional_text_is(c, "attributes"@, attributes_string(f.attributes))
    &&& optional_text_is(c, "location"@, f.location)
    &&& children_are(children, "Argument"@, id, f.arguments@, argument_relation())
}

/// What a method has to hold beside its identifier: what a function has
/// to, then its access and the methods that it overrides.
pub open spec fn method_violation(c: ContextView, children: Seq<RawChild>, id: u64) -> Option<
    MalformedView,
> {
    first(
        function_violation(c, children, id),
        first(
            violation(c, "access"@, Shape::AccessWord, true),
            violation(c, "overrides"@, Shape::References, false),
        ),
    )
}

/// What is noted of a method: what is of a function, then of its access
/// and its flags.
pub open spec fn method_notes(c: ContextView) -> Seq<DiagnosticView> {
    function_notes(c) + note(c, "access"@, Shape::AccessWord) + note(c, "explicit"@, Shape::Flag) + note(
        c,
        "const"@,
        Shape::Flag,
    ) + note(c, "virtual"@, Shape::Flag) + note(c, "pure_virtual"@, Shape::Flag)
}

/// Whether a method has to be skipped: its access is ill encoded.
pub open spec fn method_skipped(c: ContextView) -> bool {
    ill_encoded(c.attributes, "access"@, Shape::AccessWord)
}

/// The method is what the element holds. A method without the attribute
/// overrides nothing.
pub open spec fn method_is(c: ContextView, children: Seq<RawChild>, id: u64, m: schema::Method) -> bool {
    &&& function_is(c, children, id, m.function)
    &&& access_of(c, "access"@) == Some(m.access)
    &&& m.explicit.0 == flag_of(c, "explicit"@)
    &&& m.const_.0 == flag_of(c, "const"@)
    &&& m.virtual_.0 == flag_of(c, "virtual"@)
    &&& m.pure_virtual.0 == flag_of(c, "pure_virtual"@)
    &&& match lookup(c.attributes, "overrides"@) {
        Some(_) => references_of(c, "overrides"@) == Some(numerals_of(m.overrides@)),
        None => m.overrides@.len() == 0,
    }
}

/// What a function type has to hold beside its identifier.
pub open spec fn function_type_violation(c: ContextView, children: Seq<RawChild>, id: u64) -> Option<
    MalformedView,
> {
    first(
        violation(c, "returns"@, Shape::Reference, true),
        children_violation(children, "Argument"@, id, parameter_rule()),
    )
}

/// What is noted of a function type: of its flags.
pub open spec fn function_type_notes(c: ContextView) -> Seq<DiagnosticView> {
    note(c, "const"@, Shape::Flag) + note(c, "volatile"@, Shape::Flag) + note(
        c,
        "restrict"@,
        Shape::Flag,
    )
}

/// The function type is what the element holds.
pub open spec fn function_type_is(c: ContextView, children: Seq<RawChild>, id: u64, t: schema::FunctionType) -> bool {
    &&& t.id.0 == id
    &&& reference_of(c, "returns"@) == Some(t.returns_.0)
    &&& t.const_.0 == flag_of(c, "const"@)
    &&& t.volatile_.0 == flag_of(c, "volatile"@)
    &&& t.restrict_.0 == flag_of(c, "restrict"@)
    &&& optional_text_is(c, "attributes"@, attributes_string(t.attributes))
    &&& children_are(children, "Argument"@, id, t.arguments@, parameter_relation())
}

/// What a record has to hold beside its identifier: its own attributes,
/// then its bases.
pub open spec fn record_violation(c: ContextView, children: Seq<RawChild>, id: u64) -> Option<MalformedView> {
    first(
        violation(c, "context"@, Shape::Reference, false),
        first(
            violation(c, "members"@, Shape::References, false),
            children_violation(children, "Base"@, id, base_rule()),
        ),
    )
}

/// What is noted of a record: of its own attributes, then of its bases.
pub open spec fn record_notes(c: ContextView, children: Seq<RawChild>, id: u64) -> Seq<DiagnosticView> {
    note(c, "access"@, Shape::AccessWord) + note(c, "incomplete"@, Shape::Flag) + note(
        c,
        "abstract"@,
        Shape::Flag,
    ) + note(c, "artificial"@, Shape::Flag) + note(c, "size"@, Shape::Number) + note(
        c,
        "align"@,
        Shape::Number,
    ) + children_notes(children, "Base"@, id, base_noting())
}

/// Whether a record has to be skipped: one of its bases makes it so.
pub open spec fn record_skipped(children: Seq<RawChild>, id: u64) -> bool {
    children_skipped(children, "Base"@, id, base_skipping())
}

/// The record is what the element holds.
pub open spec fn record_is(c: ContextView, children: Seq<RawChild>, id: u64, r: schema::Record) -> bool {
    &&& r.id.0 == id
    &&& name_or_empty_is(c, "name"@, r.name)
    &&& optional_reference_is(c, "context"@, r.context)
    &&& r.access == access_of(c, "access"@)
    &&& optional_text_is(c, "location"@, r.location)
    &&& r.incomplete.0 == flag_of(c, "incomplete"@)
    &&& r.abstract_.0 == flag_of(c, "abstract"@)
    &&& r.artificial.0 == flag_of(c, "artificial"@)
    &&& optional_references_are(c, "members"@, r.members)
    &&& r.size == number_of(c, "size"@)
    &&& r.align == number_of(c, "align"@)
    &&& optional_text_is(c, "attributes"@, attributes_string(r.attributes))
    &&& children_are(children, "Base"@, id, r.base@, base_relation())
}

/// Wraps an optional text as an optional expression.
pub fn expression(text: Option<String>) -> (r: Option<Expression>)
    ensures
        expression_string(r) == text,
{
    match text {
        Some(t) => Some(Expression(t)),
        None => None,
    }
}

/// Wraps an optional text as an optional attribute list.
pub fn attributes(text: Option<String>) -> (r: Option<Attributes>)
    ensures
        attributes_string(r) == text,
{
    match text {
        Some(t) => Some(Attributes(t)),
        None => None,
    }
}

/// Reads an argument of a function.
pub fn argument(c: &Context) -> (r: Result<schema::Argument, Malformed>)
    ensures
        match r {
            Ok(a) => argument_violation(c@) is None && argument_is(c@, a),
            Err(m) => argument_violation(c@) == Some(m@),
        },
{
    let type_ = c.reference("type")?;
    let original_type = c.optional_reference("original_type")?;
    Ok(
        schema::Argument {
            name: c.optional_name("name"),
            type_,
            original_type,
            location: c.optional_text("location"),
            default: expression(c.optional_text("default")),
            attributes: attributes(c.optional_text("attributes")),
        },
    )
}

/// Reads a base of a record.
pub fn base(c: &mut Context) -> (r: Result<Base, Malformed>)
    ensures
        final(c)@ == old(c)@,
        match r {
            Ok(b) => {
                &&& base_violation(old(c)@) is None
                &&& advanced(old(c), final(c), base_notes(old(c)@), base_skipped(old(c)@))
                &&& !base_skipped(old(c)@) ==> base_is(old(c)@, b)
            },
            Err(m) => base_violation(old(c)@) == Some(m@),
        },
{
    let ghost start = views(c.notes@);
    let ghost element = c@;
    let type_ = c.reference("type")?;
    let access = c.access("access")?;
    let ghost so_far = note(element, "access"@, Shape::AccessWord);
    let virtual_ = c.flag("virtual");
    let ghost with_virtual = so_far + note(element, "virtual"@, Shape::Flag);
    proof {
        lemma_add_associative(start, so_far, note(element, "virtual"@, Shape::Flag));
    }
    let offset = c.optional_number("offset");
    proof {
        lemma_add_associative(start, with_virtual, note(element, "offset"@, Shape::Number));
    }
    Ok(Base { type_, access, virtual_, offset })
}

/// Reads an enumerator.
pub fn enumerator(c: &mut Context) -> (r: Result<EnumValue, Malformed>)
    ensures
        final(c)@ == old(c)@,
        match r {
            Ok(v) => {
                &&& enumerator_violation(old(c)@) is None
                &&& advanced(old(c), final(c), enumerator_notes(old(c)@), enumerator_skipped(old(c)@))
                &&& !enumerator_skipped(old(c)@) ==> enumerator_is(old(c)@, v)
            },
            Err(m) => enumerator_violation(old(c)@) == Some(m@),
        },
{
    let name = c.name("name")?;
    let init = c.integer("init")?;
    Ok(EnumValue { name, init, attributes: attributes(c.optional_text("attributes")) })
}

/// Whether the child element is of the kind.
pub fn tagged(child: &RawChild, tag: &str) -> (r: bool)
    ensures
        r == (child.tag@ == tag@),
{
    child.tag == tag.to_owned()
}

/// Reads the arguments of a function.
pub fn arguments(children: &Vec<RawChild>, id: u64) -> (r: Result<Vec<schema::Argument>, Malformed>)
    ensures
        match r {
            Ok(v) => {
                &&& children_violation(children@, "Argument"@, id, argument_rule()) is None
                &&& children_are(children@, "Argument"@, id, v@, argument_relation())
            },
            Err(m) => children_violation(children@, "Argument"@, id, argument_rule()) == Some(m@),
        },
{
    let mut out: Vec<schema::Argument> = Vec::new();
    let n: usize = children.len();
    let mut i: usize = 0;
    proof {
        assert(children@.take(0) =~= Seq::<RawChild>::empty());
    }
    while i < n
        invariant
            n == children@.len(),
            0 <= i <= n,
            children_violation(children@.take(i as int), "Argument"@, id, argument_rule()) is None,
            children_are(children@.take(i as int), "Argument"@, id, out@, argument_relation()),
        decreases n - i,
    {
        proof {
            assert(children@.take(i + 1).drop_last() =~= children@.take(i as int));
            assert(children@.take(i + 1).last() == children@[i as int]);
        }
        if tagged(&children[i], "Argument") {
            let c = Context::new(&children[i].tag, Some(id), &children[i].attributes);
            match argument(&c) {
                Err(m) => {
                    proof {
                        lemma_children_violation_prefix(children@, i + 1, "Argument"@, id, argument_rule());
                    }
                    return Err(m);
                },
                Ok(a) => {
                    proof {
                        assert(out@.push(a).drop_last() =~= out@);
                    }
                    out.push(a);
                },
            }
        }
        i = i + 1;
    }
    proof {
        assert(children@.take(n as int) =~= children@);
    }
    Ok(out)
}

/// Reads the argument types of a function type.
pub fn parameters(children: &Vec<RawChild>, id: u64) -> (r: Result<Vec<IdRef>, Malformed>)
    ensures
        match r {
            Ok(v) => {
                &&& children_violation(children@, "Argument"@, id, parameter_rule()) is None
                &&& children_are(children@, "Argument"@, id, v@, parameter_relation())
            },
            Err(m) => children_violation(children@, "Argument"@, id, parameter_rule()) == Some(m@),
        },
{
    let mut out: Vec<IdRef> = Vec::new();
    let n: usize = children.len();
    let mut i: usize = 0;
    proof {
        assert(children@.take(0) =~= Seq::<RawChild>::empty());
    }
    while i < n
        invariant
            n == children@.len(),
            0 <= i <= n,
            children_violation(children@.take(i as int), "Argument"@, id, parameter_rule()) is None,
            children_are(children@.take(i as int), "Argument"@, id, out@, parameter_relation()),
        decreases n - i,
    {
        proof {
            assert(children@.take(i + 1).drop_last() =~= children@.take(i as int));
            assert(children@.take(i + 1).last() == children@[i as int]);
        }
        if tagged(&children[i], "Argument") {
            let c = Context::new(&children[i].tag, Some(id), &children[i].attributes);
            match c.reference("type") {
                Err(m) => {
                    proof {
                        lemma_children_violation_prefix(children@, i + 1, "Argument"@, id, parameter_rule());
                    }
                    return Err(m);
                },
                Ok(a) => {
                    proof {
                        assert(out@.push(a).drop_last() =~= out@);
                    }
                    out.push(a);
                },
            }
        }
        i = i + 1;
    }
    proof {
        assert(children@.take(n as int) =~= children@);
    }
    Ok(out)
}

/// Reads the bases of a record, and adds to the record's reading what is
/// noted of them.
pub fn bases(parent: &mut Context, children: &Vec<RawChild>, id: u64) -> (r: Result<Vec<Base>, Malformed>)
    ensures
        final(parent)@ == old(parent)@,
        match r {
            Ok(v) => {
                &&& children_violation(children@, "Base"@, id, base_rule()) is None
                &&& advanced(
                    old(parent),
                    final(parent),
                    children_notes(children@, "Base"@, id, base_noting()),
                    children_skipped(children@, "Base"@, id, base_skipping()),
                )
                &&& !children_skipped(children@, "Base"@, id, base_skipping()) ==> children_are(
                    children@,
                    "Base"@,
                    id,
                    v@,
                    base_relation(),
                )
            },
            Err(m) => children_violation(children@, "Base"@, id, base_rule()) == Some(m@),
        },
{
    let mut out: Vec<Base> = Vec::new();
    let n: usize = children.len();
    let mut i: usize = 0;
    let ghost start = views(parent.notes@);
    let ghost was = parent.skip;
    let ghost element = parent@;
    proof {
        assert(children@.take(0) =~= Seq::<RawChild>::empty());
        assert(start + Seq::<DiagnosticView>::empty() =~= start);
    }
    while i < n
        invariant
            n == children@.len(),
            0 <= i <= n,
            parent@ == element,
            element == old(parent)@,
            children_violation(children@.take(i as int), "Base"@, id, base_rule()) is None,
            views(parent.notes@) == start + children_notes(children@.take(i as int), "Base"@, id, base_noting()),
            parent.skip == (was || children_skipped(children@.take(i as int), "Base"@, id, base_skipping())),
            !children_skipped(children@.take(i as int), "Base"@, id, base_skipping()) ==> children_are(
                children@.take(i as int),
                "Base"@,
                id,
                out@,
                base_relation(),
            ),
        decreases n - i,
    {
        proof {
            assert(children@.take(i + 1).drop_last() =~= children@.take(i as int));
            assert(children@.take(i + 1).last() == children@[i as int]);
        }
        let ghost noted = children_notes(children@.take(i as int), "Base"@, id, base_noting());
        if tagged(&children[i], "Base") {
            let mut c = Context::new(&children[i].tag, Some(id), &children[i].attributes);
            match base(&mut c) {
                Err(m) => {
                    proof {
                        lemma_children_violation_prefix(children@, i + 1, "Base"@, id, base_rule());
                    }
                    return Err(m);
                },
                Ok(a) => {
                    proof {
                        assert(out@.push(a).drop_last() =~= out@);
                        lemma_views_add(parent.notes@, c.notes@);
                        assert(views(c.notes@) =~= base_notes(c@));
                        assert((start + noted) + base_notes(c@) =~= start + (noted + base_notes(c@)));
                    }
                    out.push(a);
                    parent.notes.append(&mut c.notes);
                    if c.skip {
                        parent.skip = true;
                    }
                },
            }
        } else {
            proof {
                assert(noted + Seq::<DiagnosticView>::empty() =~= noted);
            }
        }
        i = i + 1;
    }
    proof {
        assert(children@.take(n as int) =~= children@);
    }
    Ok(out)
}

/// Reads the enumerators of an enumeration, and adds to the enumeration's
/// reading what is noted of them.
pub fn enumerators(parent: &mut Context, children: &Vec<RawChild>, id: u64) -> (r: Result<
    Vec<EnumValue>,
    Malformed,
>)
    ensures
        final(parent)@ == old(parent)@,
        match r {
            Ok(v) => {
                &&& children_violation(children@, "EnumValue"@, id, enumerator_rule()) is None
                &&& advanced(
                    old(parent),
                    final(parent),
                    children_notes(children@, "EnumValue"@, id, enumerator_noting()),
                    children_skipped(children@, "EnumValue"@, id, enumerator_skipping()),
                )
                &&& !children_skipped(children@, "EnumValue"@, id, enumerator_skipping()) ==> children_are(
                    children@,
                    "EnumValue"@,
                    id,
                    v@,
                    enumerator_relation(),
                )
            },
            Err(m) => children_violation(children@, "EnumValue"@, id, enumerator_rule()) == Some(m@),
        },
{
    let mut out: Vec<EnumValue> = Vec::new();
    let n: usize = children.len();
    let mut i: usize = 0;
    let ghost start = views(parent.notes@);
    let ghost was = parent.skip;
    let ghost element = parent@;
    proof {
        assert(children@.take(0) =~= Seq::<RawChild>::empty());
        assert(start + Seq::<DiagnosticView>::empty() =~= start);
    }
    while i < n
        invariant
            n == children@.len(),
            0 <= i <= n,
            parent@ == element,
            element == old(parent)@,
            children_violation(children@.take(i as int), "EnumValue"@, id, enumerator_rule()) is None,
            views(parent.notes@) == start + children_notes(
                children@.take(i as int),
                "EnumValue"@,
                id,
                enumerator_noting(),
            ),
            parent.skip == (was || children_skipped(
                children@.take(i as int),
                "EnumValue"@,
                id,
                enumerator_skipping(),
            )),
            !children_skipped(children@.take(i as int), "EnumValue"@, id, enumerator_skipping())
                ==> children_are(children@.take(i as int), "EnumValue"@, id, out@, enumerator_relation()),
        decreases n - i,
    {
        proof {
            assert(children@.take(i + 1).drop_last() =~= children@.take(i as int));
            assert(children@.take(i + 1).last() == children@[i as int]);
        }
        let ghost noted = children_notes(children@.take(i as int), "EnumValue"@, id, enumerator_noting());
        if tagged(&children[i], "EnumValue") {
            let mut c = Context::new(&children[i].tag, Some(id), &children[i].attributes);
            match enumerator(&mut c) {
                Err(m) => {
                    proof {
                        lemma_children_violation_prefix(children@, i + 1, "EnumValue"@, id, enumerator_rule());
                    }
                    return Err(m);
                },
                Ok(a) => {
                    proof {
                        assert(out@.push(a).drop_last() =~= out@);
                        lemma_views_add(parent.notes@, c.notes@);
                        assert(views(c.notes@) =~= enumerator_notes(c@));
                        assert((start + noted) + enumerator_notes(c@) =~= start + (noted + enumerator_notes(
                            c@,
                        )));
                    }
                    out.push(a);
                    parent.notes.append(&mut c.notes);
                    if c.skip {
                        parent.skip = true;
                    }
                },
            }
        } else {
            proof {
                assert(noted + Seq::<DiagnosticView>::empty() =~= noted);
            }
        }
        i = i + 1;
    }
    proof {
        assert(children@.take(n as int) =~= children@);
    }
    Ok(out)
}

/// Reads a function whose identifier has been decoded.
pub fn function(c: &mut Context, children: &Vec<RawChild>, id: u64) -> (r: Result<schema::Function, Malformed>)
    ensures
        final(c)@ == old(c)@,
        match r {
            Ok(f) => {
                &&& function_violation(old(c)@, children@, id) is None
                &&& advanced(old(c), final(c), function_notes(old(c)@), false)
                &&& function_is(old(c)@, children@, id, f)
            },
            Err(m) => function_violation(old(c)@, children@, id) == Some(m@),
        },
{
    let returns_ = c.optional_reference("returns")?;
    let context = c.optional_reference("context")?;
    let arguments = arguments(children, id)?;
    let ghost start = views(c.notes@);
    let ghost element = c@;
    let static_ = c.flag("static");
    let ghost so_far = note(element, "static"@, Shape::Flag);
    let inline = c.flag("inline");
    let ghost with_inline = so_far + note(element, "inline"@, Shape::Flag);
    proof {
        lemma_add_associative(start, so_far, note(element, "inline"@, Shape::Flag));
    }
    let extern_ = c.flag("extern");
    let ghost with_extern = with_inline + note(element, "extern"@, Shape::Flag);
    proof {
        lemma_add_associative(start, with_inline, note(element, "extern"@, Shape::Flag));
    }
    let artificial = c.flag("artificial");
    proof {
        lemma_add_associative(start, with_extern, note(element, "artificial"@, Shape::Flag));
    }
    Ok(
        schema::Function {
            arguments,
            id: Id(id),
            name: c.name_or_empty("name"),
            returns_,
            context,
            static_,
            inline,
            extern_,
            artificial,
            mangled: c.optional_text("mangled"),
            attributes: attributes(c.optional_text("attributes")),
            location: c.optional_text("location"),
        },
    )
}

/// Reads a method whose identifier has been decoded.
pub fn method(c: &mut Context, children: &Vec<RawChild>, id: u64) -> (r: Result<schema::Method, Malformed>)
    ensures
        final(c)@ == old(c)@,
        match r {
            Ok(m) => {
                &&& method_violation(old(c)@, children@, id) is None
                &&& advanced(old(c), final(c), method_notes(old(c)@), method_skipped(old(c)@))
                &&& !method_skipped(old(c)@) ==> method_is(old(c)@, children@, id, m)
            },
            Err(m) => method_violation(old(c)@, children@, id) == Some(m@),
        },
{
    let ghost start = views(c.notes@);
    let ghost element = c@;
    let function = function(c, children, id)?;
    let access = c.access("access")?;
    let overrides: Vec<IdRef> = match c.optional_references("overrides")? {
        Some(v) => v,
        None => Vec::new(),
    };
    let ghost so_far = function_notes(element) + note(element, "access"@, Shape::AccessWord);
    proof {
        lemma_add_associative(start, function_notes(element), note(element, "access"@, Shape::AccessWord));
    }
    let explicit = c.flag("explicit");
    let ghost with_explicit = so_far + note(element, "explicit"@, Shape::Flag);
    proof {
        lemma_add_associative(start, so_far, note(element, "explicit"@, Shape::Flag));
    }
    let const_ = c.flag("const");
    let ghost with_const = with_explicit + note(element, "const"@, Shape::Flag);
    proof {
        lemma_add_associative(start, with_explicit, note(element, "const"@, Shape::Flag));
    }
    let virtual_ = c.flag("virtual");
    let ghost with_virtual = with_const + note(element, "virtual"@, Shape::Flag);
    proof {
        lemma_add_associative(start, with_const, note(element, "virtual"@, Shape::Flag));
    }
    let pure_virtual = c.flag("pure_virtual");
    proof {
        lemma_add_associative(start, with_virtual, note(element, "pure_virtual"@, Shape::Flag));
    }
    Ok(schema::Method { function, access, explicit, const_, virtual_, pure_virtual, overrides })
}

/// Reads a function type whose identifier has been decoded.
pub fn function_type(c: &mut Context, children: &Vec<RawChild>, id: u64) -> (r: Result<
    schema::FunctionType,
    Malformed,
>)
    ensures
        final(c)@ == old(c)@,
        match r {
            Ok(t) => {
                &&& function_type_violation(old(c)@, children@, id) is None
                &&& advanced(old(c), final(c), function_type_notes(old(c)@), false)
                &&& function_type_is(old(c)@, children@, id, t)
            },
            Err(m) => function_type_violation(old(c)@, children@, id) == Some(m@),
        },
{
    let returns_ = c.reference("returns")?;
    let arguments = parameters(children, id)?;
    let ghost start = views(c.notes@);
    let ghost element = c@;
    let const_ = c.flag("const");
    let ghost so_far = note(element, "const"@, Shape::Flag);
    let volatile_ = c.flag("volatile");
    let ghost with_volatile = so_far + note(element, "volatile"@, Shape::Flag);
    proof {
        lemma_add_associative(start, so_far, note(element, "volatile"@, Shape::Flag));
    }
    let restrict_ = c.flag("restrict");
    proof {
        lemma_add_associative(start, with_volatile, note(element, "restrict"@, Shape::Flag));
    }
    Ok(
        schema::FunctionType {
            arguments,
            id: Id(id),
            returns_,
            const_,
            volatile_,
            restrict_,
            attributes: attributes(c.optional_text("attributes")),
        },
    )
}

/// Reads a record whose identifier has been decoded.
pub fn record(c: &mut Context, children: &Vec<RawChild>, id: u64) -> (r: Result<schema::Record, Malformed>)
    ensures
        final(c)@ == old(c)@,
        match r {
            Ok(x) => {
                &&& record_violation(old(c)@, children@, id) is None
                &&& advanced(
                    old(c),
                    final(c),
                    record_notes(old(c)@, children@, id),
                    record_skipped(children@, id),
                )
                &&& !record_skipped(children@, id) ==> record_is(old(c)@, children@, id, x)
            },
            Err(m) => record_violation(old(c)@, children@, id) == Some(m@),
        },
{
    let context = c.optional_reference("context")?;
    let members = c.optional_references("members")?;
    let ghost start = views(c.notes@);
    let ghost element = c@;
    let access = c.optional_access("access");
    let ghost so_far = note(element, "access"@, Shape::AccessWord);
    let incomplete = c.flag("incomplete");
    let ghost with_incomplete = so_far + note(element, "incomplete"@, Shape::Flag);
    proof {
        lemma_add_associative(start, so_far, note(element, "incomplete"@, Shape::Flag));
    }
    let abstract_ = c.flag("abstract");
    let ghost with_abstract = with_incomplete + note(element, "abstract"@, Shape::Flag);
    proof {
        lemma_add_associative(start, with_incomplete, note(element, "abstract"@, Shape::Flag));
    }
    let artificial = c.flag("artificial");
    let ghost with_artificial = with_abstract + note(element, "artificial"@, Shape::Flag);
    proof {
        lemma_add_associative(start, with_abstract, note(element, "artificial"@, Shape::Flag));
    }
    let size = c.optional_number("size");
    let ghost with_size = with_artificial + note(element, "size"@, Shape::Number);
    proof {
        lemma_add_associative(start, with_artificial, note(element, "size"@, Shape::Number));
    }
    let align = c.optional_number("align");
    let ghost with_align = with_size + note(element, "align"@, Shape::Number);
    proof {
        lemma_add_associative(start, with_size, note(element, "align"@, Shape::Number));
    }
    let base = bases(c, children, id)?;
    proof {
        lemma_add_associative(start, with_align, children_notes(children@, "Base"@, id, base_noting()));
    }
    Ok(
        schema::Record {
            base,
            id: Id(id),
            name: c.name_or_empty("name"),
            context,
            access,
            location: c.optional_text("location"),
            incomplete,
            abstract_,
            artificial,
            members,
            size,
            align,
            attributes: attributes(c.optional_text("attributes")),
        },
    )
}

} // verus!
