//! Lowering of declarations: arguments, signatures, functions, methods with
//! their override edges, and fields.

use crate::ast::{
    Argument, ArgumentView, Field, FieldView, Function, FunctionView, Method, MethodKind,
    MethodView, Override, OverrideView, Signature, SignatureView, Type, TypeView,
};
use crate::diag::{DiagnosticKind, Reject};
use crate::graph::{find, Graph};
use crate::lower::{lowered, name_text};
use crate::model::{lemma_views_empty, lemma_views_push, views};
use crate::schema;
use crate::schema::{IdRef, Item, Name};
use vstd::prelude::*;

verus! {

/// The characters of an optional name; none where it is absent.
pub open spec fn optional_name(name: Option<Name>) -> Seq<char> {
    match name {
        Some(n) => n.0@,
        None => Seq::empty(),
    }
}

/// The source text of an optional expression.
pub open spec fn expression_text(e: Option<schema::Expression>) -> Option<Seq<char>> {
    match e {
        Some(x) => Some(x.0@),
        None => None,
    }
}

/// The lowered form of one argument, or why its type cannot be lowered.
pub open spec fn lower_argument(items: Seq<Item>, a: schema::Argument) -> Result<ArgumentView, Reject> {
    match lowered(items, a.type_.0) {
        Err(e) => Err(e),
        Ok(t) => Ok(
            ArgumentView { name: optional_name(a.name), type_: t, default: expression_text(a.default) },
        ),
    }
}

/// The lowered forms of the arguments, in order; or the failure of the first
/// that fails.
pub open spec fn lower_arguments(items: Seq<Item>, args: Seq<schema::Argument>) -> Result<
    Seq<ArgumentView>,
    Reject,
>
    decreases args.len(),
{
    if args.len() == 0 {
        Ok(Seq::empty())
    } else {
        match lower_arguments(items, args.drop_last()) {
            Err(e) => Err(e),
            Ok(front) => match lower_argument(items, args.last()) {
                Err(e) => Err(e),
                Ok(a) => Ok(front.push(a)),
            },
        }
    }
}

/// The lowered signature of a function: its return type, where it has one,
/// then its arguments. The return type fails before any argument does.
pub open spec fn lower_signature(items: Seq<Item>, f: schema::Function) -> Result<SignatureView, Reject> {
    match f.returns_ {
        None => match lower_arguments(items, f.arguments@) {
            Err(e) => Err(e),
            Ok(arguments) => Ok(SignatureView { returns_: None, arguments }),
        },
        Some(r) => match lowered(items, r.0) {
            Err(e) => Err(e),
            Ok(t) => match lower_arguments(items, f.arguments@) {
                Err(e) => Err(e),
                Ok(arguments) => Ok(SignatureView { returns_: Some(t), arguments }),
            },
        },
    }
}

/// The lowered form of a function.
pub open spec fn lower_function(items: Seq<Item>, f: schema::Function) -> Result<FunctionView, Reject> {
    match lower_signature(items, f) {
        Err(e) => Err(e),
        Ok(signature) => Ok(FunctionView { id: f.id.0, name: f.name.text(), signature }),
    }
}

/// The method that a node is, with its kind, if it is one.
pub open spec fn as_method(item: Item) -> Option<(schema::Method, MethodKind)> {
    match item {
        Item::Constructor(m) => Some((m, MethodKind::Constructor)),
        Item::Destructor(m) => Some((m, MethodKind::Destructor)),
        Item::Method(m) => Some((m, MethodKind::Method)),
        Item::OperatorMethod(m) => Some((m, MethodKind::OperatorMethod)),
        Item::Converter(m) => Some((m, MethodKind::Converter)),
        _ => None,
    }
}

/// The override edge to the method that `id` names: dangling where no node
/// has that identifier, unsupported where the node is no method, and else
/// the method's lowered signature or its failure.
pub open spec fn lower_override(items: Seq<Item>, id: u64) -> Result<OverrideView, Reject> {
    match find(items, id) {
        None => Err(Reject { kind: DiagnosticKind::UnknownId, reference: id }),
        Some(p) => match as_method(items[p]) {
            None => Err(Reject { kind: DiagnosticKind::UnsupportedConstruct, reference: id }),
            Some(pair) => match lower_signature(items, pair.0.function) {
                Err(e) => Err(e),
                Ok(signature) => Ok(OverrideView { id, signature }),
            },
        },
    }
}

/// The override edges of a method, in order; or the failure of the first
/// that fails.
pub open spec fn lower_overrides(items: Seq<Item>, ids: Seq<IdRef>) -> Result<Seq<OverrideView>, Reject>
    decreases ids.len(),
{
    if ids.len() == 0 {
        Ok(Seq::empty())
    } else {
        match lower_overrides(items, ids.drop_last()) {
            Err(e) => Err(e),
            Ok(front) => match lower_override(items, ids.last().0) {
                Err(e) => Err(e),
                Ok(o) => Ok(front.push(o)),
            },
        }
    }
}

/// The lowered form of a method that `owner` declares. Its own signature
/// fails before any override edge does.
pub open spec fn lower_method(items: Seq<Item>, owner: u64, m: schema::Method, kind: MethodKind) -> Result<
    MethodView,
    Reject,
> {
    match lower_function(items, m.function) {
        Err(e) => Err(e),
        Ok(function) => match lower_overrides(items, m.overrides@) {
            Err(e) => Err(e),
            Ok(overrides) => Ok(
                MethodView {
                    function,
                    owner,
                    kind,
                    access: m.access,
                    static_: m.function.static_.0,
                    explicit: m.explicit.0,
                    const_: m.const_.0,
                    virtual_: m.virtual_.0,
                    pure_virtual: m.pure_virtual.0,
                    overrides,
                },
            ),
        },
    }
}

/// The lowered form of a field that `owner` declares. A node that is no
/// field is unsupported as one.
pub open spec fn lower_field(items: Seq<Item>, owner: u64, item: Item) -> Result<FieldView, Reject> {
    match item {
        Item::Field { id, name, type_, bits, access, offset, .. } => match lowered(items, type_.0) {
            Err(e) => Err(e),
            Ok(t) => Ok(
                FieldView { id: id.0, name: name.text(), type_: t, owner, access, offset, bits },
            ),
        },
        _ => Err(Reject { kind: DiagnosticKind::UnsupportedConstruct, reference: item.spec_id() }),
    }
}

/// A failure among the first `k` arguments is the failure of the whole list.
pub proof fn lemma_lower_arguments_prefix_err(items: Seq<Item>, args: Seq<schema::Argument>, k: int)
    requires
        0 <= k <= args.len(),
        lower_arguments(items, args.take(k)) is Err,
    ensures
        lower_arguments(items, args) == lower_arguments(items, args.take(k)),
    decreases args.len() - k,
{
    if k == args.len() {
        assert(args.take(k) =~= args);
    } else {
        assert(args.take(k + 1).drop_last() =~= args.take(k));
        lemma_lower_arguments_prefix_err(items, args, k + 1);
    }
}

/// A failure among the first `k` override edges is the failure of the whole
/// list.
pub proof fn lemma_lower_overrides_prefix_err(items: Seq<Item>, ids: Seq<IdRef>, k: int)
    requires
        0 <= k <= ids.len(),
        lower_overrides(items, ids.take(k)) is Err,
    ensures
        lower_overrides(items, ids) == lower_overrides(items, ids.take(k)),
    decreases ids.len() - k,
{
    if k == ids.len() {
        assert(ids.take(k) =~= ids);
    } else {
        assert(ids.take(k + 1).drop_last() =~= ids.take(k));
        lemma_lower_overrides_prefix_err(items, ids, k + 1);
    }
}

/// The method that a node is, with its kind, if it is one.
pub fn method_of(item: &Item) -> (r: Option<(&schema::Method, MethodKind)>)
    ensures
        match r {
            Some(pair) => as_method(*item) == Some((*pair.0, pair.1)),
            None => as_method(*item) is None,
        },
{
    match item {
        Item::Constructor(m) => Some((m, MethodKind::Constructor)),
        Item::Destructor(m) => Some((m, MethodKind::Destructor)),
        Item::Method(m) => Some((m, MethodKind::Method)),
        Item::OperatorMethod(m) => Some((m, MethodKind::OperatorMethod)),
        Item::Converter(m) => Some((m, MethodKind::Converter)),
        _ => None,
    }
}

impl Graph {
    /// Lowers one argument.
    pub fn lower_argument(&self, a: &schema::Argument) -> (r: Result<Argument, Reject>)
        requires
            self.wf(),
        ensures
            match r {
                Ok(x) => lower_argument(self.items(), *a) == Ok::<ArgumentView, Reject>(x@),
                Err(e) => lower_argument(self.items(), *a) == Err::<ArgumentView, Reject>(e),
            },
    {
        match self.lower(a.type_) {
            Err(e) => Err(e),
            Ok(t) => {
                let name: String = match &a.name {
                    Some(n) => n.0.clone(),
                    None => String::new(),
                };
                let default: Option<String> = match &a.default {
                    Some(x) => Some(x.0.clone()),
                    None => None,
                };
                Ok(Argument { name, type_: t, default })
            },
        }
    }

    /// Lowers the signature of a function.
    pub fn lower_signature(&self, f: &schema::Function) -> (r: Result<Signature, Reject>)
        requires
            self.wf(),
        ensures
            match r {
                Ok(s) => lower_signature(self.items(), *f) == Ok::<SignatureView, Reject>(s@),
                Err(e) => lower_signature(self.items(), *f) == Err::<SignatureView, Reject>(e),
            },
    {
        let returns_: Option<Type> = match f.returns_ {
            None => None,
            Some(r) => match self.lower(r) {
                Err(e) => {
                    return Err(e);
                },
                Ok(t) => Some(t),
            },
        };
        let mut arguments: Vec<Argument> = Vec::new();
        let n: usize = f.arguments.len();
        let mut i: usize = 0;
        proof {
            assert(f.arguments@.take(0) =~= Seq::<schema::Argument>::empty());
            lemma_views_empty(arguments@);
        }
        while i < n
            invariant
                self.wf(),
                n == f.arguments@.len(),
                0 <= i <= n,
                match f.returns_ {
                    None => returns_ is None,
                    Some(r) => returns_ is Some && lowered(self.items(), r.0) == Ok::<TypeView, Reject>(
                        returns_->0@,
                    ),
                },
                lower_arguments(self.items(), f.arguments@.take(i as int)) == Ok::<
                    Seq<ArgumentView>,
                    Reject,
                >(views(arguments@)),
            decreases n - i,
        {
            proof {
                assert(f.arguments@.take(i + 1).drop_last() =~= f.arguments@.take(i as int));
                assert(f.arguments@.take(i + 1).last() == f.arguments@[i as int]);
            }
            match self.lower_argument(&f.arguments[i]) {
                Err(e) => {
                    proof {
                        lemma_lower_arguments_prefix_err(self.items(), f.arguments@, i + 1);
                    }
                    return Err(e);
                },
                Ok(a) => {
                    proof {
                        lemma_views_push(arguments@, a);
                    }
                    arguments.push(a);
                },
            }
            i = i + 1;
        }
        proof {
            assert(f.arguments@.take(n as int) =~= f.arguments@);
        }
        Ok(Signature { returns_, arguments })
    }

    /// Lowers a function.
    pub fn lower_function(&self, f: &schema::Function) -> (r: Result<Function, Reject>)
        requires
            self.wf(),
        ensures
            match r {
                Ok(x) => lower_function(self.items(), *f) == Ok::<FunctionView, Reject>(x@),
                Err(e) => lower_function(self.items(), *f) == Err::<FunctionView, Reject>(e),
            },
    {
        match self.lower_signature(f) {
            Err(e) => Err(e),
            Ok(signature) => Ok(Function { id: f.id.0, name: name_text(&f.name), signature }),
        }
    }

    /// Follows one override edge.
    pub fn lower_override(&self, idref: IdRef) -> (r: Result<Override, Reject>)
        requires
            self.wf(),
        ensures
            match r {
                Ok(x) => lower_override(self.items(), idref.0) == Ok::<OverrideView, Reject>(x@),
                Err(e) => lower_override(self.items(), idref.0) == Err::<OverrideView, Reject>(e),
            },
    {
        match self.resolve(idref) {
            None => Err(Reject { kind: DiagnosticKind::UnknownId, reference: idref.0 }),
            Some(p) => match method_of(self.node(p)) {
                None => Err(Reject { kind: DiagnosticKind::UnsupportedConstruct, reference: idref.0 }),
                Some(pair) => match self.lower_signature(&pair.0.function) {
                    Err(e) => Err(e),
                    Ok(signature) => Ok(Override { id: idref.0, signature }),
                },
            },
        }
    }

    /// Lowers a method that `owner` declares.
    pub fn lower_method(&self, owner: u64, m: &schema::Method, kind: MethodKind) -> (r: Result<
        Method,
        Reject,
    >)
        requires
            self.wf(),
        ensures
            match r {
                Ok(x) => lower_method(self.items(), owner, *m, kind) == Ok::<MethodView, Reject>(x@),
                Err(e) => lower_method(self.items(), owner, *m, kind) == Err::<MethodView, Reject>(e),
            },
    {
        let function: Function = match self.lower_function(&m.function) {
            Err(e) => {
                return Err(e);
            },
            Ok(f) => f,
        };
        let mut overrides: Vec<Override> = Vec::new();
        let n: usize = m.overrides.len();
        let mut i: usize = 0;
        proof {
            assert(m.overrides@.take(0) =~= Seq::<IdRef>::empty());
            lemma_views_empty(overrides@);
        }
        while i < n
            invariant
                self.wf(),
                n == m.overrides@.len(),
                0 <= i <= n,
                lower_function(self.items(), m.function) == Ok::<FunctionView, Reject>(function@),
                lower_overrides(self.items(), m.overrides@.take(i as int)) == Ok::<
                    Seq<OverrideView>,
                    Reject,
                >(views(overrides@)),
            decreases n - i,
        {
            proof {
                assert(m.overrides@.take(i + 1).drop_last() =~= m.overrides@.take(i as int));
                assert(m.overrides@.take(i + 1).last() == m.overrides@[i as int]);
            }
            match self.lower_override(m.overrides[i]) {
                Err(e) => {
                    proof {
                        lemma_lower_overrides_prefix_err(self.items(), m.overrides@, i + 1);
                    }
                    return Err(e);
                },
                Ok(o) => {
                    proof {
                        lemma_views_push(overrides@, o);
                    }
                    overrides.push(o);
                },
            }
            i = i + 1;
        }
        proof {
            assert(m.overrides@.take(n as int) =~= m.overrides@);
        }
        Ok(
            Method {
                function,
                owner,
                kind,
                access: m.access,
                static_: m.function.static_.0,
                explicit: m.explicit.0,
                const_: m.const_.0,
                virtual_: m.virtual_.0,
                pure_virtual: m.pure_virtual.0,
                overrides,
            },
        )
    }

    /// Lowers a field that `owner` declares.
    pub fn lower_field(&self, owner: u64, item: &Item) -> (r: Result<Field, Reject>)
        requires
            self.wf(),
        ensures
            match r {
                Ok(x) => lower_field(self.items(), owner, *item) == Ok::<FieldView, Reject>(x@),
                Err(e) => lower_field(self.items(), owner, *item) == Err::<FieldView, Reject>(e),
            },
    {
        match item {
            Item::Field { id, name, type_, bits, access, offset, .. } => match self.lower(*type_) {
                Err(e) => Err(e),
                Ok(t) => Ok(
                    Field {
                        id: id.0,
                        name: name_text(name),
                        type_: t,
                        owner,
                        access: *access,
                        offset: *offset,
                        bits: *bits,
                    },
                ),
            },
            _ => Err(Reject { kind: DiagnosticKind::UnsupportedConstruct, reference: item.id().0 }),
        }
    }
}

} // verus!
