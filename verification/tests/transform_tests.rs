use castxml_ast::ast::{Item, MethodKind, RecordKind, Type, AST};
use castxml_ast::diag::{Diagnostic, DiagnosticKind};
use castxml_ast::graph::Graph;
use castxml_ast::schema;
use castxml_ast::schema::{Access, Base, Bool, CastXML, Empty, Id, IdRef, Name, NameOrEmpty};
use castxml_ast::transform::{transform, write_headers, write_source, Transform};

fn named(text: &str) -> NameOrEmpty {
    NameOrEmpty(Ok(Name(text.to_string())))
}

fn int_type(id: u64) -> schema::Item {
    schema::Item::FundamentalType { id: Id(id), name: Name("int".to_string()), size: Some(32), align: Some(32) }
}

fn function(id: u64, name: &str, returns_: Option<u64>, context: Option<u64>) -> schema::Function {
    schema::Function {
        arguments: Vec::new(),
        id: Id(id),
        name: named(name),
        returns_: returns_.map(IdRef),
        context: context.map(IdRef),
        static_: Bool(false),
        inline: Bool(false),
        extern_: Bool(false),
        artificial: Bool(false),
        mangled: None,
        attributes: None,
        location: None,
    }
}

fn method(id: u64, name: &str, returns_: u64, owner: u64, overrides: Vec<u64>) -> schema::Method {
    schema::Method {
        function: function(id, name, Some(returns_), Some(owner)),
        access: Access::Public,
        explicit: Bool(false),
        const_: Bool(false),
        virtual_: Bool(true),
        pure_virtual: Bool(false),
        overrides: overrides.into_iter().map(IdRef).collect(),
    }
}

fn field(id: u64, name: &str, type_: u64, owner: u64, offset: u64) -> schema::Item {
    schema::Item::Field {
        id: Id(id),
        name: named(name),
        type_: IdRef(type_),
        bits: None,
        context: IdRef(owner),
        access: Access::Public,
        offset,
        mutable: Bool(false),
        artificial: Bool(false),
        location: None,
    }
}

fn base(type_: u64, access: Access) -> Base {
    Base { type_: IdRef(type_), access, virtual_: Bool(false), offset: Some(0) }
}

fn record(id: u64, name: &str, bases: Vec<Base>, members: Vec<u64>) -> schema::Record {
    schema::Record {
        base: bases,
        id: Id(id),
        name: named(name),
        context: None,
        access: None,
        location: Some("f1:7".to_string()),
        incomplete: Bool(false),
        abstract_: Bool(false),
        artificial: Bool(false),
        members: Some(members.into_iter().map(IdRef).collect()),
        size: Some(64),
        align: Some(32),
        attributes: None,
    }
}

fn table(items: Vec<schema::Item>) -> CastXML {
    CastXML { format: "1.1.0".to_string(), items }
}

fn run(items: Vec<schema::Item>) -> (AST, Vec<Diagnostic>) {
    transform(table(items)).expect("the table declares no identifier twice")
}

fn record_named<'a>(ast: &'a AST, name: &str) -> &'a castxml_ast::ast::Record {
    for item in ast.items.iter() {
        if let Item::Record(r) = item.as_ref() {
            if r.name == name {
                return r;
            }
        }
    }
    panic!("no record of that name");
}

#[test]
fn free_function_is_lowered() {
    let (ast, diagnostics) = run(vec![int_type(1), schema::Item::Function(function(2, "f", Some(1), None))]);
    assert!(diagnostics.is_empty());
    assert_eq!(ast.items.len(), 1);
    match ast.items[0].as_ref() {
        Item::Function(f) => {
            assert_eq!(f.id, 2);
            assert_eq!(f.name, "f");
            assert_eq!(f.signature.returns_, Some(Type::Fundamental("int".to_string())));
            assert!(f.signature.arguments.is_empty());
        }
        _ => panic!("expected a function"),
    }
}

#[test]
fn fields_keep_declaration_order_and_override_points_to_base_signature() {
    let (ast, diagnostics) = run(vec![
        int_type(1),
        schema::Item::Class(record(2, "Base", vec![], vec![3])),
        schema::Item::Method(method(3, "area", 1, 2, vec![])),
        schema::Item::Class(record(4, "Derived", vec![base(2, Access::Public)], vec![6, 5, 7])),
        field(5, "y", 1, 4, 32),
        field(6, "x", 1, 4, 0),
        schema::Item::Method(method(7, "area", 1, 4, vec![3])),
    ]);
    assert!(diagnostics.is_empty());
    let derived = record_named(&ast, "Derived");
    let names: Vec<&str> = derived.fields.iter().map(|f| f.name.as_str()).collect();
    assert_eq!(names, vec!["x", "y"]);
    assert_eq!(derived.methods.len(), 1);
    let area = &derived.methods[0];
    assert_eq!(area.owner, 4);
    assert_eq!(area.kind, MethodKind::Method);
    assert_eq!(area.overrides.len(), 1);
    assert_eq!(area.overrides[0].id, 3);
    assert_eq!(area.overrides[0].signature.returns_, Some(Type::Fundamental("int".to_string())));
    let base_record = record_named(&ast, "Base");
    assert_eq!(area.overrides[0].signature, base_record.methods[0].function.signature);
}

#[test]
fn pointer_to_const_char_is_lowered() {
    let (ast, diagnostics) = run(vec![
        schema::Item::FundamentalType { id: Id(1), name: Name("char".to_string()), size: Some(8), align: Some(8) },
        schema::Item::CvQualifiedType {
            id: Id(2),
            type_: IdRef(1),
            const_: Bool(true),
            volatile_: Bool(false),
            restrict_: Bool(false),
        },
        schema::Item::PointerType { id: Id(3), type_: IdRef(2), size: Some(64), align: Some(64) },
        schema::Item::Struct(record(4, "S", vec![], vec![5])),
        field(5, "text", 3, 4, 0),
    ]);
    assert!(diagnostics.is_empty());
    let s = record_named(&ast, "S");
    assert_eq!(s.kind, RecordKind::Struct);
    assert_eq!(
        s.fields[0].type_,
        Type::Pointer(Box::new(Type::Qualified {
            inner: Box::new(Type::Fundamental("char".to_string())),
            const_: true,
            volatile_: false,
            restrict_: false,
        }))
    );
}

#[test]
fn unknown_member_is_omitted_and_reported() {
    let (ast, diagnostics) = run(vec![
        int_type(1),
        schema::Item::Struct(record(2, "S", vec![], vec![3, 99, 4])),
        field(3, "a", 1, 2, 0),
        field(4, "b", 1, 2, 32),
    ]);
    let s = record_named(&ast, "S");
    let names: Vec<&str> = s.fields.iter().map(|f| f.name.as_str()).collect();
    assert_eq!(names, vec!["a", "b"]);
    assert_eq!(diagnostics.len(), 1);
    assert_eq!(diagnostics[0].kind, DiagnosticKind::UnknownId);
    assert_eq!(diagnostics[0].declaration, 2);
    assert_eq!(diagnostics[0].reference, 99);
    assert_eq!(diagnostics[0].location, Some("f1:7".to_string()));
    assert_eq!(diagnostics[0].message, "reference to an unknown id");
}

#[test]
fn transform_twice_gives_equal_results() {
    let items = vec![
        int_type(1),
        schema::Item::Struct(record(2, "S", vec![base(9, Access::Public)], vec![3, 99])),
        field(3, "a", 1, 2, 0),
        schema::Item::Function(function(4, "f", Some(77), None)),
    ];
    let first = transform(table(items.clone()));
    let second = transform(table(items));
    assert_eq!(first, second);
    let (_, diagnostics) = first.unwrap();
    assert_eq!(diagnostics.len(), 3);
}

#[test]
fn own_member_shadows_inherited_member_of_same_name() {
    let (ast, diagnostics) = run(vec![
        int_type(1),
        schema::Item::Struct(record(2, "Far", vec![], vec![3, 4])),
        field(3, "value", 1, 2, 0),
        field(4, "far_only", 1, 2, 32),
        schema::Item::Struct(record(5, "Near", vec![base(2, Access::Public)], vec![6, 7])),
        field(6, "value", 1, 5, 64),
        field(7, "near_only", 1, 5, 96),
        schema::Item::Struct(record(8, "Own", vec![base(5, Access::Public)], vec![9])),
        field(9, "near_only", 1, 8, 128),
    ]);
    assert!(diagnostics.is_empty());
    let own = record_named(&ast, "Own");
    let seen: Vec<(&str, u64)> = own.fields.iter().map(|f| (f.name.as_str(), f.owner)).collect();
    assert_eq!(seen, vec![("near_only", 8), ("value", 5), ("far_only", 2)]);
    for a in own.fields.iter() {
        for b in own.fields.iter() {
            if a.name == b.name {
                assert_eq!(a.owner, b.owner);
            }
        }
    }
}

#[test]
fn overloads_of_one_record_are_all_kept() {
    let (ast, _) = run(vec![
        int_type(1),
        schema::Item::Class(record(2, "C", vec![], vec![3, 4])),
        schema::Item::Method(method(3, "f", 1, 2, vec![])),
        schema::Item::Method(method(4, "f", 1, 2, vec![])),
    ]);
    let c = record_named(&ast, "C");
    assert_eq!(c.methods.len(), 2);
}

#[test]
fn constructors_are_not_inherited() {
    let (ast, _) = run(vec![
        int_type(1),
        schema::Item::Class(record(2, "B", vec![], vec![3, 4])),
        schema::Item::Constructor(method(3, "B", 1, 2, vec![])),
        schema::Item::Method(method(4, "get", 1, 2, vec![])),
        schema::Item::Class(record(5, "D", vec![base(2, Access::Public)], vec![])),
    ]);
    let d = record_named(&ast, "D");
    let names: Vec<&str> = d.methods.iter().map(|m| m.function.name.as_str()).collect();
    assert_eq!(names, vec!["get"]);
    assert_eq!(d.methods[0].owner, 2);
}

#[test]
fn every_reference_of_the_tree_is_declared() {
    let items = vec![
        int_type(1),
        schema::Item::Struct(record(2, "Node", vec![], vec![4])),
        schema::Item::PointerType { id: Id(3), type_: IdRef(2), size: None, align: None },
        field(4, "next", 3, 2, 0),
        schema::Item::Struct(record(5, "Broken", vec![], vec![6])),
        field(6, "dangling", 42, 5, 0),
    ];
    let graph = Graph::build(table(items)).unwrap();
    let (ast, diagnostics) = Transform::apply(&graph);
    assert_eq!(diagnostics.len(), 1);
    assert_eq!(diagnostics[0].kind, DiagnosticKind::UnknownId);
    assert_eq!(diagnostics[0].declaration, 6);
    assert_eq!(diagnostics[0].reference, 42);
    let node = record_named(&ast, "Node");
    match &node.fields[0].type_ {
        Type::Pointer(inner) => match inner.as_ref() {
            Type::RecordRef { id, name } => {
                assert_eq!(name, "Node");
                assert!(graph.resolve(IdRef(*id)).is_some());
            }
            _ => panic!("expected a record"),
        },
        _ => panic!("expected a pointer"),
    }
    assert!(record_named(&ast, "Broken").fields.is_empty());
}

#[test]
fn mutual_bases_are_reported_once_and_cut() {
    let (ast, diagnostics) = run(vec![
        schema::Item::Class(record(1, "A", vec![base(2, Access::Public)], vec![])),
        schema::Item::Class(record(2, "B", vec![base(1, Access::Public)], vec![])),
    ]);
    assert!(record_named(&ast, "A").bases.is_empty());
    assert!(record_named(&ast, "B").bases.is_empty());
    assert_eq!(diagnostics.len(), 1);
    assert_eq!(diagnostics[0].kind, DiagnosticKind::CyclicInheritance);
    assert_eq!(diagnostics[0].declaration, 1);
    assert_eq!(diagnostics[0].reference, 2);
    assert_eq!(diagnostics[0].message, "base chain is cyclic");
}

#[test]
fn record_that_is_its_own_base_is_reported() {
    let (ast, diagnostics) = run(vec![schema::Item::Class(record(1, "A", vec![base(1, Access::Public)], vec![]))]);
    assert!(record_named(&ast, "A").bases.is_empty());
    assert_eq!(diagnostics.len(), 1);
    assert_eq!(diagnostics[0].kind, DiagnosticKind::CyclicInheritance);
}

#[test]
fn cycle_of_three_is_reported_at_its_first_record() {
    let (ast, diagnostics) = run(vec![
        schema::Item::Class(record(1, "A", vec![base(2, Access::Public)], vec![])),
        schema::Item::Class(record(2, "B", vec![base(3, Access::Public)], vec![])),
        schema::Item::Class(record(3, "C", vec![base(1, Access::Public)], vec![])),
        schema::Item::Class(record(4, "Outside", vec![base(2, Access::Public)], vec![])),
    ]);
    for name in ["A", "B", "C", "Outside"] {
        assert!(record_named(&ast, name).bases.is_empty());
    }
    assert_eq!(diagnostics.len(), 1);
    assert_eq!(diagnostics[0].declaration, 1);
}

#[test]
fn bases_are_flattened_depth_first_with_restricted_access() {
    let (ast, diagnostics) = run(vec![
        schema::Item::Class(record(1, "Root", vec![], vec![])),
        schema::Item::Class(record(2, "Left", vec![base(1, Access::Public)], vec![])),
        schema::Item::Class(record(3, "Right", vec![base(1, Access::Private)], vec![])),
        schema::Item::Class(record(
            4,
            "Bottom",
            vec![base(2, Access::Protected), base(3, Access::Public)],
            vec![],
        )),
    ]);
    assert!(diagnostics.is_empty());
    let bottom = record_named(&ast, "Bottom");
    let seen: Vec<(u64, &str, Access, usize)> =
        bottom.bases.iter().map(|b| (b.id, b.name.as_str(), b.access, b.depth)).collect();
    assert_eq!(
        seen,
        vec![
            (2, "Left", Access::Protected, 1),
            (1, "Root", Access::Protected, 2),
            (3, "Right", Access::Public, 1),
            (1, "Root", Access::Private, 2),
        ]
    );
}

#[test]
fn base_that_is_no_record_is_reported() {
    let (ast, diagnostics) = run(vec![
        int_type(1),
        schema::Item::Class(record(2, "C", vec![base(1, Access::Public), base(50, Access::Public)], vec![])),
    ]);
    assert!(record_named(&ast, "C").bases.is_empty());
    let kinds: Vec<(DiagnosticKind, u64)> = diagnostics.iter().map(|d| (d.kind, d.reference)).collect();
    assert_eq!(kinds, vec![(DiagnosticKind::UnsupportedConstruct, 1), (DiagnosticKind::UnknownId, 50)]);
}

#[test]
fn function_with_unsupported_type_is_dropped() {
    let (ast, diagnostics) = run(vec![
        schema::Item::Unimplemented { id: Id(1), kind: None, type_class: Some(Name("Template".to_string())) },
        schema::Item::Function(function(2, "f", Some(1), None)),
        int_type(3),
        schema::Item::Function(function(4, "g", Some(3), None)),
    ]);
    assert_eq!(ast.items.len(), 1);
    assert_eq!(diagnostics.len(), 1);
    assert_eq!(diagnostics[0].kind, DiagnosticKind::UnsupportedConstruct);
    assert_eq!(diagnostics[0].declaration, 2);
    assert_eq!(diagnostics[0].reference, 1);
    assert_eq!(diagnostics[0].message, "construct is not supported");
}

#[test]
fn type_chain_that_returns_to_itself_is_unsupported() {
    let (ast, diagnostics) = run(vec![
        schema::Item::PointerType { id: Id(1), type_: IdRef(2), size: None, align: None },
        schema::Item::PointerType { id: Id(2), type_: IdRef(1), size: None, align: None },
        schema::Item::Function(function(3, "f", Some(1), None)),
    ]);
    assert!(ast.items.is_empty());
    assert_eq!(diagnostics.len(), 1);
    assert_eq!(diagnostics[0].kind, DiagnosticKind::UnsupportedConstruct);
}

#[test]
fn array_length_comes_from_its_bounds() {
    let items = vec![
        int_type(1),
        schema::Item::ArrayType { id: Id(2), type_: IdRef(1), min: 0, max: Some(9) },
        schema::Item::ArrayType { id: Id(3), type_: IdRef(1), min: 0, max: None },
        schema::Item::ArrayType { id: Id(4), type_: IdRef(1), min: 5, max: Some(2) },
    ];
    let graph = Graph::build(table(items)).unwrap();
    let int = Type::Fundamental("int".to_string());
    assert_eq!(graph.lower(IdRef(2)), Ok(Type::Array(Box::new(Type::Fundamental("int".to_string())), Some(10))));
    assert_eq!(graph.lower(IdRef(3)), Ok(Type::Array(Box::new(int), None)));
    let rejected = graph.lower(IdRef(4)).unwrap_err();
    assert_eq!(rejected.kind, DiagnosticKind::InvalidAttributeValue);
    assert_eq!(rejected.reference, 4);
    assert_eq!(castxml_ast::lower::array_len(0, Some(u64::MAX)), None);
    assert_eq!(castxml_ast::lower::array_len(1, Some(u64::MAX)), Some(Some(u64::MAX)));
}

#[test]
fn typedef_and_elaborated_type_are_seen_through() {
    let items = vec![
        int_type(1),
        schema::Item::Typedef { id: Id(2), name: Name("count".to_string()), type_: IdRef(1), context: None, access: None },
        schema::Item::ElaboratedType { id: Id(3), type_: IdRef(2) },
        schema::Item::ReferenceType { id: Id(4), type_: IdRef(3), size: None, align: None },
    ];
    let graph = Graph::build(table(items)).unwrap();
    assert_eq!(graph.lower(IdRef(4)), Ok(Type::Reference(Box::new(Type::Fundamental("int".to_string())))));
}

#[test]
fn function_type_is_lowered_with_its_arguments() {
    let items = vec![
        int_type(1),
        schema::Item::FunctionType(schema::FunctionType {
            arguments: vec![IdRef(1), IdRef(3)],
            id: Id(2),
            returns_: IdRef(1),
            const_: Bool(false),
            volatile_: Bool(false),
            restrict_: Bool(false),
            attributes: None,
        }),
        schema::Item::Enumeration {
            values: Vec::new(),
            id: Id(3),
            name: named("Color"),
            type_: IdRef(1),
            context: None,
            access: None,
            scoped: Bool(false),
            artificial: Bool(false),
            size: 16,
            align: 8,
        },
    ];
    let graph = Graph::build(table(items)).unwrap();
    assert_eq!(
        graph.lower(IdRef(2)),
        Ok(Type::FunctionSignature {
            returns_: Box::new(Type::Fundamental("int".to_string())),
            arguments: vec![
                Type::Fundamental("int".to_string()),
                Type::EnumRef { id: 3, name: "Color".to_string(), size: 16, align: 8 },
            ],
        })
    );
}

#[test]
fn artificial_members_and_other_kinds_are_passed_over() {
    let mut made = method(3, "C", 1, 2, vec![]);
    made.function.artificial = Bool(true);
    let (ast, diagnostics) = run(vec![
        int_type(1),
        schema::Item::Class(record(2, "C", vec![], vec![3, 4, 5, 6])),
        schema::Item::Constructor(made),
        schema::Item::Unimplemented { id: Id(4), kind: None, type_class: None },
        schema::Item::File { id: Id(5), name: Name("a.h".to_string()) },
        field(6, "kept", 1, 2, 0),
    ]);
    assert!(diagnostics.is_empty());
    let c = record_named(&ast, "C");
    assert!(c.methods.is_empty());
    assert_eq!(c.fields.len(), 1);
}

#[test]
fn member_of_another_context_is_reported() {
    let (ast, diagnostics) = run(vec![
        int_type(1),
        schema::Item::Struct(record(2, "S", vec![], vec![3])),
        field(3, "stray", 1, 7, 0),
    ]);
    assert!(record_named(&ast, "S").fields.is_empty());
    assert_eq!(diagnostics.len(), 1);
    assert_eq!(diagnostics[0].kind, DiagnosticKind::InvalidAttributeValue);
    assert_eq!(diagnostics[0].declaration, 3);
    assert_eq!(diagnostics[0].reference, 2);
    assert_eq!(diagnostics[0].message, "attribute value is invalid");
}

#[test]
fn size_and_alignment_are_copied() {
    let (ast, _) = run(vec![schema::Item::Union(record(1, "U", vec![], vec![]))]);
    let u = record_named(&ast, "U");
    assert_eq!(u.kind, RecordKind::Union);
    assert_eq!(u.size, Some(64));
    assert_eq!(u.align, Some(32));
}

#[test]
fn anonymous_record_has_empty_name() {
    let mut anonymous = record(1, "", vec![], vec![]);
    anonymous.name = NameOrEmpty(Err(Empty()));
    let (ast, _) = run(vec![schema::Item::Struct(anonymous)]);
    assert_eq!(record_named(&ast, "").id, 1);
}

#[test]
fn identifier_declared_twice_is_fatal() {
    let result = transform(table(vec![int_type(1), int_type(2), int_type(1), int_type(2)]));
    let fatal = result.unwrap_err();
    assert_eq!(fatal.kind, DiagnosticKind::MalformedDocument);
    assert!(fatal.kind.is_fatal());
    assert_eq!(fatal.declaration, 1);
    assert_eq!(fatal.message, "document is malformed");
    let refused = Graph::build(table(vec![int_type(1), int_type(2), int_type(1), int_type(2)]));
    let duplicate = refused.err().unwrap();
    assert_eq!(duplicate.id, 1);
    assert_eq!(duplicate.position, 2);
}

#[test]
fn graph_resolves_by_identifier_not_by_position() {
    let graph = Graph::build(table(vec![int_type(30), int_type(10), int_type(20)])).unwrap();
    assert_eq!(graph.len(), 3);
    assert_eq!(graph.resolve(IdRef(10)), Some(1));
    assert_eq!(graph.resolve(IdRef(1)), None);
    assert_eq!(graph.idref_to_item(IdRef(20)).map(|item| item.id()), Some(Id(20)));
    assert!(graph.idref_to_item(IdRef(0)).is_none());
    assert_eq!(graph.node(0).id(), Id(30));
}

#[test]
fn members_resolve_in_the_order_of_the_list() {
    let items = vec![
        int_type(1),
        field(2, "b", 1, 4, 0),
        field(3, "a", 1, 4, 0),
        schema::Item::Struct(record(4, "S", vec![], vec![3, 8, 2, 9])),
    ];
    let rec = record(4, "S", vec![], vec![3, 8, 2, 9]);
    let graph = Graph::build(table(items)).unwrap();
    let (positions, reports) = graph.resolve_members(&rec);
    assert_eq!(positions, vec![2, 1]);
    let unknown: Vec<u64> = reports.iter().map(|d| d.reference).collect();
    assert_eq!(unknown, vec![8, 9]);
}

#[test]
fn empty_table_gives_empty_tree() {
    let (ast, diagnostics) = run(Vec::new());
    assert!(ast.items.is_empty());
    assert!(diagnostics.is_empty());
    write_headers(&ast);
    write_source(&ast);
}

#[test]
fn kinds_that_end_the_run() {
    assert!(DiagnosticKind::IoError.is_fatal());
    assert!(DiagnosticKind::MalformedDocument.is_fatal());
    assert!(!DiagnosticKind::UnknownId.is_fatal());
    assert!(!DiagnosticKind::CyclicInheritance.is_fatal());
    assert!(!DiagnosticKind::UnsupportedConstruct.is_fatal());
    assert!(!DiagnosticKind::InvalidAttributeValue.is_fatal());
    assert_eq!(DiagnosticKind::IoError.describe(), "input cannot be read");
}

#[test]
fn identifier_as_written_names_a_node() {
    let graph = Graph::build(table(vec![int_type(30), int_type(10), int_type(20)])).unwrap();
    let transform = Transform::new(&graph);
    assert_eq!(transform.idref_to_item("_10").map(|item| item.id()), Some(Id(10)));
    assert!(transform.idref_to_item("_11").is_none());
    assert!(transform.idref_to_item("f1").is_none());
    assert!(transform.idref_to_item("_x").is_none());
    assert!(transform.idref_to_item("").is_none());
}

#[test]
fn members_as_written_come_in_the_order_of_the_list() {
    let graph = Graph::build(table(vec![int_type(30), int_type(10), int_type(20)])).unwrap();
    let transform = Transform::new(&graph);
    let ids: Vec<u64> = transform.iter_members(" _20 _7 _30  junk _10\n").iter().map(|item| item.id().0).collect();
    assert_eq!(ids, vec![20, 30, 10]);
    assert!(transform.iter_members("").is_empty());
}

#[test]
fn cut_branch_of_an_outside_record_is_not_reported_there() {
    let items = vec![
        schema::Item::Class(record(1, "A", vec![base(2, Access::Public)], vec![])),
        schema::Item::Class(record(2, "B", vec![base(1, Access::Public)], vec![])),
        schema::Item::Class(record(3, "Plain", vec![], vec![])),
        schema::Item::Class(record(4, "Outside", vec![base(3, Access::Public), base(2, Access::Public)], vec![])),
    ];
    let outside = record(4, "Outside", vec![base(3, Access::Public), base(2, Access::Public)], vec![]);
    let graph = Graph::build(table(items)).unwrap();
    let (bases, reports) = graph.resolve_bases(3, &outside);
    let ids: Vec<u64> = bases.iter().map(|b| b.id).collect();
    assert_eq!(ids, vec![3]);
    assert!(reports.is_empty());
}

fn namespace(id: u64, name: &str, members: Vec<u64>) -> schema::Item {
    schema::Item::Namespace {
        id: Id(id),
        name: named(name),
        context: None,
        members: Some(members.into_iter().map(IdRef).collect()),
    }
}

fn scoped_table() -> CastXML {
    table(vec![
        namespace(1, "::", vec![2, 3, 9]),
        namespace(2, "inner", vec![4, 5, 1]),
        schema::Item::Function(function(3, "outer_f", Some(8), Some(1))),
        schema::Item::Struct(record(4, "S", vec![], vec![6, 7])),
        schema::Item::Function(function(5, "inner_f", Some(8), Some(2))),
        field(6, "x", 8, 4, 0),
        schema::Item::Struct(record(7, "Nested", vec![], vec![])),
        int_type(8),
        namespace(9, "other", vec![10]),
        schema::Item::Function(function(10, "other_f", Some(8), Some(9))),
        schema::Item::Function(function(11, "unlisted", Some(8), None)),
    ])
}

fn names_of(ast: &AST) -> Vec<&str> {
    ast.items
        .iter()
        .map(|item| match item.as_ref() {
            Item::Function(f) => f.name.as_str(),
            Item::Record(r) => r.name.as_str(),
        })
        .collect()
}

#[test]
fn walk_from_the_global_namespace_meets_members_depth_first() {
    let graph = Graph::build(scoped_table()).unwrap();
    let (positions, reports) = graph.select(&vec![IdRef(1)]);
    assert_eq!(positions, vec![3, 6, 4, 2, 9]);
    assert!(reports.is_empty());
    let (ast, diagnostics) = Transform::apply_within(&graph, &vec![IdRef(1)]);
    assert!(diagnostics.is_empty());
    assert_eq!(names_of(&ast), vec!["S", "Nested", "inner_f", "outer_f", "other_f"]);
}

#[test]
fn walk_from_an_inner_root_leaves_the_rest_out() {
    let graph = Graph::build(scoped_table()).unwrap();
    let (ast, diagnostics) = Transform::apply_within(&graph, &vec![IdRef(9), IdRef(77), IdRef(4), IdRef(9)]);
    assert_eq!(names_of(&ast), vec!["other_f", "S", "Nested"]);
    assert_eq!(diagnostics.len(), 1);
    assert_eq!(diagnostics[0].kind, DiagnosticKind::UnknownId);
    assert_eq!(diagnostics[0].reference, 77);
    let (none, _) = Transform::apply_within(&graph, &Vec::new());
    assert!(none.items.is_empty());
}

#[test]
fn default_walk_takes_every_node_in_document_order() {
    let graph = Graph::build(scoped_table()).unwrap();
    let (ast, diagnostics) = Transform::apply(&graph);
    assert!(diagnostics.is_empty());
    assert_eq!(names_of(&ast), vec!["outer_f", "S", "inner_f", "Nested", "other_f", "unlisted"]);
}

#[test]
fn base_reached_twice_gives_its_members_once() {
    let (ast, diagnostics) = run(vec![
        int_type(1),
        schema::Item::Struct(record(2, "Top", vec![], vec![3])),
        field(3, "shared", 1, 2, 0),
        schema::Item::Struct(record(4, "Left", vec![base(2, Access::Public)], vec![])),
        schema::Item::Struct(record(5, "Right", vec![base(2, Access::Public)], vec![])),
        schema::Item::Struct(record(6, "Join", vec![base(4, Access::Public), base(5, Access::Public)], vec![])),
    ]);
    assert!(diagnostics.is_empty());
    let join = record_named(&ast, "Join");
    let bases: Vec<u64> = join.bases.iter().map(|b| b.id).collect();
    assert_eq!(bases, vec![4, 2, 5, 2]);
    let fields: Vec<(&str, u64)> = join.fields.iter().map(|f| (f.name.as_str(), f.owner)).collect();
    assert_eq!(fields, vec![("shared", 2)]);
}

#[test]
fn method_shadows_inherited_field_of_same_name() {
    let (ast, _) = run(vec![
        int_type(1),
        schema::Item::Struct(record(2, "B", vec![], vec![3, 4])),
        field(3, "size", 1, 2, 0),
        schema::Item::Method(method(4, "clear", 1, 2, vec![])),
        schema::Item::Struct(record(5, "D", vec![base(2, Access::Public)], vec![6, 7])),
        schema::Item::Method(method(6, "size", 1, 5, vec![])),
        field(7, "clear", 1, 5, 0),
    ]);
    let d = record_named(&ast, "D");
    assert_eq!(d.fields.len(), 1);
    assert_eq!(d.fields[0].owner, 5);
    assert_eq!(d.methods.len(), 1);
    assert_eq!(d.methods[0].owner, 5);
}

#[test]
fn unnamed_members_never_shadow_each_other() {
    let mut hidden = field(3, "", 1, 2, 0);
    if let schema::Item::Field { name, .. } = &mut hidden {
        *name = NameOrEmpty(Err(Empty()));
    }
    let mut own = field(5, "", 1, 4, 0);
    if let schema::Item::Field { name, .. } = &mut own {
        *name = NameOrEmpty(Err(Empty()));
    }
    let (ast, _) = run(vec![
        int_type(1),
        schema::Item::Struct(record(2, "B", vec![], vec![3])),
        hidden,
        schema::Item::Struct(record(4, "D", vec![base(2, Access::Public)], vec![5])),
        own,
    ]);
    let owners: Vec<u64> = record_named(&ast, "D").fields.iter().map(|f| f.owner).collect();
    assert_eq!(owners, vec![4, 2]);
}

#[test]
fn method_with_a_dangling_override_is_dropped() {
    let (ast, diagnostics) = run(vec![
        int_type(1),
        schema::Item::Class(record(2, "C", vec![], vec![3, 4])),
        schema::Item::Method(method(3, "f", 1, 2, vec![60])),
        schema::Item::Method(method(4, "g", 1, 2, vec![1])),
    ]);
    assert!(record_named(&ast, "C").methods.is_empty());
    let seen: Vec<(DiagnosticKind, u64, u64)> =
        diagnostics.iter().map(|d| (d.kind, d.declaration, d.reference)).collect();
    assert_eq!(
        seen,
        vec![(DiagnosticKind::UnknownId, 3, 60), (DiagnosticKind::UnsupportedConstruct, 4, 1)]
    );
}

#[test]
fn arguments_are_lowered_in_order() {
    let mut f = function(3, "f", Some(1), None);
    f.arguments = vec![
        schema::Argument {
            name: Some(Name("first".to_string())),
            type_: IdRef(1),
            original_type: None,
            location: None,
            default: Some(schema::Expression("0".to_string())),
            attributes: None,
        },
        schema::Argument {
            name: None,
            type_: IdRef(2),
            original_type: None,
            location: None,
            default: None,
            attributes: None,
        },
    ];
    let (ast, diagnostics) = run(vec![
        int_type(1),
        schema::Item::PointerType { id: Id(2), type_: IdRef(1), size: None, align: None },
        schema::Item::OperatorFunction(f),
    ]);
    assert!(diagnostics.is_empty());
    match ast.items[0].as_ref() {
        Item::Function(lowered) => {
            let arguments = &lowered.signature.arguments;
            assert_eq!(arguments.len(), 2);
            assert_eq!(arguments[0].name, "first");
            assert_eq!(arguments[0].default, Some("0".to_string()));
            assert_eq!(arguments[1].name, "");
            assert_eq!(arguments[1].type_, Type::Pointer(Box::new(Type::Fundamental("int".to_string()))));
        }
        _ => panic!("expected a function"),
    }
}

#[test]
fn constructor_has_no_return_type() {
    let mut made = method(3, "C", 1, 2, vec![]);
    made.function.returns_ = None;
    let (ast, diagnostics) = run(vec![
        int_type(1),
        schema::Item::Class(record(2, "C", vec![], vec![3])),
        schema::Item::Constructor(made),
    ]);
    assert!(diagnostics.is_empty());
    let c = record_named(&ast, "C");
    assert_eq!(c.methods[0].kind, MethodKind::Constructor);
    assert_eq!(c.methods[0].function.signature.returns_, None);
}
