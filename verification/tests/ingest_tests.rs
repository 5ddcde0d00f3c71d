use castxml_ast::ast::{Item, Type};
use castxml_ast::diag::DiagnosticKind;
use castxml_ast::document::{element, ingest, kind_of, Kind};
use castxml_ast::pipeline::run;
use castxml_ast::raw::{Fault, RawAttribute, RawChild, RawDocument, RawElement};
use castxml_ast::schema;
use castxml_ast::schema::{Access, Bool, Empty, Id, IdRef, Name, NameOrEmpty};

fn attributes(pairs: &[(&str, &str)]) -> Vec<RawAttribute> {
    pairs.iter().map(|(name, value)| RawAttribute { name: name.to_string(), value: value.to_string() }).collect()
}

fn raw(tag: &str, pairs: &[(&str, &str)]) -> RawElement {
    RawElement { tag: tag.to_string(), attributes: attributes(pairs), children: Vec::new() }
}

fn child(tag: &str, pairs: &[(&str, &str)]) -> RawChild {
    RawChild { tag: tag.to_string(), attributes: attributes(pairs) }
}

fn document(elements: Vec<RawElement>) -> RawDocument {
    RawDocument { root: "CastXML".to_string(), attributes: attributes(&[("format", "1.1.0")]), elements }
}

fn node_of(e: &RawElement) -> schema::Item {
    let reading = element(e).expect("no violation ends the run");
    assert!(reading.notes.is_empty());
    reading.item.expect("the element is not skipped")
}

#[test]
fn field_is_decoded() {
    let item = node_of(&raw(
        "Field",
        &[
            ("id", "_5"),
            ("name", "x"),
            ("type", "_1"),
            ("context", "_4"),
            ("access", "private"),
            ("offset", "32"),
            ("mutable", "1"),
            ("unheard_of", "ignored"),
        ],
    ));
    assert_eq!(
        item,
        schema::Item::Field {
            id: Id(5),
            name: NameOrEmpty(Ok(Name("x".to_string()))),
            type_: IdRef(1),
            bits: None,
            context: IdRef(4),
            access: Access::Private,
            offset: 32,
            mutable: Bool(true),
            artificial: Bool(false),
            location: None,
        }
    );
}

#[test]
fn missing_required_attribute_names_element_id_and_attribute() {
    let fault = element(&raw("Field", &[("id", "_5"), ("name", "x"), ("type", "_1"), ("access", "public")]))
        .unwrap_err();
    assert_eq!(fault.element, "Field");
    assert_eq!(fault.id, Some(5));
    assert_eq!(fault.attribute, "context");
    assert_eq!(fault.fault, Fault::MissingAttribute);
    let diagnostic = fault.diagnostic();
    assert_eq!(diagnostic.kind, DiagnosticKind::MalformedDocument);
    assert_eq!(diagnostic.declaration, 5);
    assert_eq!(diagnostic.message, "Field: required attribute is missing: context");
}

#[test]
fn missing_identifier_is_reported_without_one() {
    let fault = element(&raw("PointerType", &[("type", "_1")])).unwrap_err();
    assert_eq!(fault.id, None);
    assert_eq!(fault.attribute, "id");
    assert_eq!(fault.fault, Fault::MissingAttribute);
}

#[test]
fn malformed_identifier_is_fatal() {
    let fault = element(&raw("PointerType", &[("id", "p1"), ("type", "_1")])).unwrap_err();
    assert_eq!(fault.attribute, "id");
    assert_eq!(fault.fault, Fault::InvalidValue);
    let listed = element(&raw("Namespace", &[("id", "_1"), ("name", "::"), ("members", "_2 3")])).unwrap_err();
    assert_eq!(listed.attribute, "members");
    assert_eq!(listed.fault, Fault::InvalidValue);
    assert_eq!(listed.id, Some(1));
}

#[test]
fn flag_with_other_encoding_is_noted_and_counts_as_absent() {
    let reading = element(&raw(
        "CvQualifiedType",
        &[("id", "_2"), ("type", "_1"), ("const", "yes"), ("volatile", "1"), ("location", "f1:3")],
    ))
    .unwrap();
    assert_eq!(
        reading.item,
        Some(schema::Item::CvQualifiedType {
            id: Id(2),
            type_: IdRef(1),
            const_: Bool(false),
            volatile_: Bool(true),
            restrict_: Bool(false),
        })
    );
    assert_eq!(reading.notes.len(), 1);
    assert_eq!(reading.notes[0].kind, DiagnosticKind::InvalidAttributeValue);
    assert_eq!(reading.notes[0].declaration, 2);
    assert_eq!(reading.notes[0].location, Some("f1:3".to_string()));
    assert_eq!(reading.notes[0].message, "CvQualifiedType: attribute value is invalid: const");
}

#[test]
fn ill_encoded_optional_value_counts_as_absent() {
    let reading = element(&raw("FundamentalType", &[("id", "_1"), ("name", "int"), ("size", "big"), ("align", "32")]))
        .unwrap();
    assert_eq!(
        reading.item,
        Some(schema::Item::FundamentalType { id: Id(1), name: Name("int".to_string()), size: None, align: Some(32) })
    );
    assert_eq!(reading.notes.len(), 1);
    assert_eq!(reading.notes[0].message, "FundamentalType: attribute value is invalid: size");
}

#[test]
fn ill_encoded_required_value_skips_the_declaration() {
    let reading = element(&raw(
        "Field",
        &[("id", "_5"), ("type", "_1"), ("context", "_4"), ("access", "open"), ("offset", "-8"), ("bits", "x")],
    ))
    .unwrap();
    assert_eq!(reading.item, None);
    let messages: Vec<&str> = reading.notes.iter().map(|d| d.message.as_str()).collect();
    assert_eq!(
        messages,
        vec![
            "Field: attribute value is invalid: access",
            "Field: attribute value is invalid: offset",
            "Field: attribute value is invalid: bits",
        ]
    );
    for d in reading.notes.iter() {
        assert_eq!(d.kind, DiagnosticKind::InvalidAttributeValue);
        assert!(!d.kind.is_fatal());
        assert_eq!(d.declaration, 5);
    }
}

#[test]
fn ill_encoded_base_skips_its_record() {
    let mut e = raw("Class", &[("id", "_4"), ("name", "D")]);
    e.children = vec![child("Base", &[("type", "_2"), ("access", "friendly"), ("virtual", "0")])];
    let reading = element(&e).unwrap();
    assert_eq!(reading.item, None);
    let messages: Vec<&str> = reading.notes.iter().map(|d| d.message.as_str()).collect();
    assert_eq!(
        messages,
        vec!["Base: attribute value is invalid: access", "Base: attribute value is invalid: virtual"]
    );
    assert_eq!(reading.notes[0].declaration, 4);
}

#[test]
fn unknown_element_is_refused() {
    let fault = element(&raw("Template", &[("id", "_2")])).unwrap_err();
    assert_eq!(fault.fault, Fault::UnknownElement);
    assert_eq!(fault.element, "Template");
    assert_eq!(fault.diagnostic().message, "Template: unknown element");
    assert_eq!(kind_of(&"Template".to_string()), None);
    assert_eq!(kind_of(&"Converter".to_string()), Some(Kind::Converter));
}

#[test]
fn unknown_root_is_refused() {
    let mut d = document(Vec::new());
    d.root = "HTML".to_string();
    let fault = ingest(&d).unwrap_err();
    assert_eq!(fault.fault, Fault::UnknownRoot);
    assert_eq!(fault.diagnostic().message, "HTML: unknown root element");
    let mut versionless = document(Vec::new());
    versionless.attributes = Vec::new();
    let missing = ingest(&versionless).unwrap_err();
    assert_eq!(missing.fault, Fault::MissingAttribute);
    assert_eq!(missing.attribute, "format");
}

#[test]
fn older_root_gives_its_version() {
    let d = RawDocument {
        root: "GCC_XML".to_string(),
        attributes: attributes(&[("version", "0.9.0"), ("cvs_revision", "1.145")]),
        elements: vec![raw("FundamentalType", &[("id", "_1"), ("name", "int"), ("size", "32")])],
    };
    let (doc, notes) = ingest(&d).unwrap();
    assert!(notes.is_empty());
    assert_eq!(doc.format, "0.9.0");
    assert_eq!(
        doc.items,
        vec![schema::Item::FundamentalType { id: Id(1), name: Name("int".to_string()), size: Some(32), align: None }]
    );
}

#[test]
fn method_with_arguments_and_overrides_is_decoded() {
    let mut e = raw(
        "Method",
        &[
            ("id", "_7"),
            ("name", "area"),
            ("returns", "_1"),
            ("context", "_4"),
            ("access", "protected"),
            ("virtual", "1"),
            ("const", "1"),
            ("overrides", "_3 _9"),
            ("location", "f1:12"),
        ],
    );
    e.children = vec![
        child("Argument", &[("name", "scale"), ("type", "_1"), ("default", "2")]),
        child("Ellipsis", &[]),
        child("Argument", &[("type", "_2")]),
    ];
    match node_of(&e) {
        schema::Item::Method(m) => {
            assert_eq!(m.function.id, Id(7));
            assert_eq!(m.function.returns_, Some(IdRef(1)));
            assert_eq!(m.function.context, Some(IdRef(4)));
            assert_eq!(m.function.location, Some("f1:12".to_string()));
            assert_eq!(m.access, Access::Protected);
            assert_eq!(m.virtual_, Bool(true));
            assert_eq!(m.const_, Bool(true));
            assert_eq!(m.pure_virtual, Bool(false));
            assert_eq!(m.overrides, vec![IdRef(3), IdRef(9)]);
            assert_eq!(m.function.arguments.len(), 2);
            assert_eq!(m.function.arguments[0].name, Some(Name("scale".to_string())));
            assert_eq!(m.function.arguments[0].default, Some(schema::Expression("2".to_string())));
            assert_eq!(m.function.arguments[1].name, None);
            assert_eq!(m.function.arguments[1].type_, IdRef(2));
        }
        _ => panic!("expected a method"),
    }
}

#[test]
fn fault_in_a_child_names_the_child_and_the_parent_identifier() {
    let mut e = raw("Class", &[("id", "_4"), ("name", "D")]);
    e.children = vec![child("Base", &[("type", "_2"), ("access", "public")]), child("Base", &[("type", "_3")])];
    let fault = element(&e).unwrap_err();
    assert_eq!(fault.element, "Base");
    assert_eq!(fault.id, Some(4));
    assert_eq!(fault.attribute, "access");
    assert_eq!(fault.fault, Fault::MissingAttribute);
}

#[test]
fn record_with_bases_and_members_is_decoded() {
    let mut e = raw("Struct", &[("id", "_4"), ("name", ""), ("members", "_5 _6"), ("size", "64"), ("abstract", "1")]);
    e.children = vec![child("Base", &[("type", "_2"), ("access", "private"), ("virtual", "1"), ("offset", "8")])];
    match node_of(&e) {
        schema::Item::Struct(r) => {
            assert_eq!(r.name, NameOrEmpty(Err(Empty())));
            assert_eq!(r.members, Some(vec![IdRef(5), IdRef(6)]));
            assert_eq!(r.size, Some(64));
            assert_eq!(r.align, None);
            assert_eq!(r.abstract_, Bool(true));
            assert_eq!(
                r.base,
                vec![schema::Base { type_: IdRef(2), access: Access::Private, virtual_: Bool(true), offset: Some(8) }]
            );
        }
        _ => panic!("expected a struct"),
    }
}

#[test]
fn enumeration_with_enumerators_is_decoded() {
    let mut e = raw("Enumeration", &[("id", "_3"), ("name", "Color"), ("type", "_1"), ("size", "32"), ("align", "32")]);
    e.children = vec![child("EnumValue", &[("name", "Red"), ("init", "-1")])];
    match node_of(&e) {
        schema::Item::Enumeration { values, size, .. } => {
            assert_eq!(size, 32);
            assert_eq!(values, vec![schema::EnumValue { name: Name("Red".to_string()), init: -1, attributes: None }]);
        }
        _ => panic!("expected an enumeration"),
    }
    let wide = raw(
        "Comment",
        &[("id", "_3"), ("attached", "_1"), ("file", "_2"), ("begin_line", "4294967296"), ("end_line", "1")],
    );
    let reading = element(&wide).unwrap();
    assert_eq!(reading.item, None);
    assert_eq!(reading.notes.len(), 1);
    assert_eq!(reading.notes[0].message, "Comment: attribute value is invalid: begin_line");
    let mut negative = raw("Enumeration", &[("id", "_3"), ("name", "E"), ("type", "_1"), ("size", "32"), ("align", "32")]);
    negative.children = vec![child("EnumValue", &[("name", "Huge"), ("init", "9223372036854775808")])];
    let skipped = element(&negative).unwrap();
    assert_eq!(skipped.item, None);
    assert_eq!(skipped.notes[0].message, "EnumValue: attribute value is invalid: init");
}

#[test]
fn skipped_declaration_is_left_out_of_the_table() {
    let d = document(vec![
        raw("FundamentalType", &[("id", "_1"), ("name", "int")]),
        raw("ArrayType", &[("id", "_2"), ("type", "_1"), ("min", "zero")]),
        raw("PointerType", &[("id", "_3"), ("type", "_2"), ("size", "?")]),
        raw("Function", &[("id", "_4"), ("name", "f"), ("returns", "_3"), ("inline", "maybe")]),
    ]);
    let (doc, notes) = ingest(&d).unwrap();
    let ids: Vec<u64> = doc.items.iter().map(|item| item.id().0).collect();
    assert_eq!(ids, vec![1, 3, 4]);
    let messages: Vec<&str> = notes.iter().map(|d| d.message.as_str()).collect();
    assert_eq!(
        messages,
        vec![
            "ArrayType: attribute value is invalid: min",
            "PointerType: attribute value is invalid: size",
            "Function: attribute value is invalid: inline",
        ]
    );
    let (ast, diagnostics) = run(&d).unwrap();
    assert!(ast.items.is_empty());
    let kinds: Vec<(DiagnosticKind, u64, u64)> =
        diagnostics.iter().map(|d| (d.kind, d.declaration, d.reference)).collect();
    assert_eq!(
        kinds,
        vec![
            (DiagnosticKind::InvalidAttributeValue, 2, 2),
            (DiagnosticKind::InvalidAttributeValue, 3, 3),
            (DiagnosticKind::InvalidAttributeValue, 4, 4),
            (DiagnosticKind::UnknownId, 4, 2),
        ]
    );
}

#[test]
fn first_violation_in_document_order_ends_ingestion() {
    let d = document(vec![
        raw("FundamentalType", &[("id", "_1"), ("name", "int")]),
        raw("PointerType", &[("id", "_2")]),
        raw("Nonsense", &[]),
    ]);
    let fault = ingest(&d).unwrap_err();
    assert_eq!(fault.element, "PointerType");
    assert_eq!(fault.attribute, "type");
}

#[test]
fn whole_run_from_raw_document() {
    let mut f = raw("Function", &[("id", "_3"), ("name", "f"), ("returns", "_2")]);
    f.children = vec![child("Argument", &[("name", "n"), ("type", "_1")])];
    let d = document(vec![
        raw("FundamentalType", &[("id", "_1"), ("name", "int")]),
        raw("PointerType", &[("id", "_2"), ("type", "_1")]),
        f,
        raw("Function", &[("id", "_4"), ("name", "g"), ("returns", "_40")]),
    ]);
    let (ast, diagnostics) = run(&d).unwrap();
    assert_eq!(ast.items.len(), 1);
    match ast.items[0].as_ref() {
        Item::Function(lowered) => {
            assert_eq!(lowered.name, "f");
            assert_eq!(
                lowered.signature.returns_,
                Some(Type::Pointer(Box::new(Type::Fundamental("int".to_string()))))
            );
            assert_eq!(lowered.signature.arguments[0].name, "n");
        }
        _ => panic!("expected a function"),
    }
    assert_eq!(diagnostics.len(), 1);
    assert_eq!(diagnostics[0].kind, DiagnosticKind::UnknownId);
    assert_eq!(diagnostics[0].reference, 40);
}

#[test]
fn whole_run_ends_on_a_malformed_document() {
    let d = document(vec![raw("Field", &[("id", "_1")])]);
    let fatal = run(&d).unwrap_err();
    assert_eq!(fatal.kind, DiagnosticKind::MalformedDocument);
    assert_eq!(fatal.declaration, 1);
    let twice = document(vec![
        raw("FundamentalType", &[("id", "_1"), ("name", "int")]),
        raw("FundamentalType", &[("id", "_1"), ("name", "char")]),
    ]);
    assert_eq!(run(&twice).unwrap_err().kind, DiagnosticKind::MalformedDocument);
}
