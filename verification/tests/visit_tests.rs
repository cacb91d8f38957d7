use xdr_index::ast::{
    Declaration, Definition, EnumAssign, EnumBody, Identifier, Specification, StructBody,
    TypeSpecifier, Value,
};
use xdr_index::visit::{visit_identifiers, Occurrence};

fn ident(name: &str, start: usize, end: usize) -> Identifier {
    Identifier { id: name.to_string(), start, end }
}

fn collect(spec: &Specification) -> Vec<Occurrence> {
    let mut out: Vec<Occurrence> = Vec::new();
    visit_identifiers(spec, &mut out);
    out
}

#[test]
fn traversal_order_and_classification() {
    // `struct Pair { Foo a; int b; };` — the struct name defines; the field
    // type reference, and both field names, are references, in source order.
    let spec = Specification {
        defns: vec![Definition::Struct {
            id: ident("Pair", 7, 11),
            body: StructBody {
                body: vec![
                    Declaration::Normal {
                        ty: TypeSpecifier::Ident(ident("Foo", 14, 17)),
                        id: ident("a", 18, 19),
                    },
                    Declaration::Normal {
                        ty: TypeSpecifier::BuiltIn("int".to_string()),
                        id: ident("b", 25, 26),
                    },
                ],
            },
        }],
    };
    let occs = collect(&spec);
    let summary: Vec<(&str, usize, usize, bool)> =
        occs.iter().map(|o| (o.name.as_str(), o.start, o.end, o.is_defn)).collect();
    assert_eq!(
        summary,
        vec![
            ("Pair", 7, 11, true),
            ("Foo", 14, 17, false),
            ("a", 18, 19, false),
            ("b", 25, 26, false),
        ]
    );
}

#[test]
fn typedef_name_is_definition() {
    // A top-level type alias defines its declared name; an array size
    // expression inside it is a reference.
    let spec = Specification {
        defns: vec![Definition::TypeDef(Declaration::FixedArr {
            ty: TypeSpecifier::Ident(ident("Foo", 8, 11)),
            id: ident("Row", 12, 15),
            size: xdr_index::ast::Value::Id(ident("N", 16, 17)),
        })],
    };
    let occs = collect(&spec);
    let summary: Vec<(&str, bool)> =
        occs.iter().map(|o| (o.name.as_str(), o.is_defn)).collect();
    assert_eq!(summary, vec![("Foo", false), ("Row", true), ("N", false)]);
}

#[test]
fn every_declaration_variant_classifies_members_as_references() {
    // One struct member per declaration variant; every member name and every
    // size expression must come out as a reference.
    let members = vec![
        Declaration::FixedArr {
            ty: TypeSpecifier::BuiltIn("int".to_string()),
            id: ident("fa", 10, 12),
            size: Value::Id(ident("N1", 13, 15)),
        },
        Declaration::VarArr {
            ty: TypeSpecifier::BuiltIn("int".to_string()),
            id: ident("va", 20, 22),
            size: Some(Value::Id(ident("N2", 23, 25))),
        },
        Declaration::FixedOpaque { id: ident("fo", 30, 32), size: Value::Const("8".to_string()) },
        Declaration::VarOpaque { id: ident("vo", 40, 42), size: None },
        Declaration::String { id: ident("st", 50, 52), size: Some(Value::Id(ident("N3", 53, 55))) },
        Declaration::Optional {
            ty: TypeSpecifier::Ident(ident("Foo", 60, 63)),
            id: ident("op", 64, 66),
        },
    ];
    let spec = Specification {
        defns: vec![Definition::Struct {
            id: ident("All", 7, 10),
            body: StructBody { body: members },
        }],
    };
    let occs = collect(&spec);
    let summary: Vec<(&str, bool)> =
        occs.iter().map(|o| (o.name.as_str(), o.is_defn)).collect();
    assert_eq!(
        summary,
        vec![
            ("All", true),
            ("fa", false),
            ("N1", false),
            ("va", false),
            ("N2", false),
            ("fo", false),
            ("vo", false),
            ("st", false),
            ("N3", false),
            ("Foo", false),
            ("op", false),
        ]
    );
}

#[test]
fn nested_enum_members_still_define() {
    // An enum body nested inside a struct member still defines its members.
    let spec = Specification {
        defns: vec![Definition::Struct {
            id: ident("S", 7, 8),
            body: StructBody {
                body: vec![Declaration::Normal {
                    ty: TypeSpecifier::Enum(EnumBody {
                        body: vec![EnumAssign {
                            id: ident("RED", 18, 21),
                            val: Value::Const("1".to_string()),
                        }],
                    }),
                    id: ident("color", 25, 30),
                }],
            },
        }],
    };
    let occs = collect(&spec);
    let summary: Vec<(&str, bool)> =
        occs.iter().map(|o| (o.name.as_str(), o.is_defn)).collect();
    assert_eq!(summary, vec![("S", true), ("RED", true), ("color", false)]);
}

#[test]
fn void_declaration_yields_nothing() {
    let spec = Specification {
        defns: vec![Definition::Struct {
            id: ident("S", 7, 8),
            body: StructBody { body: vec![Declaration::VOID] },
        }],
    };
    let occs = collect(&spec);
    assert_eq!(occs.len(), 1);
    assert_eq!(occs[0].name, "S");
    assert!(occs[0].is_defn);
}
