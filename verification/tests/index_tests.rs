use xdr_index::ast::{
    CaseSpec, Declaration, Definition, EnumAssign, EnumBody, Identifier, Specification,
    StructBody, TypeSpecifier, UnionBody, Value,
};
use xdr_index::index::IndexStore;

fn ident(name: &str, start: usize, end: usize) -> Identifier {
    Identifier { id: name.to_string(), start, end }
}

// `const MAX = 10;` — MAX spans bytes 6..9.
fn const_max_spec() -> Specification {
    Specification {
        defns: vec![Definition::Constant { id: ident("MAX", 6, 9), val: "10".to_string() }],
    }
}

// `struct Foo { int x; };` — Foo spans 7..10, x spans 17..18.
fn struct_foo_spec() -> Specification {
    Specification {
        defns: vec![Definition::Struct {
            id: ident("Foo", 7, 10),
            body: StructBody {
                body: vec![Declaration::Normal {
                    ty: TypeSpecifier::BuiltIn("int".to_string()),
                    id: ident("x", 17, 18),
                }],
            },
        }],
    }
}

fn indexed(file: &str, text: &[u8], spec: &Specification) -> IndexStore {
    let mut store = IndexStore::new();
    store.index_file(&file.to_string(), &text.to_vec(), spec);
    store
}

#[test]
fn scenario_const_definition() {
    let text = b"const MAX = 10;";
    let store = indexed("a.x", text, &const_max_spec());
    let loc = store.definition_of(&"MAX".to_string()).expect("MAX must be defined");
    assert_eq!(loc.file, "a.x");
    assert_eq!(loc.start_line, 0);
    assert_eq!(loc.start_col, 6);
    assert_eq!(loc.end_line, 0);
    assert_eq!(loc.end_col, 9);
    assert!(store.references_of(&"MAX".to_string(), false).is_none());
}

#[test]
fn scenario_struct_field_is_reference() {
    let text = b"struct Foo { int x; };";
    let store = indexed("b.x", text, &struct_foo_spec());
    let foo = store.definition_of(&"Foo".to_string()).expect("Foo must be defined");
    assert_eq!(foo.start_line, 0);
    assert_eq!(foo.start_col, 7);
    assert_eq!(foo.end_col, 10);
    // The field name is recorded as a reference keyed by its own text...
    let refs = store.references_of(&"x".to_string(), false).expect("x must have references");
    assert_eq!(refs.len(), 1);
    assert_eq!(refs[0].start_line, 0);
    assert_eq!(refs[0].start_col, 17);
    assert_eq!(refs[0].end_col, 18);
    // ...and never as a definition.
    assert!(store.definition_of(&"x".to_string()).is_none());
}

#[test]
fn scenario_column_between_tokens() {
    let text = b"struct Foo { int x; };";
    let store = indexed("c.x", text, &struct_foo_spec());
    // Tokens on line 0 span [7, 10] (Foo) and [17, 18] (x): a column strictly
    // between the two yields nothing.
    assert!(store.get_ident_at(&"c.x".to_string(), 0, 13).is_none());
    // Columns within a span, ends included, yield that token's name.
    for c in 7..=10 {
        assert_eq!(store.get_ident_at(&"c.x".to_string(), 0, c).as_deref(), Some("Foo"));
    }
    for c in 17..=18 {
        assert_eq!(store.get_ident_at(&"c.x".to_string(), 0, c).as_deref(), Some("x"));
    }
    // Before the first token, and well past the last, nothing.
    assert!(store.get_ident_at(&"c.x".to_string(), 0, 5).is_none());
    assert!(store.get_ident_at(&"c.x".to_string(), 0, 21).is_none());
}

#[test]
fn query_misses_are_not_errors() {
    let text = b"const MAX = 10;";
    let store = indexed("d.x", text, &const_max_spec());
    assert!(store.get_ident_at(&"other.x".to_string(), 0, 7).is_none());
    assert!(store.get_ident_at(&"d.x".to_string(), 3, 7).is_none());
    assert!(store.definition_of(&"MIN".to_string()).is_none());
    assert!(store.references_of(&"MIN".to_string(), true).is_none());
}

#[test]
fn last_write_wins_across_files() {
    let mut store = IndexStore::new();
    let text = b"struct Foo { int x; };";
    store.index_file(&"first.x".to_string(), &text.to_vec(), &struct_foo_spec());
    store.index_file(&"second.x".to_string(), &text.to_vec(), &struct_foo_spec());
    let loc = store.definition_of(&"Foo".to_string()).expect("Foo must be defined");
    assert_eq!(loc.file, "second.x");
    // References accumulate across both files.
    let refs = store.references_of(&"x".to_string(), false).expect("x must have references");
    assert_eq!(refs.len(), 2);
    assert_eq!(refs[0].file, "first.x");
    assert_eq!(refs[1].file, "second.x");
}

#[test]
fn reindex_is_deterministic() {
    let build = || {
        let mut store = IndexStore::new();
        store.index_file(
            &"a.x".to_string(),
            &b"const MAX = 10;".to_vec(),
            &const_max_spec(),
        );
        store.index_file(
            &"b.x".to_string(),
            &b"struct Foo { int x; };".to_vec(),
            &struct_foo_spec(),
        );
        store
    };
    assert_eq!(build(), build());
}

#[test]
fn include_declaration_appends_definition() {
    // `enum E { A = 1, B = A };` — E defines, A and B define, the use of A in
    // B's value is a reference.
    let text = b"enum E { A = 1, B = A };";
    let spec = Specification {
        defns: vec![Definition::Enum {
            id: ident("E", 5, 6),
            body: EnumBody {
                body: vec![
                    EnumAssign { id: ident("A", 9, 10), val: Value::Const("1".to_string()) },
                    EnumAssign { id: ident("B", 16, 17), val: Value::Id(ident("A", 20, 21)) },
                ],
            },
        }],
    };
    let store = indexed("e.x", text, &spec);
    assert!(store.definition_of(&"E".to_string()).is_some());
    let a_def = store.definition_of(&"A".to_string()).expect("member A must be defined");
    assert_eq!(a_def.start_col, 9);
    let refs = store.references_of(&"A".to_string(), false).expect("A is referenced");
    assert_eq!(refs.len(), 1);
    assert_eq!(refs[0].start_col, 20);
    let with_decl = store.references_of(&"A".to_string(), true).expect("A is referenced");
    assert_eq!(with_decl.len(), 2);
    assert_eq!(with_decl[1].start_col, 9);
    // A name with a definition but no references still answers nothing.
    assert!(store.references_of(&"B".to_string(), true).is_none());
}

#[test]
fn empty_file_contributes_nothing() {
    let mut store = IndexStore::new();
    store.index_file(&"empty.x".to_string(), &Vec::new(), &Specification { defns: vec![] });
    assert!(store.get_ident_at(&"empty.x".to_string(), 0, 0).is_none());
    assert!(store.definition_of(&"anything".to_string()).is_none());
    assert!(store.references_of(&"anything".to_string(), true).is_none());
}

#[test]
fn multi_line_positions() {
    // Line starts: 0, 16, 39.
    let text = b"const MAX = 10;\nstruct Foo { int x; };\nconst MIN = 0;";
    let spec = Specification {
        defns: vec![
            Definition::Constant { id: ident("MAX", 6, 9), val: "10".to_string() },
            Definition::Struct {
                id: ident("Foo", 23, 26),
                body: StructBody {
                    body: vec![Declaration::Normal {
                        ty: TypeSpecifier::BuiltIn("int".to_string()),
                        id: ident("x", 33, 34),
                    }],
                },
            },
            Definition::Constant { id: ident("MIN", 45, 48), val: "0".to_string() },
        ],
    };
    let store = indexed("m.x", text, &spec);
    let foo = store.definition_of(&"Foo".to_string()).unwrap();
    assert_eq!((foo.start_line, foo.start_col, foo.end_col), (1, 7, 10));
    let min = store.definition_of(&"MIN".to_string()).unwrap();
    assert_eq!((min.start_line, min.start_col, min.end_col), (2, 6, 9));
    assert_eq!(store.get_ident_at(&"m.x".to_string(), 1, 18).as_deref(), Some("x"));
    assert_eq!(store.get_ident_at(&"m.x".to_string(), 2, 7).as_deref(), Some("MIN"));
}

#[test]
fn typedef_and_union_classification() {
    // `typedef opaque Blob<LEN>;` style alias plus a union; spans are chosen
    // on one line for simplicity.
    let text = b"typedef opaque Blob<LEN>; union U switch (int tag) { case A: int left; default: void; };";
    let spec = Specification {
        defns: vec![
            Definition::TypeDef(Declaration::VarOpaque {
                id: ident("Blob", 15, 19),
                size: Some(Value::Id(ident("LEN", 20, 23))),
            }),
            Definition::Union {
                id: ident("U", 32, 33),
                body: UnionBody {
                    discriminant: Box::new(Declaration::Normal {
                        ty: TypeSpecifier::BuiltIn("int".to_string()),
                        id: ident("tag", 46, 49),
                    }),
                    cases: vec![CaseSpec {
                        values: vec![Value::Id(ident("A", 59, 60))],
                        decl: Declaration::Normal {
                            ty: TypeSpecifier::BuiltIn("int".to_string()),
                            id: ident("left", 66, 70),
                        },
                    }],
                    default: Some(Box::new(Declaration::VOID)),
                },
            },
        ],
    };
    let store = indexed("u.x", text, &spec);
    // The alias name is a definition; its size expression is a reference.
    assert!(store.definition_of(&"Blob".to_string()).is_some());
    assert!(store.references_of(&"LEN".to_string(), false).is_some());
    // The union name is a definition; discriminant, guard value and case
    // field names are references.
    assert!(store.definition_of(&"U".to_string()).is_some());
    assert!(store.definition_of(&"tag".to_string()).is_none());
    assert!(store.references_of(&"tag".to_string(), false).is_some());
    assert!(store.references_of(&"A".to_string(), false).is_some());
    assert!(store.references_of(&"left".to_string(), false).is_some());
    assert!(store.definition_of(&"left".to_string()).is_none());
}
