use typescript_type_def::text::emit_type_expr;
use typescript_type_def::{
    graph_well_formed, write_definition_file, DefinedTypeInfo, DefinitionFileOptions, Ident,
    NativeTypeInfo, ObjectField, TypeDef, TypeDefinition, TypeExpr, TypeGraph, TypeInfo,
    TypeIntersection, TypeName, TypeObject, TypeString, TypeTuple, TypeUnion,
};

fn ident(s: &str) -> Ident {
    Ident { name: s.to_string() }
}

fn name_expr(s: &str) -> TypeExpr {
    TypeExpr::Name(TypeName { path: vec![], name: ident(s), generic_args: vec![] })
}

fn string_expr(v: &str) -> TypeExpr {
    TypeExpr::String(TypeString { docs: None, value: v.to_string() })
}

fn field(name: &str, optional: bool, ty: TypeExpr) -> ObjectField {
    ObjectField {
        docs: None,
        name: TypeString { docs: None, value: name.to_string() },
        optional,
        ty,
    }
}

fn object(fields: Vec<ObjectField>) -> TypeExpr {
    TypeExpr::Object(TypeObject { docs: None, fields })
}

fn use_def(def: usize, generic_args: Vec<TypeExpr>) -> TypeExpr {
    TypeExpr::Ref(TypeInfo::Defined(DefinedTypeInfo { def, generic_args }))
}

fn render(g: &TypeGraph, rns: Option<&str>, e: &TypeExpr) -> String {
    let rns = rns.map(|s| s.to_string());
    let mut out = String::new();
    emit_type_expr(g, &rns, e, &mut out);
    out
}

fn emit(g: &TypeGraph, root: &TypeInfo, options: &DefinitionFileOptions) -> (String, usize) {
    assert!(graph_well_formed(g, root));
    let mut out = String::new();
    let stats = write_definition_file(&mut out, g, root, options);
    (out, stats.type_definitions)
}

fn user_graph() -> (TypeGraph, TypeInfo) {
    let user = TypeDefinition {
        docs: None,
        path: vec![],
        name: ident("User"),
        generic_vars: vec![],
        def: object(vec![
            field("id", false, name_expr("string")),
            field("age", true, name_expr("number")),
        ]),
    };
    (TypeGraph { defs: vec![user] }, TypeInfo::Defined(DefinedTypeInfo { def: 0, generic_args: vec![] }))
}

fn node_graph() -> (TypeGraph, TypeInfo) {
    let node = TypeDefinition {
        docs: None,
        path: vec![],
        name: ident("Node"),
        generic_vars: vec![],
        def: object(vec![
            field("value", false, name_expr("number")),
            field("next", false, use_def(0, vec![])),
        ]),
    };
    (TypeGraph { defs: vec![node] }, TypeInfo::Defined(DefinedTypeInfo { def: 0, generic_args: vec![] }))
}

#[test]
fn default_options_emit_user_module() {
    let (g, root) = user_graph();
    let (out, count) = emit(&g, &root, &Default::default());
    assert_eq!(
        out,
        "// AUTO-GENERATED by typescript-type-def\n\nexport default types;\nexport namespace types{\nexport type User={\"id\":string;\"age\"?:number;};\n}\n"
    );
    assert!(out.contains("export type User={\"id\":string;\"age\"?:number;};"));
    assert!(out.contains("export namespace types{"));
    assert_eq!(count, 1);
}

#[test]
fn union_of_string_literals_renders_parenthesized() {
    let g = TypeGraph { defs: vec![] };
    let e = TypeExpr::Union(TypeUnion {
        docs: None,
        members: vec![string_expr("a"), string_expr("b")],
    });
    assert_eq!(render(&g, Some("types"), &e), "(\"a\"|\"b\")");
}

#[test]
fn self_referential_definition_emits_once_and_terminates() {
    let (g, root) = node_graph();
    let (out, count) = emit(&g, &root, &Default::default());
    assert_eq!(count, 1);
    assert_eq!(out.matches("export type Node").count(), 1);
    assert!(out.contains("export type Node={\"value\":number;\"next\":types.Node;};"));
}

#[test]
fn no_header_no_namespace_emits_bare_declarations() {
    let (g, root) = user_graph();
    let options = DefinitionFileOptions { header: None, root_namespace: None };
    let (out, count) = emit(&g, &root, &options);
    assert_eq!(out, "export type User={\"id\":string;\"age\"?:number;};\n");
    assert!(!out.contains("export default"));
    assert!(!out.contains("export namespace"));
    assert_eq!(count, 1);
}

#[test]
fn emission_is_deterministic() {
    let (g1, root1) = node_graph();
    let (g2, root2) = node_graph();
    let (out1, count1) = emit(&g1, &root1, &Default::default());
    let (out2, count2) = emit(&g2, &root2, &Default::default());
    assert_eq!(out1, out2);
    assert_eq!(count1, count2);
}

#[test]
fn closure_is_complete_and_counts_unreachable_definitions_out() {
    // a -> b and a -> c (through a tuple); d is unreachable
    let a = TypeDefinition {
        docs: None,
        path: vec![],
        name: ident("A"),
        generic_vars: vec![],
        def: TypeExpr::Tuple(TypeTuple {
            docs: None,
            elements: vec![use_def(1, vec![]), use_def(2, vec![])],
        }),
    };
    let b = TypeDefinition {
        docs: None,
        path: vec![],
        name: ident("B"),
        generic_vars: vec![],
        def: name_expr("string"),
    };
    let c = TypeDefinition {
        docs: None,
        path: vec![],
        name: ident("C"),
        generic_vars: vec![],
        def: use_def(1, vec![]),
    };
    let d = TypeDefinition {
        docs: None,
        path: vec![],
        name: ident("D"),
        generic_vars: vec![],
        def: name_expr("number"),
    };
    let g = TypeGraph { defs: vec![a, b, c, d] };
    let root = TypeInfo::Defined(DefinedTypeInfo { def: 0, generic_args: vec![] });
    let (out, count) = emit(&g, &root, &Default::default());
    assert_eq!(count, 3);
    assert_eq!(out.matches("export type A").count(), 1);
    assert_eq!(out.matches("export type B").count(), 1);
    assert_eq!(out.matches("export type C").count(), 1);
    assert_eq!(out.matches("export type D").count(), 0);
}

#[test]
fn generic_uses_share_one_declaration() {
    let pair = TypeDefinition {
        docs: None,
        path: vec![],
        name: ident("Pair"),
        generic_vars: vec![ident("T")],
        def: TypeExpr::Tuple(TypeTuple {
            docs: None,
            elements: vec![name_expr("T"), name_expr("T")],
        }),
    };
    let g = TypeGraph { defs: vec![pair] };
    let tuple = TypeExpr::Tuple(TypeTuple {
        docs: None,
        elements: vec![
            use_def(0, vec![name_expr("string")]),
            use_def(0, vec![name_expr("number")]),
        ],
    });
    assert_eq!(
        render(&g, Some("types"), &tuple),
        "[types.Pair<string>,types.Pair<number>]"
    );
    let root = TypeInfo::Native(NativeTypeInfo { expr: Box::new(tuple) });
    let (out, count) = emit(&g, &root, &Default::default());
    assert_eq!(count, 1);
    assert_eq!(out.matches("export type Pair<T>=[T,T];").count(), 1);
}

#[test]
fn empty_union_renders_as_bottom_type() {
    let g = TypeGraph { defs: vec![] };
    let e = TypeExpr::Union(TypeUnion { docs: None, members: vec![] });
    assert_eq!(render(&g, Some("types"), &e), "never");
}

#[test]
fn empty_intersection_renders_as_top_type() {
    let g = TypeGraph { defs: vec![] };
    let e = TypeExpr::Intersection(TypeIntersection { docs: None, members: vec![] });
    assert_eq!(render(&g, Some("types"), &e), "any");
}

#[test]
fn array_item_is_parenthesized() {
    let g = TypeGraph { defs: vec![] };
    let e = TypeExpr::Array(typescript_type_def::TypeArray {
        docs: None,
        item: Box::new(TypeExpr::Union(TypeUnion {
            docs: None,
            members: vec![name_expr("string"), name_expr("number")],
        })),
    });
    assert_eq!(render(&g, None, &e), "((string|number))[]");
}

#[test]
fn intersection_members_are_ampersand_joined() {
    let g = TypeGraph { defs: vec![] };
    let e = TypeExpr::Intersection(TypeIntersection {
        docs: None,
        members: vec![name_expr("A"), name_expr("B"), name_expr("C")],
    });
    assert_eq!(render(&g, None, &e), "(A&B&C)");
}

#[test]
fn nested_path_yields_one_namespace_block() {
    let inner = TypeDefinition {
        docs: None,
        path: vec![ident("api"), ident("v1")],
        name: ident("Id"),
        generic_vars: vec![],
        def: name_expr("string"),
    };
    let g = TypeGraph { defs: vec![inner] };
    let root = TypeInfo::Defined(DefinedTypeInfo { def: 0, generic_args: vec![] });
    let (out, count) = emit(&g, &root, &Default::default());
    assert_eq!(count, 1);
    assert!(out.contains("export namespace api.v1{export type Id=string;}"));
    assert_eq!(out.matches("export namespace api.v1{").count(), 1);
    // the reference to it is fully qualified at a use site
    let e = use_def(0, vec![]);
    assert_eq!(render(&g, Some("types"), &e), "types.api.v1.Id");
}

#[test]
fn reference_without_root_namespace_has_no_prefix() {
    let (g, _) = user_graph();
    let e = use_def(0, vec![]);
    assert_eq!(render(&g, None, &e), "User");
    assert_eq!(render(&g, Some("types"), &e), "types.User");
}

#[test]
fn docs_become_block_comments() {
    let documented = TypeDefinition {
        docs: Some("A user record.\nStored in the database.".to_string()),
        path: vec![],
        name: ident("User"),
        generic_vars: vec![],
        def: name_expr("string"),
    };
    let g = TypeGraph { defs: vec![documented] };
    let root = TypeInfo::Defined(DefinedTypeInfo { def: 0, generic_args: vec![] });
    let (out, _) = emit(&g, &root, &DefinitionFileOptions { header: None, root_namespace: None });
    assert_eq!(
        out,
        "\n/**\n * A user record.\n * Stored in the database.\n */\nexport type User=string;\n"
    );
}

#[test]
fn docs_with_trailing_newline_add_no_empty_line() {
    let g = TypeGraph { defs: vec![] };
    let e = TypeExpr::String(TypeString {
        docs: Some("one line\n".to_string()),
        value: "v".to_string(),
    });
    assert_eq!(render(&g, None, &e), "\n/**\n * one line\n */\n\"v\"");
}

#[test]
fn string_literals_are_escaped() {
    let g = TypeGraph { defs: vec![] };
    let e = string_expr("a\"b\\c\nd\te\rf");
    assert_eq!(render(&g, None, &e), "\"a\\\"b\\\\c\\nd\\te\\rf\"");
}

#[test]
fn control_characters_are_hex_escaped() {
    let g = TypeGraph { defs: vec![] };
    let e = string_expr("a\u{0}b\u{1f}c\u{7f}d\u{9f}e");
    assert_eq!(render(&g, None, &e), "\"a\\u{0}b\\u{1f}c\\u{7f}d\\u{9f}e\"");
    // the first character outside the control ranges passes through unchanged
    let plain = string_expr("\u{a0}");
    assert_eq!(render(&g, None, &plain), "\"\u{a0}\"");
}

#[test]
fn crlf_doc_lines_lose_the_carriage_return() {
    let g = TypeGraph { defs: vec![] };
    let e = TypeExpr::String(TypeString {
        docs: Some("one\r\ntwo".to_string()),
        value: "v".to_string(),
    });
    assert_eq!(render(&g, None, &e), "\n/**\n * one\n * two\n */\n\"v\"");
    // a carriage return not followed by a newline stays in the line
    let lone = TypeExpr::String(TypeString {
        docs: Some("a\rb".to_string()),
        value: "v".to_string(),
    });
    assert_eq!(render(&g, None, &lone), "\n/**\n * a\rb\n */\n\"v\"");
}

#[test]
fn name_with_path_and_generic_args() {
    let g = TypeGraph { defs: vec![] };
    let e = TypeExpr::Name(TypeName {
        path: vec![ident("a"), ident("b")],
        name: ident("C"),
        generic_args: vec![name_expr("string"), name_expr("number")],
    });
    assert_eq!(render(&g, None, &e), "a.b.C<string,number>");
}

#[test]
fn tuple_elements_are_comma_joined_in_brackets() {
    let g = TypeGraph { defs: vec![] };
    let e = TypeExpr::Tuple(TypeTuple {
        docs: None,
        elements: vec![name_expr("string"), name_expr("number"), name_expr("boolean")],
    });
    assert_eq!(render(&g, None, &e), "[string,number,boolean]");
}

#[test]
fn native_root_declares_nothing() {
    let description = <bool as TypeDef>::info();
    let (out, count) = emit(
        &description.graph,
        &description.root,
        &DefinitionFileOptions { header: None, root_namespace: Some("types".to_string()) },
    );
    assert_eq!(count, 0);
    assert_eq!(out, "export default types;\nexport namespace types{\n}\n");
    assert_eq!(render(&description.graph, None, native_expr(&description.root)), "boolean");
}

fn native_expr(info: &TypeInfo) -> &TypeExpr {
    match info {
        TypeInfo::Native(n) => &n.expr,
        TypeInfo::Defined(_) => panic!("expected a native root"),
    }
}

#[test]
fn string_type_description_is_well_formed() {
    let description = <String as TypeDef>::info();
    assert!(graph_well_formed(&description.graph, &description.root));
    assert_eq!(render(&description.graph, None, native_expr(&description.root)), "string");
}

#[test]
fn dangling_reference_fails_the_well_formedness_check() {
    let broken = TypeDefinition {
        docs: None,
        path: vec![],
        name: ident("Broken"),
        generic_vars: vec![],
        def: use_def(5, vec![]),
    };
    let g = TypeGraph { defs: vec![broken] };
    let root = TypeInfo::Defined(DefinedTypeInfo { def: 0, generic_args: vec![] });
    assert!(!graph_well_formed(&g, &root));
    let dangling_root = TypeInfo::Defined(DefinedTypeInfo { def: 9, generic_args: vec![] });
    let ok = TypeGraph { defs: vec![] };
    assert!(!graph_well_formed(&ok, &dangling_root));
}

#[test]
fn generic_argument_dependencies_are_walked() {
    // root uses Wrapper<Inner>: both declarations must appear
    let wrapper = TypeDefinition {
        docs: None,
        path: vec![],
        name: ident("Wrapper"),
        generic_vars: vec![ident("T")],
        def: TypeExpr::Array(typescript_type_def::TypeArray {
            docs: None,
            item: Box::new(name_expr("T")),
        }),
    };
    let inner = TypeDefinition {
        docs: None,
        path: vec![],
        name: ident("Inner"),
        generic_vars: vec![],
        def: name_expr("number"),
    };
    let g = TypeGraph { defs: vec![wrapper, inner] };
    let root = TypeInfo::Defined(DefinedTypeInfo {
        def: 0,
        generic_args: vec![use_def(1, vec![])],
    });
    let (out, count) = emit(&g, &root, &Default::default());
    assert_eq!(count, 2);
    assert_eq!(out.matches("export type Wrapper<T>=(T)[];").count(), 1);
    assert_eq!(out.matches("export type Inner=number;").count(), 1);
}

#[test]
fn header_is_followed_by_a_blank_line() {
    let (g, root) = user_graph();
    let options = DefinitionFileOptions {
        header: Some("// my header".to_string()),
        root_namespace: None,
    };
    let (out, _) = emit(&g, &root, &options);
    assert_eq!(out, "// my header\nexport type User={\"id\":string;\"age\"?:number;};\n");
}
