use omnideps::heuristics::annotation_extraction::extract_annotations;
use omnideps::heuristics::body_extraction::{call_query, extract_block};
use omnideps::heuristics::classifiers::{
    is_free_variable, is_function, is_impl_block, is_import, is_module, is_structured_type,
    is_type_alias,
};
use omnideps::heuristics::parsers::{
    try_parse_function, try_parse_imports, try_parse_module_node, try_parse_package_declaration,
    try_parse_structured_type, try_parse_type_alias,
};
use omnideps::heuristics::text_parsing::{extract_identifier, extract_qualified_name, node_text};
use omnideps::heuristics::type_extraction::extract_type_ref;
use omnideps::heuristics::{dispatch_node, ParsedItem};
use omnideps::config::AnalyzerConfig;
use omnideps::language::SupportedLanguage;
use omnideps::model::components::{Component, StructuredTypeKind};
use omnideps::model::queries::{Query, TypeRef};
use omnideps::syntax::SyntaxTree;

fn s(x: &str) -> String {
    x.to_string()
}

fn first_of_kind(t: &SyntaxTree, kind: &str) -> usize {
    (0..t.len()).find(|&i| t.kind(i) == kind).expect("kind present")
}

#[test]
fn syntax_tree_reads_nodes_in_pre_order() {
    let t = SyntaxTree::parse(SupportedLanguage::Rust, "use a::b as c;\nfn main() {}").unwrap();
    assert_eq!(t.kind(0), "source_file");
    assert_eq!(t.parent(0), None);
    assert_eq!(t.kind(1), "use_declaration");
    assert_eq!(t.text(1), "use a::b as c;");
    assert_eq!(t.kind(3), "use_as_clause");
    assert_eq!(t.text(3), "a::b as c");
    assert_eq!(t.parent(3), Some(1));
    assert!(!t.is_named(2));
    assert_eq!(t.child_by_field_name(1, "argument"), Some(3));
    let f = first_of_kind(&t, "function_item");
    assert_eq!(t.children(0), &vec![1, f]);
    assert_eq!(t.next_sibling(1), Some(f));
    assert_eq!(t.prev_sibling(f), Some(1));
    assert_eq!(node_text(&t, f), "fn main() {}");
}

#[test]
fn syntax_tree_of_each_language_has_its_root_kind() {
    let cases = [
        (SupportedLanguage::Rust, "fn f() {}", "source_file"),
        (SupportedLanguage::Python, "x = 1\n", "module"),
        (SupportedLanguage::Java, "class A {}", "program"),
        (SupportedLanguage::C, "int x;", "translation_unit"),
        (SupportedLanguage::Cpp, "int x;", "translation_unit"),
    ];
    for (lang, src, root) in cases {
        let t = SyntaxTree::parse(lang, src).unwrap();
        assert_eq!(t.kind(0), root);
        assert_eq!(t.text(0).trim(), src.trim());
    }
}

#[test]
fn classifiers_recognise_rust_items() {
    let src = "mod m {}\nstruct S { x: u32 }\nfn f() {}\nimpl S {}\nuse a::b;\nstatic N: u32 = 1;\ntype T = u32;";
    let t = SyntaxTree::parse(SupportedLanguage::Rust, src).unwrap();
    let m = first_of_kind(&t, "mod_item");
    let st = first_of_kind(&t, "struct_item");
    let f = first_of_kind(&t, "function_item");
    let ib = first_of_kind(&t, "impl_item");
    let u = first_of_kind(&t, "use_declaration");
    let v = first_of_kind(&t, "static_item");
    let a = first_of_kind(&t, "type_item");
    assert!(is_module(&t, m) && !is_module(&t, st));
    assert!(is_structured_type(&t, st) && !is_structured_type(&t, f));
    assert!(is_function(&t, f) && !is_function(&t, st));
    assert!(is_impl_block(&t, ib) && !is_impl_block(&t, f));
    assert!(is_import(&t, u) && !is_import(&t, f));
    assert!(is_free_variable(&t, v) && !is_free_variable(&t, f));
    assert!(is_type_alias(&t, a) && !is_type_alias(&t, st));
}

#[test]
fn c_typedef_of_a_struct_is_a_type_not_an_alias() {
    let t = SyntaxTree::parse(SupportedLanguage::C, "typedef struct P { int x; } P;\ntypedef int Num;").unwrap();
    let defs: Vec<usize> = (0..t.len()).filter(|&i| t.kind(i) == "type_definition").collect();
    assert_eq!(defs.len(), 2);
    assert!(is_structured_type(&t, defs[0]));
    assert!(!is_type_alias(&t, defs[0]));
    assert!(!is_structured_type(&t, defs[1]));
    assert!(is_type_alias(&t, defs[1]));
}

#[test]
fn identifiers_and_qualified_names_come_from_node_text() {
    let t = SyntaxTree::parse(SupportedLanguage::Rust, "struct Car { w: u32 }\nuse std::fmt::Debug;").unwrap();
    let st = first_of_kind(&t, "struct_item");
    assert_eq!(extract_identifier(&t, st), Some(s("Car")));
    let scoped = first_of_kind(&t, "scoped_identifier");
    assert_eq!(
        extract_qualified_name(&t, scoped),
        Some(vec![s("std"), s("fmt"), s("Debug")])
    );
}

#[test]
fn rust_use_with_alias_and_wildcard() {
    let t = SyntaxTree::parse(SupportedLanguage::Rust, "use a::b as c;\nuse x::y::*;").unwrap();
    let uses: Vec<usize> = (0..t.len()).filter(|&i| t.kind(i) == "use_declaration").collect();
    let first = try_parse_imports(&t, uses[0]).unwrap();
    assert_eq!(first.len(), 1);
    assert_eq!(first[0].alias, Some(s("c")));
    assert!(!first[0].is_wildcard);
    let second = try_parse_imports(&t, uses[1]).unwrap();
    assert_eq!(second.len(), 1);
    assert_eq!(second[0].alias, None);
    assert!(second[0].is_wildcard);
    assert_eq!(second[0].path, vec![s("x"), s("y"), s("*")]);
}

#[test]
fn python_from_import_joins_module_and_names() {
    let t = SyntaxTree::parse(SupportedLanguage::Python, "from pkg.sub import Thing, Other as O\n").unwrap();
    let n = first_of_kind(&t, "import_from_statement");
    let imports = try_parse_imports(&t, n).unwrap();
    assert_eq!(imports[0].path, vec![s("pkg"), s("sub"), s("Thing")]);
    assert!(imports.iter().all(|i| i.alias == Some(s("O"))));
    assert!(imports.iter().all(|i| !i.is_wildcard));
}

#[test]
fn c_include_is_not_import_like_by_kind() {
    let t = SyntaxTree::parse(SupportedLanguage::C, "#include \"geo/point.h\"\n").unwrap();
    let n = first_of_kind(&t, "preproc_include");
    assert!(is_import(&t, n));
    assert!(try_parse_imports(&t, n).is_none());
}

#[test]
fn cpp_using_namespace_is_a_wildcard_import() {
    let t = SyntaxTree::parse(SupportedLanguage::Cpp, "using namespace std;\n").unwrap();
    let n = first_of_kind(&t, "using_declaration");
    let imports = try_parse_imports(&t, n).unwrap();
    assert_eq!(imports[0].path, vec![s("std")]);
    assert!(imports[0].is_wildcard);
    assert_eq!(imports[0].alias, None);
}

#[test]
fn non_import_nodes_give_no_imports() {
    let t = SyntaxTree::parse(SupportedLanguage::Rust, "fn f() {}").unwrap();
    let f = first_of_kind(&t, "function_item");
    assert!(try_parse_imports(&t, f).is_none());
}

#[test]
fn java_package_declaration_path() {
    let t = SyntaxTree::parse(SupportedLanguage::Java, "package com.acme.cars;\nclass A {}").unwrap();
    let p = first_of_kind(&t, "package_declaration");
    assert_eq!(
        try_parse_package_declaration(&t, p),
        Some(vec![s("com"), s("acme"), s("cars")])
    );
    let c = first_of_kind(&t, "class_declaration");
    assert_eq!(try_parse_package_declaration(&t, c), None);
}

#[test]
fn rust_attributes_become_annotations() {
    let t = SyntaxTree::parse(SupportedLanguage::Rust, "#[derive(Debug)]\nstruct S;").unwrap();
    let st = first_of_kind(&t, "struct_item");
    let ann = extract_annotations(&t, st);
    assert_eq!(
        ann,
        vec![
            TypeRef::Unresolved(vec![s("Debug")]),
            TypeRef::Unresolved(vec![s("derive")])
        ]
    );
}

#[test]
fn java_marker_annotation_is_found_in_modifiers() {
    let t = SyntaxTree::parse(SupportedLanguage::Java, "class A { @Override public String toString() { return \"\"; } }").unwrap();
    let m = first_of_kind(&t, "method_declaration");
    assert_eq!(extract_annotations(&t, m), vec![TypeRef::Unresolved(vec![s("Override")])]);
}

#[test]
fn structured_type_with_fields_and_kind() {
    let t = SyntaxTree::parse(SupportedLanguage::Rust, "struct Pair(u32, String);\nenum E { A, B }").unwrap();
    let config = AnalyzerConfig::default_strategies();
    let st = first_of_kind(&t, "struct_item");
    let pair = try_parse_structured_type(&t, st, "rust", &config).unwrap();
    assert_eq!(pair.name, vec![s("Pair")]);
    assert_eq!(pair.kind, StructuredTypeKind::Struct);
    let names: Vec<String> = pair.fields.iter().map(|f| f.name.clone()).collect();
    assert_eq!(names, vec![s("0"), s("1")]);
    let en = first_of_kind(&t, "enum_item");
    assert_eq!(try_parse_structured_type(&t, en, "rust", &config).unwrap().kind, StructuredTypeKind::Enum);
    let f = first_of_kind(&t, "source_file");
    assert!(try_parse_structured_type(&t, f, "rust", &config).is_none());
}

#[test]
fn function_signature_and_body() {
    let src = "fn area(w: u32, h: u32) -> u32 { let a = Rect { w, h }; a.size() }";
    let t = SyntaxTree::parse(SupportedLanguage::Rust, src).unwrap();
    let f = first_of_kind(&t, "function_item");
    let func = try_parse_function(&t, f).unwrap();
    assert_eq!(func.name, vec![s("area")]);
    assert!(!func.is_constructor);
    assert_eq!(func.signature.parameters.len(), 2);
    assert_eq!(func.signature.parameters[0].name, Some(s("w")));
    assert_eq!(func.signature.return_type, TypeRef::Unresolved(vec![s("u32")]));
    let body = func.body.unwrap();
    assert_eq!(body.declarations.len(), 1);
    assert_eq!(body.declarations[0].name, "a");
    assert_eq!(body.declarations[0].ty, TypeRef::Unresolved(vec![s("Rect")]));
    assert_eq!(body.instantiates, vec![TypeRef::Unresolved(vec![s("Rect")])]);
}

#[test]
fn block_reads_calls_and_nested_blocks() {
    let src = "fn f() { g(); if true { h(); } }";
    let t = SyntaxTree::parse(SupportedLanguage::Rust, src).unwrap();
    let b = first_of_kind(&t, "block");
    let block = extract_block(&t, b);
    assert_eq!(block.calls, vec![TypeRef::Unresolved(vec![s("g")])]);
    assert_eq!(block.sub_blocks.len(), 0);
}

#[test]
fn python_constructor_call_infers_a_query() {
    let src = "def f():\n    u = models.Admin()\n";
    let t = SyntaxTree::parse(SupportedLanguage::Python, src).unwrap();
    let b = first_of_kind(&t, "block");
    let block = extract_block(&t, b);
    assert_eq!(block.declarations.len(), 1);
    assert_eq!(block.declarations[0].name, "u");
    assert_eq!(
        block.declarations[0].ty,
        TypeRef::ResolutionQuery(Query::Call(Box::new(Query::Extract(
            Box::new(Query::Find(s("models"))),
            s("Admin")
        ))))
    );
}

#[test]
fn call_query_nests_member_path() {
    let q = call_query(&vec![s("a"), s("b"), s("c")]);
    assert_eq!(
        q,
        Query::Call(Box::new(Query::Extract(
            Box::new(Query::Extract(Box::new(Query::Find(s("a"))), s("b"))),
            s("c")
        )))
    );
    assert_eq!(call_query(&vec![s("x")]), Query::Call(Box::new(Query::Find(s("x")))));
}

#[test]
fn type_refs_of_generic_and_plain_types() {
    let t = SyntaxTree::parse(SupportedLanguage::Rust, "struct S { a: Vec<Car>, b: u32 }").unwrap();
    let g = first_of_kind(&t, "generic_type");
    assert_eq!(
        extract_type_ref(&t, g),
        TypeRef::Generic {
            base: Box::new(TypeRef::Unresolved(vec![s("Vec")])),
            args: vec![TypeRef::Unresolved(vec![s("Car")])]
        }
    );
    let p = first_of_kind(&t, "primitive_type");
    assert_eq!(extract_type_ref(&t, p), TypeRef::Unresolved(vec![s("u32")]));
}

#[test]
fn type_alias_and_module_nodes() {
    let t = SyntaxTree::parse(SupportedLanguage::Rust, "type Meters = u32;\nmod geo {}").unwrap();
    let a = first_of_kind(&t, "type_item");
    let alias = try_parse_type_alias(&t, a).unwrap();
    assert_eq!(alias.name, vec![s("Meters")]);
    assert_eq!(alias.target, TypeRef::Unresolved(vec![s("u32")]));
    let m = first_of_kind(&t, "mod_item");
    let module = try_parse_module_node(&t, m, "rust").unwrap();
    assert_eq!(module.name, vec![s("geo")]);
    assert_eq!(module.language, Some(s("rust")));
    assert!(try_parse_module_node(&t, a, "rust").is_none());
}

#[test]
fn dispatch_sorts_nodes_into_items() {
    let t = SyntaxTree::parse(SupportedLanguage::Rust, "use a::b;\nstruct S;\nimpl S {}").unwrap();
    let config = AnalyzerConfig::default_strategies();
    let u = first_of_kind(&t, "use_declaration");
    assert!(matches!(dispatch_node(&t, u, "rust", &config), Some(ParsedItem::Imports(_))));
    let st = first_of_kind(&t, "struct_item");
    assert!(matches!(
        dispatch_node(&t, st, "rust", &config),
        Some(ParsedItem::Component(Component::StructuredType(_)))
    ));
    let ib = first_of_kind(&t, "impl_item");
    assert!(matches!(dispatch_node(&t, ib, "rust", &config), Some(ParsedItem::ImplBlock(_))));
    assert!(dispatch_node(&t, 0, "rust", &config).is_none());
}
