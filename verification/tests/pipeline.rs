use omnideps::analyzer::{analyze_code_snippet, analyze_project};
use omnideps::config::AnalyzerConfig;
use omnideps::export::order::compare_dependencies;
use omnideps::extraction::{extract_from_cst, parse_source};
use omnideps::language::SupportedLanguage;
use omnideps::model::components::{Component, Module, StructuredTypeKind};
use omnideps::model::graph::{DependencyEdgeKind, DependencyGraph};
use omnideps::model::queries::TypeRef;
use omnideps::resolver::primitives::PrimitiveRegistry;

const PRIMS: &str = r#"{"rust": ["u32", "i32", "String"], "python": ["int", "str"], "java": ["int", "String"], "c": ["int"], "cpp": ["int"]}"#;

fn s(x: &str) -> String {
    x.to_string()
}

fn names(v: &[String]) -> Vec<&str> {
    v.iter().map(|x| x.as_str()).collect()
}

fn child<'a>(m: &'a Module, name: &str) -> &'a Module {
    m.sub_modules.iter().find(|c| c.name.last().map(|n| n.as_str()) == Some(name)).expect("submodule")
}

fn node_name(c: &Component) -> Vec<String> {
    match c {
        Component::Module(m) => m.name.clone(),
        Component::StructuredType(t) => t.name.clone(),
        Component::Function(f) => f.name.clone(),
        Component::Field(n, _) => n.clone(),
        Component::TypeAlias(a) => a.name.clone(),
        Component::Primitive(p) => vec![p.clone()],
        Component::External(e) => e.clone(),
    }
}

fn assert_well_built(g: &DependencyGraph) {
    for w in g.edges.windows(2) {
        assert_eq!(compare_dependencies(&w[0], &w[1]), -1);
    }
    for e in &g.edges {
        assert!(g.nodes.iter().any(|n| node_name(n) == e.to), "target {:?} is a node", e.to);
    }
}

fn has_edge(g: &DependencyGraph, from: &[&str], to: &[&str], kind: DependencyEdgeKind) -> bool {
    g.edges.iter().any(|e| names(&e.from) == from && names(&e.to) == to && e.kind == kind)
}

#[test]
fn rust_snippet_is_placed_by_directory_and_resolved() {
    let config = AnalyzerConfig::default_strategies();
    let src = "struct B { x: u32 }\nstruct A { b: B }\nuse std::fmt::Debug;\nfn f(a: A) -> B { let q = B { x: 1 }; q }";
    let (ms, g) = analyze_code_snippet(SupportedLanguage::Rust, src, "src/shapes/mod_a.rs", PRIMS, &config).unwrap();
    assert_eq!(ms.len(), 1);
    assert_eq!(names(&ms[0].name), vec!["root"]);
    let file = child(child(&ms[0], "shapes"), "mod_a");
    assert_eq!(file.file_path, Some(s("src/shapes/mod_a.rs")));
    let tn: Vec<&str> = file.structured_types.iter().map(|t| t.name[0].as_str()).collect();
    assert_eq!(tn, vec!["B", "A"]);
    assert_eq!(file.structured_types[0].fields[0].ty, TypeRef::Primitive(s("u32")));
    assert_eq!(file.imports[0].path, vec![s("std"), s("fmt"), s("Debug")]);
    assert_eq!(file.free_functions[0].name, vec![s("f")]);
    assert_well_built(&g);
    assert!(has_edge(&g, &["shapes", "mod_a"], &["shapes", "mod_a", "A"], DependencyEdgeKind::ModuleContainment));
    assert!(has_edge(&g, &["shapes", "mod_a", "B", "x"], &["u32"], DependencyEdgeKind::UsesFieldType));
    assert!(has_edge(&g, &["shapes", "mod_a", "f"], &["shapes", "mod_a", "B"], DependencyEdgeKind::Instantiates));
    assert!(has_edge(&g, &["shapes", "mod_a"], &["std", "fmt", "Debug"], DependencyEdgeKind::Imports));
}

#[test]
fn python_snippet_resolves_its_base_class() {
    let config = AnalyzerConfig::default_strategies();
    let src = "import os\nclass Base:\n    pass\nclass User(Base):\n    @property\n    def name(self) -> str:\n        return 'x'\n";
    let (ms, g) = analyze_code_snippet(SupportedLanguage::Python, src, "pkg/users.py", PRIMS, &config).unwrap();
    let users = child(child(&ms[0], "pkg"), "users");
    assert_eq!(users.imports.len(), 1);
    assert_eq!(users.imports[0].path, vec![s("os")]);
    let user = &users.structured_types[1];
    assert_eq!(user.name, vec![s("User")]);
    assert_eq!(user.kind, StructuredTypeKind::Class);
    let base = TypeRef::Resolved(vec![s("pkg"), s("users"), s("Base")]);
    assert_eq!(
        user.super_types,
        vec![TypeRef::EvaluatedAccess(Box::new(base.clone()), Box::new(base))]
    );
    assert_eq!(user.methods[0].name, vec![s("name")]);
    assert_eq!(user.methods[0].signature.return_type, TypeRef::Primitive(s("str")));
    assert_well_built(&g);
    assert!(has_edge(&g, &["pkg", "users", "User", "name"], &["property"], DependencyEdgeKind::AnnotatedWith));
    assert!(has_edge(&g, &["pkg", "users"], &["os"], DependencyEdgeKind::Imports));
}

#[test]
fn java_snippet_is_placed_by_package() {
    let config = AnalyzerConfig::default_strategies();
    let src = "package com.acme;\nimport java.util.List;\npublic class Car extends Vehicle {\n  private int wheels;\n  public void drive() { Engine e = new Engine(); e.start(); }\n}\n";
    let (ms, g) = analyze_code_snippet(SupportedLanguage::Java, src, "Car.java", PRIMS, &config).unwrap();
    let acme = child(child(&ms[0], "com"), "acme");
    assert!(acme.imports.is_empty());
    let car = &acme.structured_types[0];
    assert_eq!(car.name, vec![s("Car")]);
    assert_eq!(car.imports.len(), 1);
    assert_eq!(car.imports[0].path, vec![s("java"), s("util"), s("List")]);
    assert_eq!(car.fields[0].name, "wheels");
    assert_well_built(&g);
    assert!(has_edge(&g, &["com", "acme", "Car"], &["Vehicle"], DependencyEdgeKind::IsA));
    assert!(has_edge(&g, &["com", "acme", "Car", "drive"], &["Engine"], DependencyEdgeKind::Instantiates));
}

#[test]
fn c_snippet_goes_under_a_global_root() {
    let config = AnalyzerConfig::default_strategies();
    let src = "typedef struct Point { int x; int y; } Point;\nint area(Point p) { return p.x * p.y; }\n";
    let (ms, g) = analyze_code_snippet(SupportedLanguage::C, src, "geo.c", PRIMS, &config).unwrap();
    assert_eq!(ms.len(), 1);
    assert_eq!(names(&ms[0].name), vec!["root"]);
    assert_eq!(ms[0].language, Some(s("c")));
    let point = &ms[0].structured_types[0];
    assert_eq!(point.name, vec![s("Point")]);
    let fields: Vec<&str> = point.fields.iter().map(|f| f.name.as_str()).collect();
    assert_eq!(fields, vec!["x", "y"]);
    assert!(point.fields.iter().all(|f| f.ty == TypeRef::Primitive(s("int"))));
    assert_eq!(ms[0].free_functions[0].signature.return_type, TypeRef::Primitive(s("int")));
    assert_well_built(&g);
    assert!(has_edge(&g, &["Point", "x"], &["int"], DependencyEdgeKind::UsesFieldType));
}

#[test]
fn cpp_out_of_line_method_is_linked_to_its_class() {
    let config = AnalyzerConfig::default_strategies();
    let src = "class Car { public: void drive(); };\nvoid Car::drive() {}\n";
    let (ms, _) = parse_source(SupportedLanguage::Cpp, src, "car.cpp", PRIMS, &config).unwrap();
    fn no_qualified(m: &Module) -> bool {
        m.free_functions.iter().all(|f| f.name.len() <= 1) && m.sub_modules.iter().all(no_qualified)
    }
    assert!(ms.iter().all(no_qualified));
}

#[test]
fn extraction_gives_one_root_module() {
    let config = AnalyzerConfig::default_strategies();
    let (ms, pkg) = extract_from_cst(SupportedLanguage::Java, "package a.b;\nclass X {}", "java", Some(s("X.java")), &config).unwrap();
    assert_eq!(ms.len(), 1);
    assert_eq!(names(&ms[0].name), vec!["root"]);
    assert_eq!(pkg, Some(vec![s("a"), s("b")]));
    let (empty, none) = extract_from_cst(SupportedLanguage::Rust, "", "rust", None, &config).unwrap();
    assert!(empty.is_empty());
    assert_eq!(none, None);
}

#[test]
fn invalid_primitive_table_gives_an_empty_registry() {
    let config = AnalyzerConfig::default_strategies();
    let (ms, reg) = parse_source(SupportedLanguage::Rust, "struct S { x: u32 }", "s.rs", "not json", &config).unwrap();
    assert!(!reg.is_primitive("u32"));
    assert_eq!(ms.len(), 1);
    let (_, reg) = parse_source(SupportedLanguage::Rust, "struct S;", "s.rs", PRIMS, &config).unwrap();
    assert!(reg.is_primitive("u32"));
    assert!(!reg.is_primitive("int"));
}

#[test]
fn analyze_project_keeps_declarations_and_builds_the_graph() {
    let config = AnalyzerConfig::default_strategies();
    let (ms, reg) = parse_source(SupportedLanguage::Rust, "struct A;\nstruct B { a: A }", "src/lib.rs", PRIMS, &config).unwrap();
    let (resolved, g) = analyze_project(ms, &reg, &config);
    assert_eq!(resolved.len(), 1);
    let lib = child(&resolved[0], "lib");
    let tn: Vec<&str> = lib.structured_types.iter().map(|t| t.name[0].as_str()).collect();
    assert_eq!(tn, vec!["A", "B"]);
    assert_well_built(&g);
    let empty: Vec<Module> = Vec::new();
    let (none, g0) = analyze_project(empty, &PrimitiveRegistry::empty(), &config);
    assert!(none.is_empty());
    assert!(g0.nodes.is_empty() && g0.edges.is_empty());
}

#[test]
fn c_source_goes_under_one_global_root() {
    let config = AnalyzerConfig::default_strategies();
    let (ms, _) = parse_source(SupportedLanguage::C, "struct P { int x; };\nint f(void) { return 0; }\n", "p.c", PRIMS, &config).unwrap();
    assert_eq!(ms.len(), 1);
    assert_eq!(names(&ms[0].name), vec!["root"]);
    assert_eq!(ms[0].language.as_deref(), Some("c"));
    assert!(ms[0].file_path.is_none());
}

#[test]
fn snippet_graph_shows_the_declared_types() {
    let config = AnalyzerConfig::default_strategies();
    let (ms, g) = analyze_code_snippet(SupportedLanguage::Rust, "struct A;\nstruct B { a: A }", "src/lib.rs", PRIMS, &config).unwrap();
    assert!(!ms.is_empty());
    assert_well_built(&g);
    assert!(g.nodes.iter().any(|n| matches!(n, Component::StructuredType(t) if t.name.last().map(|x| x.as_str()) == Some("B"))));
}
