use omnideps::heuristics::annotation_extraction::extract_annotations;
use omnideps::heuristics::body_extraction::infer_variable_type;
use omnideps::heuristics::parsers::try_parse_imports;
use omnideps::heuristics::text_parsing::extract_identifier;
use omnideps::heuristics::structural_extraction::{
    extract_impl_for, extract_implements_trait, extract_parameters, extract_return_type,
    extract_super_types,
};
use omnideps::language::SupportedLanguage;
use omnideps::model::queries::{Query, TypeRef};
use omnideps::syntax::SyntaxTree;
use omnideps::text_util::replace_all_chars;

fn s(x: &str) -> String {
    x.to_string()
}

fn nodes_of_kind(t: &SyntaxTree, kind: &str) -> Vec<usize> {
    (0..t.len()).filter(|&i| t.kind(i) == kind).collect()
}

fn first_of_kind(t: &SyntaxTree, kind: &str) -> usize {
    nodes_of_kind(t, kind)[0]
}

fn unresolved(parts: &[&str]) -> TypeRef {
    TypeRef::Unresolved(parts.iter().map(|p| p.to_string()).collect())
}

#[test]
fn children_by_position_name_and_field() {
    let t = SyntaxTree::parse(SupportedLanguage::Rust, "fn f(a: u32) {}").unwrap();
    let f = first_of_kind(&t, "function_item");
    assert_eq!(t.child_count(f), 4);
    assert_eq!(t.kind(t.child(f, 0).unwrap()), "fn");
    assert_eq!(t.child(f, 4), None);
    assert_eq!(t.kind(t.named_child(f, 0).unwrap()), "identifier");
    assert_eq!(t.kind(t.named_child(f, 1).unwrap()), "parameters");
    assert_eq!(t.kind(t.named_child(f, 2).unwrap()), "block");
    assert_eq!(t.named_child(f, 3), None);
    assert_eq!(t.child_by_field_name(f, "body"), Some(first_of_kind(&t, "block")));
    assert_eq!(t.child_by_field_name(f, "parameters"), Some(first_of_kind(&t, "parameters")));
    assert_eq!(t.child_by_field_name(f, "nope"), None);
}

#[test]
fn replace_scans_left_to_right() {
    let r = replace_all_chars(&['a', '-', 'b', '-', 'c'], &['-'], &[':', ':']);
    assert_eq!(r.iter().collect::<String>(), "a::b::c");
    let r = replace_all_chars(&['a', 'a', 'a'], &['a', 'a'], &['b']);
    assert_eq!(r.iter().collect::<String>(), "ba");
    let r = replace_all_chars(&['x', 'y'], &['z'], &[]);
    assert_eq!(r.iter().collect::<String>(), "xy");
}

#[test]
fn rust_parameters_are_read_in_order() {
    let t = SyntaxTree::parse(SupportedLanguage::Rust, "fn f(a: u32, b: String) {}").unwrap();
    let f = first_of_kind(&t, "function_item");
    let params = extract_parameters(&t, f);
    assert_eq!(params.len(), 2);
    assert_eq!(params[0].name, Some(s("a")));
    assert_eq!(params[1].name, Some(s("b")));
    assert!(!params[0].is_variadic);
    assert!(!params[1].is_variadic);
}

#[test]
fn c_variadic_parameter_is_marked() {
    let t = SyntaxTree::parse(SupportedLanguage::C, "int f(int a, ...);").unwrap();
    let d = first_of_kind(&t, "function_declarator");
    let params = extract_parameters(&t, d);
    assert_eq!(params.len(), 2);
    assert!(!params[0].is_variadic);
    assert!(params[1].is_variadic);
}

#[test]
fn node_without_parameter_list_has_no_parameters() {
    let t = SyntaxTree::parse(SupportedLanguage::Rust, "struct S;").unwrap();
    let st = first_of_kind(&t, "struct_item");
    assert!(extract_parameters(&t, st).is_empty());
}

#[test]
fn return_type_from_field_and_from_arrow_text() {
    let t = SyntaxTree::parse(SupportedLanguage::Rust, "fn f() -> u32 { 1 }\nfn g() {}").unwrap();
    let fs = nodes_of_kind(&t, "function_item");
    assert_eq!(extract_return_type(&t, fs[0]), unresolved(&["u32"]));
    assert_eq!(extract_return_type(&t, fs[1]), TypeRef::Failed(vec![]));
    let t2 = SyntaxTree::parse(SupportedLanguage::Rust, "fn h() -> geo::Point {}").unwrap();
    assert_eq!(extract_return_type(&t2, 0), unresolved(&["geo", "Point"]));
}

#[test]
fn java_superclass_then_interfaces() {
    let src = "class A extends B implements C, D {}";
    let t = SyntaxTree::parse(SupportedLanguage::Java, src).unwrap();
    let c = first_of_kind(&t, "class_declaration");
    assert_eq!(
        extract_super_types(&t, c),
        vec![unresolved(&["B"]), unresolved(&["C"]), unresolved(&["D"])]
    );
}

#[test]
fn python_bases_and_plain_class() {
    let t = SyntaxTree::parse(SupportedLanguage::Python, "class A(B, C):\n    pass\n").unwrap();
    let c = first_of_kind(&t, "class_definition");
    assert_eq!(extract_super_types(&t, c), vec![unresolved(&["B"]), unresolved(&["C"])]);
    let t2 = SyntaxTree::parse(SupportedLanguage::Python, "class A:\n    pass\n").unwrap();
    let c2 = first_of_kind(&t2, "class_definition");
    assert!(extract_super_types(&t2, c2).is_empty());
}

#[test]
fn impl_block_target_and_trait() {
    let t = SyntaxTree::parse(SupportedLanguage::Rust, "impl Display for Point {}\nimpl Point {}").unwrap();
    let blocks = nodes_of_kind(&t, "impl_item");
    assert_eq!(extract_impl_for(&t, blocks[0]), unresolved(&["Point"]));
    assert_eq!(extract_implements_trait(&t, blocks[0]), Some(unresolved(&["Display"])));
    assert_eq!(extract_impl_for(&t, blocks[1]), unresolved(&["Point"]));
    assert_eq!(extract_implements_trait(&t, blocks[1]), None);
}

#[test]
fn local_types_from_initialisers() {
    let src = "fn f() { let a = Rect { w: 1 }; let b = Factory; let c = 1 + 2; }";
    let t = SyntaxTree::parse(SupportedLanguage::Rust, src).unwrap();
    let lets = nodes_of_kind(&t, "let_declaration");
    assert_eq!(infer_variable_type(&t, lets[0]), unresolved(&["Rect"]));
    assert_eq!(infer_variable_type(&t, lets[1]), unresolved(&["Factory"]));
    assert_eq!(infer_variable_type(&t, lets[2]), TypeRef::Failed(vec![]));
}

#[test]
fn python_call_initialiser_becomes_a_call_query() {
    let t = SyntaxTree::parse(SupportedLanguage::Python, "u = models.Admin()\n").unwrap();
    let a = first_of_kind(&t, "assignment");
    assert_eq!(
        infer_variable_type(&t, a),
        TypeRef::ResolutionQuery(Query::Call(Box::new(Query::Extract(
            Box::new(Query::Find(s("models"))),
            s("Admin")
        ))))
    );
}

#[test]
fn import_paths_are_sanitised() {
    let t = SyntaxTree::parse(SupportedLanguage::Rust, "use crate::geo::Point;").unwrap();
    let u = first_of_kind(&t, "use_declaration");
    let imports = try_parse_imports(&t, u).unwrap();
    assert_eq!(imports.len(), 1);
    assert_eq!(imports[0].path, vec![s("geo"), s("Point")]);
    let j = SyntaxTree::parse(SupportedLanguage::Java, "import java.util.List;\nclass A {}").unwrap();
    let i = first_of_kind(&j, "import_declaration");
    let imports = try_parse_imports(&j, i).unwrap();
    assert_eq!(imports[0].path, vec![s("java"), s("util"), s("List")]);
}

#[test]
fn python_decorators_are_annotations() {
    let src = "@app.route(\"/\")\n@staticmethod\ndef f():\n    pass\n";
    let t = SyntaxTree::parse(SupportedLanguage::Python, src).unwrap();
    let f = first_of_kind(&t, "function_definition");
    assert_eq!(
        extract_annotations(&t, f),
        vec![unresolved(&["app", "route"]), unresolved(&["staticmethod"])]
    );
}

#[test]
fn c_declarator_names_the_variable() {
    let t = SyntaxTree::parse(SupportedLanguage::C, "int *count;").unwrap();
    let d = first_of_kind(&t, "declaration");
    assert_eq!(extract_identifier(&t, d), Some(s("count")));
}
