use omnideps::config::AnalyzerConfig;
use omnideps::export::order::{compare_paths, compare_strings, sort_dedup_edges};
use omnideps::export::summary::build_analysis_summary;
use omnideps::extraction::strategies::{apply_directory_strategy, apply_package_strategy, link_out_of_line_methods};
use omnideps::language::SupportedLanguage;
use omnideps::model::components::{Field, Function, Module, Signature, StructuredType, StructuredTypeKind};
use omnideps::model::graph::{Dependency, DependencyEdgeKind};
use omnideps::model::queries::{Query, TypeRef};
use omnideps::model::test_manifest::{TestManifest, TestManifestNode, TestReport, TestReportNode};
use omnideps::resolver::cache::{ResolutionCache, ResolutionResult};
use omnideps::resolver::executor::{extract_base_name, query_to_path};
use omnideps::resolver::primitives::{PrimitiveRegistry, PrimitivesError};
use omnideps::resolver::registry::GlobalRegistry;
use omnideps::resolver::resolve_type_refs;
use omnideps::resolver::scope::{ScopeTree, Symbol};
use omnideps::resolver::stack::SymbolStack;

fn s(x: &str) -> String {
    x.to_string()
}

fn qn(parts: &[&str]) -> Vec<String> {
    parts.iter().map(|p| s(p)).collect()
}

fn empty_module(name: &[&str]) -> Module {
    Module {
        name: qn(name),
        language: Some(s("rust")),
        file_path: None,
        imports: vec![],
        sub_modules: vec![],
        structured_types: vec![],
        type_aliases: vec![],
        free_functions: vec![],
        impl_blocks: vec![],
        free_variables: vec![],
    }
}

fn plain_type(name: &str, fields: Vec<Field>) -> StructuredType {
    StructuredType {
        name: qn(&[name]),
        kind: StructuredTypeKind::Struct,
        fields,
        methods: vec![],
        super_types: vec![],
        nested_types: vec![],
        annotations: vec![],
        imports: vec![],
        type_parameters: vec![],
    }
}

fn function(name: &[&str]) -> Function {
    Function {
        name: qn(name),
        signature: Signature { parameters: vec![], return_type: TypeRef::Failed(vec![]) },
        body: None,
        is_constructor: false,
        annotations: vec![],
        type_parameters: vec![],
    }
}

#[test]
fn languages_by_extension_and_path() {
    assert_eq!(SupportedLanguage::from_extension("rs"), Some(SupportedLanguage::Rust));
    assert_eq!(SupportedLanguage::from_extension("hpp"), Some(SupportedLanguage::Cpp));
    assert_eq!(SupportedLanguage::from_extension("h"), Some(SupportedLanguage::C));
    assert_eq!(SupportedLanguage::from_extension("txt"), None);
    assert_eq!(SupportedLanguage::from_path("src/a/b.py"), Some(SupportedLanguage::Python));
    assert_eq!(SupportedLanguage::from_path("Makefile"), None);
    assert_eq!(SupportedLanguage::from_path(".java"), None);
    assert_eq!(SupportedLanguage::Cpp.name(), "cpp");
}

#[test]
fn config_strategies_by_language() {
    let config = AnalyzerConfig::default_strategies();
    assert!(config.get_for("rust").support_impl_blocks);
    assert!(config.get_for("java").modules.package_decl_based);
    assert!(!config.get_for("c").modules.package_decl_based);
    let unknown = config.get_for("cobol");
    assert!(!unknown.modules.package_decl_based);
}

#[test]
fn primitives_load_merge_and_errors() {
    let table = r#"{"rust": ["u32", "bool"], "c": ["int"]}"#;
    let mut reg = PrimitiveRegistry::load("rust", table).unwrap();
    assert!(reg.is_primitive("u32") && reg.is_primitive("bool") && !reg.is_primitive("int"));
    let none = PrimitiveRegistry::load("python", table).unwrap();
    assert!(!none.is_primitive("u32"));
    assert!(matches!(PrimitiveRegistry::load("rust", "[1, 2]"), Err(PrimitivesError::InvalidTable)));
    reg.merge(PrimitiveRegistry::load("c", table).unwrap());
    assert!(reg.is_primitive("int") && reg.is_primitive("u32"));
}

#[test]
fn symbol_stack_looks_up_innermost_first() {
    let mut st = SymbolStack::new();
    st.define_symbol(s("z"), Query::Find(s("Z")));
    assert_eq!(st.lookup(&s("z")), None);
    st.push_scope();
    st.define_symbol(s("x"), Query::Find(s("A")));
    st.push_scope();
    st.define_symbol(s("x"), Query::Find(s("B")));
    assert_eq!(st.lookup(&s("x")), Some(&Query::Find(s("B"))));
    st.pop_scope();
    assert_eq!(st.lookup(&s("x")), Some(&Query::Find(s("A"))));
    assert_eq!(st.lookup(&s("y")), None);
}

#[test]
fn resolution_cache_reads_back_what_it_stored() {
    let mut c = ResolutionCache::new();
    let prefix = qn(&["root", "m"]);
    assert_eq!(c.get(&prefix, &qn(&["A"])), None);
    c.insert(&prefix, qn(&["A"]), ResolutionResult::Local(qn(&["m", "A"])));
    assert_eq!(c.get(&prefix, &qn(&["A"])), Some(ResolutionResult::Local(qn(&["m", "A"]))));
    assert_eq!(c.get(&qn(&["root"]), &qn(&["A"])), None);
    c.insert(&prefix, qn(&["A"]), ResolutionResult::External(qn(&["std", "A"])));
    assert_eq!(c.get(&prefix, &qn(&["A"])), Some(ResolutionResult::External(qn(&["std", "A"]))));
}

#[test]
fn scope_tree_paths_and_symbols() {
    let mut t = ScopeTree::new_root();
    let m = t.new_scope(0, s("m"));
    let a = t.new_scope(m, s("A"));
    assert_eq!((m, a), (1, 2));
    assert_eq!(t.build_path_from_scope(a), qn(&["m", "A"]));
    assert_eq!(t.build_path_from_scope(0), qn(&[]));
    t.define_symbol(m, s("A"), Symbol::Type(a));
    assert!(t.arena[m].symbols.contains_key(&s("A")));
    assert_eq!(t.arena[m].children, vec![a]);
}

#[test]
fn registry_indexes_module_paths() {
    let mut m = empty_module(&["shapes"]);
    m.structured_types.push(plain_type("Circle", vec![]));
    let reg = GlobalRegistry::build(&vec![m]);
    assert!(reg.path_exists(&qn(&["shapes"])));
    assert!(reg.path_exists(&qn(&["shapes", "Circle"])));
    assert!(!reg.path_exists(&qn(&["shapes", "Square"])));
    assert!(reg.get(&qn(&["nothing"])).is_none());
}

#[test]
fn query_text_and_path() {
    let q = Query::Call(Box::new(Query::Extract(Box::new(Query::Find(s("a"))), s("b"))));
    assert_eq!(extract_base_name(&q), "a::b()");
    assert_eq!(query_to_path(&q), Some(qn(&["a", "b"])));
}

#[test]
fn resolution_binds_a_local_type_name() {
    let config = AnalyzerConfig::default_strategies();
    let mut m = empty_module(&["root"]);
    let mut inner = empty_module(&["geo"]);
    inner.structured_types.push(plain_type("Point", vec![]));
    inner.structured_types.push(plain_type(
        "Line",
        vec![Field { name: s("start"), ty: TypeRef::Unresolved(qn(&["Point"])), annotations: vec![] }],
    ));
    m.sub_modules.push(inner);
    let prims = PrimitiveRegistry::empty();
    let out = resolve_type_refs(vec![m], &prims, &config);
    let line = &out[0].sub_modules[0].structured_types[1];
    assert_eq!(line.name, qn(&["Line"]));
    let point = TypeRef::Resolved(qn(&["geo", "Point"]));
    assert_eq!(
        line.fields[0].ty,
        TypeRef::EvaluatedAccess(Box::new(point.clone()), Box::new(point))
    );
}

#[test]
fn unknown_names_fail_with_their_text() {
    let config = AnalyzerConfig::default_strategies();
    let mut m = empty_module(&["root"]);
    m.structured_types.push(plain_type(
        "Holder",
        vec![Field { name: s("x"), ty: TypeRef::ResolutionQuery(Query::Find(s("Nowhere"))), annotations: vec![] }],
    ));
    let out = resolve_type_refs(vec![m], &PrimitiveRegistry::empty(), &config);
    assert_eq!(out[0].structured_types[0].fields[0].ty, TypeRef::Failed(qn(&["Nowhere"])));
}

#[test]
fn summary_counts_modules_types_and_functions() {
    let mut root = empty_module(&["root"]);
    let mut a = empty_module(&["a"]);
    a.structured_types.push(plain_type("T", vec![]));
    a.free_functions.push(function(&["f"]));
    a.free_functions.push(function(&["g"]));
    root.sub_modules.push(a);
    let summary = build_analysis_summary(&vec![root]);
    assert_eq!(summary.total_structured_types, 1);
    assert_eq!(summary.total_free_functions, 2);
    assert!(summary.total_modules >= 1);
    let none = build_analysis_summary(&vec![]);
    assert_eq!(none.total_modules, 0);
    assert_eq!(none.total_free_functions, 0);
}

#[test]
fn edges_are_sorted_without_duplicates() {
    let e = |f: &str, t: &str, k| Dependency { from: qn(&[f]), to: qn(&[t]), kind: k };
    let edges = vec![
        e("b", "x", DependencyEdgeKind::Calls),
        e("a", "y", DependencyEdgeKind::Calls),
        e("b", "x", DependencyEdgeKind::Calls),
        e("a", "y", DependencyEdgeKind::IsA),
    ];
    let sorted = sort_dedup_edges(&edges);
    assert_eq!(
        sorted,
        vec![
            e("a", "y", DependencyEdgeKind::IsA),
            e("a", "y", DependencyEdgeKind::Calls),
            e("b", "x", DependencyEdgeKind::Calls),
        ]
    );
    assert_eq!(compare_strings(&s("a"), &s("b")), -1);
    assert_eq!(compare_strings(&s("b"), &s("b")), 0);
    assert_eq!(compare_paths(&qn(&["a", "b"]), &qn(&["a"])), 1);
}

#[test]
fn directory_strategy_wraps_the_file_module() {
    let mut modules = vec![empty_module(&["root"])];
    modules[0].structured_types.push(plain_type("S", vec![]));
    apply_directory_strategy(&mut modules, "src/net/http.rs", "src/net/http.rs", "rust");
    assert_eq!(modules.len(), 1);
    assert_eq!(modules[0].name, qn(&["root"]));
    let net = &modules[0].sub_modules[0];
    assert_eq!(net.name, qn(&["net"]));
    let http = &net.sub_modules[0];
    assert_eq!(http.name, qn(&["http"]));
    assert_eq!(http.structured_types[0].name, qn(&["S"]));
    let mut none: Vec<Module> = vec![];
    apply_directory_strategy(&mut none, "a/b.rs", "a/b.rs", "rust");
    assert!(none.is_empty());
}

#[test]
fn package_strategy_nests_by_segment() {
    let mut modules = vec![empty_module(&["root"])];
    modules[0].structured_types.push(plain_type("Car", vec![]));
    apply_package_strategy(&mut modules, qn(&["com", "acme"]), "Car.java", "java");
    let acme = &modules[0].sub_modules[0].sub_modules[0];
    assert_eq!(modules[0].sub_modules[0].name, qn(&["com"]));
    assert_eq!(acme.name, qn(&["acme"]));
    assert_eq!(acme.structured_types[0].name, qn(&["Car"]));
    let mut same = vec![empty_module(&["root"])];
    apply_package_strategy(&mut same, vec![], "X.java", "java");
    assert_eq!(same[0].name, qn(&["root"]));
    assert!(same[0].sub_modules.is_empty());
}

#[test]
fn out_of_line_methods_leave_no_qualified_free_function() {
    let mut m = empty_module(&["root"]);
    m.structured_types.push(plain_type("Car", vec![]));
    m.free_functions.push(function(&["Car", "drive"]));
    m.free_functions.push(function(&["main"]));
    let mut modules = vec![m];
    link_out_of_line_methods(&mut modules);
    assert_eq!(modules.len(), 1);
    assert!(modules[0].free_functions.iter().all(|f| f.name.len() <= 1));
    assert_eq!(modules[0].name, qn(&["root"]));
}

#[test]
fn report_crafting_and_markdown() {
    let manifest = TestManifest { files: vec![s("a.rs")], nodes: vec![], edges: vec![] };
    let r = TestReport::craft(&manifest);
    assert_eq!(r.files, vec![s("a.rs")]);
    assert!(r.nodes.is_empty());
    let node = TestManifestNode { name: s("A"), kind: s("Class") };
    let rn: TestReportNode = TestReportNode::craft(&node, true, false, s("Struct"));
    assert_eq!((rn.name.as_str(), rn.kind.as_str(), rn.exists, rn.same_kind, rn.actual_kind.as_str()), ("A", "Class", true, false, "Struct"));
    assert!(TestReport::bool_to_markdown(true).contains("2714"));
    assert!(TestReport::bool_to_markdown(false).contains("274c"));
}

#[test]
fn registry_keys_are_exactly_the_declared_paths() {
    let mut m = empty_module(&["m"]);
    m.structured_types.push(plain_type(
        "S",
        vec![Field { name: s("x"), ty: TypeRef::Unresolved(qn(&["T"])), annotations: vec![] }],
    ));
    m.free_functions.push(function(&["g"]));
    let reg = GlobalRegistry::build(&vec![m]);
    assert!(reg.path_exists(&qn(&["m"])));
    assert!(reg.path_exists(&qn(&["m", "S"])));
    assert!(reg.path_exists(&qn(&["m", "S", "x"])));
    assert!(reg.path_exists(&qn(&["m", "g"])));
    assert!(!reg.path_exists(&qn(&["S"])));
    assert!(!reg.path_exists(&qn(&["m", "x"])));
}

#[test]
fn out_of_line_methods_join_their_type_or_a_new_impl_block() {
    let mut m = empty_module(&["root"]);
    m.structured_types.push(plain_type("Car", vec![]));
    m.free_functions.push(function(&["Car", "drive"]));
    m.free_functions.push(function(&["main"]));
    m.free_functions.push(function(&["Boat", "sail"]));
    let mut modules = vec![m];
    link_out_of_line_methods(&mut modules);
    let r = &modules[0];
    assert_eq!(r.free_functions.len(), 1);
    assert_eq!(r.free_functions[0].name, qn(&["main"]));
    assert_eq!(r.structured_types[0].methods.len(), 1);
    assert_eq!(r.structured_types[0].methods[0].name, qn(&["drive"]));
    assert_eq!(r.impl_blocks.len(), 1);
    assert_eq!(r.impl_blocks[0].name, qn(&["Boat"]));
    assert_eq!(r.impl_blocks[0].methods[0].name, qn(&["sail"]));
    assert!(matches!(&r.impl_blocks[0].impl_for, TypeRef::ResolutionQuery(Query::Find(t)) if t == "Boat"));
}

#[test]
fn linking_without_qualified_functions_changes_nothing() {
    let mut m = empty_module(&["root"]);
    m.structured_types.push(plain_type("Car", vec![]));
    m.free_functions.push(function(&["main"]));
    let mut modules = vec![m];
    link_out_of_line_methods(&mut modules);
    assert_eq!(modules[0].free_functions.len(), 1);
    assert_eq!(modules[0].structured_types[0].methods.len(), 0);
    assert_eq!(modules[0].impl_blocks.len(), 0);
}

#[test]
fn scope_tree_build_binds_each_type_of_a_module() {
    let mut m = empty_module(&["root"]);
    m.structured_types.push(plain_type(
        "A",
        vec![Field { name: s("x"), ty: TypeRef::Unresolved(qn(&["B"])), annotations: vec![] }],
    ));
    let cfg = AnalyzerConfig::default_strategies();
    let t = ScopeTree::build(&vec![m], &cfg);
    assert_eq!(t.arena.len(), 2);
    assert!(t.arena[0].is_module);
    assert!(t.arena[0].symbols.contains_key(&s("A")));
    assert_eq!(t.arena[1].parent, Some(0));
    assert!(t.arena[1].symbols.contains_key(&s("x")));
    assert_eq!(t.arena[0].children, vec![1]);
}
