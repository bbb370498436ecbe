use omnideps::assets::{benchmark_suites, build_docs_tree, builtin_inputs, is_builtin_benchmark, DocsNode};
use omnideps::debug::reference_rows;
use omnideps::model::components::{Field, Function, Module, Parameter, Signature, StructuredType, StructuredTypeKind};
use omnideps::model::queries::TypeRef;

fn s(x: &str) -> String {
    x.to_string()
}

fn names(nodes: &[DocsNode]) -> Vec<(String, String, String)> {
    nodes.iter().map(|n| (n.node_type.clone(), n.name.clone(), n.path.clone())).collect()
}

#[test]
fn docs_tree_lists_directories_first_then_by_name() {
    let files = vec![
        s("guide/zeta.md"),
        s("README.md"),
        s("guide/alpha.html"),
        s(".hidden.md"),
        s("guide/deep/x.md"),
        s("image.png"),
        s("api.md"),
    ];
    let tree = build_docs_tree(&files);
    assert_eq!(
        names(&tree),
        vec![
            (s("directory"), s("guide"), s("guide")),
            (s("file"), s("README.md"), s("README.md")),
            (s("file"), s("api.md"), s("api.md")),
        ]
    );
    let guide = tree[0].children.as_ref().unwrap();
    assert_eq!(
        names(guide),
        vec![
            (s("directory"), s("deep"), s("guide/deep")),
            (s("file"), s("alpha.html"), s("guide/alpha.html")),
            (s("file"), s("zeta.md"), s("guide/zeta.md")),
        ]
    );
    let deep = guide[0].children.as_ref().unwrap();
    assert_eq!(names(deep), vec![(s("file"), s("x.md"), s("guide/deep/x.md"))]);
    assert!(deep[0].children.is_none());
    assert!(build_docs_tree(&vec![s("a.txt")]).is_empty());
}

#[test]
fn builtin_inputs_are_sorted_and_distinct() {
    let files = vec![
        s("benchmarks/benchmark-rust/src/main.rs"),
        s("generics/b.py"),
        s("generics/notes.txt"),
        s("benchmarks/benchmark-rust/test.yml"),
        s("generics/a.java"),
        s("benchmarks/benchmark-c/src/x.c"),
        s("other/z.rs"),
    ];
    assert_eq!(
        builtin_inputs(&files),
        vec![
            s("omnideps-builtin/benchmarks/benchmark-c"),
            s("omnideps-builtin/benchmarks/benchmark-rust"),
            s("omnideps-builtin/generics/a.java"),
            s("omnideps-builtin/generics/b.py"),
        ]
    );
    assert_eq!(
        benchmark_suites(&files),
        vec![s("omnideps-builtin/benchmarks/benchmark-c"), s("omnideps-builtin/benchmarks/benchmark-rust")]
    );
    assert!(builtin_inputs(&vec![]).is_empty());
}

#[test]
fn only_bundled_benchmarks_may_run() {
    assert!(is_builtin_benchmark("omnideps-builtin/benchmarks/benchmark-rust"));
    assert!(!is_builtin_benchmark("omnideps-builtin/benchmarks/benchmark-rust/../../etc"));
    assert!(!is_builtin_benchmark("benchmarks/benchmark-rust"));
}

#[test]
fn reference_rows_list_every_reference_with_its_place() {
    let st = StructuredType {
        name: vec![s("m"), s("S")],
        kind: StructuredTypeKind::Struct,
        fields: vec![Field { name: s("x"), ty: TypeRef::Failed(vec![s("X")]), annotations: vec![] }],
        methods: vec![],
        super_types: vec![TypeRef::Resolved(vec![s("m"), s("Base")])],
        nested_types: vec![],
        annotations: vec![],
        imports: vec![],
        type_parameters: vec![],
    };
    let f = Function {
        name: vec![s("run")],
        signature: Signature {
            parameters: vec![Parameter { name: Some(s("p")), ty: TypeRef::Primitive(s("int")), is_variadic: false }],
            return_type: TypeRef::Failed(vec![]),
        },
        body: None,
        is_constructor: false,
        annotations: vec![],
        type_parameters: vec![],
    };
    let m = Module {
        name: vec![s("m")],
        language: None,
        file_path: None,
        imports: vec![],
        sub_modules: vec![],
        structured_types: vec![st],
        type_aliases: vec![],
        free_functions: vec![f],
        impl_blocks: vec![],
        free_variables: vec![],
    };
    let rows = reference_rows(&vec![m]);
    let flat: Vec<(String, String)> = rows.iter().map(|r| (r.kind.clone(), r.context.clone())).collect();
    assert_eq!(
        flat,
        vec![
            (s("SuperType"), s("m::S")),
            (s("Field 'x'"), s("m::S")),
            (s("Param 'p'"), s("m::run")),
            (s("Return"), s("m::run")),
        ]
    );
    assert_eq!(rows[1].reference, TypeRef::Failed(vec![s("X")]));
    assert!(reference_rows(&vec![]).is_empty());
}
