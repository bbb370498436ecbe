use omnideps::benchmark::{flatten_name, verify_graph_adherence};
use omnideps::export::cytoscape::{graph_elements, CytoscapeData};
use omnideps::model::components::{Component, Module, StructuredType, StructuredTypeKind};
use omnideps::model::graph::{Dependency, DependencyEdgeKind, DependencyGraph};
use omnideps::model::test_manifest::{
    TestManifest, TestManifestEdge, TestManifestNode, TestReport, TestReportNode,
};

fn s(x: &str) -> String {
    x.to_string()
}

fn qn(parts: &[&str]) -> Vec<String> {
    parts.iter().map(|p| s(p)).collect()
}

fn module(name: &[&str]) -> Component {
    Component::Module(Module {
        name: qn(name),
        language: None,
        file_path: None,
        imports: vec![],
        sub_modules: vec![],
        structured_types: vec![],
        type_aliases: vec![],
        free_functions: vec![],
        impl_blocks: vec![],
        free_variables: vec![],
    })
}

fn structured(name: &[&str], kind: StructuredTypeKind) -> Component {
    Component::StructuredType(StructuredType {
        name: qn(name),
        kind,
        fields: vec![],
        methods: vec![],
        super_types: vec![],
        nested_types: vec![],
        annotations: vec![],
        imports: vec![],
        type_parameters: vec![],
    })
}

fn edge(from: &[&str], to: &[&str], kind: DependencyEdgeKind) -> Dependency {
    Dependency { from: qn(from), to: qn(to), kind }
}

fn sample_graph() -> DependencyGraph {
    DependencyGraph {
        nodes: vec![
            module(&["root", "m"]),
            structured(&["root", "m", "S"], StructuredTypeKind::Struct),
            Component::Primitive(s("int")),
        ],
        edges: vec![
            edge(&["root", "m"], &["root", "m", "S"], DependencyEdgeKind::ModuleContainment),
            edge(&["root", "m", "S"], &["int"], DependencyEdgeKind::UsesFieldType),
            edge(&["root", "m", "S"], &["int"], DependencyEdgeKind::UsesFieldType),
        ],
    }
}

#[test]
fn flatten_name_drops_a_leading_root() {
    assert_eq!(flatten_name(&qn(&["root", "a", "b"])), "a.b");
    assert_eq!(flatten_name(&qn(&["x", "y"])), "x.y");
    assert_eq!(flatten_name(&qn(&["root"])), "");
    assert_eq!(flatten_name(&qn(&[])), "");
}

#[test]
fn report_marks_found_and_missing_nodes_and_edges() {
    let graph = sample_graph();
    let manifest = TestManifest {
        files: vec![s("m.rs")],
        nodes: vec![
            TestManifestNode { name: s("m.S"), kind: s("Struct") },
            TestManifestNode { name: s("m.T"), kind: s("Class") },
            TestManifestNode { name: s("int"), kind: s("Primitive") },
        ],
        edges: vec![
            TestManifestEdge { testid: s("1"), source: s("m.S"), sink: s("int"), kind: s("UsesFieldType") },
            TestManifestEdge { testid: s("2"), source: s("m.T"), sink: s("int"), kind: s("UsesFieldType") },
            TestManifestEdge { testid: s("3"), source: s("m"), sink: s("int"), kind: s("Calls") },
        ],
    };
    let report: TestReport = verify_graph_adherence(&graph, &manifest);
    assert_eq!(report.files, vec![s("m.rs")]);
    let n: &Vec<TestReportNode> = &report.nodes;
    assert_eq!(n.len(), 3);
    assert!(n[0].exists && n[0].same_kind);
    assert_eq!(n[0].actual_kind, "Struct");
    assert!(!n[1].exists && !n[1].same_kind);
    assert_eq!(n[1].actual_kind, "-");
    assert_eq!(n[2].actual_kind, "Primitive");
    assert_eq!(report.node_not_found_count, 1);
    let e = &report.edges;
    assert!(e[0].source_exists && e[0].sink_exists && e[0].edge_exists && e[0].same_kind);
    assert!(!e[1].source_exists && e[1].sink_exists && !e[1].edge_exists);
    assert!(e[2].source_exists && !e[2].edge_exists);
    assert_eq!(e[2].testid, "3");
    assert_eq!(report.edge_not_found_count, 2);
}

#[test]
fn report_of_empty_manifest_counts_nothing() {
    let manifest = TestManifest { files: vec![], nodes: vec![], edges: vec![] };
    let report = verify_graph_adherence(&sample_graph(), &manifest);
    assert!(report.nodes.is_empty() && report.edges.is_empty());
    assert_eq!(report.node_not_found_count, 0);
    assert_eq!(report.edge_not_found_count, 0);
}

#[test]
fn cytoscape_elements_nest_nodes_and_number_edges() {
    let elements = graph_elements(&vec![sample_graph()]);
    let mut nodes = vec![];
    let mut edges = vec![];
    for el in &elements {
        match &el.data {
            CytoscapeData::Node { id, label, ty, parent } => nodes.push((id.clone(), label.clone(), ty.clone(), parent.clone())),
            CytoscapeData::Edge { id, source, target, label } => edges.push((id.clone(), source.clone(), target.clone(), label.clone())),
        }
    }
    assert_eq!(
        nodes,
        vec![
            (s("root::m"), s("m"), s("Module"), None),
            (s("root::m::S"), s("S"), s("Struct"), Some(s("root::m"))),
            (s("int"), s("int"), s("External"), None),
        ]
    );
    assert_eq!(edges, vec![(s("e0"), s("root::m::S"), s("int"), s("UsesFieldType"))]);
}

#[test]
fn cytoscape_adds_external_nodes_for_unknown_ends() {
    let g = DependencyGraph {
        nodes: vec![],
        edges: vec![edge(&["a", "b"], &["c", "d"], DependencyEdgeKind::Calls)],
    };
    let elements = graph_elements(&vec![g]);
    assert_eq!(elements.len(), 3);
    match &elements[0].data {
        CytoscapeData::Node { id, label, ty, .. } => {
            assert_eq!((id.as_str(), label.as_str(), ty.as_str()), ("a::b", "b", "External"));
        }
        _ => panic!("node expected"),
    }
    match &elements[2].data {
        CytoscapeData::Edge { id, source, target, label } => {
            assert_eq!((id.as_str(), source.as_str(), target.as_str(), label.as_str()), ("e0", "a::b", "c::d", "Calls"));
        }
        _ => panic!("edge expected"),
    }
}

#[test]
fn markdown_tables_follow_the_report() {
    let graph = sample_graph();
    let manifest = TestManifest {
        files: vec![s("m.rs")],
        nodes: vec![TestManifestNode { name: s("m.S"), kind: s("Struct") }],
        edges: vec![TestManifestEdge { testid: s("7"), source: s("m"), sink: s("int"), kind: s("Calls") }],
    };
    let report = verify_graph_adherence(&graph, &manifest);
    let ok = TestReport::bool_to_markdown(true);
    let ko = TestReport::bool_to_markdown(false);
    let mut expected = String::new();
    expected += "# Report\n## Files\n- m.rs\n";
    expected += "\n## Nodes\n| Name | Kind | Node Exists | Kind Is Correct | Actual Kind |\n| ---- | ---- | ----------- | --------------- | ----------- |\n";
    expected += &format!("| m.S | Struct | {} | {} | Struct |\n", ok, ok);
    expected += "\n## Edges\n| Test Id | Source | Sink | Kind | Source Exists | Sink Exists | Edge Exists | Kind Is Correct |\n| ------- | ------ | ---- | ---- | ------------- | ----------- | ----------- | --------------- |\n";
    expected += &format!("| 7 | m | int | Calls | {} | {} | {} | {} |\n", ok, ok, ko, ko);
    expected += "\n## Results \n| Count | Total | Found | Not Found | Error Rate |\n| ----- | ----- | ----- | --------- | ---------- |\n";
    assert_eq!(report.markdown_tables(), expected);
    assert_eq!(TestReport::result_row_start("Edges", 12, 3), "| Edges | 12 | 9 | 3 | ");
}
