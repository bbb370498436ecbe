//! Checking a dependency graph against the nodes and edges a test manifest expects.
use crate::model::components::{Component, StructuredTypeKind};
use crate::model::graph::DependencyGraph;
use crate::model::queries::QualifiedName;
use crate::model::test_manifest::{TestManifest, TestReport, TestReportEdge, TestReportNode};
use crate::text_util::{join_spec, join_strings, str_eq, to_owned_string};
use vstd::prelude::*;

verus! {

/// A qualified name written with dots, without a leading `root` part.
pub open spec fn flat_name_spec(name: Seq<Seq<char>>) -> Seq<char> {
    if name.len() > 0 && name[0] == "root"@ {
        join_spec(name.skip(1), "."@)
    } else {
        join_spec(name, "."@)
    }
}

/// Writes a qualified name with dots, leaving out a leading `root` part.
pub fn flatten_name(name: &QualifiedName) -> (r: String)
    ensures
        r@ == flat_name_spec(name.deep_view()),
{
    if name.len() > 0 && str_eq(name[0].as_str(), "root") {
        let mut rest: Vec<String> = Vec::new();
        let mut i: usize = 1;
        while i < name.len()
            invariant
                1 <= i <= name@.len(),
                rest@.len() == i - 1,
                forall|j: int| 0 <= j < i - 1 ==> (#[trigger] rest@[j])@ == name@[j + 1]@,
            decreases name.len() - i,
        {
            let s = to_owned_string(name[i].as_str());
            rest.push(s);
            i += 1;
        }
        assert(rest.deep_view() =~= name.deep_view().skip(1));
        join_strings(&rest, ".")
    } else {
        join_strings(name, ".")
    }
}

/// The name under which a graph node is expected in a manifest.
pub open spec fn node_flat_name(c: Component) -> Seq<char> {
    match c {
        Component::Module(m) => flat_name_spec(m.name.deep_view()),
        Component::StructuredType(s) => flat_name_spec(s.name.deep_view()),
        Component::Function(f) => flat_name_spec(f.name.deep_view()),
        Component::Field(n, _) => flat_name_spec(n.deep_view()),
        Component::TypeAlias(t) => flat_name_spec(t.name.deep_view()),
        Component::Primitive(p) => p@,
        Component::External(u) => flat_name_spec(u.deep_view()),
    }
}

fn node_flat_name_of(c: &Component) -> (r: String)
    ensures
        r@ == node_flat_name(*c),
{
    match c {
        Component::Module(m) => flatten_name(&m.name),
        Component::StructuredType(s) => flatten_name(&s.name),
        Component::Function(f) => flatten_name(&f.name),
        Component::Field(n, _) => flatten_name(n),
        Component::TypeAlias(t) => flatten_name(&t.name),
        Component::Primitive(p) => to_owned_string(p.as_str()),
        Component::External(u) => flatten_name(u),
    }
}

/// The written name of a structured-type kind.
pub open spec fn structured_kind_name(k: StructuredTypeKind) -> Seq<char> {
    match k {
        StructuredTypeKind::Class => "Class"@,
        StructuredTypeKind::Struct => "Struct"@,
        StructuredTypeKind::Interface => "Interface"@,
        StructuredTypeKind::Trait => "Trait"@,
        StructuredTypeKind::Enum => "Enum"@,
        StructuredTypeKind::EnumVariant => "EnumVariant"@,
    }
}

/// The kind of a graph node as a report writes it.
pub open spec fn node_kind_name(c: Component) -> Seq<char> {
    match c {
        Component::Module(_) => "Module"@,
        Component::StructuredType(s) => structured_kind_name(s.kind),
        Component::Function(_) => "Function"@,
        Component::Field(_, _) => "Field"@,
        Component::TypeAlias(_) => "TypeAlias"@,
        Component::Primitive(_) => "Primitive"@,
        Component::External(_) => "External"@,
    }
}

fn node_kind_name_of(c: &Component) -> (r: String)
    ensures
        r@ == node_kind_name(*c),
{
    let s = match c {
        Component::Module(_) => "Module",
        Component::StructuredType(st) => match st.kind {
            StructuredTypeKind::Class => "Class",
            StructuredTypeKind::Struct => "Struct",
            StructuredTypeKind::Interface => "Interface",
            StructuredTypeKind::Trait => "Trait",
            StructuredTypeKind::Enum => "Enum",
            StructuredTypeKind::EnumVariant => "EnumVariant",
        },
        Component::Function(_) => "Function",
        Component::Field(_, _) => "Field",
        Component::TypeAlias(_) => "TypeAlias",
        Component::Primitive(_) => "Primitive",
        Component::External(_) => "External",
    };
    to_owned_string(s)
}

/// Whether some node of the graph goes by `name`.
pub open spec fn has_flat_node(nodes: Seq<Component>, name: Seq<char>) -> bool {
    exists|i: int| 0 <= i < nodes.len() && node_flat_name(#[trigger] nodes[i]) == name
}

/// The last node of the graph that goes by `name` (the one a name lookup finds).
pub open spec fn last_flat_node(nodes: Seq<Component>, name: Seq<char>) -> int
    decreases nodes.len(),
{
    if nodes.len() == 0 {
        -1
    } else if node_flat_name(nodes.last()) == name {
        nodes.len() - 1
    } else {
        last_flat_node(nodes.drop_last(), name)
    }
}

/// Whether the graph has an edge from the node named `source` to the one named
/// `sink`.
pub open spec fn has_flat_edge(
    edges: Seq<crate::model::graph::Dependency>,
    source: Seq<char>,
    sink: Seq<char>,
) -> bool {
    exists|i: int|
        0 <= i < edges.len() && flat_name_spec((#[trigger] edges[i]).from.deep_view()) == source
            && flat_name_spec(edges[i].to.deep_view()) == sink
}

/// Whether each reported node was found.
pub open spec fn node_flags(s: Seq<TestReportNode>) -> Seq<bool> {
    s.map_values(|n: TestReportNode| n.exists)
}

/// Whether each reported edge was found.
pub open spec fn edge_flags(s: Seq<TestReportEdge>) -> Seq<bool> {
    s.map_values(|e: TestReportEdge| e.edge_exists)
}

/// The number of `false` values.
pub open spec fn count_false(s: Seq<bool>) -> nat
    decreases s.len(),
{
    if s.len() == 0 {
        0
    } else {
        count_false(s.drop_last()) + (if s.last() { 0nat } else { 1nat })
    }
}

/// The names of the graph's nodes, in order, and the index of the last node going
/// by each name.
fn flat_names(nodes: &Vec<Component>) -> (r: Vec<String>)
    ensures
        r@.len() == nodes@.len(),
        forall|i: int| 0 <= i < nodes@.len() ==> (#[trigger] r@[i])@ == node_flat_name(nodes@[i]),
{
    let mut out: Vec<String> = Vec::new();
    let mut i: usize = 0;
    while i < nodes.len()
        invariant
            i <= nodes@.len(),
            out@.len() == i,
            forall|j: int| 0 <= j < i ==> (#[trigger] out@[j])@ == node_flat_name(nodes@[j]),
        decreases nodes.len() - i,
    {
        out.push(node_flat_name_of(&nodes[i]));
        i += 1;
    }
    out
}

/// The index of the last name equal to `name`, if any.
fn find_last(names: &Vec<String>, nodes: Ghost<Seq<Component>>, name: &str) -> (r: Option<usize>)
    requires
        names@.len() == nodes@.len(),
        forall|i: int| 0 <= i < nodes@.len() ==> (#[trigger] names@[i])@ == node_flat_name(nodes@[i]),
    ensures
        match r {
            Some(i) => i < nodes@.len() && i == last_flat_node(nodes@, name@) && has_flat_node(
                nodes@,
                name@,
            ),
            None => !has_flat_node(nodes@, name@) && last_flat_node(nodes@, name@) == -1,
        },
{
    let mut i = names.len();
    assert(nodes@.take(nodes@.len() as int) =~= nodes@);
    while i > 0
        invariant
            i <= names@.len(),
            names@.len() == nodes@.len(),
            forall|k: int| 0 <= k < nodes@.len() ==> (#[trigger] names@[k])@ == node_flat_name(nodes@[k]),
            last_flat_node(nodes@, name@) == last_flat_node(nodes@.take(i as int), name@),
            forall|k: int| i <= k < nodes@.len() ==> node_flat_name(#[trigger] nodes@[k]) != name@,
        decreases i,
    {
        assert(nodes@.take(i as int).drop_last() == nodes@.take(i - 1));
        assert(nodes@.take(i as int).last() == nodes@[i - 1]);
        if str_eq(names[i - 1].as_str(), name) {
            return Some(i - 1);
        }
        i -= 1;
    }
    assert(nodes@.take(0).len() == 0);
    None
}

/// Checks a dependency graph against a test manifest. Each expected node is found
/// when some graph node goes by its name (the kind reported is that of the last
/// such node); each expected edge is found when its source is found and the graph
/// has an edge between the two names. The counts are those of what was not found.
pub fn verify_graph_adherence(graph: &DependencyGraph, manifest: &TestManifest) -> (r: TestReport)
    ensures
        r.files.deep_view() == manifest.files.deep_view(),
        r.nodes@.len() == manifest.nodes@.len(),
        r.edges@.len() == manifest.edges@.len(),
        forall|i: int|
            0 <= i < manifest.nodes@.len() ==> {
                let n = manifest.nodes@[i];
                let rn = #[trigger] r.nodes@[i];
                let found = has_flat_node(graph.nodes@, n.name@);
                &&& rn.name@ == n.name@
                &&& rn.kind@ == n.kind@
                &&& rn.exists == found
                &&& rn.same_kind == found
                &&& rn.actual_kind@ == (if found {
                    node_kind_name(graph.nodes@[last_flat_node(graph.nodes@, n.name@)])
                } else {
                    "-"@
                })
            },
        forall|i: int|
            0 <= i < manifest.edges@.len() ==> {
                let e = manifest.edges@[i];
                let re = #[trigger] r.edges@[i];
                let found = has_flat_node(graph.nodes@, e.source@) && has_flat_edge(
                    graph.edges@,
                    e.source@,
                    e.sink@,
                );
                &&& re.testid@ == e.testid@
                &&& re.source@ == e.source@
                &&& re.sink@ == e.sink@
                &&& re.kind@ == e.kind@
                &&& re.source_exists == has_flat_node(graph.nodes@, e.source@)
                &&& re.sink_exists == has_flat_node(graph.nodes@, e.sink@)
                &&& re.edge_exists == found
                &&& re.same_kind == found
            },
        r.node_not_found_count == count_false(node_flags(r.nodes@)),
        r.edge_not_found_count == count_false(edge_flags(r.edges@)),
{
    let names = flat_names(&graph.nodes);
    let ghost gn = graph.nodes@;
    let mut edge_from: Vec<String> = Vec::new();
    let mut edge_to: Vec<String> = Vec::new();
    let mut k: usize = 0;
    while k < graph.edges.len()
        invariant
            k <= graph.edges@.len(),
            edge_from@.len() == k,
            edge_to@.len() == k,
            forall|j: int| 0 <= j < k ==> (#[trigger] edge_from@[j])@ == flat_name_spec(
                graph.edges@[j].from.deep_view(),
            ),
            forall|j: int| 0 <= j < k ==> (#[trigger] edge_to@[j])@ == flat_name_spec(
                graph.edges@[j].to.deep_view(),
            ),
        decreases graph.edges.len() - k,
    {
        edge_from.push(flatten_name(&graph.edges[k].from));
        edge_to.push(flatten_name(&graph.edges[k].to));
        k += 1;
    }
    let mut report = TestReport::craft(manifest);
    let mut i: usize = 0;
    while i < manifest.nodes.len()
        invariant
            i <= manifest.nodes@.len(),
            gn == graph.nodes@,
            names@.len() == gn.len(),
            forall|j: int| 0 <= j < gn.len() ==> (#[trigger] names@[j])@ == node_flat_name(gn[j]),
            report.files.deep_view() == manifest.files.deep_view(),
            report.nodes@.len() == i,
            report.edges@.len() == 0,
            report.edge_not_found_count == 0,
            report.node_not_found_count == count_false(node_flags(report.nodes@)),
            report.node_not_found_count <= i,
            forall|j: int|
                0 <= j < i ==> {
                    let n = manifest.nodes@[j];
                    let rn = #[trigger] report.nodes@[j];
                    let found = has_flat_node(gn, n.name@);
                    &&& rn.name@ == n.name@
                    &&& rn.kind@ == n.kind@
                    &&& rn.exists == found
                    &&& rn.same_kind == found
                    &&& rn.actual_kind@ == (if found {
                        node_kind_name(gn[last_flat_node(gn, n.name@)])
                    } else {
                        "-"@
                    })
                },
        decreases manifest.nodes.len() - i,
    {
        let node = &manifest.nodes[i];
        let found = find_last(&names, Ghost(gn), node.name.as_str());
        let exists = found.is_some();
        let actual_kind = match found {
            Some(j) => node_kind_name_of(&graph.nodes[j]),
            None => to_owned_string("-"),
        };
        let ghost before = report.nodes@;
        if !exists {
            report.node_not_found_count = report.node_not_found_count + 1;
        }
        report.nodes.push(TestReportNode::craft(node, exists, exists, actual_kind));
        assert(node_flags(report.nodes@).drop_last() == node_flags(before));
        i += 1;
    }
    let ghost nodes_done = report.nodes@;
    let ghost missing_nodes = report.node_not_found_count;
    let mut i: usize = 0;
    while i < manifest.edges.len()
        invariant
            i <= manifest.edges@.len(),
            report.nodes@ == nodes_done,
            report.node_not_found_count == missing_nodes,
            report.files.deep_view() == manifest.files.deep_view(),
            gn == graph.nodes@,
            names@.len() == gn.len(),
            forall|j: int| 0 <= j < gn.len() ==> (#[trigger] names@[j])@ == node_flat_name(gn[j]),
            edge_from@.len() == graph.edges@.len(),
            edge_to@.len() == graph.edges@.len(),
            forall|j: int| 0 <= j < graph.edges@.len() ==> (#[trigger] edge_from@[j])@ == flat_name_spec(
                graph.edges@[j].from.deep_view(),
            ),
            forall|j: int| 0 <= j < graph.edges@.len() ==> (#[trigger] edge_to@[j])@ == flat_name_spec(
                graph.edges@[j].to.deep_view(),
            ),
            report.edges@.len() == i,
            report.edge_not_found_count == count_false(edge_flags(report.edges@)),
            report.edge_not_found_count <= i,
            forall|j: int|
                0 <= j < i ==> {
                    let e = manifest.edges@[j];
                    let re = #[trigger] report.edges@[j];
                    let found = has_flat_node(gn, e.source@) && has_flat_edge(
                        graph.edges@,
                        e.source@,
                        e.sink@,
                    );
                    &&& re.testid@ == e.testid@
                    &&& re.source@ == e.source@
                    &&& re.sink@ == e.sink@
                    &&& re.kind@ == e.kind@
                    &&& re.source_exists == has_flat_node(gn, e.source@)
                    &&& re.sink_exists == has_flat_node(gn, e.sink@)
                    &&& re.edge_exists == found
                    &&& re.same_kind == found
                },
        decreases manifest.edges.len() - i,
    {
        let edge = &manifest.edges[i];
        let source_exists = find_last(&names, Ghost(gn), edge.source.as_str()).is_some();
        let sink_exists = find_last(&names, Ghost(gn), edge.sink.as_str()).is_some();
        let mut edge_exists = false;
        if source_exists {
            let mut k: usize = 0;
            while k < edge_from.len() && !edge_exists
                invariant
                    k <= edge_from@.len(),
                    edge_from@.len() == graph.edges@.len(),
                    edge_to@.len() == graph.edges@.len(),
                    forall|j: int| 0 <= j < graph.edges@.len() ==> (#[trigger] edge_from@[j])@
                        == flat_name_spec(graph.edges@[j].from.deep_view()),
                    forall|j: int| 0 <= j < graph.edges@.len() ==> (#[trigger] edge_to@[j])@
                        == flat_name_spec(graph.edges@[j].to.deep_view()),
                    edge_exists ==> has_flat_edge(graph.edges@, edge.source@, edge.sink@),
                    !edge_exists ==> forall|j: int|
                        0 <= j < k ==> !(flat_name_spec((#[trigger] graph.edges@[j]).from.deep_view())
                            == edge.source@ && flat_name_spec(graph.edges@[j].to.deep_view())
                            == edge.sink@),
                decreases edge_from.len() - k + (if edge_exists { 0int } else { 1int }),
            {
                if str_eq(edge_from[k].as_str(), edge.source.as_str()) && str_eq(
                    edge_to[k].as_str(),
                    edge.sink.as_str(),
                ) {
                    edge_exists = true;
                    assert(has_flat_edge(graph.edges@, edge.source@, edge.sink@));
                } else {
                    k += 1;
                }
            }
        }
        let ghost before = report.edges@;
        if !edge_exists {
            report.edge_not_found_count = report.edge_not_found_count + 1;
        }
        report.edges.push(
            TestReportEdge::craft(edge, source_exists, sink_exists, edge_exists, edge_exists),
        );
        assert(edge_flags(report.edges@).drop_last() == edge_flags(before));
        i += 1;
    }
    report
}

} // verus!
