//! Benchmark manifests (the nodes and edges a test project is expected to produce) and the
//! reports of how an analysis matched them.
use crate::text_util::{decimal_chars, decimal_spec, string_from_chars};
use vstd::prelude::*;
use vstd::string::StringExecFns;

verus! {

/// An expected node: its name and kind.
pub struct TestManifestNode {
    pub name: String,
    pub kind: String,
}

/// An expected edge: its test id, source, sink and kind.
pub struct TestManifestEdge {
    pub testid: String,
    pub source: String,
    pub sink: String,
    pub kind: String,
}

/// The files of a benchmark and the nodes and edges expected from them.
pub struct TestManifest {
    pub files: Vec<String>,
    pub nodes: Vec<TestManifestNode>,
    pub edges: Vec<TestManifestEdge>,
}

/// How an expected node was found.
pub struct TestReportNode {
    pub name: String,
    pub kind: String,
    pub exists: bool,
    pub same_kind: bool,
    pub actual_kind: String,
}

/// How an expected edge was found.
pub struct TestReportEdge {
    pub testid: String,
    pub source: String,
    pub sink: String,
    pub kind: String,
    pub source_exists: bool,
    pub sink_exists: bool,
    pub edge_exists: bool,
    pub same_kind: bool,
}

/// The report of a benchmark run.
pub struct TestReport {
    pub files: Vec<String>,
    pub nodes: Vec<TestReportNode>,
    pub edges: Vec<TestReportEdge>,
    pub node_not_found_count: usize,
    pub edge_not_found_count: usize,
}

impl TestReportNode {
    /// The report of an expected node, with what was found of it.
    pub fn craft(node: &TestManifestNode, exists: bool, same_kind: bool, actual_kind: String) -> (r: TestReportNode)
        ensures
            r.name@ == node.name@,
            r.kind@ == node.kind@,
            r.exists == exists,
            r.same_kind == same_kind,
            r.actual_kind@ == actual_kind@,
    {
        TestReportNode {
            name: node.name.clone(),
            kind: node.kind.clone(),
            exists,
            same_kind,
            actual_kind,
        }
    }
}

impl TestReportEdge {
    /// The report of an expected edge, with what was found of it.
    pub fn craft(
        edge: &TestManifestEdge,
        source_exists: bool,
        sink_exists: bool,
        edge_exists: bool,
        same_kind: bool,
    ) -> (r: TestReportEdge)
        ensures
            r.testid@ == edge.testid@,
            r.source@ == edge.source@,
            r.sink@ == edge.sink@,
            r.kind@ == edge.kind@,
            r.source_exists == source_exists,
            r.sink_exists == sink_exists,
            r.edge_exists == edge_exists,
            r.same_kind == same_kind,
    {
        TestReportEdge {
            testid: edge.testid.clone(),
            source: edge.source.clone(),
            sink: edge.sink.clone(),
            kind: edge.kind.clone(),
            source_exists,
            sink_exists,
            edge_exists,
            same_kind,
        }
    }
}

/// The image shown for a check that passed.
pub open spec fn ok_mark() -> Seq<char> {
    "![OK](https://github.githubassets.com/images/icons/emoji/unicode/2714.png?v8)"@
}

/// The image shown for a check that failed.
pub open spec fn ko_mark() -> Seq<char> {
    "![KO](https://github.githubassets.com/images/icons/emoji/unicode/274c.png?v8)"@
}

impl TestReport {
    /// An empty report for a manifest: its files, no nodes or edges, nothing missing.
    pub fn craft(manifest: &TestManifest) -> (r: TestReport)
        ensures
            r.files.deep_view() == manifest.files.deep_view(),
            r.nodes@.len() == 0,
            r.edges@.len() == 0,
            r.node_not_found_count == 0,
            r.edge_not_found_count == 0,
    {
        TestReport {
            files: crate::model::queries::clone_qn(&manifest.files),
            nodes: Vec::new(),
            edges: Vec::new(),
            node_not_found_count: 0,
            edge_not_found_count: 0,
        }
    }

    /// The Markdown image for a check's outcome.
    pub fn bool_to_markdown(value: bool) -> (r: String)
        ensures
            r@ == (if value {
                ok_mark()
            } else {
                ko_mark()
            }),
    {
        if value {
            "![OK](https://github.githubassets.com/images/icons/emoji/unicode/2714.png?v8)".to_string()
        } else {
            "![KO](https://github.githubassets.com/images/icons/emoji/unicode/274c.png?v8)".to_string()
        }
    }
}


/// The image for a check's outcome.
pub open spec fn mark(b: bool) -> Seq<char> {
    if b {
        ok_mark()
    } else {
        ko_mark()
    }
}

/// The list items of the files.
pub open spec fn md_files(fs: Seq<Seq<char>>) -> Seq<char>
    decreases fs.len(),
{
    if fs.len() == 0 {
        Seq::empty()
    } else {
        md_files(fs.drop_last()) + "- "@ + fs.last() + "\n"@
    }
}

/// The table row of a node.
pub open spec fn md_node(n: TestReportNode) -> Seq<char> {
    "| "@ + n.name@ + " | "@ + n.kind@ + " | "@ + mark(n.exists) + " | "@ + mark(n.same_kind) + " | "@
        + n.actual_kind@ + " |\n"@
}

/// The table rows of the nodes.
pub open spec fn md_nodes(ns: Seq<TestReportNode>) -> Seq<char>
    decreases ns.len(),
{
    if ns.len() == 0 {
        Seq::empty()
    } else {
        md_nodes(ns.drop_last()) + md_node(ns.last())
    }
}

/// The table row of an edge.
pub open spec fn md_edge(e: TestReportEdge) -> Seq<char> {
    "| "@ + e.testid@ + " | "@ + e.source@ + " | "@ + e.sink@ + " | "@ + e.kind@ + " | "@ + mark(
        e.source_exists,
    ) + " | "@ + mark(e.sink_exists) + " | "@ + mark(e.edge_exists) + " | "@ + mark(e.same_kind)
        + " |\n"@
}

/// The table rows of the edges.
pub open spec fn md_edges(es: Seq<TestReportEdge>) -> Seq<char>
    decreases es.len(),
{
    if es.len() == 0 {
        Seq::empty()
    } else {
        md_edges(es.drop_last()) + md_edge(es.last())
    }
}

/// The Markdown of a report up to the rows of its results table: the files, the
/// table of nodes, the table of edges, and the heading of the results table.
pub open spec fn md_tables(r: TestReport) -> Seq<char> {
    "# Report\n## Files\n"@ + md_files(r.files.deep_view())
        + "\n## Nodes\n| Name | Kind | Node Exists | Kind Is Correct | Actual Kind |\n| ---- | ---- | ----------- | --------------- | ----------- |\n"@
        + md_nodes(r.nodes@)
        + "\n## Edges\n| Test Id | Source | Sink | Kind | Source Exists | Sink Exists | Edge Exists | Kind Is Correct |\n| ------- | ------ | ---- | ---- | ------------- | ----------- | ----------- | --------------- |\n"@
        + md_edges(r.edges@)
        + "\n## Results \n| Count | Total | Found | Not Found | Error Rate |\n| ----- | ----- | ----- | --------- | ---------- |\n"@
}

/// The start of a results row: `| label | total | found | not found | `.
pub open spec fn md_result_start(label: Seq<char>, total: nat, missing: nat) -> Seq<char> {
    "| "@ + label + " | "@ + decimal_spec(total) + " | "@ + decimal_spec((total - missing) as nat) + " | "@
        + decimal_spec(missing) + " | "@
}

/// The table row of a node.
fn node_row(n: &TestReportNode) -> (r: String)
    ensures
        r@ == md_node(*n),
{
    let mut md = String::from_str("| ");
    md.append(n.name.as_str());
    md.append(" | ");
    md.append(n.kind.as_str());
    md.append(" | ");
    md.append(TestReport::bool_to_markdown(n.exists).as_str());
    md.append(" | ");
    md.append(TestReport::bool_to_markdown(n.same_kind).as_str());
    md.append(" | ");
    md.append(n.actual_kind.as_str());
    md.append(" |\n");
    md
}

/// The table row of an edge.
fn edge_row(e: &TestReportEdge) -> (r: String)
    ensures
        r@ == md_edge(*e),
{
    let mut md = String::from_str("| ");
    md.append(e.testid.as_str());
    md.append(" | ");
    md.append(e.source.as_str());
    md.append(" | ");
    md.append(e.sink.as_str());
    md.append(" | ");
    md.append(e.kind.as_str());
    md.append(" | ");
    md.append(TestReport::bool_to_markdown(e.source_exists).as_str());
    md.append(" | ");
    md.append(TestReport::bool_to_markdown(e.sink_exists).as_str());
    md.append(" | ");
    md.append(TestReport::bool_to_markdown(e.edge_exists).as_str());
    md.append(" | ");
    md.append(TestReport::bool_to_markdown(e.same_kind).as_str());
    md.append(" |\n");
    md
}

impl TestReport {
    /// The Markdown of the report up to the rows of its results table.
    pub fn markdown_tables(&self) -> (r: String)
        ensures
            r@ == md_tables(*self),
    {
        let mut md = String::from_str("# Report\n## Files\n");
        let mut i: usize = 0;
        while i < self.files.len()
            invariant
                i <= self.files@.len(),
                md@ == "# Report\n## Files\n"@ + md_files(self.files.deep_view().take(i as int)),
            decreases self.files.len() - i,
        {
            assert(self.files.deep_view().take(i + 1).drop_last() == self.files.deep_view().take(i as int));
            md.append("- ");
            md.append(self.files[i].as_str());
            md.append("\n");
            i += 1;
        }
        assert(self.files.deep_view().take(self.files@.len() as int) == self.files.deep_view());
        md.append("\n## Nodes\n| Name | Kind | Node Exists | Kind Is Correct | Actual Kind |\n| ---- | ---- | ----------- | --------------- | ----------- |\n");
        let ghost before_nodes = md@;
        let mut i: usize = 0;
        while i < self.nodes.len()
            invariant
                i <= self.nodes@.len(),
                md@ == before_nodes + md_nodes(self.nodes@.take(i as int)),
            decreases self.nodes.len() - i,
        {
            assert(self.nodes@.take(i + 1).drop_last() == self.nodes@.take(i as int));
            md.append(node_row(&self.nodes[i]).as_str());
            i += 1;
        }
        assert(self.nodes@.take(self.nodes@.len() as int) == self.nodes@);
        md.append("\n## Edges\n| Test Id | Source | Sink | Kind | Source Exists | Sink Exists | Edge Exists | Kind Is Correct |\n| ------- | ------ | ---- | ---- | ------------- | ----------- | ----------- | --------------- |\n");
        let ghost before_edges = md@;
        let mut i: usize = 0;
        while i < self.edges.len()
            invariant
                i <= self.edges@.len(),
                md@ == before_edges + md_edges(self.edges@.take(i as int)),
            decreases self.edges.len() - i,
        {
            assert(self.edges@.take(i + 1).drop_last() == self.edges@.take(i as int));
            md.append(edge_row(&self.edges[i]).as_str());
            i += 1;
        }
        assert(self.edges@.take(self.edges@.len() as int) == self.edges@);
        md.append("\n## Results \n| Count | Total | Found | Not Found | Error Rate |\n| ----- | ----- | ----- | --------- | ---------- |\n");
        md
    }

    /// The start of a row of the results table, before its error rate.
    pub fn result_row_start(label: &str, total: usize, missing: usize) -> (r: String)
        requires
            missing <= total,
        ensures
            r@ == md_result_start(label@, total as nat, missing as nat),
    {
        let mut md = String::from_str("| ");
        md.append(label);
        md.append(" | ");
        md.append(string_from_chars(&decimal_chars(total)).as_str());
        md.append(" | ");
        md.append(string_from_chars(&decimal_chars(total - missing)).as_str());
        md.append(" | ");
        md.append(string_from_chars(&decimal_chars(missing)).as_str());
        md.append(" | ");
        md
    }
}

} // verus!
