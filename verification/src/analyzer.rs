//! The whole analysis: extraction, name resolution and graph construction.
use crate::config::AnalyzerConfig;
use crate::export::graph::{build_dependency_graph, targets_are_nodes};
use crate::export::order::{dep_views, strictly_sorted};
use crate::extraction::{parse_source, ExtractionError};
use crate::language::SupportedLanguage;
use crate::model::components::Module;
use crate::model::graph::DependencyGraph;
use crate::model::shape::same_modules;
use crate::resolver::primitives::PrimitiveRegistry;
use crate::resolver::resolve_type_refs;
use vstd::prelude::*;

verus! {

/// Whether a graph is in the shape graph construction promises: edges sorted with
/// none twice, and every edge target the name of a node.
pub open spec fn well_built(g: DependencyGraph) -> bool {
    &&& strictly_sorted(dep_views(g.edges@))
    &&& dep_views(g.edges@).no_duplicates()
    &&& targets_are_nodes(g.nodes@, g.edges@)
}

/// Whether `g` is the dependency graph of the modules `ms`: its edges are exactly theirs,
/// sorted with none twice; its nodes are their flattened declarations followed by one node per
/// primitive or external target that names none of them.
pub open spec fn graph_of(ms: Seq<Module>, prims: Set<Seq<char>>, g: DependencyGraph) -> bool {
    let n = crate::export::graph::modules_nodes(Seq::empty(), ms).len() as int;
    &&& well_built(g)
    &&& dep_views(g.edges@).to_set() == crate::export::graph::all_module_edges(ms).to_set()
    &&& n <= g.nodes@.len()
    &&& crate::model::components::components_view(g.nodes@.take(n)) == crate::export::graph::modules_nodes(Seq::empty(), ms)
    &&& crate::export::graph::synthetic_ok(g.nodes@, n, g.edges@, prims)
}

/// Resolves the extracted modules of a project and builds their dependency graph.
/// Resolution keeps every declaration in its place; the graph is well built.
pub fn analyze_project(
    modules: Vec<Module>,
    prim_registry: &PrimitiveRegistry,
    config: &AnalyzerConfig,
) -> (r: (Vec<Module>, DependencyGraph))
    requires
        prim_registry.wf(),
        config.wf(),
    ensures
        same_modules(modules@, r.0@),
        graph_of(r.0@, prim_registry.names(), r.1),
{
    let resolved = resolve_type_refs(modules, prim_registry, config);
    let graph = build_dependency_graph(&resolved, prim_registry);
    (resolved, graph)
}

/// Analyses a source snippet held in memory: extraction under the name
/// `virtual_filename`, resolution, and graph construction. `Err` where the parser
/// gives no tree; otherwise the graph is well built.
pub fn analyze_code_snippet(
    lang: SupportedLanguage,
    source: &str,
    virtual_filename: &str,
    primitives_json: &str,
    config: &AnalyzerConfig,
) -> (r: Result<(Vec<Module>, DependencyGraph), ExtractionError>)
    requires
        config.wf(),
    ensures
        r is Err <==> !crate::syntax::parses(lang, source@),
        r matches Ok((ms, g)) ==> well_built(g) && dep_views(g.edges@).to_set()
            == crate::export::graph::all_module_edges(ms@).to_set(),
{
    let (modules, prim_registry) = match parse_source(
        lang,
        source,
        virtual_filename,
        primitives_json,
        config,
    ) {
        Ok(v) => v,
        Err(e) => {
            return Err(e);
        },
    };
    let (resolved, graph) = analyze_project(modules, &prim_registry, config);
    Ok((resolved, graph))
}

} // verus!
