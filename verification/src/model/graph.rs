//! The dependency graph produced from resolved modules, and the analysis summary.
use super::components::{Component, ComponentV, QualifiedNameV};
use super::queries::QualifiedName;
use vstd::prelude::*;

verus! {

/// The kind of a dependency edge.
#[derive(Debug, Clone, Copy, PartialEq, Eq, PartialOrd, Ord, Hash, Structural)]
pub enum DependencyEdgeKind {
    IsA,
    Implements,
    UsesFieldType,
    UsesLocalType,
    UsesParamType,
    UsesReturnType,
    NestedIn,
    ModuleContainment,
    Calls,
    Instantiates,
    AccessesField,
    Imports,
    Aliases,
    CastsTo,
    AnnotatedWith,
}

/// A directed, typed edge between two qualified names.
#[derive(Debug, PartialEq, Eq, Hash)]
pub struct Dependency {
    pub from: QualifiedName,
    pub to: QualifiedName,
    pub kind: DependencyEdgeKind,
}

/// Nodes and edges of the dependency graph.
#[derive(Debug, PartialEq)]
pub struct DependencyGraph {
    pub nodes: Vec<Component>,
    pub edges: Vec<Dependency>,
}

/// Counts gathered over resolved modules.
#[derive(Debug, Clone, Copy, PartialEq, Eq, Structural)]
pub struct AnalysisSummary {
    pub total_modules: usize,
    pub total_structured_types: usize,
    pub total_free_functions: usize,
    pub resolved_refs: usize,
    pub failed_refs: usize,
}

impl AnalysisSummary {
    /// The summary with every count at zero.
    pub fn zero() -> (r: AnalysisSummary)
        ensures
            r.total_modules == 0,
            r.total_structured_types == 0,
            r.total_free_functions == 0,
            r.resolved_refs == 0,
            r.failed_refs == 0,
    {
        AnalysisSummary {
            total_modules: 0,
            total_structured_types: 0,
            total_free_functions: 0,
            resolved_refs: 0,
            failed_refs: 0,
        }
    }
}

pub struct DependencyV {
    pub from: QualifiedNameV,
    pub to: QualifiedNameV,
    pub kind: DependencyEdgeKind,
}

impl View for Dependency {
    type V = DependencyV;

    open spec fn view(&self) -> DependencyV {
        DependencyV { from: self.from.deep_view(), to: self.to.deep_view(), kind: self.kind }
    }
}

pub struct DependencyGraphV {
    pub nodes: Seq<ComponentV>,
    pub edges: Seq<DependencyV>,
}

impl View for DependencyGraph {
    type V = DependencyGraphV;

    open spec fn view(&self) -> DependencyGraphV {
        DependencyGraphV {
            nodes: self.nodes@.map_values(|c: Component| c@),
            edges: self.edges@.map_values(|d: Dependency| d@),
        }
    }
}

} // verus!
