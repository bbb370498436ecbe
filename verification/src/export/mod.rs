//! Projections of resolved modules: the dependency graph and the analysis summary.
pub mod cytoscape;
pub mod graph;
pub mod order;
pub mod summary;
