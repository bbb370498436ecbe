//! The intermediate representation: components, type references and the dependency graph.
pub mod components;
pub mod graph;
pub mod queries;
pub mod shape;
pub mod test_manifest;
