//! Dependency-graph analysis of SBOMs.
pub mod graph_spec;
pub mod model;
pub mod graph;
pub mod service;
pub mod petgraph_specs;
