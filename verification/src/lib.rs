//! Role-aware source metrics and compiler-backed visibility auditing for Rust workspaces.

pub mod analyze;
pub mod audit;
pub mod cli;
pub mod collections;
pub mod compiler;
pub mod diff;
pub mod driver;
pub mod gates;
pub mod model;
pub mod module_graph;
pub mod order;
pub mod paths;
pub mod protocol;
pub mod report;
pub mod report_laws;
pub mod repository;
pub mod text;
