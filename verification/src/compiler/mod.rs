//! The compiler-backed audit: its evidence, and what follows from it.

pub mod api_laws;
pub mod api_surface;
pub mod cargo;
pub mod closed_world;
pub mod collection;
pub mod consumers;
pub mod correlation;
pub mod correlation_laws;
pub mod declarations;
pub mod effective_api;
pub mod environment;
pub mod evidence_laws;
pub mod finding_laws;
pub mod generated;
pub mod graph;
pub mod graph_keys;
pub mod impact;
pub mod impact_laws;
pub mod inventory;
pub mod labels;
pub mod macro_complexity;
pub mod messages;
pub mod outcome;
pub mod outcome_laws;
pub mod profile;
pub mod reach;
pub mod sidecar;
pub mod sidecar_laws;
pub mod stream;
pub mod support;
pub mod world_laws;
