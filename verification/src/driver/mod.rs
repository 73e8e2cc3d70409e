//! What the compiler driver makes of a crate: definitions, references, roots and records.

pub mod arguments;
pub mod definitions;
pub mod facts;
pub mod names;
pub mod records;
pub mod reference_laws;
pub mod references;
pub mod roots;
pub mod spans;
pub mod targets;
pub mod toolchain;
