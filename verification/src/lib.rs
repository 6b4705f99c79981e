//! A configuration-value library: a dynamically-typed value tree, a
//! multi-source merge engine with last-writer-wins override semantics, and a
//! shape-directed deserializer that attaches a dotted path to every failure.

pub mod de;
pub mod merge;
pub mod ronfmt;
pub mod value;
