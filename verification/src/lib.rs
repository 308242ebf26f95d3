//! Converts vendor-specific per-container JSON descriptors into a single
//! compose-style manifest: each source record becomes one named service,
//! services are aggregated last-write-wins and emitted in lexicographic
//! key order.

pub mod discovery;
pub mod docker;
pub mod syno_container;
pub mod text;
pub mod to_docker;
