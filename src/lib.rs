//! Replicates rows of a relational source into a property graph.
//!
//! The library holds the logic of a synchronization run: the row model and
//! its value trees, the Cypher literal encoder, row-to-record mapping and
//! soft-delete partitioning, batched statement building, the retry policy,
//! watermarks, metrics, and the per-mapping plans of a run. A model of what
//! the statements do to a graph states the laws that they obey.

pub mod named;
pub mod json;
pub mod text;
pub mod error;
pub mod config;
pub mod cypher;
pub mod literal;
pub mod source;
pub mod mapping;
pub mod batch;
pub mod sink;
pub mod graph;
pub mod watermark;
pub mod metrics;
pub mod orchestrator;
