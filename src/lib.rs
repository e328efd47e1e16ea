//! Sampling backend core for a Ruby profiler: stack trace model, report
//! aggregation, folded encoding, backend lifecycle and ingestion requests.

pub mod backend;
pub mod error;
pub mod ingest;
pub mod model;
pub mod report;
pub mod sampler;
pub mod tags;
pub mod text;

pub use backend::{Rbspy, RbspyConfig};
pub use tags::merge_tags_with_app_name;
