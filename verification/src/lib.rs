//! Telemetry pipeline core: log tailing, batching, delivery policy, ingestion
//! planning and query resolution, with machine-checked contracts.

pub mod agent;
pub mod batch;
pub mod ingest;
pub mod pattern;
pub mod query;
pub mod records;
pub mod sampler;
pub mod server;
pub mod tail;
pub mod text;
pub mod transport;
