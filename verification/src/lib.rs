//! Text chunking, naming-convention checks and ingestion helpers.

pub mod text;
pub mod chunking;
pub mod paths;
pub mod naming;
pub mod ingest;
pub mod status;
pub mod audit;
