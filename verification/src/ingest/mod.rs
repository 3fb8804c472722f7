//! Ingestion of documents and character data: chunking of entity fields,
//! validation of JSON lines and character entries, and the decisions of the
//! file ingestion pipeline.

pub mod chunking_utils;
pub mod ingest_utils;
pub mod runner;
pub mod single_character_ingest;
