//! Core of a music-service backend: startup orchestration (configuration
//! resolution, storage provisioning, schema migrations, client configuration
//! artifact) and the library ingestion pipeline that populates a shared
//! catalog of audio tracks without duplicates.
//!
//! All I/O (filesystem, database, network) happens outside this crate; the
//! modules here hold the decision logic and the data models, each with a
//! verified contract.

pub mod app_state;
pub mod catalog;
pub mod ingest;
pub mod config;
pub mod migrations;
pub mod orchestrator;
pub mod storage;
