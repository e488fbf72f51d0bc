//! An in-process run orchestrator for short-lived asynchronous workflow
//! invocations: a registry of pluggable executable units, a run lifecycle
//! state machine, an append-only per-run event log fanned out to bounded
//! subscriber channels, and a write-once artifact store.


pub mod json;
pub mod laws;
pub mod outside;
pub mod runtime;
pub mod schema_hash;
pub mod sse;
pub mod text;
pub mod types;
pub mod versions;
pub mod workflows;
