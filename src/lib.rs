//! Orchestration engine for multi-stage content pipelines: DAG templates and
//! their topological order, run state and readiness, the supervisory decisions
//! of a run (start, wait, finish), retries with exponential backoff, shot-stage
//! expansion, worker leases, the run queue, crash recovery and the event bus.
//! I/O stays with the caller: it hands in which output files exist and the
//! time, runs the stage commands, and persists what comes back.

pub mod dag;
pub mod run_state;
pub mod ready;
pub mod sorting;
pub mod dag_runtime;
pub mod artifacts;
pub mod retry;
pub mod runner;
pub mod shots;
pub mod lease;
pub mod jobs;
pub mod events;
pub mod commands;
pub mod settings;
pub mod status_text;
pub mod timeutil;
pub mod cache;
pub mod paths;
pub mod video;
pub mod api;
