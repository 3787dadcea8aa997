//! Execution engine for a heuristics-contest grader.
//!
//! The engine turns one source artifact plus an ordered collection of test
//! cases into one `ExecutionResult` per test case, either through a local
//! process pool or through a remote batch scheduler.  This crate holds the
//! engine's logic — the marker protocol, chunk planning, result accounting
//! and command construction — as verified code; process, file and network
//! work is left to the surrounding application.

pub mod api;
pub mod chunks;
pub mod compiler;
pub mod config;
pub mod dec;
pub mod execution;
pub mod local;
pub mod markers;
pub mod remote;
pub mod text;
pub mod timefmt;
