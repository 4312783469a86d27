//! Applies idempotent, state-changing shell scripts ("units") to execution
//! targets.
//!
//! This crate holds the decision logic of the tool: the data model, the
//! parsers for the small text formats that units speak, the wire codec of the
//! emit protocol, the dependency resolver and the per-unit bookkeeping. All of
//! it is free of I/O; a driver feeds it bytes and events and carries out the
//! actions it asks for.

pub mod cli;
pub mod engine;
pub mod error;
pub mod events;
pub mod models;
pub mod parser;
pub mod text;
pub mod util;

