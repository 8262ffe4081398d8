//! Streaming access-log ingestion sink.
//!
//! The verified core of a TCP sink that reads newline-delimited JSON
//! access-log records, normalizes each record into a row for a columnar
//! analytics store, and drives a per-connection pipeline of framing,
//! parsing, and insertion through a bounded client pool:
//!
//! - [`framer`]: splitting the byte stream into length-limited frames;
//! - [`json`] and [`decimal`]: byte-level JSON parsing and exact decimal
//!   evaluation of number tokens;
//! - [`record`] and [`row`]: the wire-level record and its normalized row;
//! - [`transform`]: one frame in, one row or one per-frame failure out;
//! - [`handler`]: the per-connection state machine driven by the socket
//!   task;
//! - [`pool`] and [`config`]: lease accounting of the bounded client pool
//!   and the process-wide configuration;
//! - [`admin`]: the verified kernels of the background-image administration
//!   service that shares the repository.
//!
//! Socket, store, and file I/O live with the unverified process edge, which
//! feeds bytes in and carries the decided actions out.

use vstd::prelude::*;

pub mod admin;
pub mod config;
pub mod decimal;
pub mod framer;
pub mod handler;
pub mod json;
pub mod pool;
pub mod record;
pub mod row;
pub mod transform;

verus! {

/// Maximum line payload for one access log entry: 10 MiB.
pub const MAX_LINE_LENGTH: usize = 10 * 1024 * 1024;

} // verus!
