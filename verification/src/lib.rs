//! A log-aggregation library: a length-prefixed wire codec for log records,
//! a resumable per-connection record reassembler, an in-memory two-level
//! index from process to thread to ordered log entries, and the navigation
//! and display model of a terminal front end.

use vstd::prelude::*;

pub mod client;
pub mod codec;
pub mod nav;
pub mod reader;
pub mod store;
pub mod view;
