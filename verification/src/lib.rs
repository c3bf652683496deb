//! A small HTTP load-generation engine.
//!
//! - [`corpus`]: the request bodies, read from a source with one payload
//!   on each line.
//! - [`user`]: the virtual user, which replays the corpus one request at a
//!   time.
//! - [`runner`]: the scenario runner, which owns the virtual users and takes
//!   a run through ramp-up, steady load and ramp-down.
//! - [`startup`]: what has to hold before a run may start.
//! - [`outcome`]: what one request came to.
//! - [`metrics`]: the counters and latency histograms of the outcomes.
//!
//! The library reads no file, sends no request and tells no time. Its
//! caller does, and hands it plain values: the bytes that were read, how a
//! request ended, what the clock says. In return the library says what to
//! do next.

pub mod corpus;
pub mod metrics;
pub mod outcome;
pub mod runner;
pub mod startup;
pub mod user;
