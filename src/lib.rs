//! Load-generation harness: rounds of synthetic transactions delivered to a
//! set of node endpoints, with burst pacing and cooperative cancellation.
//!
//! The library holds the decisions; the caller performs the I/O they call
//! for and reports back (see `runner::Scheduler` and
//! `autobahn::BurstSender`).

pub mod adapters;
pub mod autobahn;
pub mod common;
pub mod config;
pub mod ctx;
pub mod discovery;
pub mod hotshot;
pub mod report;
pub mod runner;
pub mod text;
