//! Verified core of a hospital discharge workflow.
//!
//! A discharge plan moves through a fixed set of steps (initiation, readiness
//! assessment, orders, arrangements, scheduling, education, coordination,
//! completion, risk tracking).  All state lives in a single keyed record
//! store; plan and appointment identifiers come from two monotonic counters;
//! every operation validates its inputs fully before it writes, so a rejected
//! invocation leaves no partial trace.
//!
//! The host concerns (caller authentication, the clock, event publication)
//! stay outside: each operation takes the outcome of the authorization check
//! and the current clock reading as plain arguments.

pub mod errors;
pub mod types;
pub mod storage;
pub mod workflow;
pub mod laws;
