//! Nested sub-schedules for an entity-component host.
//!
//! A host simulation framework runs one main loop; this library lets callers
//! attach independent, nested pipelines to that loop, each with its own stage
//! ordering and its own tick policy.  A pipeline fires either on every drive of
//! the host loop or on a fixed time interval, with leftover time carried in an
//! accumulator so that no fraction of a tick is ever lost or invented.
//!
//! Time is counted in whole nanoseconds throughout, so every statement about
//! tick counts and accumulators is exact.
//!
//! The modules, from the leaves up:
//! - [`policy`]: the tick policy and the accumulator arithmetic;
//! - [`schedule`]: a packed schedule, coupling a policy with ordered, named
//!   stages of host jobs;
//! - [`runner`]: the caller-facing handle with its builder methods;
//! - [`host`]: the model of the host's exclusively borrowed store;
//! - [`driver`]: the drive function that detaches every runner, runs it, and
//!   reattaches it.

pub mod driver;
pub mod host;
pub mod policy;
pub mod runner;
pub mod schedule;
