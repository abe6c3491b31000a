//! Per-frame event lifecycle and controller input-state tracking.
//!
//! The event pool is a bucketed store of transient application events with
//! publish, filtered lookup, deferred (mark-then-sweep) removal and full
//! clear. The controller subsystem tracks per-device button bitmasks and
//! computes edge transitions (press / release) against a snapshot of the
//! previous tick's state.

pub mod controller;
pub mod events;
