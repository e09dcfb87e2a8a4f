//! Verified core of a BuildKit metrics sidecar.
//!
//! A background loop polls the build engine's control API and republishes
//! what it learns as gauges and counters. This crate holds the part of that
//! pipeline with real invariants: turning possibly-overlapping history
//! windows into monotonic counters without double-counting (the dedup
//! tracker), and reconciling one snapshot of remote state into the exported
//! metric values (the reconciler). Remote I/O and the HTTP surface live
//! outside the library and hand it plain values.

pub mod dedup;
pub mod model;
pub mod reconcile;
pub mod registry;
