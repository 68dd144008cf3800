//! Automatic multi-package build orchestration for shell-based build plans.
//!
//! The crate models package identifiers, an artifact cache index, a typed
//! dependency graph, change detection, build-order planning and the
//! scheduler's claim/complete protocol, each with a verified contract.

pub mod artifact;
pub mod cache;
pub mod detect;
pub mod sched;
pub mod graph;
pub mod ident;
pub mod planner;
pub mod plan;
pub mod strutil;
