//! A boundary-representation modeling core: a content-addressed object store
//! that deduplicates geometric and topological objects, a transform propagator
//! that rebuilds object graphs while restoring structural sharing, and a
//! cache of polyline approximations for curves, keyed by parameter boundary.
//!
//! Coordinates are fixed-point numbers: an `i64` counts thousandths of a unit.

pub mod cache;
pub mod geometry;
pub mod math;
pub mod object;
pub mod presentation;
pub mod shape;
pub mod sketch;
pub mod store;
pub mod topology;
pub mod transform;
pub mod vertices;
