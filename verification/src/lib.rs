//! Schema-driven featurization.
//!
//! A declarative schema (field names, kinds and attributes) is compiled once
//! into a [`plan::LayoutPlan`]: a total dimension together with contiguous,
//! non-overlapping slots, one per active field. The plan is then interpreted
//! against any number of records to fill fixed-length feature buffers.
//!
//! Buffers are sequences of symbolic [`schema::Cell`]s rather than machine
//! floats: a cell records exactly what an encoder did to it (left zero, set to
//! a scalar, or counted up), and the caller derives the numeric vector from
//! that. This keeps the planner and filler exact and platform-independent.

pub mod encoders;
pub mod fill;
pub mod hash;
pub mod plan;
pub mod schema;
