//! Seeding a labelled graph store, sampling vertex pairs and ranking them by
//! shortest-path length.
//!
//! The crate holds the decisions of that pipeline as verified functions on
//! plain values: which statements are sent to the store, which pairs of names
//! are drawn, and in which order the measured paths are reported. Talking to
//! the store itself is left to the caller.

pub mod bounds;
pub mod config;
pub mod decimal;
pub mod edges;
pub mod paths;
pub mod pipeline;
pub mod random;
pub mod ranking;
pub mod sampler;
pub mod statements;
