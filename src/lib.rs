//! Storage scan and cache cleanup engine.
//!
//! - `text`, `units`: reading the tabular reports of outside tools, and
//!   human-readable size tokens.
//! - `size`: the bytes held by a directory tree, from the entries of a walk.
//! - `docker`: the container runtime's disk-usage report and its pruning.
//! - `report`: the home volume's capacity and the per-cache breakdown.
//! - `registry`: the fixed table of known cache locations.
//! - `engine`: the cleanup of one target, and of a batch of targets, as a
//!   state machine driven by the caller's observations.

pub mod text;
pub mod units;
pub mod size;
pub mod docker;
pub mod report;
pub mod registry;
pub mod engine;
