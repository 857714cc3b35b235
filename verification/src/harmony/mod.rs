//! Holonomy-based harmony analysis.
pub mod tonal_graph;
pub mod cycle_checker;
pub mod analyzer;
