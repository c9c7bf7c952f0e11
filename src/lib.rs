//! Small collections for game code, chief among them a partition of a one-dimensional
//! extent into contiguous segments.

pub mod anyvec;
pub mod aov_collection;
pub mod contiguous_segment;
pub mod joel;
pub mod material_toml;
pub mod registry;
pub mod segment_laws;
pub mod segment_model;
pub mod sign;
pub mod utils;
pub mod weighted_set;
