//! Core of a skeletal-mesh model compiler: the import cache, the model-graph
//! interpreter and the processing pipeline, on exact integer data.
//!
//! Everything here decides *which* datum goes *where*: bone indices, vertex
//! slots, strip boundaries, frame ranges. Coordinates, angles and weights are
//! never read; they are referred to by the slot they were imported in.

pub mod import;
pub mod input;
pub mod names;
pub mod ordered;
pub mod process;
pub mod utilities;
