//! The players that the engine can play against.

pub mod minmax;
