//! Plain values for callers in other languages: flat records and small
//! enums that stand for the engine's own types.

pub mod array;
pub mod config;
pub mod play_array;
pub mod player;
pub mod results;
pub mod tile_array;
