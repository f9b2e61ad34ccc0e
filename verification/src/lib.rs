//! Rules engine and search bot for Hnefatafl, an asymmetric board game in
//! which a king and its defenders try to reach a corner of the board while
//! the attackers try to surround the king.

pub mod board;
pub mod bot;
pub mod captures;
pub mod config;
pub mod console;
pub mod ffi;
pub mod grid;
pub mod laws;
pub mod listing;
pub mod piece;
pub mod rules;
pub mod state;
pub mod tensor;
pub mod text;
pub mod uffi;
