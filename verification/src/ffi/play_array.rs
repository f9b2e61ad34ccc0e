//! Plays as flat records.

use vstd::prelude::*;

use crate::ffi::array::Array;
use crate::state::Play;

verus! {

/// An array of plays.
pub type PlayArray = Array<Play>;

/// A flattened representation of a Play, consisting of 4 u8s for a total size
/// of 4 bytes
#[derive(Clone, Copy, Debug, PartialEq, Eq, Structural)]
pub struct FlatPlay {
    pub from_x: u8,
    pub from_y: u8,
    pub to_x: u8,
    pub to_y: u8,
}

/// The flat form of a play.
pub open spec fn flat(play: Play) -> FlatPlay {
    FlatPlay { from_x: play.from.0, from_y: play.from.1, to_x: play.to.0, to_y: play.to.1 }
}

/// Returns a value from the array, or a dummy all 0s Play if out of bounds
pub fn play_array_get(array: &PlayArray, index: usize) -> (r: FlatPlay)
    ensures
        r == if index < array@.len() {
            flat(array@[index as int])
        } else {
            FlatPlay { from_x: 0, from_y: 0, to_x: 0, to_y: 0 }
        },
{
    match array.get(index) {
        None => FlatPlay { from_x: 0, from_y: 0, to_x: 0, to_y: 0 },
        Some(play) => FlatPlay {
            from_x: play.from.0,
            from_y: play.from.1,
            to_x: play.to.0,
            to_y: play.to.1,
        },
    }
}

/// Returns the length of the array
pub fn play_array_length(array: &PlayArray) -> (r: usize)
    ensures
        r == array@.len(),
{
    array.length()
}

} // verus!
