//! The tiles of a board as a flat array.

use vstd::prelude::*;

use crate::piece::Tile;

verus! {

/// An array of tiles.
#[derive(Debug)]
pub struct TileArray {
    data: Vec<Tile>,
}

impl TileArray {
    /// The tiles of the array, in order.
    pub closed spec fn view(&self) -> Seq<Tile> {
        self.data@
    }

    /// An array of the given tiles, boxed so that the caller can manage its
    /// memory.
    pub fn new(data: Vec<Tile>) -> (r: Box<Self>)
        ensures
            r@ == data@,
    {
        Box::new(TileArray { data })
    }

    /// Returns a value from the array, or Empty if out of bounds
    pub fn get(&self, index: usize) -> (r: Tile)
        ensures
            r == if index < self@.len() {
                self@[index as int]
            } else {
                Tile::Empty
            },
    {
        if index < self.data.len() {
            self.data[index]
        } else {
            Tile::Empty
        }
    }

    /// Returns the length of the array
    pub fn length(&self) -> (r: usize)
        ensures
            r == self@.len(),
    {
        self.data.len()
    }
}

} // verus!
