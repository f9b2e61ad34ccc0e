//! An array that is handed out whole.

use vstd::prelude::*;

verus! {

/// An array of something
#[derive(Debug)]
pub struct Array<T> {
    data: Vec<T>,
}

impl<T> Array<T> {
    /// The values of the array, in order.
    pub closed spec fn view(&self) -> Seq<T> {
        self.data@
    }

    /// An array of the given values, boxed so that the caller can manage its
    /// memory.
    pub fn new(data: Vec<T>) -> (r: Box<Self>)
        ensures
            r@ == data@,
    {
        Box::new(Array { data })
    }

    /// The values of the array.
    pub fn values(&self) -> (r: &Vec<T>)
        ensures
            r@ == self@,
    {
        &self.data
    }

    /// Returns a value from the array
    pub fn get(&self, index: usize) -> (r: Option<&T>)
        ensures
            r == if index < self@.len() {
                Some(&self@[index as int])
            } else {
                None
            },
    {
        if index < self.data.len() {
            Some(&self.data[index])
        } else {
            None
        }
    }

    /// Returns the length of the array
    pub fn length(&self) -> (r: usize)
        ensures
            r == self@.len(),
    {
        self.data.len()
    }
}

} // verus!
