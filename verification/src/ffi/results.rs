//! A result that is handed out whole.

use vstd::prelude::*;

verus! {

/// A wrapper around a result
pub struct FFIResult<T, E> {
    result: Result<T, E>,
}

/// Which of its two forms a result has; `Null` stands for a result that is
/// not there at all.
#[derive(Clone, Copy, Debug, PartialEq, Eq, Structural)]
pub enum FFIResultType {
    IsOk,
    IsErr,
    Null,
}

impl<T, E> FFIResult<T, E> {
    /// The result that is wrapped.
    pub closed spec fn view(&self) -> Result<T, E> {
        self.result
    }

    /// A wrapper round the given result, boxed so that the caller can manage
    /// its memory.
    pub fn new(result: Result<T, E>) -> (r: Box<Self>)
        ensures
            r@ == result,
    {
        Box::new(FFIResult { result })
    }

    /// Gets the type of the result.
    pub fn get_type(&self) -> (r: FFIResultType)
        ensures
            r == match self@ {
                Ok(_) => FFIResultType::IsOk,
                Err(_) => FFIResultType::IsErr,
            },
    {
        match &self.result {
            Ok(_) => FFIResultType::IsOk,
            Err(_) => FFIResultType::IsErr,
        }
    }

    /// Returns the Ok value, dropping the result
    pub fn get_ok(self) -> (r: T)
        requires
            self@.is_ok(),
        ensures
            Ok::<T, E>(r) == self@,
    {
        match self.result {
            Ok(value) => value,
            Err(_) => vstd::pervasive::unreached(),
        }
    }

    /// Returns the Err value, dropping the result
    pub fn get_error(self) -> (r: E)
        requires
            self@.is_err(),
        ensures
            Err::<T, E>(r) == self@,
    {
        match self.result {
            Ok(_) => vstd::pervasive::unreached(),
            Err(error) => error,
        }
    }
}

} // verus!
