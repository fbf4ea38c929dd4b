//! A list of errors that is filled while work goes on.

use vstd::prelude::*;

verus! {

/// The errors that were recorded so far, oldest first.
#[derive(Debug)]
pub struct Errors<T> {
    pub errors: Vec<T>,
}

impl<T> Errors<T> {
    /// An empty list.
    pub fn new() -> (r: Errors<T>)
        ensures
            r.errors@ == Seq::<T>::empty(),
    {
        Errors { errors: Vec::new() }
    }

    /// Whether an error was recorded.
    pub fn has_errors(&self) -> (r: bool)
        ensures
            r == (self.errors@.len() != 0),
    {
        self.errors.len() != 0
    }

    /// Records one more error.
    pub fn error(&mut self, t: T)
        ensures
            final(self).errors@ == old(self).errors@.push(t),
    {
        self.errors.push(t);
    }
}

} // verus!
