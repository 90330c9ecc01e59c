use vstd::prelude::*;

verus! {

/// The native function `clock`, which reads the time in seconds. Reading
/// the clock is left to the program around this library.
#[derive(Debug)]
pub struct Clock;

impl Clock {
    /// `clock` takes no arguments.
    pub fn arity(&self) -> (n: usize)
        ensures
            n == 0,
    {
        0
    }
}

} // verus!
