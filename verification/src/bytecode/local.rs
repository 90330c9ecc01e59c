use vstd::prelude::*;

verus! {

/// A local variable of the compiler: its name, and the depth of the scope
/// that declared it (-1 while its initializer is being compiled).
pub struct Local {
    pub name: Vec<u8>,
    pub depth: i32,
}

impl Local {
    pub fn new(name: Vec<u8>, depth: i32) -> (l: Self)
        ensures
            l.name == name,
            l.depth == depth,
    {
        Self { name, depth }
    }
}

} // verus!
