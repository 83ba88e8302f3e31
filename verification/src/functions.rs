use vstd::prelude::*;

verus! {

/// Describes a function declaration.
pub struct FunctionMetadata {
    pub name: String,
}

impl FunctionMetadata {
    /// Records the declared name of a function.
    pub fn new(name: String) -> (r: Self)
        ensures
            r.name == name,
    {
        FunctionMetadata { name }
    }
}

} // verus!
