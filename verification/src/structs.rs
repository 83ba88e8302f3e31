use vstd::prelude::*;

verus! {

/// Describes a structure declaration.
pub struct StructMetadata {
    pub name: String,
}

impl StructMetadata {
    /// Records the declared name of a structure.
    pub fn new(name: String) -> (r: Self)
        ensures
            r.name == name,
    {
        StructMetadata { name }
    }
}

} // verus!
