use vstd::prelude::*;

verus! {

/// Describes a trait declaration.
pub struct TraitMetadata {
    pub name: String,
}

impl TraitMetadata {
    /// Records the declared name of a trait.
    pub fn new(name: String) -> (r: Self)
        ensures
            r.name == name,
    {
        TraitMetadata { name }
    }
}

} // verus!
