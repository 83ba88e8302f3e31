use vstd::prelude::*;

verus! {

/// Describes a constant declaration.
pub struct ConstMetadata {
    pub name: String,
}

impl ConstMetadata {
    /// Records the declared name of a constant.
    pub fn new(name: String) -> (r: Self)
        ensures
            r.name == name,
    {
        ConstMetadata { name }
    }
}

} // verus!
