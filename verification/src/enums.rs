use vstd::prelude::*;

verus! {

/// Describes an enumeration declaration.
pub struct EnumMetadata {
    pub name: String,
}

impl EnumMetadata {
    /// Records the declared name of an enumeration.
    pub fn new(name: String) -> (r: Self)
        ensures
            r.name == name,
    {
        EnumMetadata { name }
    }
}

} // verus!
