use vstd::prelude::*;

verus! {

/// Describes a macro declaration.
pub struct MacroMetadata {
    pub name: String,
}

impl MacroMetadata {
    /// Classifies a macro declaration by its name. A macro declaration
    /// may lack the name needed to classify it; such a malformed
    /// declaration is reported back, never turned into a record.
    pub fn try_new(name: Option<String>) -> (r: Result<Self, ()>)
        ensures
            (match name {
                Some(n) => r == Ok::<MacroMetadata, ()>((MacroMetadata { name: n })),
                None => r == Err::<MacroMetadata, ()>(()),
            }),
    {
        match name {
            Some(n) => Ok(MacroMetadata { name: n }),
            None => Err(()),
        }
    }
}

} // verus!
