use vstd::prelude::*;

verus! {

/// The kind of change a source-code difference amounts to, ordered by
/// severity: a patch is the least severe change, a major change the most.
#[derive(Debug, PartialEq, Eq, PartialOrd, Ord)]
pub enum ChangeType {
    Patch,
    Minor,
    Major,
}

/// A single change between two versions of a declaration.
pub trait Delta {
    /// The severity of this change.
    fn change_type(&self) -> ChangeType;
}

/// Source items that can be compared against a newer version of themselves.
pub trait Diffable {
    /// The change description that `diff` produces.
    type Delta: Delta;

    /// Compares `self` to a newer version of the same item and returns
    /// every change found.
    fn diff(&self, new_type: &Self) -> Vec<Self::Delta>;
}

} // verus!
