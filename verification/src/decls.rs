use vstd::prelude::*;

verus! {

/// A module declaration as the external parser hands it over: the
/// module's short name and, when the body is written in the same file,
/// the items of that body. A module declared without an inline body has
/// its body in a separate file that the path mapper locates.
pub struct ModuleDecl {
    pub name: String,
    pub body: Option<Vec<ItemDecl>>,
}

/// One parsed declaration. The set of kinds is a closed tagged union
/// with an explicit catch-all arm: a declaration kind this crate does
/// not recognize arrives as `Unknown` and is deliberately skipped by the
/// metadata walk, never treated as an error.
pub enum ItemDecl {
    Const { name: String },
    Enum { name: String },
    Function { name: String },
    /// A macro declaration may lack the name needed to classify it; such
    /// a declaration is skipped by the metadata walk.
    Macro { name: Option<String> },
    Module(ModuleDecl),
    Struct { name: String },
    Trait { name: String },
    Unknown,
}

impl ModuleDecl {
    /// A module is inline when its body is written in the parent's file.
    pub open spec fn is_inline(&self) -> bool {
        self.body is Some
    }
}

} // verus!
