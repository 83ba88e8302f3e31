//! Structural metadata for a module-oriented source tree.
//!
//! The heart of the crate is a name-resolution context engine: a scope
//! stack that mirrors the nesting of modules being visited, and a path
//! mapper that derives the on-disk location of a module whose body lives
//! in a separate file. Around it stand the metadata records the walk
//! produces (one per declaration kind) and the interfaces a change
//! classifier uses to compare two versions of them.

pub mod comparisons;
pub mod consts;
pub mod decls;
pub mod paths;
pub mod scopes;
pub mod contexts;
pub mod enums;
pub mod functions;
pub mod macros;
pub mod modules;
pub mod structs;
pub mod traits;

pub use self::consts::ConstMetadata;
pub use self::enums::EnumMetadata;
pub use self::functions::FunctionMetadata;
pub use self::macros::MacroMetadata;
pub use self::modules::ModuleMetadata;
pub use self::structs::StructMetadata;
pub use self::traits::TraitMetadata;
