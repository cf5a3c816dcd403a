//! A code generator that turns archive-format type declarations into
//! deterministic codec definitions for a scripting-language runtime.
//!
//! The crate models types as a recursive [`TypeDef`] value, keeps a
//! [`registry::TypeRegistry`] of externally-defined type templates, extracts
//! entries from declaration data, orders them so referenced entries come
//! first, and renders one deterministic text artifact.

mod strutil;
mod types;
pub mod registry;
mod generator;
pub mod source;
mod parse;
mod extract;
mod laws;

pub use extract::AliasTable;
pub use generator::CodeGenerator;
pub use generator::TypeEntry;
pub use parse::parse_source;
pub use types::generate_imports;
pub use types::EnumVariant;
pub use types::ExternalType;
pub use types::Import;
pub use types::NameMap;
pub use types::TypeDef;
pub use types::UnionVariant;
