//! The declaration data this library consumes: one source unit as a list
//! of plain values — import statements, type-alias declarations, and
//! struct/enum declarations with their attributes and field shapes.
//!
//! A parser collaborator produces these values from raw source text; the
//! extraction logic that turns them into entries is verified.

use vstd::prelude::*;

verus! {

/// One `use`-like import statement, as a tree.
#[derive(Debug)]
pub enum RawUseTree {
    /// A path segment followed by the rest of the tree.
    Seg(String, Box<RawUseTree>),
    /// A plain imported name.
    Leaf(String),
    /// An imported name bound under another local name:
    /// `(canonical, alias)`.
    Rename(String, String),
    /// A glob import; nothing can be resolved from it statically.
    Glob,
    /// A braced group of subtrees sharing the prefix so far.
    Group(Vec<RawUseTree>),
}

/// The syntactic shape of a field or parameter type.
#[derive(Debug)]
pub enum RawType {
    /// A (possibly qualified) named type with its generic arguments; the
    /// arguments belong to the last segment.
    Path { segments: Vec<String>, args: Vec<RawArg> },
    /// A fixed-size array type; the length is absent when it is not a
    /// plain integer literal.
    Array { elem: Box<RawType>, len: Option<usize> },
    /// A tuple type; the empty tuple is the unit type.
    Tuple(Vec<RawType>),
    /// A reference type.
    Ref(Box<RawType>),
    /// A shape the generator does not handle.
    Unsupported,
}

/// One generic argument of a path segment.
#[derive(Debug)]
pub enum RawArg {
    /// A type argument.
    Ty(RawType),
    /// A non-type argument (a const or a lifetime).
    Other,
}

/// The fields of a struct or of one enum variant.
#[derive(Debug)]
pub enum RawFields {
    /// Named fields.
    Named(Vec<(String, RawType)>),
    /// Positional fields.
    Unnamed(Vec<RawType>),
    /// No fields.
    Unit,
}

/// One variant of an enum declaration.
#[derive(Debug)]
pub struct RawVariant {
    pub name: String,
    pub fields: RawFields,
}

/// One struct or enum declaration with everything extraction reads: the
/// derive paths (for marker detection), the remote-projection target and
/// custom output name (from the archive attribute), and the field shape.
#[derive(Debug)]
pub struct RawDecl {
    /// Whether this is an enum declaration.
    pub is_enum: bool,
    /// The declared type name.
    pub name: String,
    /// Every derive path on the declaration, one segment list each.
    pub derives: Vec<Vec<String>>,
    /// The target path of a remote-projection attribute, if present.
    pub remote_target: Option<Vec<String>>,
    /// A custom output name from the archive attribute, if present.
    pub archived: Option<String>,
    /// The struct fields; unit for an enum declaration.
    pub fields: RawFields,
    /// The enum variants; empty for a struct declaration.
    pub variants: Vec<RawVariant>,
}

/// One top-level item of a source unit.
#[derive(Debug)]
pub enum RawItem {
    /// An import statement.
    UseDecl(RawUseTree),
    /// A type-alias declaration mapping a local name to a qualified path.
    TypeAlias { name: String, target: Vec<String> },
    /// A struct or enum declaration.
    Decl(RawDecl),
    /// Any other item; extraction ignores it.
    Other,
}

/// One parsed source unit.
#[derive(Debug)]
pub struct SourceUnit {
    pub items: Vec<RawItem>,
}

} // verus!
