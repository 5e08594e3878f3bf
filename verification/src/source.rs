//! The parts of a Rust source file that the extractor reads, held as
//! plain values: module nesting, `static` items with their token text,
//! `type` aliases, `use` trees and the trait paths of `impl` blocks.
use vstd::prelude::*;

verus! {

/// An item of a source file.
pub enum SourceItem {
    /// `mod name { .. }`, or `mod name;` (then without content).
    Module(ModuleNode),
    /// `static NAME: .. = ..;`
    Static(StaticNode),
    /// `type Name = ..;`
    TypeAlias(TypeAliasNode),
    /// `use ..;`
    Use(UseNode),
    /// `impl .. { .. }`
    Impl(ImplNode),
    /// Any other item.
    Other,
}

pub struct ModuleNode {
    pub name: String,
    /// The items between the braces; `None` for `mod name;`.
    pub content: Option<Vec<SourceItem>>,
}

pub struct StaticNode {
    pub name: String,
    /// The token text of the whole item, tokens separated by spaces.
    pub tokens: String,
}

pub struct TypeAliasNode {
    pub name: String,
    /// The token text of the aliased type when it is a path type
    /// (such as `a::B<C>`); `None` for any other kind of type.
    pub path_tokens: Option<String>,
}

/// A `use` tree.
pub enum UseNode {
    /// `segment::rest`
    Path { segment: String, rest: Box<UseNode> },
    /// A single imported name.
    Name(String),
    /// `{a, b, ..}`
    Group(Vec<UseNode>),
    /// A renaming or a glob.
    Other,
}

pub struct ImplNode {
    /// The path of the implemented trait; `None` for an inherent impl.
    pub trait_path: Option<PathNode>,
}

/// A path, as far as its last segment.
pub struct PathNode {
    pub last_segment: Option<SegmentNode>,
}

pub struct SegmentNode {
    pub ident: String,
    /// The first generic argument in angle brackets, when it is a type.
    pub first_type_arg: Option<TypeNode>,
}

pub enum TypeNode {
    Path(TypePathNode),
    Other,
}

/// A path type, as far as the identifier of its last segment.
pub struct TypePathNode {
    pub last_ident: Option<String>,
}

} // verus!
