//! The per-module facts the scanner hands over, as plain data: import
//! trees, the shapes of annotated struct fields, and the items of a module.
//! The scanner (an external collaborator) extracts these from source text;
//! everything the resolver reads from them is held here as strings and
//! ordered lists.

use vstd::prelude::*;

use crate::decl::Attr;

verus! {

/// One import statement's tree: `a::b::{C, D as E}` is a `Path` of `a`, a
/// `Path` of `b`, and a `Group` of a `Name` and a `Rename`.
pub enum UseTree {
    Path { ident: String, tree: Box<UseTree> },
    Group { items: Vec<UseTree> },
    Name { ident: String },
    Rename { ident: String, rename: String },
    Other,
}

/// The shape of a field's type reference: a path with an optional first
/// type argument (the inner type of an ownership wrapper such as a
/// shared-ownership pointer), a trait object carrying its first named
/// bound, or an unrecognized shape.
pub enum TypeShape {
    Path { segments: Vec<String>, arg: Option<Box<TypeShape>> },
    TraitObject { bound: Option<Vec<String>> },
    Other,
}

/// One struct field: its attributes and the shape of its type.
pub struct FieldDecl {
    pub attrs: Vec<Attr>,
    pub ty: TypeShape,
}

/// One struct declaration: its short name, its attributes, and its fields
/// in declared order.
pub struct StructDecl {
    pub ident: String,
    pub attrs: Vec<Attr>,
    pub fields: Vec<FieldDecl>,
}

/// One item of a module.
pub enum Item {
    /// A nested module with its items, or a module declaration without a
    /// body.
    Mod { name: String, items: Option<Vec<Item>> },
    /// An import statement.
    Use { tree: UseTree },
    /// A struct declaration.
    Struct { decl: StructDecl },
    /// A trait implementation: its attributes, the implemented trait's raw
    /// path, and the implementing type's raw path when that type is written
    /// as a path.
    Impl { attrs: Vec<Attr>, trait_path: Option<Vec<String>>, self_path: Option<Vec<String>> },
    /// Anything else; carries nothing the resolver reads.
    Other,
}

} // verus!
