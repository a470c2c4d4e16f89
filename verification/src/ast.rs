//! Read-only syntax nodes, the input of semantic construction.
//!
//! An external parser produces these; the construction protocol in
//! [`crate::hir`] consumes them. This module only fixes their shape.

use vstd::prelude::*;
use crate::source::{Name, Span, Spanned};

verus! {

/// A package declaration: a named container of further declarations.
pub struct PkgDecl {
    /// Where the whole declaration stands in the source text.
    pub span: Span,
    /// The package's name.
    pub name: Spanned<Name>,
    /// The declarations inside the package, in source order.
    pub decls: Vec<DeclItem>,
}

/// A type declaration.
pub struct TypeDecl {
    /// Where the declaration stands in the source text.
    pub span: Span,
    /// The declared type's name.
    pub name: Spanned<Name>,
}

/// A constant declaration. The semantic layer has no node kind for these
/// yet; construction skips them.
pub struct ConstDecl {
    /// Where the declaration stands in the source text.
    pub span: Span,
    /// The declared constant's name.
    pub name: Spanned<Name>,
}

/// Any declaration that can stand inside a package.
pub enum DeclItem {
    /// A nested package declaration.
    PkgDecl(PkgDecl),
    /// A type declaration.
    TypeDecl(TypeDecl),
    /// A constant declaration.
    ConstDecl(ConstDecl),
}

} // verus!
