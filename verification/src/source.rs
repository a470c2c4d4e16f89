//! Source locations, names, and node identities.
//!
//! These are the plain values that semantic nodes carry around: a byte
//! range in the source text, an interned name, and a per-session node id.

use vstd::prelude::*;

verus! {

/// A range of bytes in the source text. The invalid span is a sentinel
/// used where no location is available, e.g. for a node whose
/// construction failed.
#[derive(Clone, Copy, Debug, PartialEq, Eq, Structural)]
pub struct Span {
    /// Byte offset of the first character covered by the span.
    pub lo: u32,
    /// Byte offset one past the last character covered by the span.
    pub hi: u32,
}

/// The sentinel span that stands for "no source location".
pub open spec fn invalid_span() -> Span {
    Span { lo: u32::MAX, hi: u32::MAX }
}

impl Span {
    /// Make a span covering the bytes `lo..hi`.
    pub fn new(lo: u32, hi: u32) -> (s: Span)
        ensures
            s == (Span { lo, hi }),
    {
        Span { lo, hi }
    }

    /// The sentinel span that stands for "no source location".
    pub fn invalid() -> (s: Span)
        ensures
            s == invalid_span(),
    {
        Span { lo: u32::MAX, hi: u32::MAX }
    }
}

/// An interned name. Code 0 is reserved for the missing name: a
/// declaration whose name is missing cannot be built into a semantic node.
#[derive(Clone, Copy, Debug, PartialEq, Eq, Structural)]
pub struct Name {
    /// The intern table code of the name.
    pub code: u64,
}

impl Name {
    /// Whether this is a real name rather than the missing-name sentinel.
    pub open spec fn spec_is_named(self) -> bool {
        self.code != 0
    }

    /// Whether this is a real name rather than the missing-name sentinel.
    #[verifier::when_used_as_spec(spec_is_named)]
    pub fn is_named(self) -> (r: bool)
        ensures
            r == self.spec_is_named(),
    {
        self.code != 0
    }
}

/// A value paired with the span it was found at.
#[derive(Clone, Copy, Debug, PartialEq, Eq, Structural)]
pub struct Spanned<T> {
    /// The value itself.
    pub value: T,
    /// Where the value stood in the source text.
    pub span: Span,
}

/// The identity of one semantic node, unique within one compilation
/// session.
#[derive(Clone, Copy, Debug, PartialEq, Eq, Structural)]
pub struct NodeId {
    /// The number the session's id counter stood at when the node was made.
    pub index: u64,
}

/// A back-reference to the lexical scope a declaration was found in.
/// The scope itself is an opaque capability owned elsewhere; nodes only
/// point at it.
#[derive(Clone, Copy, Debug, PartialEq, Eq, Structural)]
pub struct ScopeId {
    /// The number of the scope within its owner.
    pub index: u64,
}

} // verus!
