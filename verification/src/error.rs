//! Semantic errors and the source spans they point at.
use vstd::prelude::*;

verus! {

/// A span of source text: its byte offset and its length in bytes.
#[derive(Clone, Copy, Debug, PartialEq, Eq, Structural)]
pub struct Span {
    pub offset: usize,
    pub len: usize,
}

/// An error of the semantic pass, with the span it concerns.
#[derive(Debug)]
pub struct SemanticError {
    pub message: String,
    pub span: Span,
}

} // verus!
