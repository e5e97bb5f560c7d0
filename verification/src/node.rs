use vstd::prelude::*;

use crate::comment::Comment;
use crate::span::Span;

verus! {

/// A syntax node together with its source span and the comments that the
/// parser attached in front of it.
#[derive(Debug, PartialEq, Eq)]
pub struct Spanned<T> {
    pub value: T,
    pub span: Span,
    pub comments: Vec<Spanned<Comment>>,
}

impl<T> Spanned<T> {
    /// Wrap a value with a span and no attached comments.
    pub fn new(span: Span, value: T) -> (s: Self)
        ensures
            s.value == value,
            s.span == span,
            s.comments@.len() == 0,
    {
        Spanned { value, span, comments: Vec::new() }
    }
}

} // verus!
