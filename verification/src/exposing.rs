use vstd::prelude::*;

use crate::ident::Ident;
use crate::node::Spanned;
use crate::span::Span;

verus! {

/// An exposing list: `exposing (..)` or `exposing (a, B, C(..))`.
#[derive(Debug, PartialEq, Eq)]
pub enum Exposing {
    /// `(..)`, with the span of the `..`.
    All(Span),
    /// An explicit list of exposed items.
    Explicit(Vec<Spanned<ExposedItem>>),
}

/// One item of an explicit exposing list.
#[derive(Debug, PartialEq, Eq)]
pub enum ExposedItem {
    /// A value or function: `map`
    Function(Ident),
    /// A type or type alias without constructors: `Maybe`
    TypeOrAlias(Ident),
    /// A type with its constructors: `Maybe(..)` (`open` is the span of `(..)`).
    TypeExpose { name: Ident, open: Option<Span> },
    /// An operator: `(+)`
    Infix(String),
}

} // verus!
