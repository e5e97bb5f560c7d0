use vstd::prelude::*;

use crate::ident::{Ident, ModuleName};
use crate::literal::Literal;
use crate::node::Spanned;

verus! {

/// A pattern in a function argument, `case` branch, lambda or destructuring.
#[derive(Debug, PartialEq, Eq)]
pub enum Pattern {
    /// `_`
    Anything,
    /// `x`
    Var(Ident),
    /// A literal: `1`, `'c'`, `"s"`
    Literal(Literal),
    /// `()`
    Unit,
    /// A hexadecimal integer pattern: `0xFF`
    Hex(i64),
    /// `( a, b )`
    Tuple(Vec<Spanned<Pattern>>),
    /// `Just x`, `Maybe.Nothing`
    Constructor { module_name: ModuleName, name: Ident, args: Vec<Spanned<Pattern>> },
    /// `{ a, b }`
    Record(Vec<Spanned<Ident>>),
    /// `x :: xs`
    Cons { head: Box<Spanned<Pattern>>, tail: Box<Spanned<Pattern>> },
    /// `[ a, b ]`
    List(Vec<Spanned<Pattern>>),
    /// `p as name`
    As { pattern: Box<Spanned<Pattern>>, name: Spanned<Ident> },
    /// `( p )`
    Parenthesized(Box<Spanned<Pattern>>),
}

} // verus!
