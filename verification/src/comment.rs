use vstd::prelude::*;

verus! {

/// A comment in Elm source code. The text excludes the delimiters
/// (`--`, `{-` / `-}`, `{-|` / `-}`).
#[derive(Clone, Debug, PartialEq, Eq)]
pub enum Comment {
    /// A single-line comment: `-- text`
    Line(String),
    /// A block comment: `{- text -}`
    Block(String),
    /// A documentation comment: `{-| text -}`
    Doc(String),
}

} // verus!
