use vstd::prelude::*;

verus! {

/// The two standard decimal renderings of a floating-point literal's value:
/// the shortest round-trip form (`f64`'s `Display`) and the scientific form
/// (`f64`'s `LowerExp`). The printer chooses between them; the numeric value
/// itself is kept by the code that builds the tree.
#[derive(Clone, Debug, PartialEq, Eq)]
pub struct FloatText {
    pub display: String,
    pub scientific: String,
}

/// A literal value in Elm source code.
#[derive(Clone, Debug, PartialEq, Eq)]
pub enum Literal {
    /// A character literal: `'a'`
    Char(char),
    /// A single-line string literal: `"text"` (content unescaped).
    String(String),
    /// A triple-quoted string literal: `"""text"""` (content verbatim).
    MultilineString(String),
    /// A decimal integer literal: `42`
    Int(i64),
    /// A hexadecimal integer literal: `0xFF`
    Hex(i64),
    /// A floating-point literal, with the source lexeme when one was read.
    Float(FloatText, Option<String>),
}

} // verus!
