use vstd::prelude::*;

use crate::comment::Comment;
use crate::declaration::Declaration;
use crate::import::Import;
use crate::module_header::ModuleHeader;
use crate::node::Spanned;

verus! {

/// A complete Elm source file.
#[derive(Debug, PartialEq, Eq)]
pub struct ElmModule {
    pub header: Spanned<ModuleHeader>,
    /// The module documentation comment (text between `{-|` and `-}`).
    pub module_documentation: Option<Spanned<String>>,
    pub imports: Vec<Spanned<Import>>,
    pub declarations: Vec<Spanned<Declaration>>,
    /// Top-level comments between imports and declarations.
    pub comments: Vec<Spanned<Comment>>,
}

} // verus!
