use vstd::prelude::*;

use crate::exposing::Exposing;
use crate::ident::ModuleName;
use crate::node::Spanned;

verus! {

/// An import: `import Html.Attributes as Attr exposing (class)`
#[derive(Debug, PartialEq, Eq)]
pub struct Import {
    pub module_name: Spanned<ModuleName>,
    pub alias: Option<Spanned<ModuleName>>,
    pub exposing: Option<Spanned<Exposing>>,
}

} // verus!
