use vstd::prelude::*;

verus! {

/// An identifier (lower- or upper-case name).
pub type Ident = String;

/// A dotted module name, one element per segment: `Html.Attributes` is
/// `["Html", "Attributes"]`.
pub type ModuleName = Vec<String>;

} // verus!
