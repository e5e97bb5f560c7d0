use vstd::prelude::*;

use crate::ident::{Ident, ModuleName};
use crate::node::Spanned;

verus! {

/// A type annotation in Elm source code, as written by the programmer.
#[derive(Debug, PartialEq, Eq)]
pub enum TypeAnnotation {
    /// A type variable: `a`, `msg`, `comparable`
    GenericType(Ident),
    /// A named type, possibly qualified, with type arguments:
    /// `Dict.Dict String Int`.
    Typed { module_name: ModuleName, name: Spanned<Ident>, args: Vec<Spanned<TypeAnnotation>> },
    /// The unit type: `()`
    Unit,
    /// A tuple type: `( Int, String )`
    Tupled(Vec<Spanned<TypeAnnotation>>),
    /// A record type: `{ name : String, age : Int }`
    Record(Vec<Spanned<RecordField>>),
    /// An extensible record type: `{ a | name : String }`
    GenericRecord { base: Spanned<Ident>, fields: Vec<Spanned<RecordField>> },
    /// A function type: `Int -> String`
    FunctionType { from: Box<Spanned<TypeAnnotation>>, to: Box<Spanned<TypeAnnotation>> },
}

/// A single field in a record type: `name : String`
#[derive(Debug, PartialEq, Eq)]
pub struct RecordField {
    pub name: Spanned<Ident>,
    pub type_annotation: Spanned<TypeAnnotation>,
}

} // verus!
