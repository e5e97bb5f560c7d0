//! A library for constructing, traversing and printing Elm 0.19.1 syntax
//! trees, with a printer modeled on elm-format's layout rules.

pub mod comment;
pub mod declaration;
pub mod exposing;
pub mod expr;
pub mod file;
pub mod ident;
pub mod import;
pub mod literal;
pub mod module_header;
pub mod node;
pub mod operator;
pub mod pattern;
pub mod span;
pub mod type_annotation;
pub mod sorting;
pub mod text;
pub mod token;
pub mod visit;
pub mod visit_mut;
pub mod print;
