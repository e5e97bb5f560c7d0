use vstd::prelude::*;

use crate::comment::Comment;
use crate::expr::{Expr, Function, Signature};
use crate::ident::Ident;
use crate::node::Spanned;
use crate::operator::InfixDirection;
use crate::pattern::Pattern;
use crate::type_annotation::TypeAnnotation;

verus! {

/// A top-level declaration.
#[derive(Debug, PartialEq, Eq)]
pub enum Declaration {
    FunctionDeclaration(Function),
    AliasDeclaration(TypeAlias),
    CustomTypeDeclaration(CustomType),
    PortDeclaration(Signature),
    InfixDeclaration(InfixDef),
    Destructuring { pattern: Spanned<Pattern>, body: Spanned<Expr> },
}

/// `type alias Name a = ...`
#[derive(Debug, PartialEq, Eq)]
pub struct TypeAlias {
    pub documentation: Option<Spanned<String>>,
    pub name: Spanned<Ident>,
    pub generics: Vec<Spanned<Ident>>,
    pub type_annotation: Spanned<TypeAnnotation>,
}

/// `type Name a = A | B a`
#[derive(Debug, PartialEq, Eq)]
pub struct CustomType {
    pub documentation: Option<Spanned<String>>,
    pub name: Spanned<Ident>,
    pub generics: Vec<Spanned<Ident>>,
    pub constructors: Vec<Spanned<ValueConstructor>>,
}

/// One constructor of a custom type: `Just a`. Comments written before the
/// `|` that introduces it are kept in `pre_pipe_comments`.
#[derive(Debug, PartialEq, Eq)]
pub struct ValueConstructor {
    pub name: Spanned<Ident>,
    pub args: Vec<Spanned<TypeAnnotation>>,
    pub pre_pipe_comments: Vec<Spanned<Comment>>,
}

/// `infix left 6 (+) = add`
#[derive(Debug, PartialEq, Eq)]
pub struct InfixDef {
    pub direction: Spanned<InfixDirection>,
    pub precedence: Spanned<u8>,
    pub operator: Spanned<String>,
    pub function: Spanned<Ident>,
}

} // verus!
