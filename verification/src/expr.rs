use vstd::prelude::*;

use crate::comment::Comment;
use crate::ident::{Ident, ModuleName};
use crate::literal::Literal;
use crate::node::Spanned;
use crate::operator::InfixDirection;
use crate::pattern::Pattern;
use crate::type_annotation::TypeAnnotation;

verus! {

/// An expression in Elm source code.
#[derive(Debug, PartialEq, Eq)]
pub enum Expr {
    /// `()`
    Unit,
    /// A literal value.
    Literal(Literal),
    /// A (possibly qualified) value or constructor: `List.map`, `x`, `Just`
    FunctionOrValue { module_name: ModuleName, name: Ident },
    /// An operator used as a function: `(+)`
    PrefixOperator(Ident),
    /// A binary operator application: `a + b`
    OperatorApplication {
        operator: String,
        direction: InfixDirection,
        left: Box<Spanned<Expr>>,
        right: Box<Spanned<Expr>>,
    },
    /// An unresolved operator chain: `a + b * c` before precedence resolution.
    BinOps { operands_and_operators: Vec<(Spanned<Expr>, Spanned<Ident>)>, final_operand: Box<Spanned<Expr>> },
    /// Function application: `f a b` (the function is the first element).
    Application(Vec<Spanned<Expr>>),
    /// `if c then a else if d then b else e`: `(condition, value)` arms and
    /// the final `else` value.
    IfElse { branches: Vec<(Spanned<Expr>, Spanned<Expr>)>, else_branch: Box<Spanned<Expr>> },
    /// Prefix negation: `-x`
    Negation(Box<Spanned<Expr>>),
    /// `( a, b )`
    Tuple(Vec<Spanned<Expr>>),
    /// `( e )`
    Parenthesized(Box<Spanned<Expr>>),
    /// `let ... in ...`
    LetIn {
        declarations: Vec<Spanned<LetDeclaration>>,
        body: Box<Spanned<Expr>>,
        trailing_comments: Vec<Spanned<Comment>>,
    },
    /// `case e of ...`
    CaseOf { expr: Box<Spanned<Expr>>, branches: Vec<CaseBranch> },
    /// `\x y -> body`
    Lambda { args: Vec<Spanned<Pattern>>, body: Box<Spanned<Expr>> },
    /// `{ a = 1, b = 2 }`
    Record(Vec<Spanned<RecordSetter>>),
    /// `{ r | a = 1 }`
    RecordUpdate { base: Spanned<Ident>, updates: Vec<Spanned<RecordSetter>> },
    /// `r.field`
    RecordAccess { record: Box<Spanned<Expr>>, field: Spanned<Ident> },
    /// `.field`
    RecordAccessFunction(Ident),
    /// `[ a, b ]`
    List(Vec<Spanned<Expr>>),
    /// `[glsl| ... |]`
    GLSLExpression(String),
}

/// One branch of a `case` expression: `pattern -> body`.
#[derive(Debug, PartialEq, Eq)]
pub struct CaseBranch {
    pub pattern: Spanned<Pattern>,
    pub body: Spanned<Expr>,
}

/// A declaration inside a `let` block.
#[derive(Debug, PartialEq, Eq)]
pub enum LetDeclaration {
    Function(Function),
    Destructuring { pattern: Spanned<Pattern>, body: Spanned<Expr> },
}

/// A record field assignment: `field = value`, with an optional trailing
/// comment on the same line.
#[derive(Debug, PartialEq, Eq)]
pub struct RecordSetter {
    pub field: Spanned<Ident>,
    pub value: Spanned<Expr>,
    pub trailing_comment: Option<Spanned<Comment>>,
}

/// A function or value definition, with optional doc comment and signature.
#[derive(Debug, PartialEq, Eq)]
pub struct Function {
    pub documentation: Option<Spanned<String>>,
    pub signature: Option<Spanned<Signature>>,
    pub declaration: Spanned<FunctionImplementation>,
}

/// A type signature: `name : Type`
#[derive(Debug, PartialEq, Eq)]
pub struct Signature {
    pub name: Spanned<Ident>,
    pub type_annotation: Spanned<TypeAnnotation>,
}

/// The defining equation: `name arg1 arg2 = body`
#[derive(Debug, PartialEq, Eq)]
pub struct FunctionImplementation {
    pub name: Spanned<Ident>,
    pub args: Vec<Spanned<Pattern>>,
    pub body: Spanned<Expr>,
}

} // verus!
