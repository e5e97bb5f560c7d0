use vstd::prelude::*;

use crate::literal::Literal;
use crate::text::str_eq;

verus! {

/// A token produced by the Elm lexer.
#[derive(Clone, Debug, PartialEq, Eq)]
pub enum Token {
    // Keywords
    /// `module`
    Module,
    /// `where`
    Where,
    /// `import`
    Import,
    /// `as`
    As,
    /// `exposing`
    Exposing,
    /// `type`
    Type,
    /// `alias`
    Alias,
    /// `port`
    Port,
    /// `effect`
    Effect,
    /// `if`
    If,
    /// `then`
    Then,
    /// `else`
    Else,
    /// `case`
    Case,
    /// `of`
    Of,
    /// `let`
    Let,
    /// `in`
    In,
    /// `infix`
    Infix,
    /// `left`
    Left,
    /// `right`
    Right,
    /// `non`
    Non,
    // Delimiters
    /// `(`
    LeftParen,
    /// `)`
    RightParen,
    /// `[`
    LeftBracket,
    /// `]`
    RightBracket,
    /// `{`
    LeftBrace,
    /// `}`
    RightBrace,
    /// `,`
    Comma,
    /// `|`
    Pipe,
    /// `=`
    Equals,
    /// `:`
    Colon,
    /// `.`
    Dot,
    /// `..`
    DotDot,
    /// `\`
    Backslash,
    /// `_`
    Underscore,
    /// `->`
    Arrow,
    /// Any operator (`+`, `|>`, `::`, ...). Elm's operator set is extensible,
    /// so operators are kept as text.
    Operator(String),
    /// `-` used as prefix negation.
    Minus,
    /// A lowercase identifier: `foo`
    LowerName(String),
    /// An uppercase identifier: `Maybe`
    UpperName(String),
    /// A literal value.
    Literal(Literal),
    /// `-- ...`
    LineComment(String),
    /// `{- ... -}`
    BlockComment(String),
    /// `{-| ... -}`
    DocComment(String),
    /// `[glsl| ... |]`
    Glsl(String),
    /// A newline (the lexer keeps them for layout).
    Newline,
    /// End of file.
    Eof,
}

/// The keyword token spelled by `s`, if `s` is one of Elm's twenty keywords.
pub open spec fn keyword_token(s: Seq<char>) -> Option<Token> {
    if s == "module"@ {
        Some(Token::Module)
    } else if s == "where"@ {
        Some(Token::Where)
    } else if s == "import"@ {
        Some(Token::Import)
    } else if s == "as"@ {
        Some(Token::As)
    } else if s == "exposing"@ {
        Some(Token::Exposing)
    } else if s == "type"@ {
        Some(Token::Type)
    } else if s == "alias"@ {
        Some(Token::Alias)
    } else if s == "port"@ {
        Some(Token::Port)
    } else if s == "effect"@ {
        Some(Token::Effect)
    } else if s == "if"@ {
        Some(Token::If)
    } else if s == "then"@ {
        Some(Token::Then)
    } else if s == "else"@ {
        Some(Token::Else)
    } else if s == "case"@ {
        Some(Token::Case)
    } else if s == "of"@ {
        Some(Token::Of)
    } else if s == "let"@ {
        Some(Token::Let)
    } else if s == "in"@ {
        Some(Token::In)
    } else if s == "infix"@ {
        Some(Token::Infix)
    } else if s == "left"@ {
        Some(Token::Left)
    } else if s == "right"@ {
        Some(Token::Right)
    } else if s == "non"@ {
        Some(Token::Non)
    } else {
        None
    }
}

impl Token {
    /// Look up a keyword from a lowercase identifier string.
    /// Returns `None` if the string is not a keyword.
    pub fn keyword(s: &str) -> (r: Option<Token>)
        ensures
            r == keyword_token(s@),
    {
        if str_eq(s, "module") {
            Some(Token::Module)
        } else if str_eq(s, "where") {
            Some(Token::Where)
        } else if str_eq(s, "import") {
            Some(Token::Import)
        } else if str_eq(s, "as") {
            Some(Token::As)
        } else if str_eq(s, "exposing") {
            Some(Token::Exposing)
        } else if str_eq(s, "type") {
            Some(Token::Type)
        } else if str_eq(s, "alias") {
            Some(Token::Alias)
        } else if str_eq(s, "port") {
            Some(Token::Port)
        } else if str_eq(s, "effect") {
            Some(Token::Effect)
        } else if str_eq(s, "if") {
            Some(Token::If)
        } else if str_eq(s, "then") {
            Some(Token::Then)
        } else if str_eq(s, "else") {
            Some(Token::Else)
        } else if str_eq(s, "case") {
            Some(Token::Case)
        } else if str_eq(s, "of") {
            Some(Token::Of)
        } else if str_eq(s, "let") {
            Some(Token::Let)
        } else if str_eq(s, "in") {
            Some(Token::In)
        } else if str_eq(s, "infix") {
            Some(Token::Infix)
        } else if str_eq(s, "left") {
            Some(Token::Left)
        } else if str_eq(s, "right") {
            Some(Token::Right)
        } else if str_eq(s, "non") {
            Some(Token::Non)
        } else {
            None
        }
    }

    /// Returns `true` if this token is a comment.
    pub fn is_comment(&self) -> (r: bool)
        ensures
            r == (self is LineComment || self is BlockComment || self is DocComment),
    {
        match self {
            Token::LineComment(_) | Token::BlockComment(_) | Token::DocComment(_) => true,
            _ => false,
        }
    }

    /// Returns `true` if this token is whitespace or a newline.
    pub fn is_whitespace(&self) -> (r: bool)
        ensures
            r == (self is Newline),
    {
        match self {
            Token::Newline => true,
            _ => false,
        }
    }
}

/// A keyword looked up by `keyword` spells that keyword back: every keyword
/// token is produced by exactly one spelling, and identifiers that are not
/// keywords give `None`.
pub proof fn keyword_lookup_is_injective(s: Seq<char>, t: Seq<char>)
    requires
        keyword_token(s) is Some,
        keyword_token(s) == keyword_token(t),
    ensures
        s == t,
{
}

} // verus!
