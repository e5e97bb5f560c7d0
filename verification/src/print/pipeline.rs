//! Operator tables and operator-chain flatteners used by the elm-format
//! layout of pipelines (`|>` / `|.` / `|=`), right-associative cons/append
//! chains (`::` / `++`), composition (`>>` / `<<`) and mixed logical,
//! arithmetic and comparison chains.

use vstd::prelude::*;

use super::multiline::expr_multiline;
use crate::expr::Expr;
use crate::node::Spanned;
use crate::text::str_eq;

verus! {

/// The precedence of a binary operator (unknown operators bind tightest).
pub open spec fn precedence(op: Seq<char>) -> u8 {
    if op == "<|"@ || op == "|>"@ {
        0
    } else if op == "||"@ {
        2
    } else if op == "&&"@ {
        3
    } else if op == "=="@ || op == "/="@ || op == "<"@ || op == ">"@ || op == "<="@ || op == ">="@ {
        4
    } else if op == "::"@ || op == "++"@ {
        5
    } else if op == "+"@ || op == "-"@ {
        6
    } else if op == "*"@ || op == "/"@ || op == "//"@ {
        7
    } else if op == "^"@ {
        8
    } else {
        9
    }
}

/// The right-associative operators.
pub open spec fn right_assoc(op: Seq<char>) -> bool {
    op == "<|"@ || op == "||"@ || op == "&&"@ || op == "::"@ || op == "++"@ || op == "^"@ || op
        == ">>"@
}

/// The families of operators that form one chain in elm-format layout.
#[derive(Clone, Copy, PartialEq, Eq, Structural)]
pub enum ChainKind {
    /// `|>`, `|.`, `|=`
    Pipe,
    /// `::`, `++`
    ConsAppend,
    /// `&&`, `||`
    Logical,
    /// `+`, `-`, `*`, `/`, `//`
    Arithmetic,
    /// comparisons and arithmetic operators together
    ComparisonArithmetic,
}

pub open spec fn is_arithmetic(op: Seq<char>) -> bool {
    op == "+"@ || op == "-"@ || op == "*"@ || op == "/"@ || op == "//"@
}

pub open spec fn is_comparison(op: Seq<char>) -> bool {
    op == "=="@ || op == "/="@ || op == "<"@ || op == ">"@ || op == "<="@ || op == ">="@
}

/// Whether `op` belongs to the chain family `kind`.
pub open spec fn in_chain(kind: ChainKind, op: Seq<char>) -> bool {
    match kind {
        ChainKind::Pipe => op == "|>"@ || op == "|."@ || op == "|="@,
        ChainKind::ConsAppend => op == "::"@ || op == "++"@,
        ChainKind::Logical => op == "&&"@ || op == "||"@,
        ChainKind::Arithmetic => is_arithmetic(op),
        ChainKind::ComparisonArithmetic => is_comparison(op) || is_arithmetic(op),
    }
}

pub fn op_precedence(op: &str) -> (p: u8)
    ensures
        p == precedence(op@),
{
    if str_eq(op, "<|") || str_eq(op, "|>") {
        0
    } else if str_eq(op, "||") {
        2
    } else if str_eq(op, "&&") {
        3
    } else if str_eq(op, "==") || str_eq(op, "/=") || str_eq(op, "<") || str_eq(op, ">") || str_eq(op, "<=")
        || str_eq(op, ">=") {
        4
    } else if str_eq(op, "::") || str_eq(op, "++") {
        5
    } else if str_eq(op, "+") || str_eq(op, "-") {
        6
    } else if str_eq(op, "*") || str_eq(op, "/") || str_eq(op, "//") {
        7
    } else if str_eq(op, "^") {
        8
    } else {
        9
    }
}

pub fn is_right_assoc(op: &str) -> (r: bool)
    ensures
        r == right_assoc(op@),
{
    str_eq(op, "<|") || str_eq(op, "||") || str_eq(op, "&&") || str_eq(op, "::") || str_eq(op, "++")
        || str_eq(op, "^") || str_eq(op, ">>")
}

pub fn is_chain_op(kind: ChainKind, op: &str) -> (r: bool)
    ensures
        r == in_chain(kind, op@),
{
    match kind {
        ChainKind::Pipe => str_eq(op, "|>") || str_eq(op, "|.") || str_eq(op, "|="),
        ChainKind::ConsAppend => str_eq(op, "::") || str_eq(op, "++"),
        ChainKind::Logical => str_eq(op, "&&") || str_eq(op, "||"),
        ChainKind::Arithmetic => str_eq(op, "+") || str_eq(op, "-") || str_eq(op, "*") || str_eq(op, "/")
            || str_eq(op, "//"),
        ChainKind::ComparisonArithmetic => str_eq(op, "==") || str_eq(op, "/=") || str_eq(op, "<")
            || str_eq(op, ">") || str_eq(op, "<=") || str_eq(op, ">=") || str_eq(op, "+") || str_eq(op, "-")
            || str_eq(op, "*") || str_eq(op, "/") || str_eq(op, "//"),
    }
}

/// `e` is an operator application whose operator is in the family `kind`.
pub open spec fn is_chain_app(kind: ChainKind, e: Expr) -> bool {
    e matches Expr::OperatorApplication { operator, .. } && in_chain(kind, operator@)
}

/// A flattened chain: the first operand and the `(operator, operand)` pairs
/// that follow it.
pub type Chain<'a> = (&'a Spanned<Expr>, Vec<(&'a str, &'a Spanned<Expr>)>);

/// The operands of a flattened chain of `e` all lie strictly inside `e`,
/// its operators all belong to `kind`, and it has at least one step.
pub open spec fn chain_of(kind: ChainKind, e: Expr, head: Spanned<Expr>, rest: Seq<(&str, &Spanned<Expr>)>) -> bool {
    &&& decreases_to!(e => head.value)
    &&& rest.len() > 0
    &&& forall|i: int| 0 <= i < rest.len() ==> decreases_to!(e => rest[i].1.value)
    &&& forall|i: int| 0 <= i < rest.len() ==> #[trigger] in_chain(kind, rest[i].0@)
    &&& ml_within(e, head.value)
    &&& forall|i: int| 0 <= i < rest.len() ==> ml_within(e, #[trigger] rest[i].1.value)
}

/// When `x` prints on several lines, so does `e` (in either layout): `x` is
/// an operand somewhere inside the operator application `e`.
pub open spec fn ml_within(e: Expr, x: Expr) -> bool {
    &&& expr_multiline(x, true) ==> expr_multiline(e, true)
    &&& expr_multiline(x, false) ==> expr_multiline(e, false)
}

proof fn lemma_operands_within(e: Expr)
    requires
        e is OperatorApplication,
    ensures
        e matches Expr::OperatorApplication { left, right, .. } && ml_within(e, left.value) && ml_within(
            e,
            right.value,
        ),
{
}

proof fn lemma_decreases_trans(a: Expr, b: Expr, c: Expr)
    requires
        decreases_to!(a => b),
        decreases_to!(b => c),
    ensures
        decreases_to!(a => c),
{
}

/// Flatten a left-nested chain: `((a op b) op c)` gives `a` and
/// `[(op, b), (op, c)]`, descending only through left operands.
pub fn flatten_left_chain<'a>(kind: ChainKind, e: &'a Expr) -> (r: Option<Chain<'a>>)
    ensures
        r is Some <==> is_chain_app(kind, *e),
        r matches Some((h, t)) ==> chain_of(kind, *e, *h, t@),
    decreases e,
{
    match e {
        Expr::OperatorApplication { operator, left, right, .. } => {
            if !is_chain_op(kind, operator.as_str()) {
                return None;
            }
            proof {
                lemma_operands_within(*e);
            }
            let (head, mut tail) = match flatten_left_chain(kind, &left.value) {
                Some((h, t)) => {
                    proof {
                        lemma_decreases_trans(*e, left.value, h.value);
                        assert forall|i: int| 0 <= i < t@.len() implies decreases_to!(*e => t@[i].1.value) by {
                            lemma_decreases_trans(*e, left.value, t@[i].1.value);
                        }
                        assert forall|i: int| 0 <= i < t@.len() implies ml_within(*e, #[trigger] t@[i].1.value) by {
                            assert(ml_within(left.value, t@[i].1.value));
                        }
                    }
                    (h, t)
                },
                None => (&**left, Vec::new()),
            };
            tail.push((operator.as_str(), &**right));
            Some((head, tail))
        },
        _ => None,
    }
}

/// Flatten a right-nested chain of one operator: `a op (b op c)` gives
/// `[a, b, c]`.
pub fn flatten_right_assoc_chain<'a>(e: &'a Expr, target_op: &str) -> (r: Option<Vec<&'a Spanned<Expr>>>)
    ensures
        r is Some <==> (*e matches Expr::OperatorApplication { operator, .. } && operator@ == target_op@),
        r matches Some(v) ==> v@.len() >= 2 && forall|i: int| 0 <= i < v@.len() ==> decreases_to!(*e => v@[i].value),
        r matches Some(v) ==> forall|i: int| 0 <= i < v@.len() ==> ml_within(*e, #[trigger] v@[i].value),
    decreases e,
{
    match e {
        Expr::OperatorApplication { operator, left, right, .. } => {
            if !str_eq(operator.as_str(), target_op) {
                return None;
            }
            proof {
                lemma_operands_within(*e);
            }
            let mut chain: Vec<&'a Spanned<Expr>> = Vec::new();
            chain.push(&**left);
            match flatten_right_assoc_chain(&right.value, target_op) {
                Some(rest) => {
                    let mut i: usize = 0;
                    while i < rest.len()
                        invariant
                            i <= rest@.len(),
                            chain@.len() == i + 1,
                            forall|k: int| 0 <= k < rest@.len() ==> decreases_to!(right.value => rest@[k].value),
                            *e matches Expr::OperatorApplication { left: l, right: r, .. } && l == left && r == right,
                            forall|k: int| 0 <= k < chain@.len() ==> decreases_to!(*e => chain@[k].value),
                            ml_within(*e, right.value),
                            forall|k: int| 0 <= k < rest@.len() ==> ml_within(right.value, #[trigger] rest@[k].value),
                            forall|k: int| 0 <= k < chain@.len() ==> ml_within(*e, #[trigger] chain@[k].value),
                        decreases rest@.len() - i,
                    {
                        proof {
                            lemma_decreases_trans(*e, right.value, rest@[i as int].value);
                        }
                        chain.push(rest[i]);
                        i = i + 1;
                    }
                },
                None => chain.push(&**right),
            }
            Some(chain)
        },
        _ => None,
    }
}

/// Flatten a chain whose operators belong to `kind`, descending through
/// both operands: every operator of the chain, whatever its grouping,
/// appears once, in source order.
pub fn flatten_bidir_chain<'a>(kind: ChainKind, e: &'a Expr) -> (r: Option<Chain<'a>>)
    ensures
        r is Some <==> is_chain_app(kind, *e),
        r matches Some((h, t)) ==> chain_of(kind, *e, *h, t@),
    decreases e,
{
    match e {
        Expr::OperatorApplication { operator, left, right, .. } => {
            if !is_chain_op(kind, operator.as_str()) {
                return None;
            }
            proof {
                lemma_operands_within(*e);
            }
            let (lhead, mut rest) = match flatten_bidir_chain(kind, &left.value) {
                Some((h, t)) => {
                    proof {
                        lemma_decreases_trans(*e, left.value, h.value);
                        assert forall|i: int| 0 <= i < t@.len() implies decreases_to!(*e => t@[i].1.value) by {
                            lemma_decreases_trans(*e, left.value, t@[i].1.value);
                        }
                        assert forall|i: int| 0 <= i < t@.len() implies ml_within(*e, #[trigger] t@[i].1.value) by {
                            assert(ml_within(left.value, t@[i].1.value));
                        }
                    }
                    (h, t)
                },
                None => (&**left, Vec::new()),
            };
            match flatten_bidir_chain(kind, &right.value) {
                Some((rhead, rrest)) => {
                    proof {
                        lemma_decreases_trans(*e, right.value, rhead.value);
                    }
                    rest.push((operator.as_str(), rhead));
                    let mut i: usize = 0;
                    while i < rrest.len()
                        invariant
                            i <= rrest@.len(),
                            rest@.len() > 0,
                            forall|k: int| 0 <= k < rrest@.len() ==> decreases_to!(right.value => rrest@[k].1.value),
                            forall|k: int| 0 <= k < rrest@.len() ==> #[trigger] in_chain(kind, rrest@[k].0@),
                            *e matches Expr::OperatorApplication { left: l, right: r, .. } && l == left && r == right,
                            forall|k: int| 0 <= k < rest@.len() ==> decreases_to!(*e => rest@[k].1.value),
                            forall|k: int| 0 <= k < rest@.len() ==> #[trigger] in_chain(kind, rest@[k].0@),
                            ml_within(*e, right.value),
                            forall|k: int| 0 <= k < rrest@.len() ==> ml_within(right.value, #[trigger] rrest@[k].1.value),
                            forall|k: int| 0 <= k < rest@.len() ==> ml_within(*e, #[trigger] rest@[k].1.value),
                        decreases rrest@.len() - i,
                    {
                        proof {
                            lemma_decreases_trans(*e, right.value, rrest@[i as int].1.value);
                        }
                        rest.push(rrest[i]);
                        i = i + 1;
                    }
                },
                None => {
                    rest.push((operator.as_str(), &**right));
                },
            }
            Some((lhead, rest))
        },
        _ => None,
    }
}

/// Flatten a right-nested `::` / `++` chain: `a :: b ++ c` gives `a` and
/// `[("::", b), ("++", c)]`.
pub fn flatten_mixed_cons_append_chain<'a>(e: &'a Expr) -> (r: Option<Chain<'a>>)
    ensures
        r is Some <==> is_chain_app(ChainKind::ConsAppend, *e),
        r matches Some((h, t)) ==> chain_of(ChainKind::ConsAppend, *e, *h, t@),
    decreases e,
{
    match e {
        Expr::OperatorApplication { operator, left, right, .. } => {
            if !is_chain_op(ChainKind::ConsAppend, operator.as_str()) {
                return None;
            }
            proof {
                lemma_operands_within(*e);
            }
            let mut rest: Vec<(&'a str, &'a Spanned<Expr>)> = Vec::new();
            match flatten_mixed_cons_append_chain(&right.value) {
                Some((head, rest_r)) => {
                    proof {
                        lemma_decreases_trans(*e, right.value, head.value);
                    }
                    rest.push((operator.as_str(), head));
                    let mut i: usize = 0;
                    while i < rest_r.len()
                        invariant
                            i <= rest_r@.len(),
                            rest@.len() > 0,
                            forall|k: int| 0 <= k < rest_r@.len() ==> decreases_to!(right.value => rest_r@[k].1.value),
                            forall|k: int| 0 <= k < rest_r@.len() ==> #[trigger] in_chain(ChainKind::ConsAppend, rest_r@[k].0@),
                            *e matches Expr::OperatorApplication { right: r, .. } && r == right,
                            forall|k: int| 0 <= k < rest@.len() ==> decreases_to!(*e => rest@[k].1.value),
                            forall|k: int| 0 <= k < rest@.len() ==> #[trigger] in_chain(ChainKind::ConsAppend, rest@[k].0@),
                            ml_within(*e, right.value),
                            forall|k: int| 0 <= k < rest_r@.len() ==> ml_within(right.value, #[trigger] rest_r@[k].1.value),
                            forall|k: int| 0 <= k < rest@.len() ==> ml_within(*e, #[trigger] rest@[k].1.value),
                        decreases rest_r@.len() - i,
                    {
                        proof {
                            lemma_decreases_trans(*e, right.value, rest_r@[i as int].1.value);
                        }
                        rest.push(rest_r[i]);
                        i = i + 1;
                    }
                },
                None => {
                    rest.push((operator.as_str(), &**right));
                },
            }
            Some((&**left, rest))
        },
        _ => None,
    }
}

/// The operator of an operator application.
pub open spec fn top_operator(e: Expr) -> Seq<char> {
    match e {
        Expr::OperatorApplication { operator, .. } => operator@,
        _ => Seq::empty(),
    }
}

/// `a` belongs to the chain family of `b`: cons/append, logical,
/// arithmetic, or the same operator.
pub open spec fn same_family(a: Seq<char>, b: Seq<char>) -> bool {
    ||| in_chain(ChainKind::ConsAppend, a) && in_chain(ChainKind::ConsAppend, b)
    ||| in_chain(ChainKind::Logical, a) && in_chain(ChainKind::Logical, b)
    ||| in_chain(ChainKind::Arithmetic, a) && in_chain(ChainKind::Arithmetic, b)
    ||| a == b
}

/// `e` is an operator application whose top operator starts a chain:
/// cons/append, logical, arithmetic or composition.
pub open spec fn flattens_as_chain(e: Expr) -> bool {
    e matches Expr::OperatorApplication { operator, .. } && (in_chain(ChainKind::ConsAppend, operator@) || in_chain(
        ChainKind::Logical,
        operator@,
    ) || in_chain(ChainKind::Arithmetic, operator@) || operator@ == ">>"@ || operator@ == "<<"@)
}

/// Flatten `e` as whichever chain its top operator starts: cons/append,
/// logical, arithmetic or composition.
pub fn flatten_as_chain<'a>(e: &'a Expr) -> (r: Option<Chain<'a>>)
    ensures
        r is Some <==> flattens_as_chain(*e),
        r matches Some((h, t)) ==> decreases_to!(*e => h.value) && forall|i: int|
            0 <= i < t@.len() ==> decreases_to!(*e => t@[i].1.value),
        r matches Some((h, t)) ==> t@.len() > 0 && ml_within(*e, h.value) && forall|i: int|
            0 <= i < t@.len() ==> ml_within(*e, #[trigger] t@[i].1.value) && same_family(
                t@[i].0@,
                top_operator(*e),
            ),
{
    match e {
        Expr::OperatorApplication { operator, .. } => {
            let op = operator.as_str();
            if is_chain_op(ChainKind::ConsAppend, op) {
                flatten_mixed_cons_append_chain(e)
            } else if is_chain_op(ChainKind::Logical, op) {
                flatten_bidir_chain(ChainKind::Logical, e)
            } else if is_chain_op(ChainKind::Arithmetic, op) {
                flatten_bidir_chain(ChainKind::Arithmetic, e)
            } else if str_eq(op, ">>") || str_eq(op, "<<") {
                match flatten_right_assoc_chain(e, op) {
                    Some(chain) => {
                        let first = chain[0];
                        let mut rest: Vec<(&'a str, &'a Spanned<Expr>)> = Vec::new();
                        let mut i: usize = 1;
                        while i < chain.len()
                            invariant
                                1 <= i <= chain@.len(),
                                forall|k: int| 0 <= k < chain@.len() ==> decreases_to!(*e => chain@[k].value),
                                forall|k: int| 0 <= k < rest@.len() ==> decreases_to!(*e => rest@[k].1.value),
                                forall|k: int| 0 <= k < chain@.len() ==> ml_within(*e, #[trigger] chain@[k].value),
                                rest@.len() == i - 1,
                                forall|k: int|
                                    0 <= k < rest@.len() ==> ml_within(*e, #[trigger] rest@[k].1.value) && rest@[k].0@
                                        == op@,
                                op@ == top_operator(*e),
                            decreases chain@.len() - i,
                        {
                            rest.push((op, chain[i]));
                            i = i + 1;
                        }
                        Some((first, rest))
                    },
                    None => None,
                }
            } else {
                None
            }
        },
        _ => None,
    }
}

} // verus!
