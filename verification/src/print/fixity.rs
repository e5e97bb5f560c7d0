//! How operator applications are parenthesized, stated against the
//! fixities that Elm declares for its core operators.

use vstd::prelude::*;

use super::exprs::{simple_operand_text, simple_operator_text, simple_text};
use super::pipeline::{precedence, right_assoc};
use crate::expr::Expr;

verus! {

/// The operators that Elm declares `infixl`, with `-` among them.
pub open spec fn left_assoc_arith(op: Seq<char>) -> bool {
    op == seq!['+'] || op == seq!['-'] || op == seq!['*'] || op == seq!['/'] || op == seq!['/', '/']
}

/// Law: the right operand of a left-associative operator that is an
/// application of the same operator is printed in parentheses, so that
/// `a - (b - c)` never reads back as `(a - b) - c`. Whenever the
/// application prints on one line, its text is the left operand, the
/// operator, and the right operand's own text in parentheses.
pub proof fn law_left_assoc_right_operand_parenthesized(e: Expr, pretty: bool)
    requires
        e is OperatorApplication,
        left_assoc_arith(e->operator@),
        e->right.value is OperatorApplication,
        e->right.value->operator@ == e->operator@,
        simple_text(e, pretty) is Some,
    ensures
        simple_text(e->right.value, pretty) is Some,
        simple_operand_text(e->left.value, e->operator@, true, pretty) is Some,
        simple_text(e, pretty)->0 == simple_operand_text(e->left.value, e->operator@, true, pretty)->0 + seq![' ']
            + e->operator@ + seq![' ', '('] + simple_text(e->right.value, pretty)->0 + seq![')'],
{
    let op = e->operator@;
    reveal_strlit("<|");
    reveal_strlit("||");
    reveal_strlit("&&");
    reveal_strlit("::");
    reveal_strlit("++");
    reveal_strlit("^");
    reveal_strlit(">>");
    assert("<|"@ =~= seq!['<', '|']);
    assert("||"@ =~= seq!['|', '|']);
    assert("&&"@ =~= seq!['&', '&']);
    assert("::"@ =~= seq![':', ':']);
    assert("++"@ =~= seq!['+', '+']);
    assert("^"@ =~= seq!['^']);
    assert(">>"@ =~= seq!['>', '>']);
    assert(op.len() == 1 || op[1] == '/');
    assert(op[0] == '+' || op[0] == '-' || op[0] == '*' || op[0] == '/');
    assert(op != "<|"@ && op != "||"@ && op != "&&"@ && op != "::"@ && op != ">>"@ && op != "^"@);
    assert(op != "++"@) by {
        if op == "++"@ {
            assert(op[1] == '+');
        }
    }
    assert(!right_assoc(op));
    assert(op != "<|"@);
    assert(simple_text(e, pretty) == simple_operator_text(e, pretty));
    let r = simple_operand_text(e->right.value, op, false, pretty);
    assert(r == match simple_text(e->right.value, pretty) {
        Some(t) => Some(seq!['('] + t + seq![')']),
        None => None,
    });
    assert(simple_text(e, pretty) == match (simple_operand_text(e->left.value, op, true, pretty), r) {
        (Some(a), Some(b)) => Some(a + seq![' '] + op + seq![' '] + b),
        _ => None,
    });
    let a = simple_operand_text(e->left.value, op, true, pretty)->0;
    let t = simple_text(e->right.value, pretty)->0;
    assert(simple_text(e, pretty)->0 =~= a + seq![' '] + op + seq![' ', '('] + t + seq![')']);
}

/// The fixity that Elm's core libraries declare for their operators: the
/// precedence, and whether the operator groups to the right (`infix
/// right`); comparisons are non-associative and group like `infix left`
/// here.
pub open spec fn elm_core_fixity(op: Seq<char>) -> Option<(nat, bool)> {
    if op == seq!['<', '|'] {
        Some((0, true))
    } else if op == seq!['|', '>'] {
        Some((0, false))
    } else if op == seq!['|', '|'] {
        Some((2, true))
    } else if op == seq!['&', '&'] {
        Some((3, true))
    } else if op == seq!['=', '='] || op == seq!['/', '='] || op == seq!['<'] || op == seq!['>'] || op == seq![
        '<',
        '=',
    ] || op == seq!['>', '='] {
        Some((4, false))
    } else if op == seq![':', ':'] || op == seq!['+', '+'] {
        Some((5, true))
    } else if op == seq!['+'] || op == seq!['-'] {
        Some((6, false))
    } else if op == seq!['*'] || op == seq!['/'] || op == seq!['/', '/'] {
        Some((7, false))
    } else if op == seq!['^'] {
        Some((8, true))
    } else if op == seq!['<', '<'] {
        Some((9, false))
    } else if op == seq!['>', '>'] {
        Some((9, true))
    } else {
        None
    }
}

/// Whether an application of `child` as the operand of `parent` on the
/// given side must be parenthesized to read back as the same tree under
/// Elm's fixities.
pub open spec fn elm_operand_needs_parens(parent: Seq<char>, child: Seq<char>, is_left: bool) -> bool {
    let (pp, right) = elm_core_fixity(parent)->0;
    let (cp, _) = elm_core_fixity(child)->0;
    cp < pp || (cp == pp && (if is_left {
        right
    } else {
        !right
    }))
}

/// The operator tables agree with Elm's fixities on its core operators.
proof fn lemma_core_fixity(op: Seq<char>)
    requires
        elm_core_fixity(op) is Some,
    ensures
        elm_core_fixity(op) == Some((precedence(op) as nat, right_assoc(op))),
{
    reveal_strlit("<|");
    reveal_strlit("|>");
    reveal_strlit("||");
    reveal_strlit("&&");
    reveal_strlit("==");
    reveal_strlit("/=");
    reveal_strlit("<");
    reveal_strlit(">");
    reveal_strlit("<=");
    reveal_strlit(">=");
    reveal_strlit("::");
    reveal_strlit("++");
    reveal_strlit("+");
    reveal_strlit("-");
    reveal_strlit("*");
    reveal_strlit("/");
    reveal_strlit("//");
    reveal_strlit("^");
    reveal_strlit(">>");
    assert("<|"@ =~= seq!['<', '|']);
    assert("|>"@ =~= seq!['|', '>']);
    assert("||"@ =~= seq!['|', '|']);
    assert("&&"@ =~= seq!['&', '&']);
    assert("=="@ =~= seq!['=', '=']);
    assert("/="@ =~= seq!['/', '=']);
    assert("<"@ =~= seq!['<']);
    assert(">"@ =~= seq!['>']);
    assert("<="@ =~= seq!['<', '=']);
    assert(">="@ =~= seq!['>', '=']);
    assert("::"@ =~= seq![':', ':']);
    assert("++"@ =~= seq!['+', '+']);
    assert("+"@ =~= seq!['+']);
    assert("-"@ =~= seq!['-']);
    assert("*"@ =~= seq!['*']);
    assert("/"@ =~= seq!['/']);
    assert("//"@ =~= seq!['/', '/']);
    assert("^"@ =~= seq!['^']);
    assert(">>"@ =~= seq!['>', '>']);
    assert(op.len() == 1 || op.len() == 2);
    if op.len() == 1 {
        assert(op == seq![op[0]]);
    } else {
        assert(op == seq![op[0], op[1]]);
    }
}

/// Law: an operator application standing as the operand of another
/// operator is parenthesized exactly where Elm's fixities would otherwise
/// group it differently: when it binds less tightly, or equally tightly
/// on the side that the parent does not group (the right operand of
/// `infix left`, the left operand of `infix right`).
pub proof fn law_operand_parens_follow_elm_fixity(x: Expr, parent: Seq<char>, is_left: bool, pretty: bool)
    requires
        x is OperatorApplication,
        elm_core_fixity(parent) is Some,
        elm_core_fixity(x->operator@) is Some,
    ensures
        simple_operand_text(x, parent, is_left, pretty) == match simple_text(x, pretty) {
            Some(t) => Some(if elm_operand_needs_parens(parent, x->operator@, is_left) {
                seq!['('] + t + seq![')']
            } else {
                t
            }),
            None => None,
        },
{
    lemma_core_fixity(parent);
    lemma_core_fixity(x->operator@);
}

/// `t`, in parentheses where `paren`.
pub open spec fn parens_if(t: Seq<char>, paren: bool) -> Seq<char> {
    if paren {
        seq!['('] + t + seq![')']
    } else {
        t
    }
}

/// Law: an application of a core operator (other than `<|`) whose
/// operands are applications of core operators prints, when it fits on
/// one line, as its left operand, the operator and its right operand,
/// each operand in parentheses exactly where Elm's fixities call for them,
/// so that the text reads back as the same tree.
pub proof fn law_operator_tree_text(e: Expr, pretty: bool)
    requires
        e is OperatorApplication,
        elm_core_fixity(e->operator@) is Some,
        e->operator@ != seq!['<', '|'],
        e->left.value is OperatorApplication,
        elm_core_fixity(e->left.value->operator@) is Some,
        e->right.value is OperatorApplication,
        elm_core_fixity(e->right.value->operator@) is Some,
        simple_text(e, pretty) is Some,
    ensures
        simple_text(e->left.value, pretty) is Some,
        simple_text(e->right.value, pretty) is Some,
        simple_text(e, pretty)->0 == parens_if(
            simple_text(e->left.value, pretty)->0,
            elm_operand_needs_parens(e->operator@, e->left.value->operator@, true),
        ) + seq![' '] + e->operator@ + seq![' '] + parens_if(
            simple_text(e->right.value, pretty)->0,
            elm_operand_needs_parens(e->operator@, e->right.value->operator@, false),
        ),
{
    let op = e->operator@;
    reveal_strlit("<|");
    assert("<|"@ =~= seq!['<', '|']);
    law_operand_parens_follow_elm_fixity(e->left.value, op, true, pretty);
    law_operand_parens_follow_elm_fixity(e->right.value, op, false, pretty);
    assert(simple_text(e, pretty) == simple_operator_text(e, pretty));
    assert(simple_text(e, pretty) == match (
        simple_operand_text(e->left.value, op, true, pretty),
        simple_operand_text(e->right.value, op, false, pretty),
    ) {
        (Some(a), Some(b)) => Some(a + seq![' '] + op + seq![' '] + b),
        _ => None,
    });
}

} // verus!
