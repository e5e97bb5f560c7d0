//! Printing of expressions.
//!
//! Every writer here only appends to the output and leaves the printer's
//! indentation state, chain flag and span stack as it found them. The
//! writers call each other on the same expression in a fixed order
//! (operand, application, atomic, dispatch), so their termination measure
//! is the expression together with a rank that depends on its kind.

use vstd::prelude::*;

use super::literals::{contains_char, literal_text};
use super::patterns::{pattern_args_text, pattern_atomic_text, pattern_text};
use super::type_layout::{content_multi, signature_line};
use super::types::qualified_name;
use super::multiline::{
    any_multiline, any_setter_multiline, broke_line, expr_multiline, is_pipe_op, seq_spans_multi, spans_cross,
    spans_cross_lines, spans_multi_lines, vertical_container,
};
use super::pipeline::{
    flatten_as_chain, flattens_as_chain, flatten_bidir_chain, flatten_left_chain, flatten_mixed_cons_append_chain,
    flatten_right_assoc_chain, in_chain, is_chain_app, is_chain_op, is_right_assoc, ml_within, op_precedence, precedence,
    right_assoc, ChainKind,
};
use super::{
    aligned_columns, bump_level, column_of, copy_stack, lemma_column_after_nl, lemma_prefix_trans, next_stop, spaces,
    stop_columns, Printer,
};
use super::multiline::{lemma_broke_line_earlier, lemma_broke_line_kept};
use super::comments::comment_text;
use crate::comment::Comment;
use crate::expr::{CaseBranch, Expr, FunctionImplementation, LetDeclaration, RecordSetter};
use crate::literal::Literal;
use crate::node::Spanned;
use crate::pattern::Pattern;
use crate::span::Span;
use crate::text::{chars_of, str_eq};

verus! {

broadcast use super::group_text_growth;

/// Expressions that never need parentheses.
pub open spec fn naturally_atomic(e: Expr) -> bool {
    match e {
        Expr::Unit | Expr::Literal(_) | Expr::FunctionOrValue { .. } | Expr::PrefixOperator(_)
        | Expr::Parenthesized(_) | Expr::Tuple(_) | Expr::List(_) | Expr::Record(_)
        | Expr::RecordUpdate { .. } | Expr::RecordAccess { .. } | Expr::RecordAccessFunction(_)
        | Expr::GLSLExpression(_) => true,
        _ => false,
    }
}

/// Block expressions: `if`, `case`, `let` and lambdas.
pub open spec fn is_block(e: Expr) -> bool {
    match e {
        Expr::IfElse { .. } | Expr::CaseOf { .. } | Expr::LetIn { .. } | Expr::Lambda { .. } => true,
        _ => false,
    }
}

/// Expressions whose parentheses are kept in operand position: operator
/// applications, operator chains and blocks.
pub open spec fn keeps_parens(e: Expr) -> bool {
    match e {
        Expr::OperatorApplication { .. } | Expr::BinOps { .. } => true,
        _ => is_block(e),
    }
}

/// One layer of parentheses removed.
pub open spec fn without_parens(e: Expr) -> Expr {
    match e {
        Expr::Parenthesized(inner) => inner.value,
        _ => e,
    }
}

/// One layer of parentheses removed unless the inner expression keeps them.
pub open spec fn without_redundant_parens(e: Expr) -> Expr {
    match e {
        Expr::Parenthesized(inner) => if keeps_parens(inner.value) {
            e
        } else {
            inner.value
        },
        _ => e,
    }
}

/// A function application goes one argument per line: it has two or more
/// elements and an argument after the function prints on several lines
/// (in elm-format layout a last multi-line string does not count), or in
/// elm-format layout the source had an argument on a later line than the
/// one before it.
pub open spec fn app_vertical(args: Seq<Spanned<Expr>>, pretty: bool) -> bool {
    args.len() >= 2 && (app_args_multiline(args, pretty) || (pretty && app_source_vertical(args)))
}

/// The last argument is a string literal with a line break in it.
pub open spec fn ends_with_multiline_string(args: Seq<Spanned<Expr>>) -> bool {
    args.len() > 0 && match without_redundant_parens(args.last().value) {
        Expr::Literal(Literal::MultilineString(s)) => s@.contains('\n'),
        _ => false,
    }
}

/// Some argument after the function prints on several lines; in
/// elm-format layout a last multi-line string does not count.
pub open spec fn app_args_multiline(args: Seq<Spanned<Expr>>, pretty: bool) -> bool {
    let end = if pretty && ends_with_multiline_string(args) {
        args.len() - 1
    } else {
        args.len() as int
    };
    exists|k: int| 1 <= k < end && expr_multiline(#[trigger] args[k].value, pretty)
}

/// The source line of the element after `k` starts after the line on
/// which element `k` ends.
pub open spec fn next_on_later_line(args: Seq<Spanned<Expr>>, k: int) -> bool {
    let end = args[k].span.end.line;
    let start = args[k + 1].span.start.line;
    end != 0 && start != 0 && start > end
}

/// Some argument started on a later source line than the one before it
/// ended.
pub open spec fn app_source_vertical(args: Seq<Spanned<Expr>>) -> bool {
    exists|k: int| 0 <= k < args.len() - 1 && #[trigger] next_on_later_line(args, k)
}

/// The text of an expression in atomic position when it needs no layout
/// decision: `()`, literals, names, operators in parentheses, field
/// accessors and GLSL blocks, and what field access, negation, parentheses
/// and applications that stay on one line (with no comments in front of
/// the arguments) build from them. In elm-format layout parentheses around
/// what needs none go. `None` for every other expression.
pub open spec fn simple_atomic_text(e: Expr, pretty: bool) -> Option<Seq<char>>
    decreases e, 0nat,
{
    match e {
        Expr::Unit => Some(seq!['(', ')']),
        Expr::Literal(lit) => Some(literal_text(lit, pretty)),
        Expr::FunctionOrValue { module_name, name } => Some(qualified_name(module_name@, name@)),
        Expr::PrefixOperator(op) => Some(seq!['('] + op@ + seq![')']),
        Expr::RecordAccessFunction(name) => Some(seq!['.'] + name@),
        Expr::GLSLExpression(src) => Some(seq!['[', 'g', 'l', 's', 'l', '|'] + src@ + seq!['|', ']']),
        Expr::RecordAccess { record, field } => match simple_atomic_text(record.value, pretty) {
            Some(t) => Some(t + seq!['.'] + field.value@),
            None => None,
        },
        Expr::Negation(inner) => match simple_atomic_text(inner.value, pretty) {
            Some(t) => Some(seq!['(', '-'] + t + seq![')']),
            None => None,
        },
        Expr::Application(args) => if app_vertical(args@, pretty) {
            None
        } else {
            match simple_args_text(args@, pretty) {
                Some(t) => Some(seq!['('] + t + seq![')']),
                None => None,
            }
        },
        Expr::Tuple(elems) => if any_multiline(elems@, pretty) || (pretty && seq_spans_multi(elems@)) {
            None
        } else {
            match simple_elems_text(elems@, pretty) {
                Some(t) => Some(seq!['(', ' '] + t + seq![' ', ')']),
                None => None,
            }
        },
        Expr::List(elems) => if elems@.len() == 0 {
            Some(seq!['[', ']'])
        } else if pretty || any_multiline(elems@, pretty) {
            None
        } else {
            match simple_elems_text(elems@, pretty) {
                Some(t) => Some(seq!['[', ' '] + t + seq![' ', ']']),
                None => None,
            }
        },
        Expr::Record(fields) => if fields@.len() == 0 {
            Some(seq!['{', '}'])
        } else if any_setter_multiline(fields@, pretty) || (pretty && (seq_spans_multi(fields@) || fields@.len()
            >= 2)) {
            None
        } else {
            match simple_setters_text(fields@, pretty) {
                Some(t) => Some(seq!['{', ' '] + t + seq![' ', '}']),
                None => None,
            }
        },
        Expr::RecordUpdate { base, updates } => if any_setter_multiline(updates@, pretty) || (pretty
            && seq_spans_multi(updates@)) {
            None
        } else {
            match simple_setters_text(updates@, pretty) {
                Some(t) => Some(seq!['{', ' '] + base.value@ + seq![' ', '|', ' '] + t + seq![' ', '}']),
                None => None,
            }
        },
        Expr::Lambda { args, body } => match lambda_parts_text(args@, *body, pretty) {
            Some(t) => if pretty && t.contains('\n') {
                None
            } else {
                Some(seq!['('] + t + seq![')'])
            },
            None => None,
        },
        Expr::Parenthesized(inner) => if pretty && naturally_atomic(inner.value) {
            simple_atomic_text(inner.value, pretty)
        } else if pretty && inner.value is Negation {
            app_level_text(inner.value, pretty)
        } else if pretty && expr_multiline(inner.value, pretty) {
            None
        } else {
            match simple_text(inner.value, pretty) {
                Some(t) => Some(seq!['('] + t + seq![')']),
                None => None,
            }
        },
        _ => None,
    }
}

/// The text of such an expression as a function application, a negation
/// or an atomic expression: a negation and an application need no
/// parentheses here.
pub open spec fn app_level_text(e: Expr, pretty: bool) -> Option<Seq<char>>
    decreases e, 1nat,
{
    match e {
        Expr::Negation(inner) => match simple_atomic_text(inner.value, pretty) {
            Some(t) => Some(seq!['-'] + t),
            None => None,
        },
        Expr::Application(args) => if app_vertical(args@, pretty) {
            None
        } else {
            simple_args_text(args@, pretty)
        },
        _ => simple_atomic_text(e, pretty),
    }
}

/// The text of such an expression anywhere: in elm-format layout one pair
/// of parentheses around what needs none goes first.
pub open spec fn simple_text(e: Expr, pretty: bool) -> Option<Seq<char>>
    decreases e, 2nat,
{
    match e {
        Expr::OperatorApplication { .. } => simple_operator_text(e, pretty),
        Expr::IfElse { .. } => simple_if_text(e, pretty),
        Expr::Lambda { .. } => simple_lambda_text(e, pretty),
        Expr::BinOps { .. } | Expr::CaseOf { .. } | Expr::LetIn { .. } => None,
        Expr::Parenthesized(inner) => if pretty && !keeps_parens(inner.value) {
            app_level_text(inner.value, pretty)
        } else {
            app_level_text(e, pretty)
        },
        _ => app_level_text(e, pretty),
    }
}

/// An operator application on one line, its operands with no comments in
/// front of them: the right operand is not multi-line and, in elm-format
/// layout, neither is the left one nor did the operands sit on different
/// source lines. After `<|` the right side has no parentheses around it;
/// in elm-format layout one pair of its parentheses goes unless it holds a
/// pipeline.
pub open spec fn simple_operator_text(e: Expr, pretty: bool) -> Option<Seq<char>>
    decreases e, 1nat,
{
    match e {
        Expr::OperatorApplication { operator, left, right, .. } => if left.comments@.len() > 0
            || right.comments@.len() > 0 || expr_multiline(right.value, pretty) || (pretty && (expr_multiline(
            left.value,
            pretty,
        ) || spans_cross(left.span, right.span) || is_pipe_op(operator@))) {
            None
        } else {
            let r = if operator@ == "<|"@ {
                match right.value {
                    Expr::Parenthesized(inner) => if pretty && !is_chain_app(ChainKind::Pipe, inner.value) {
                        simple_text(inner.value, pretty)
                    } else {
                        simple_text(right.value, pretty)
                    },
                    _ => simple_text(right.value, pretty),
                }
            } else {
                simple_operand_text(right.value, operator@, false, pretty)
            };
            match (simple_operand_text(left.value, operator@, true, pretty), r) {
                (Some(a), Some(b)) => Some(a + seq![' '] + operator@ + seq![' '] + b),
                _ => None,
            }
        },
        _ => None,
    }
}

/// `if c then a else b` on one line in the compact layout: one arm, no
/// part multi-line, no comments in front of the values; `None` in
/// elm-format layout.
pub open spec fn simple_if_text(e: Expr, pretty: bool) -> Option<Seq<char>>
    decreases e, 1nat,
{
    match e {
        Expr::IfElse { branches, else_branch } => if !pretty && branches@.len() == 1 && !expr_multiline(
            branches@[0].0.value,
            pretty,
        ) && !expr_multiline(branches@[0].1.value, pretty) && !expr_multiline(else_branch.value, pretty)
            && branches@[0].1.comments@.len() == 0 && else_branch.comments@.len() == 0 {
            match (
                simple_text(branches@[0].0.value, pretty),
                simple_text(branches@[0].1.value, pretty),
                simple_text(else_branch.value, pretty),
            ) {
                (Some(c), Some(a), Some(b)) => Some(seq!['i', 'f', ' '] + c + seq![' ', 't', 'h', 'e', 'n', ' '] + a
                    + seq![' ', 'e', 'l', 's', 'e', ' '] + b),
                _ => None,
            }
        } else {
            None
        },
        _ => None,
    }
}

/// A lambda on one line: its body is not multi-line and, in elm-format
/// layout, was not below the arguments in the source.
pub open spec fn simple_lambda_text(e: Expr, pretty: bool) -> Option<Seq<char>>
    decreases e, 1nat,
{
    match e {
        Expr::Lambda { args, body } => lambda_parts_text(args@, *body, pretty),
        _ => None,
    }
}

/// The lambda `\args -> body` on one line, when the body is not
/// multi-line and, in elm-format layout, was not below the arguments in the
/// source.
pub open spec fn lambda_parts_text(args: Seq<Spanned<Pattern>>, body: Spanned<Expr>, pretty: bool) -> Option<
    Seq<char>,
>
    decreases body.value, 3nat,
{
    if expr_multiline(body.value, pretty) || (pretty && args.len() > 0 && args.last().span.end.line != 0
        && body.span.start.line != 0 && body.span.start.line > args.last().span.end.line) {
        None
    } else {
        match simple_text(body.value, pretty) {
            Some(b) => Some(seq!['\\'] + lambda_args_text(args, pretty) + seq![' ', '-', '>', ' '] + b),
            None => None,
        }
    }
}

/// The body of a function as it is written: in elm-format layout without
/// one pair of parentheses.
pub open spec fn written_body(imp: FunctionImplementation, pretty: bool) -> Expr {
    if pretty {
        without_parens(imp.body.value)
    } else {
        imp.body.value
    }
}

/// `name args =` and, on a new line at `cols` columns, the body, when the
/// body has no comments in front of it and is simple.
pub open spec fn simple_function_impl_text(imp: FunctionImplementation, pretty: bool, cols: nat) -> Option<
    Seq<char>,
> {
    if imp.body.comments@.len() > 0 {
        None
    } else {
        match simple_text(written_body(imp, pretty), pretty) {
            Some(t) => Some(imp.name.value@ + pattern_args_text(imp.args@, pretty) + seq![' ', '=', '\n'] + spaces(
                cols,
            ) + t),
            None => None,
        }
    }
}

/// The arguments of a lambda, atomic and separated by spaces.
pub open spec fn lambda_args_text(args: Seq<Spanned<Pattern>>, pretty: bool) -> Seq<char>
    decreases args.len(),
{
    if args.len() == 0 {
        Seq::empty()
    } else if args.len() == 1 {
        pattern_atomic_text(args[0].value, pretty)
    } else {
        lambda_args_text(args.drop_last(), pretty) + seq![' '] + pattern_atomic_text(args.last().value, pretty)
    }
}

/// The right side of `<|` as it is written: with `unwrap`, without one
/// pair of parentheses unless they hold a pipeline.
pub open spec fn left_pipe_right(right: Expr, unwrap: bool) -> Expr {
    match right {
        Expr::Parenthesized(inner) => if unwrap && !is_chain_app(ChainKind::Pipe, inner.value) {
            inner.value
        } else {
            right
        },
        _ => right,
    }
}

proof fn lemma_vertical_not_simple(e: Expr)
    requires
        e is OperatorApplication,
    ensures
        e matches Expr::OperatorApplication { left, right, .. } && (expr_multiline(e, true) || spans_cross(
            left.span,
            right.span,
        )) ==> simple_text(e, true) is None,
{
}

/// The line comments among `cs`, each on a new line at `ic` columns; other
/// comments are left out.
pub open spec fn own_line_comments(cs: Seq<Spanned<Comment>>, ic: nat) -> Seq<char>
    decreases cs.len(),
{
    if cs.len() == 0 {
        Seq::empty()
    } else {
        own_line_comments(cs.drop_last(), ic) + match cs.last().value {
            Comment::Line(t) => seq!['\n'] + spaces(ic) + seq!['-', '-'] + t@,
            _ => Seq::empty(),
        }
    }
}

/// A line break followed by `cols` spaces.
pub open spec fn nl(cols: nat) -> Seq<char> {
    seq!['\n'] + spaces(cols)
}

/// Parts each on a new line at `cols`, the first after `first` and the
/// others after `rest`; `None` when a part has no text.
#[verifier::opaque]
pub open spec fn prefixed_lines(parts: Seq<Option<Seq<char>>>, cols: nat, first: Seq<char>, rest: Seq<char>) -> Option<
    Seq<char>,
>
    decreases parts.len(),
{
    if parts.len() == 0 {
        Some(Seq::empty())
    } else {
        match (prefixed_lines(parts.drop_last(), cols, first, rest), parts.last()) {
            (Some(a), Some(b)) => Some(a + nl(cols) + (if parts.len() == 1 {
                first
            } else {
                rest
            }) + b),
            _ => None,
        }
    }
}

/// Writing the parts one at a time: each prefix of the parts has its text,
/// and the next part adds its own line.
pub proof fn lemma_prefixed_lines_step(
    parts: Seq<Option<Seq<char>>>,
    cols: nat,
    first: Seq<char>,
    rest: Seq<char>,
    i: int,
)
    requires
        prefixed_lines(parts, cols, first, rest) is Some,
        0 <= i < parts.len(),
    ensures
        prefixed_lines(parts.take(i), cols, first, rest) is Some,
        parts[i] is Some,
        prefixed_lines(parts.take(i + 1), cols, first, rest) == Some(
            prefixed_lines(parts.take(i), cols, first, rest)->0 + nl(cols) + (if i == 0 {
                first
            } else {
                rest
            }) + parts[i]->0,
        ),
    decreases parts.len(),
{
    reveal(prefixed_lines);
    if i + 1 < parts.len() {
        lemma_prefixed_lines_step(parts.drop_last(), cols, first, rest, i);
        assert(parts.drop_last().take(i) =~= parts.take(i));
        assert(parts.drop_last().take(i + 1) =~= parts.take(i + 1));
    } else {
        assert(parts.take(i + 1) =~= parts);
        assert(parts.take(i + 1).drop_last() =~= parts.take(i));
    }
}

/// The text of an argument with no comments in front of it.
pub open spec fn plain_arg_text(sp: Spanned<Expr>, pretty: bool) -> Option<Seq<char>> {
    if sp.comments@.len() > 0 {
        None
    } else {
        simple_arg_text(sp.value, pretty)
    }
}

/// The arguments of a function application after the function, each on a
/// line of its own at `cols`; the first stays on the function's line after
/// a space when it was there in the source and is one-line.
pub open spec fn app_args_lines(args: Seq<Spanned<Expr>>, pretty: bool, cols: nat) -> Option<Seq<char>> {
    let first = args[1];
    let inline = args[0].span.end.line != 0 && first.span.start.line != 0 && first.span.start.line
        == args[0].span.end.line && !expr_multiline(first.value, pretty);
    let lead = if inline {
        seq![' ']
    } else {
        nl(cols)
    };
    match (
        plain_arg_text(first, pretty),
        prefixed_lines(
            args.skip(2).map_values(|a: Spanned<Expr>| plain_arg_text(a, pretty)),
            cols,
            Seq::empty(),
            Seq::empty(),
        ),
    ) {
        (Some(a), Some(b)) => Some(lead + a + b),
        _ => None,
    }
}

/// The text of a node with no comments in front of it that is simple.
pub open spec fn plain_text(sp: Spanned<Expr>, pretty: bool) -> Option<Seq<char>> {
    if sp.comments@.len() > 0 {
        None
    } else {
        simple_text(sp.value, pretty)
    }
}

/// `keyword cond then` on one line, or, in elm-format layout when the
/// condition prints on several lines, the keyword, the condition one level
/// in at `inner` columns and `then` on a line of its own at `cols`.
pub open spec fn if_condition_text(keyword: Seq<char>, cond: Spanned<Expr>, pretty: bool, cols: nat, inner: nat) -> Option<
    Seq<char>,
> {
    match simple_text(cond.value, pretty) {
        Some(c) => Some(if pretty && expr_multiline(cond.value, pretty) {
            keyword + nl(inner) + c + nl(cols) + seq!['t', 'h', 'e', 'n']
        } else {
            keyword + seq![' '] + c + seq![' ', 't', 'h', 'e', 'n']
        }),
        None => None,
    }
}

/// A branch body one level in at `inner` columns, then a blank line and a
/// new line at `cols`.
pub open spec fn if_body_text(body: Spanned<Expr>, pretty: bool, cols: nat, inner: nat) -> Option<Seq<char>> {
    match plain_text(body, pretty) {
        Some(b) => Some(nl(inner) + b + seq!['\n'] + nl(cols)),
        None => None,
    }
}

/// `else` and its value one level in at `inner` columns.
pub open spec fn else_text(e: Spanned<Expr>, pretty: bool, inner: nat) -> Option<Seq<char>> {
    match plain_text(e, pretty) {
        Some(b) => Some(seq!['e', 'l', 's', 'e'] + nl(inner) + b),
        None => None,
    }
}

/// One arm of an `if`: the condition after `kw` (laid out as
/// `if_condition_text` with `pretty_keywords`, otherwise on one line) and
/// the body.
#[verifier::opaque]
pub open spec fn arm_text(
    kw: Seq<char>,
    arm: (Spanned<Expr>, Spanned<Expr>),
    pretty: bool,
    pretty_keywords: bool,
    cols: nat,
    inner: nat,
) -> Option<Seq<char>> {
    let c = if pretty_keywords {
        if_condition_text(kw, arm.0, pretty, cols, inner)
    } else {
        match simple_text(arm.0.value, pretty) {
            Some(c) => Some(kw + seq![' '] + c + seq![' ', 't', 'h', 'e', 'n']),
            None => None,
        }
    };
    match (c, if_body_text(arm.1, pretty, cols, inner)) {
        (Some(a), Some(b)) => Some(a + b),
        _ => None,
    }
}

/// The arms of an `if`, the first after `first_kw`, the others after
/// `else if`.
#[verifier::opaque]
pub open spec fn arms_text(
    arms: Seq<(Spanned<Expr>, Spanned<Expr>)>,
    first_kw: Seq<char>,
    pretty: bool,
    pretty_keywords: bool,
    cols: nat,
    inner: nat,
) -> Option<Seq<char>>
    decreases arms.len(),
{
    if arms.len() == 0 {
        Some(Seq::empty())
    } else {
        let kw = if arms.len() == 1 {
            first_kw
        } else {
            seq!['e', 'l', 's', 'e', ' ', 'i', 'f']
        };
        match (
            arms_text(arms.drop_last(), first_kw, pretty, pretty_keywords, cols, inner),
            arm_text(kw, arms.last(), pretty, pretty_keywords, cols, inner),
        ) {
            (Some(a), Some(b)) => Some(a + b),
            _ => None,
        }
    }
}

proof fn lemma_arms_step(
    arms: Seq<(Spanned<Expr>, Spanned<Expr>)>,
    first_kw: Seq<char>,
    pretty: bool,
    pk: bool,
    cols: nat,
    inner: nat,
    i: int,
)
    requires
        arms_text(arms, first_kw, pretty, pk, cols, inner) is Some,
        0 <= i < arms.len(),
    ensures
        arms_text(arms.take(i), first_kw, pretty, pk, cols, inner) is Some,
        arm_text(
            if i == 0 {
                first_kw
            } else {
                seq!['e', 'l', 's', 'e', ' ', 'i', 'f']
            },
            arms[i],
            pretty,
            pk,
            cols,
            inner,
        ) is Some,
        arms_text(arms.take(i + 1), first_kw, pretty, pk, cols, inner) == Some(
            arms_text(arms.take(i), first_kw, pretty, pk, cols, inner)->0 + arm_text(
                if i == 0 {
                    first_kw
                } else {
                    seq!['e', 'l', 's', 'e', ' ', 'i', 'f']
                },
                arms[i],
                pretty,
                pk,
                cols,
                inner,
            )->0,
        ),
    decreases arms.len(),
{
    reveal(arms_text);
    if i + 1 < arms.len() {
        lemma_arms_step(arms.drop_last(), first_kw, pretty, pk, cols, inner, i);
        assert(arms.drop_last().take(i) =~= arms.take(i));
        assert(arms.drop_last().take(i + 1) =~= arms.take(i + 1));
    } else {
        assert(arms.take(i + 1) =~= arms);
        assert(arms.take(i + 1).drop_last() =~= arms.take(i));
    }
}

/// What follows the arms of an `if` in elm-format layout: an `if` in the
/// `else` branch continues as `else if` arms (condition on one line), any
/// other value as `else_text`.
pub open spec fn if_else_tail_text(else_branch: Spanned<Expr>, pretty: bool, cols: nat, inner: nat) -> Option<Seq<char>>
    decreases else_branch.value,
{
    match else_branch.value {
        Expr::IfElse { branches, else_branch: nested } => match (
            arms_text(branches@, seq!['e', 'l', 's', 'e', ' ', 'i', 'f'], pretty, false, cols, inner),
            if_else_tail_text(*nested, pretty, cols, inner),
        ) {
            (Some(a), Some(b)) => Some(a + b),
            _ => None,
        },
        _ => else_text(else_branch, pretty, inner),
    }
}

/// An operand of the operator `parent` on the given side: in parentheses
/// when it is an operator application whose operator binds less tightly,
/// or equally tightly on the side that associativity does not group; in
/// elm-format layout one pair of parentheses around what needs none goes
/// first.
pub open spec fn simple_operand_text(x: Expr, parent: Seq<char>, is_left: bool, pretty: bool) -> Option<Seq<char>>
    decreases x, 3nat,
{
    match x {
        Expr::Parenthesized(inner) => if pretty && !keeps_parens(inner.value) {
            match inner.value {
                Expr::OperatorApplication { .. } => None,
                _ => app_level_text(inner.value, pretty),
            }
        } else {
            app_level_text(x, pretty)
        },
        Expr::OperatorApplication { operator, .. } => {
            let child = precedence(operator@);
            let par = precedence(parent);
            let needs_parens = child < par || (child == par && ((is_left && right_assoc(parent)) || (!is_left
                && !right_assoc(parent))));
            match simple_text(x, pretty) {
                Some(t) => if needs_parens {
                    Some(seq!['('] + t + seq![')'])
                } else {
                    Some(t)
                },
                None => None,
            }
        },
        _ => app_level_text(x, pretty),
    }
}

/// The elements of an application on one line: the function atomic, then
/// each argument after a space (a negation without parentheses); `None`
/// when one of them has comments in front of it or is not simple.
pub open spec fn simple_args_text(args: Seq<Spanned<Expr>>, pretty: bool) -> Option<Seq<char>>
    decreases args, 0nat,
{
    if args.len() == 0 {
        Some(Seq::empty())
    } else if args.len() == 1 {
        simple_atomic_text(args[0].value, pretty)
    } else {
        let last = args.last();
        let arg = if last.value is Negation {
            app_level_text(last.value, pretty)
        } else {
            simple_atomic_text(last.value, pretty)
        };
        match (simple_args_text(args.drop_last(), pretty), arg) {
            (Some(a), Some(b)) => if last.comments@.len() == 0 {
                Some(a + seq![' '] + b)
            } else {
                None
            },
            _ => None,
        }
    }
}

/// The elements of a tuple or list on one line, separated by `, `; `None`
/// when one of them is not simple.
pub open spec fn simple_elems_text(elems: Seq<Spanned<Expr>>, pretty: bool) -> Option<Seq<char>>
    decreases elems, 0nat,
{
    if elems.len() == 0 {
        Some(Seq::empty())
    } else if elems.len() == 1 {
        simple_text(elems[0].value, pretty)
    } else {
        match (simple_elems_text(elems.drop_last(), pretty), simple_text(elems.last().value, pretty)) {
            (Some(a), Some(b)) => Some(a + seq![',', ' '] + b),
            _ => None,
        }
    }
}

proof fn lemma_simple_elems_prefix(elems: Seq<Spanned<Expr>>, pretty: bool, i: int)
    requires
        simple_elems_text(elems, pretty) is Some,
        0 <= i <= elems.len(),
    ensures
        simple_elems_text(elems.take(i), pretty) is Some,
    decreases elems.len(),
{
    if i == elems.len() {
        assert(elems.take(i) =~= elems);
    } else if i == 0 {
    } else {
        lemma_simple_elems_prefix(elems.drop_last(), pretty, i);
        assert(elems.drop_last().take(i) =~= elems.take(i));
    }
}

/// `field = value` on one line: the value is simple, not multi-line, and
/// in elm-format layout neither below the field in the source nor followed
/// by a comment.
pub open spec fn simple_setter_text(st: RecordSetter, pretty: bool) -> Option<Seq<char>>
    decreases st, 0nat,
{
    if expr_multiline(st.value.value, pretty) || (pretty && st.field.span.end.line < st.value.span.start.line) || (
    pretty && st.trailing_comment is Some) {
        None
    } else {
        match simple_text(st.value.value, pretty) {
            Some(t) => Some(st.field.value@ + seq![' ', '=', ' '] + t),
            None => None,
        }
    }
}

/// Record setters on one line, separated by `, `.
pub open spec fn simple_setters_text(fields: Seq<Spanned<RecordSetter>>, pretty: bool) -> Option<Seq<char>>
    decreases fields, 0nat,
{
    if fields.len() == 0 {
        Some(Seq::empty())
    } else if fields.len() == 1 {
        simple_setter_text(fields[0].value, pretty)
    } else {
        match (simple_setters_text(fields.drop_last(), pretty), simple_setter_text(fields.last().value, pretty)) {
            (Some(a), Some(b)) => Some(a + seq![',', ' '] + b),
            _ => None,
        }
    }
}

proof fn lemma_simple_setters_prefix(fields: Seq<Spanned<RecordSetter>>, pretty: bool, i: int)
    requires
        simple_setters_text(fields, pretty) is Some,
        0 <= i <= fields.len(),
    ensures
        simple_setters_text(fields.take(i), pretty) is Some,
    decreases fields.len(),
{
    if i == fields.len() {
        assert(fields.take(i) =~= fields);
    } else if i == 0 {
    } else {
        lemma_simple_setters_prefix(fields.drop_last(), pretty, i);
        assert(fields.drop_last().take(i) =~= fields.take(i));
    }
}

proof fn lemma_commented_setter_not_simple(fields: Seq<Spanned<RecordSetter>>, k: int)
    requires
        0 <= k < fields.len(),
        fields[k].value.trailing_comment is Some,
    ensures
        simple_setters_text(fields, true) is None,
    decreases fields.len(),
{
    if k < fields.len() - 1 {
        assert(fields.drop_last()[k] == fields[k]);
        lemma_commented_setter_not_simple(fields.drop_last(), k);
    } else {
        assert(fields.last() == fields[k]);
        assert(simple_setter_text(fields[k].value, true) is None);
    }
}

/// The text of an argument after the function.
pub open spec fn simple_arg_text(e: Expr, pretty: bool) -> Option<Seq<char>> {
    if e is Negation {
        app_level_text(e, pretty)
    } else {
        simple_atomic_text(e, pretty)
    }
}

proof fn lemma_simple_args_prefix(args: Seq<Spanned<Expr>>, pretty: bool, i: int)
    requires
        simple_args_text(args, pretty) is Some,
        0 <= i <= args.len(),
    ensures
        simple_args_text(args.take(i), pretty) is Some,
    decreases args.len(),
{
    if i == args.len() {
        assert(args.take(i) =~= args);
    } else if i == 0 {
    } else {
        lemma_simple_args_prefix(args.drop_last(), pretty, i);
        assert(args.drop_last().take(i) =~= args.take(i));
    }
}

/// Whether `e` never needs parentheses.
pub fn is_naturally_atomic(e: &Expr) -> (r: bool)
    ensures
        r == naturally_atomic(*e),
{
    match e {
        Expr::Unit | Expr::Literal(_) | Expr::FunctionOrValue { .. } | Expr::PrefixOperator(_)
        | Expr::Parenthesized(_) | Expr::Tuple(_) | Expr::List(_) | Expr::Record(_)
        | Expr::RecordUpdate { .. } | Expr::RecordAccess { .. } | Expr::RecordAccessFunction(_)
        | Expr::GLSLExpression(_) => true,
        _ => false,
    }
}

fn is_block_expr(e: &Expr) -> (r: bool)
    ensures
        r == is_block(*e),
{
    match e {
        Expr::IfElse { .. } | Expr::CaseOf { .. } | Expr::LetIn { .. } | Expr::Lambda { .. } => true,
        _ => false,
    }
}

/// Remove one layer of parentheses.
pub fn unwrap_parens(e: &Expr) -> (r: &Expr)
    ensures
        *r == without_parens(*e),
        *r == *e || decreases_to!(*e => *r),
{
    match e {
        Expr::Parenthesized(inner) => &inner.value,
        _ => e,
    }
}

/// Remove one layer of parentheses around an expression that needs none in
/// operand position.
pub fn unwrap_parens_non_block(e: &Expr) -> (r: &Expr)
    ensures
        *r == without_redundant_parens(*e),
        *r == *e || decreases_to!(*e => *r),
{
    match e {
        Expr::Parenthesized(inner) => {
            let keeps = match &inner.value {
                Expr::OperatorApplication { .. } | Expr::BinOps { .. } => true,
                other => is_block_expr(other),
            };
            if keeps {
                e
            } else {
                &inner.value
            }
        },
        _ => e,
    }
}

/// The kind of an expression for the termination ranks: operator and
/// block expressions, applications and negations, everything else.
pub open spec fn kind_of(e: Expr) -> nat {
    match e {
        Expr::OperatorApplication { .. } | Expr::BinOps { .. } | Expr::IfElse { .. } | Expr::CaseOf {
            ..
        } | Expr::LetIn { .. } | Expr::Lambda { .. } => 0,
        Expr::Application(_) | Expr::Negation(_) => 1,
        _ => 2,
    }
}

pub open spec fn pick(e: Expr, a: nat, b: nat, c: nat) -> nat {
    if kind_of(e) == 0 {
        a
    } else if kind_of(e) == 1 {
        b
    } else {
        c
    }
}

pub open spec fn rank_app(e: Expr) -> nat {
    pick(e, 8, 2, 4)
}

pub open spec fn rank_app_inner(e: Expr) -> nat {
    pick(e, 7, 1, 3)
}

pub open spec fn rank_atomic(e: Expr) -> nat {
    pick(e, 6, 5, 2)
}

pub open spec fn rank_atomic_inner(e: Expr) -> nat {
    pick(e, 5, 4, 1)
}

pub open spec fn rank_inner(e: Expr) -> nat {
    pick(e, 3, 3, 5)
}

proof fn lemma_trans(a: Expr, b: Expr, c: Expr)
    requires
        decreases_to!(a => b),
        decreases_to!(b => c),
    ensures
        decreases_to!(a => c),
{
}

/// The parts one after another; `None` when a part has no text.
#[verifier::opaque]
pub open spec fn concat_parts(parts: Seq<Option<Seq<char>>>) -> Option<Seq<char>>
    decreases parts.len(),
{
    if parts.len() == 0 {
        Some(Seq::empty())
    } else {
        match (concat_parts(parts.drop_last()), parts.last()) {
            (Some(a), Some(b)) => Some(a + b),
            _ => None,
        }
    }
}

/// Writing the parts one at a time: each prefix of the parts has its text,
/// and the next part follows it.
pub proof fn lemma_concat_parts_step(parts: Seq<Option<Seq<char>>>, i: int)
    requires
        concat_parts(parts) is Some,
        0 <= i < parts.len(),
    ensures
        concat_parts(parts.take(i)) is Some,
        parts[i] is Some,
        concat_parts(parts.take(i + 1)) == Some(concat_parts(parts.take(i))->0 + parts[i]->0),
    decreases parts.len(),
{
    reveal(concat_parts);
    if i + 1 < parts.len() {
        lemma_concat_parts_step(parts.drop_last(), i);
        assert(parts.drop_last().take(i) =~= parts.take(i));
        assert(parts.drop_last().take(i + 1) =~= parts.take(i + 1));
    } else {
        assert(parts.take(i + 1) =~= parts);
        assert(parts.take(i + 1).drop_last() =~= parts.take(i));
    }
}

/// No parts have the empty text.
pub proof fn lemma_concat_parts_empty(parts: Seq<Option<Seq<char>>>)
    requires
        parts.len() == 0,
    ensures
        concat_parts(parts) == Some(Seq::<char>::empty()),
{
    reveal(concat_parts);
}

/// One step of a vertical operator chain: with `with_comments`, the
/// operand's line comments on lines of their own, then `op operand` on a
/// new line at `cols`.
#[verifier::opaque]
pub open spec fn chain_step_text(op: Seq<char>, operand: Spanned<Expr>, with_comments: bool, pretty: bool, cols: nat) -> Option<
    Seq<char>,
> {
    match simple_operand_text(operand.value, op, false, pretty) {
        Some(t) => Some((if with_comments {
            own_line_comments(operand.comments@, cols)
        } else {
            Seq::empty()
        }) + nl(cols) + op + seq![' '] + t),
        None => None,
    }
}

/// The steps of a vertical operator chain, one after another.
pub open spec fn chain_steps_text(
    rest: Seq<(&str, &Spanned<Expr>)>,
    with_comments: bool,
    pretty: bool,
    cols: nat,
) -> Option<Seq<char>> {
    concat_parts(rest.map_values(|s: (&str, &Spanned<Expr>)| chain_step_text(s.0@, *s.1, with_comments, pretty, cols)))
}

/// The operands of an unresolved operator chain with each operator on one
/// line: `a op b op c`.
pub open spec fn binops_flat_text(ops: Seq<(Spanned<Expr>, Spanned<String>)>, fin: Spanned<Expr>, pretty: bool) -> Option<
    Seq<char>,
> {
    match (
        concat_parts(
            ops.map_values(
                |o: (Spanned<Expr>, Spanned<String>)|
                    match app_level_text(o.0.value, pretty) {
                        Some(t) => Some(t + seq![' '] + o.1.value@ + seq![' ']),
                        None => None,
                    },
            ),
        ),
        app_level_text(fin.value, pretty),
    ) {
        (Some(a), Some(b)) => Some(a + b),
        _ => None,
    }
}

/// The operand after the `i`-th operator of an unresolved operator chain.
pub open spec fn binops_next(ops: Seq<(Spanned<Expr>, Spanned<String>)>, fin: Spanned<Expr>, i: int) -> Spanned<Expr> {
    if i + 1 < ops.len() {
        ops[i + 1].0
    } else {
        fin
    }
}

/// The steps `op operand` of a vertical unresolved operator chain, each on
/// a new line at `cols`.
pub open spec fn binops_steps_text(
    ops: Seq<(Spanned<Expr>, Spanned<String>)>,
    fin: Spanned<Expr>,
    pretty: bool,
    cols: nat,
) -> Option<Seq<char>> {
    concat_parts(
        Seq::new(
            ops.len(),
            |i: int|
                match app_level_text(binops_next(ops, fin, i).value, pretty) {
                    Some(t) => Some(nl(cols) + ops[i].1.value@ + seq![' '] + t),
                    None => None,
                },
        ),
    )
}

/// Some operand of an unresolved operator chain prints on several lines.
pub open spec fn binops_any_multiline(ops: Seq<(Spanned<Expr>, Spanned<String>)>, fin: Spanned<Expr>, pretty: bool) -> bool {
    (exists|k: int| 0 <= k < ops.len() && expr_multiline(#[trigger] ops[k].0.value, pretty)) || expr_multiline(
        fin.value,
        pretty,
    )
}

/// A declaration inside a `let` at `cols` columns: a one-line signature
/// and then the function on the next line, or a destructuring pattern, `=`
/// and the value one level in at `inner` columns.
pub open spec fn let_decl_text(d: LetDeclaration, pretty: bool, cols: nat, inner: nat) -> Option<Seq<char>> {
    match d {
        LetDeclaration::Function(f) => {
            let sig = match f.signature {
                Some(sig) => if pretty && content_multi(sig.value.type_annotation) {
                    None
                } else {
                    Some(signature_line(sig.value, pretty) + nl(cols))
                },
                None => Some(Seq::empty()),
            };
            match (sig, simple_function_impl_text(f.declaration.value, pretty, inner)) {
                (Some(a), Some(b)) => Some(a + b),
                _ => None,
            }
        },
        LetDeclaration::Destructuring { pattern, body } => match plain_text(body, pretty) {
            Some(t) => Some(pattern_text(pattern.value, pretty) + seq![' ', '='] + nl(inner) + t),
            None => None,
        },
    }
}

/// A `case` branch on a new line at `cols` (after a blank line when
/// `blank` is asked and it is not the first): the pattern, `->` and the
/// body one level in at `inner` columns.
#[verifier::opaque]
pub open spec fn case_branch_text(b: CaseBranch, pretty: bool, first: bool, blank: bool, cols: nat, inner: nat) -> Option<
    Seq<char>,
> {
    if b.pattern.comments@.len() > 0 {
        None
    } else {
        match plain_text(b.body, pretty) {
            Some(t) => Some((if blank && !first {
                seq!['\n']
            } else {
                Seq::empty()
            }) + nl(cols) + pattern_text(b.pattern.value, pretty) + seq![' ', '-', '>'] + nl(inner) + t),
            None => None,
        }
    }
}

/// The branches of a `case`, one after another.
pub open spec fn case_branches_text(
    branches: Seq<CaseBranch>,
    pretty: bool,
    blank: bool,
    cols: nat,
    inner: nat,
) -> Option<Seq<char>> {
    concat_parts(Seq::new(branches.len(), |i: int| case_branch_text(branches[i], pretty, i == 0, blank, cols, inner)))
}

/// A declaration of a `let` with no comments in front of it, on a new
/// line at `cols` (after a blank line when `blank` is asked and it is not
/// the first).
pub open spec fn let_decl_part(
    d: Spanned<LetDeclaration>,
    pretty: bool,
    first: bool,
    blank: bool,
    cols: nat,
    inner: nat,
) -> Option<Seq<char>> {
    if d.comments@.len() > 0 {
        None
    } else {
        match let_decl_text(d.value, pretty, cols, inner) {
            Some(t) => Some((if blank && !first {
                seq!['\n']
            } else {
                Seq::empty()
            }) + nl(cols) + t),
            None => None,
        }
    }
}

/// The declarations of a `let`, then its trailing comments each on a new
/// line at `cols` (after a blank line when `blank` is asked).
pub open spec fn let_decls_text(
    decls: Seq<Spanned<LetDeclaration>>,
    trailing: Seq<Spanned<Comment>>,
    pretty: bool,
    blank: bool,
    cols: nat,
    inner: nat,
) -> Option<Seq<char>> {
    match concat_parts(Seq::new(decls.len(), |i: int| let_decl_part(decls[i], pretty, i == 0, blank, cols, inner))) {
        Some(a) => Some(a + if trailing.len() > 0 {
            (if blank {
                seq!['\n']
            } else {
                Seq::empty()
            }) + concat_parts(
                trailing.map_values(|c: Spanned<Comment>| Some(nl(cols) + comment_text(c.value, pretty, cols))),
            )->0
        } else {
            Seq::empty()
        }),
        None => None,
    }
}

/// The head of a `case` around the subject's text `subject`: `case s of`
/// on one line, or, when `hanging`, `case`, the subject one level in at
/// `inner` columns and `of` on a line of its own at `cols`.
pub open spec fn case_head(subject: Seq<char>, hanging: bool, cols: nat, inner: nat) -> Seq<char> {
    if hanging {
        seq!['c', 'a', 's', 'e'] + nl(inner) + subject + nl(cols) + seq!['o', 'f']
    } else {
        seq!['c', 'a', 's', 'e', ' '] + subject + seq![' ', 'o', 'f']
    }
}

/// `after` is `before` followed by a `case` head (`case_head`) around some
/// subject text, and then the branches.
pub open spec fn case_written(before: Seq<char>, after: Seq<char>, hanging: bool, cols: nat, inner: nat) -> bool {
    exists|s: Seq<char>, r: Seq<char>|
        #![trigger case_head(s, true, 0, 0), case_head(r, true, 0, 0)]
        after == before + case_head(s, hanging, cols, inner) + r
}

/// `let`, the declarations' text `decls`, `in` on a line of its own at
/// `cols` columns and the body's text `body` on the next.
pub open spec fn let_shape(decls: Seq<char>, body: Seq<char>, cols: nat) -> Seq<char> {
    seq!['l', 'e', 't'] + decls + nl(cols) + seq!['i', 'n'] + nl(cols) + body
}

/// `after` is `before` followed by a `let` expression laid out as
/// `let_shape` for some declarations and body.
pub open spec fn let_written(before: Seq<char>, after: Seq<char>, cols: nat) -> bool {
    exists|d: Seq<char>, b: Seq<char>| #[trigger] let_shape(d, b, cols) == after.subrange(before.len() as int, after.len() as int)
        && before.is_prefix_of(after)
}

/// A function's defining equation with the body's text `b`: the name, the
/// arguments, `=` and the body one level in at `inner` columns.
pub open spec fn impl_shape(imp: FunctionImplementation, pretty: bool, inner: nat, b: Seq<char>) -> Seq<char> {
    imp.name.value@ + pattern_args_text(imp.args@, pretty) + seq![' ', '='] + nl(inner) + b
}

/// `after` is `before` followed by a defining equation (`impl_shape`).
pub open spec fn impl_written(
    before: Seq<char>,
    after: Seq<char>,
    imp: FunctionImplementation,
    pretty: bool,
    inner: nat,
) -> bool {
    before.is_prefix_of(after) && exists|b: Seq<char>|
        #[trigger] impl_shape(imp, pretty, inner, b) == after.subrange(before.len() as int, after.len() as int)
}

/// An `if` with the text `x` between `if` and the last `else`, and `y`
/// after it.
pub open spec fn if_shape(x: Seq<char>, y: Seq<char>) -> Seq<char> {
    seq!['i', 'f'] + x + seq!['e', 'l', 's', 'e'] + y
}

/// `after` is `before` followed by an `if` expression (`if_shape`).
pub open spec fn if_written(before: Seq<char>, after: Seq<char>) -> bool {
    before.is_prefix_of(after) && exists|x: Seq<char>, y: Seq<char>|
        #[trigger] if_shape(x, y) == after.subrange(before.len() as int, after.len() as int)
}

/// The body of a lambda goes one level in on a line of its own: it is
/// multi-line, or, in elm-format layout, it was below the arguments in the
/// source.
pub open spec fn lambda_breaks(args: Seq<Spanned<Pattern>>, body: Spanned<Expr>, pretty: bool) -> bool {
    expr_multiline(body.value, pretty) || (pretty && args.len() > 0 && args.last().span.end.line != 0
        && body.span.start.line != 0 && body.span.start.line > args.last().span.end.line)
}

/// A lambda with the body's text `b`: `\`, the arguments, `->`, and the
/// body after a space or one level in at `inner` columns.
pub open spec fn lambda_shape(
    args: Seq<Spanned<Pattern>>,
    body: Spanned<Expr>,
    pretty: bool,
    inner: nat,
    b: Seq<char>,
) -> Seq<char> {
    seq!['\\'] + lambda_args_text(args, pretty) + seq![' ', '-', '>'] + (if lambda_breaks(args, body, pretty) {
        nl(inner)
    } else {
        seq![' ']
    }) + b
}

/// `after` is `before` followed by a lambda laid out as `lambda_shape`.
pub open spec fn lambda_written(
    before: Seq<char>,
    after: Seq<char>,
    args: Seq<Spanned<Pattern>>,
    body: Spanned<Expr>,
    pretty: bool,
    inner: nat,
) -> bool {
    before.is_prefix_of(after) && exists|b: Seq<char>|
        #[trigger] lambda_shape(args, body, pretty, inner, b) == after.subrange(before.len() as int, after.len() as int)
}

/// For a `case` and a `let`, `after` is `before` followed by the head and
/// layout of that form, written by the printer `p` (its layout and
/// column).
pub open spec fn expr_shape_written(e: Expr, p: Printer, before: Seq<char>, after: Seq<char>) -> bool {
    let c = column_of(before);
    let w = p.width() as nat;
    match e {
        Expr::CaseOf { expr: subject, .. } => case_written(
            before,
            after,
            p.pretty() && hanging_subject(subject.value),
            aligned_columns(c, w),
            next_stop(c, w),
        ),
        Expr::LetIn { .. } => let_written(before, after, block_cols(p.pretty(), c, w, p.indent_columns())),
        Expr::Lambda { args, body } => lambda_written(before, after, args@, *body, p.pretty(), p.inner_columns()),
        Expr::IfElse { branches, .. } => branches@.len() > 0 ==> if_written(before, after),
        Expr::OperatorApplication { operator, .. } => p.pretty() && is_pipe_op(operator@) ==> pipeline_written(
            before,
            after,
            if p.continues_chain() {
                p.indent_columns()
            } else {
                next_stop(c, w)
            },
        ),
        _ => true,
    }
}

/// The subject of a `case` goes on lines of its own in elm-format layout.
pub open spec fn hanging_subject(subject: Expr) -> bool {
    subject is IfElse || subject is LetIn || subject is CaseOf || expr_multiline(subject, true)
}

/// Where the lines inside a `case` or `let` start: in elm-format layout one
/// level past the column `col` where it starts, otherwise one level in.
pub open spec fn block_inner(pretty: bool, col: nat, width: nat, inner: nat) -> nat {
    if pretty {
        next_stop(col, width)
    } else {
        inner
    }
}

/// Two levels past the column `col` in elm-format layout, otherwise two
/// levels in.
pub open spec fn block_inner2(pretty: bool, col: nat, width: nat, inner2: nat) -> nat {
    if pretty {
        stop_columns(bump_level(bump_level(col / width)), width)
    } else {
        inner2
    }
}

/// The indentation of the lines of a `case` or `let` itself: in elm-format
/// layout the column `col` where it starts, otherwise the current one.
pub open spec fn block_cols(pretty: bool, col: nat, width: nat, cols: nat) -> nat {
    if pretty {
        aligned_columns(col, width)
    } else {
        cols
    }
}

/// The operators of the steps of a chain.
pub open spec fn step_ops(rest: Seq<(&str, &Spanned<Expr>)>) -> Seq<Seq<char>> {
    rest.map_values(|s: (&str, &Spanned<Expr>)| s.0@)
}

/// Steps of a vertical chain: each the lines `pres[i]`, then `ops[i]` at
/// the start of a new line at `cols` columns, a space and the operand's
/// text `ts[i]`.
pub open spec fn steps_at(ops: Seq<Seq<char>>, pres: Seq<Seq<char>>, ts: Seq<Seq<char>>, cols: nat) -> Seq<char>
    decreases ops.len(),
{
    if ops.len() == 0 {
        Seq::empty()
    } else {
        steps_at(ops.drop_last(), pres.drop_last(), ts.drop_last(), cols) + pres.last() + nl(cols) + ops.last()
            + seq![' '] + ts.last()
    }
}

/// One more step.
pub proof fn lemma_steps_at_push(
    ops: Seq<Seq<char>>,
    pres: Seq<Seq<char>>,
    ts: Seq<Seq<char>>,
    cols: nat,
    op: Seq<char>,
    pre: Seq<char>,
    t: Seq<char>,
)
    ensures
        steps_at(ops.push(op), pres.push(pre), ts.push(t), cols) == steps_at(ops, pres, ts, cols) + pre + nl(cols) + op
            + seq![' '] + t,
{
    assert(ops.push(op).drop_last() =~= ops);
    assert(pres.push(pre).drop_last() =~= pres);
    assert(ts.push(t).drop_last() =~= ts);
}

/// A pipeline laid out vertically: the head `h`, the steps of a chain the
/// head itself breaks into, then the pipeline's steps, each operator at
/// the start of its own line at `cols` columns.
pub open spec fn pipeline_text(
    h: Seq<char>,
    ops1: Seq<Seq<char>>,
    pres1: Seq<Seq<char>>,
    ts1: Seq<Seq<char>>,
    ops2: Seq<Seq<char>>,
    pres2: Seq<Seq<char>>,
    ts2: Seq<Seq<char>>,
    cols: nat,
) -> Seq<char> {
    h + steps_at(ops1, pres1, ts1, cols) + steps_at(ops2, pres2, ts2, cols)
}

/// `after` is `before` followed by a vertical pipeline (`pipeline_text`)
/// of at least one step, every operator of its own steps a pipe.
pub open spec fn pipeline_written(before: Seq<char>, after: Seq<char>, cols: nat) -> bool {
    exists|
        h: Seq<char>,
        ops1: Seq<Seq<char>>,
        pres1: Seq<Seq<char>>,
        ts1: Seq<Seq<char>>,
        ops2: Seq<Seq<char>>,
        pres2: Seq<Seq<char>>,
        ts2: Seq<Seq<char>>,
    |
        #[trigger] pipeline_text(h, ops1, pres1, ts1, ops2, pres2, ts2, cols) == after.subrange(
            before.len() as int,
            after.len() as int,
        ) && before.is_prefix_of(after) && ops1.len() == pres1.len() && ops1.len() == ts1.len() && ops2.len()
            == pres2.len() && ops2.len() == ts2.len() && ops2.len() > 0 && (forall|i: int|
            0 <= i < ops2.len() ==> is_pipe_op(#[trigger] ops2[i]))
}

/// The operators of all chain steps lie in `e`.
pub open spec fn steps_within(e: Expr, rest: Seq<(&str, &Spanned<Expr>)>) -> bool {
    forall|i: int| 0 <= i < rest.len() ==> decreases_to!(e => rest[i].1.value)
}

impl Printer {
    fn push_span(&mut self, s: Span)
        ensures
            final(self).expr_span_stack@ == old(self).expr_span_stack@.push(s),
            final(self).expr_span_stack@.drop_last() == old(self).expr_span_stack@,
            final(self).buf@ == old(self).buf@,
            final(self).text() == old(self).text(),
            final(self).config == old(self).config,
            final(self).indent == old(self).indent,
            final(self).indent_extra == old(self).indent_extra,
            final(self).indent_extra_stack@ == old(self).indent_extra_stack@,
            final(self).in_vertical_chain == old(self).in_vertical_chain,
            final(self).doc_groups == old(self).doc_groups,
    {
        self.expr_span_stack.push(s);
        assert(self.expr_span_stack@.drop_last() =~= old(self).expr_span_stack@);
    }

    fn pop_span(&mut self)
        requires
            old(self).expr_span_stack@.len() > 0,
        ensures
            final(self).expr_span_stack@ == old(self).expr_span_stack@.drop_last(),
            final(self).buf@ == old(self).buf@,
            final(self).text() == old(self).text(),
            final(self).config == old(self).config,
            final(self).indent == old(self).indent,
            final(self).indent_extra == old(self).indent_extra,
            final(self).indent_extra_stack@ == old(self).indent_extra_stack@,
            final(self).in_vertical_chain == old(self).in_vertical_chain,
            final(self).doc_groups == old(self).doc_groups,
    {
        self.expr_span_stack.pop();
    }

    /// The source span of the expression being written, if any.
    fn current_expr_span(&self) -> (r: Option<Span>)
        ensures
            r == (if self.expr_span_stack@.len() > 0 {
                Some(self.expr_span_stack@.last())
            } else {
                None::<Span>
            }),
    {
        let n = self.expr_span_stack.len();
        if n > 0 {
            Some(self.expr_span_stack[n - 1])
        } else {
            None
        }
    }

    /// Whether a newline was written at or after position `start`.
    fn wrote_newline_since(&self, start: usize) -> (r: bool)
        ensures
            r == exists|i: int| start <= i < self.text().len() && self.text()[i] == '\n',
    {
        let mut i = start;
        while i < self.buf.len()
            invariant
                start <= i,
                forall|k: int| start <= k < i ==> self.buf@[k] != '\n',
            decreases self.buf@.len() - i,
        {
            if self.buf[i] == '\n' {
                assert(self.text()[i as int] == '\n');
                return true;
            }
            i = i + 1;
        }
        false
    }

    /// Whether any operand of a chain prints on several lines.
    fn any_step_multiline(&self, rest: &Vec<(&str, &Spanned<Expr>)>) -> (r: bool)
        ensures
            r == exists|i: int| 0 <= i < rest@.len() && super::multiline::expr_multiline(
                #[trigger] rest@[i].1.value,
                self.pretty(),
            ),
    {
        let mut i: usize = 0;
        while i < rest.len()
            invariant
                i <= rest@.len(),
                forall|k: int| 0 <= k < i ==> !super::multiline::expr_multiline(
                    #[trigger] rest@[k].1.value,
                    self.pretty(),
                ),
            decreases rest@.len() - i,
        {
            if self.is_multiline(&rest[i].1.value) {
                return true;
            }
            i = i + 1;
        }
        false
    }

    /// Write the line comments of a list on lines of their own.
    fn write_line_comments_on_own_lines(&mut self, comments: &Vec<Spanned<Comment>>)
        ensures
            old(self).appended(&*final(self), own_line_comments(comments@, old(self).indent_columns())),
    {
        let ghost ic = self.indent_columns();
        let mut i: usize = 0;
        while i < comments.len()
            invariant
                i <= comments@.len(),
                ic == old(self).indent_columns(),
                old(self).appended(&*self, own_line_comments(comments@.take(i as int), ic)),
            decreases comments@.len() - i,
        {
            proof {
                old(self).same_state_keeps_layout(&*self);
                let t = comments@.take(i + 1);
                assert(t.drop_last() =~= comments@.take(i as int));
                assert(t.last() == comments@[i as int]);
            }
            if let Comment::Line(_) = comments[i].value {
                self.newline_indent();
                self.write_comment(&comments[i].value);
            }
            proof {
                assert(self.text() =~= old(self).text() + own_line_comments(comments@.take(i + 1), ic));
            }
            i = i + 1;
        }
        assert(comments@.take(i as int) =~= comments@);
    }

    /// Whether a list of comments holds a line comment.
    fn has_line_comment(comments: &Vec<Spanned<Comment>>) -> (r: bool)
        ensures
            r == exists|k: int| 0 <= k < comments@.len() && (#[trigger] comments@[k]).value is Line,
    {
        let mut i: usize = 0;
        while i < comments.len()
            invariant
                i <= comments@.len(),
                forall|k: int| 0 <= k < i ==> !((#[trigger] comments@[k]).value is Line),
            decreases comments@.len() - i,
        {
            if let Comment::Line(_) = comments[i].value {
                return true;
            }
            i = i + 1;
        }
        false
    }

    /// Write an expression.
    pub fn write_expr(&mut self, expr: &Expr)
        requires
            old(self).wf(),
        ensures
            vertical_container(*expr, old(self).pretty()) ==> broke_line(old(self).text(), final(self).text()),
            simple_text(*expr, old(self).pretty()) matches Some(t) ==> final(self).text() == old(self).text() + t,
            old(self).extended(&*final(self)),
            expr_shape_written(*expr, *old(self), old(self).text(), final(self).text()),
        decreases *expr, 10nat,
    {
        self.write_expr_inner(expr);
    }

    /// Write an expression with its source span on the span stack, so that
    /// its children can consult the span of the enclosing brackets.
    pub fn write_spanned_expr(&mut self, spanned: &Spanned<Expr>)
        requires
            old(self).wf(),
        ensures
            vertical_container(spanned.value, old(self).pretty()) ==> broke_line(old(self).text(), final(self).text()),
            simple_text(spanned.value, old(self).pretty()) matches Some(t) ==> final(self).text() == old(self).text()
                + t,
            old(self).extended(&*final(self)),
            expr_shape_written(spanned.value, *old(self), old(self).text(), final(self).text()),
        decreases spanned.value, 10nat,
    {
        self.push_span(spanned.span);
        self.write_expr_inner(&spanned.value);
        self.pop_span();
    }

    /// The expression dispatcher: operator applications, operator chains
    /// and block expressions are written here, everything else as an
    /// application. In elm-format layout redundant parentheses go.
    fn write_expr_inner(&mut self, expr: &Expr)
        requires
            old(self).wf(),
        ensures
            vertical_container(*expr, old(self).pretty()) ==> broke_line(old(self).text(), final(self).text()),
            simple_text(*expr, old(self).pretty()) matches Some(t) ==> final(self).text() == old(self).text() + t,
            old(self).extended(&*final(self)),
            expr_shape_written(*expr, *old(self), old(self).text(), final(self).text()),
        decreases *expr, rank_inner(*expr),
    {
        let pretty = self.is_pretty();
        let e = if pretty {
            unwrap_parens_non_block(expr)
        } else {
            expr
        };
        match e {
            Expr::OperatorApplication { .. } => self.write_operator_application(e),
            Expr::IfElse { .. } => self.write_if_expr(e),
            Expr::CaseOf { .. } => self.write_case_expr(e),
            Expr::LetIn { .. } => self.write_let_expr(e),
            Expr::Lambda { .. } => self.write_lambda(e),
            Expr::BinOps { .. } => self.write_binops(e),
            _ => self.write_expr_app(e),
        }
    }

    /// An unresolved operator chain: on one line, or in elm-format layout
    /// with one operator per line when an operand is multi-line.
    #[verifier::spinoff_prover]
    fn write_binops(&mut self, e: &Expr)
        requires
            old(self).wf(),
            e is BinOps,
        ensures
            old(self).extended(&*final(self)),
            e matches Expr::BinOps { operands_and_operators, final_operand } ==> (!(old(self).pretty()
                && binops_any_multiline(operands_and_operators@, **final_operand, old(self).pretty())
                && operands_and_operators@.len() > 0) ==> (binops_flat_text(
                operands_and_operators@,
                **final_operand,
                old(self).pretty(),
            ) matches Some(t) ==> final(self).text() == old(self).text() + t)),
            e matches Expr::BinOps { operands_and_operators, final_operand } ==> (old(self).pretty()
                && binops_any_multiline(operands_and_operators@, **final_operand, old(self).pretty())
                && operands_and_operators@.len() > 0 ==> (app_level_text(
                operands_and_operators@[0].0.value,
                old(self).pretty(),
            ) matches Some(h) ==> (binops_steps_text(
                operands_and_operators@,
                **final_operand,
                old(self).pretty(),
                old(self).inner_columns(),
            ) matches Some(t) ==> final(self).text() == old(self).text() + h + t))),
        decreases *e, 2nat,
    {
        let ghost gpretty = self.pretty();
        match e {
            Expr::BinOps { operands_and_operators, final_operand } => {
                let ghost ops = operands_and_operators@;
                let pretty = self.is_pretty();
                let mut any_ml = false;
                if pretty {
                    let mut k: usize = 0;
                    while k < operands_and_operators.len()
                        invariant
                            k <= operands_and_operators@.len(),
                            pretty == gpretty,
                            gpretty == old(self).pretty(),
                            any_ml == exists|j: int| 0 <= j < k && expr_multiline(#[trigger] ops[j].0.value, gpretty),
                            ops == operands_and_operators@,
                        decreases operands_and_operators@.len() - k,
                    {
                        if self.is_multiline(&operands_and_operators[k].0.value) {
                            any_ml = true;
                        }
                        k = k + 1;
                    }
                    if self.is_multiline(&final_operand.value) {
                        any_ml = true;
                    }
                }
                assert(pretty ==> any_ml == binops_any_multiline(ops, **final_operand, gpretty));
                let n = operands_and_operators.len();
                if any_ml && n > 0 {
                    proof {
                        assert(decreases_to!(*e => operands_and_operators@[0].0.value));
                    }
                    self.write_expr_app(&operands_and_operators[0].0.value);
                    let ghost mid = self.text();
                    proof {
                        old(self).same_state_keeps_layout(&*self);
                    }
                    self.indent();
                    self.write_binops_steps(e);
                    let ghost end = self.text();
                    self.dedent();
                    assert(self.text() == end);
                } else {
                    let ghost parts = ops.map_values(
                        |o: (Spanned<Expr>, Spanned<String>)|
                            match app_level_text(o.0.value, gpretty) {
                                Some(t) => Some(t + seq![' '] + o.1.value@ + seq![' ']),
                                None => None,
                            },
                    );
                    let ghost whole = concat_parts(parts);
                    proof {
                        lemma_concat_parts_empty(parts.take(0));
                    }
                    let mut i: usize = 0;
                    while i < n
                        invariant
                            i <= n,
                            n == operands_and_operators@.len(),
                            ops == operands_and_operators@,
                            parts.len() == n,
                            gpretty == old(self).pretty(),
                            old(self).wf(),
                            old(self).extended(&*self),
                            *e matches Expr::BinOps { operands_and_operators: o, .. } && o
                                == operands_and_operators,
                            parts == ops.map_values(
                                |o: (Spanned<Expr>, Spanned<String>)|
                                    match app_level_text(o.0.value, gpretty) {
                                        Some(t) => Some(t + seq![' '] + o.1.value@ + seq![' ']),
                                        None => None,
                                    },
                            ),
                            whole == concat_parts(parts),
                            whole is Some ==> (concat_parts(parts.take(i as int)) matches Some(t) && self.text()
                                == old(self).text() + t),
                        decreases n - i,
                    {
                        proof {
                            assert(decreases_to!(*e => operands_and_operators@[i as int].0.value));
                            old(self).same_state_keeps_layout(&*self);
                            if whole is Some {
                                lemma_concat_parts_step(parts, i as int);
                            }
                        }
                        let ghost before = self.text();
                        self.write_expr_app(&operands_and_operators[i].0.value);
                        let ghost a = self.text();
                        self.write_char(' ');
                        self.write(operands_and_operators[i].1.value.as_str());
                        self.write_char(' ');
                        proof {
                            if whole is Some {
                                let t = app_level_text(ops[i as int].0.value, gpretty)->0;
                                assert(a == before + t);
                                assert(self.text() =~= before + parts[i as int]->0);
                            }
                        }
                        i = i + 1;
                    }
                    proof {
                        assert(parts.take(i as int) =~= parts);
                        old(self).same_state_keeps_layout(&*self);
                    }
                    self.write_expr_app(&final_operand.value);
                }
            },
            _ => {},
        }
    }

    /// The steps `op operand` of a vertical operator chain, each on a new
    /// line.
    #[verifier::spinoff_prover]
    fn write_binops_steps(&mut self, e: &Expr)
        requires
            old(self).wf(),
            e is BinOps,
        ensures
            old(self).extended(&*final(self)),
            e matches Expr::BinOps { operands_and_operators, final_operand } && binops_steps_text(
                operands_and_operators@,
                **final_operand,
                old(self).pretty(),
                old(self).indent_columns(),
            ) matches Some(t) ==> final(self).text() == old(self).text() + t,
        decreases *e, 1nat,
    {
        let ghost pretty = self.pretty();
        let ghost cols = self.indent_columns();
        match e {
            Expr::BinOps { operands_and_operators, final_operand } => {
                let ghost ops = operands_and_operators@;
                let ghost parts = Seq::new(
                    ops.len(),
                    |i: int|
                        match app_level_text(binops_next(ops, **final_operand, i).value, pretty) {
                            Some(t) => Some(nl(cols) + ops[i].1.value@ + seq![' '] + t),
                            None => None,
                        },
                );
                let ghost whole = concat_parts(parts);
                proof {
                    lemma_concat_parts_empty(parts.take(0));
                }
                let n = operands_and_operators.len();
                let mut i: usize = 0;
                while i < n
                    invariant
                        i <= n,
                        n == operands_and_operators@.len(),
                        ops == operands_and_operators@,
                        parts.len() == n,
                        old(self).wf(),
                        old(self).extended(&*self),
                        pretty == old(self).pretty(),
                        cols == old(self).indent_columns(),
                        *e matches Expr::BinOps { operands_and_operators: o, final_operand: f } && o
                            == operands_and_operators && f == final_operand,
                        forall|k: int|
                            0 <= k < n ==> parts[k] == match app_level_text(
                                binops_next(ops, **final_operand, k).value,
                                pretty,
                            ) {
                                Some(t) => Some(nl(cols) + ops[k].1.value@ + seq![' '] + t),
                                None => None,
                            },
                        whole == concat_parts(parts),
                        whole is Some ==> (concat_parts(parts.take(i as int)) matches Some(t) && self.text()
                            == old(self).text() + t),
                    decreases n - i,
                {
                    proof {
                        old(self).same_state_keeps_layout(&*self);
                        if whole is Some {
                            lemma_concat_parts_step(parts, i as int);
                        }
                    }
                    let ghost before = self.text();
                    self.newline_indent();
                    self.write(operands_and_operators[i].1.value.as_str());
                    self.write_char(' ');
                    let ghost a = self.text();
                    if i + 1 < n {
                        proof {
                            assert(decreases_to!(*e => operands_and_operators@[i + 1].0.value));
                        }
                        self.write_expr_app(&operands_and_operators[i + 1].0.value);
                    } else {
                        self.write_expr_app(&final_operand.value);
                    }
                    proof {
                        if whole is Some {
                            assert(a =~= before + nl(cols) + ops[i as int].1.value@ + seq![' ']);
                            let t = app_level_text(binops_next(ops, **final_operand, i as int).value, pretty)->0;
                            assert(self.text() == a + t);
                            assert(self.text() =~= before + parts[i as int]->0);
                        }
                    }
                    i = i + 1;
                }
                proof {
                    assert(parts.take(i as int) =~= parts);
                }
            },
            _ => {},
        }
    }

    /// Write an operand of an operator application, in parentheses when its
    /// own operator binds less tightly, or equally on the wrong side.
    fn write_expr_operand(&mut self, spanned: &Spanned<Expr>, parent_op: &str, is_left: bool)
        requires
            old(self).wf(),
        ensures
            simple_operand_text(spanned.value, parent_op@, is_left, old(self).pretty()) matches Some(t)
                ==> final(self).text() == old(self).text() + t,
            old(self).extended(&*final(self)),
        decreases spanned.value, 10nat,
    {
        self.push_span(spanned.span);
        let pretty = self.is_pretty();
        let expr = if pretty {
            unwrap_parens_non_block(&spanned.value)
        } else {
            &spanned.value
        };
        match expr {
            Expr::OperatorApplication { operator, .. } => {
                let parent_prec = op_precedence(parent_op);
                let child_prec = op_precedence(operator.as_str());
                let right_assoc = is_right_assoc(parent_op);
                let needs_parens = child_prec < parent_prec || (child_prec == parent_prec && ((
                is_left && right_assoc) || (!is_left && !right_assoc)));
                if needs_parens {
                    let saved = self.in_vertical_chain;
                    self.in_vertical_chain = false;
                    self.write_char('(');
                    let ghost mid = self.text();
                    self.write_expr_inner(expr);
                    let ghost after = self.text();
                    self.write_char(')');
                    self.in_vertical_chain = saved;
                    proof {
                        if let Some(t) = simple_text(*expr, pretty) {
                            assert(after == mid + t);
                            assert(self.text() =~= old(self).text() + (seq!['('] + t + seq![')']));
                        }
                    }
                } else {
                    self.write_expr_inner(expr);
                }
            },
            _ => self.write_expr_app(expr),
        }
        self.pop_span();
    }

    /// Write a function application or negation (anything else atomically),
    /// outside of any enclosing vertical chain.
    fn write_expr_app(&mut self, expr: &Expr)
        requires
            old(self).wf(),
        ensures
            vertical_container(*expr, old(self).pretty()) ==> broke_line(old(self).text(), final(self).text()),
            app_level_text(*expr, old(self).pretty()) matches Some(t) ==> final(self).text() == old(self).text() + t,
            old(self).extended(&*final(self)),
        decreases *expr, rank_app(*expr),
    {
        let saved = self.in_vertical_chain;
        self.in_vertical_chain = false;
        self.write_expr_app_inner(expr);
        self.in_vertical_chain = saved;
    }

    #[verifier::spinoff_prover]
    fn write_expr_app_inner(&mut self, expr: &Expr)
        requires
            old(self).wf(),
        ensures
            vertical_container(*expr, old(self).pretty()) ==> broke_line(old(self).text(), final(self).text()),
            app_level_text(*expr, old(self).pretty()) matches Some(t) ==> final(self).text() == old(self).text() + t,
            old(self).extended(&*final(self)),
        decreases *expr, rank_app_inner(*expr),
    {
        match expr {
            Expr::Application(args) => {
                let pretty = self.is_pretty();
                let n = args.len();
                let last_is_multiline_string = n > 0 && match unwrap_parens_non_block(&args[n - 1].value) {
                    Expr::Literal(Literal::MultilineString(s)) => {
                        let cs = chars_of(s.as_str());
                        contains_char(&cs, '\n')
                    },
                    _ => false,
                };
                assert(last_is_multiline_string == ends_with_multiline_string(args@));
                let skip_last_for_ml = last_is_multiline_string && pretty;
                let mut any_arg_ml = false;
                if skip_last_for_ml {
                    if n > 2 {
                        let mut k: usize = 1;
                        while k < n - 1
                            invariant
                                n == args@.len(),
                                n > 2,
                                1 <= k <= n - 1,
                                pretty == self.pretty(),
                                any_arg_ml == exists|q: int|
                                    1 <= q < k && expr_multiline(#[trigger] args@[q].value, pretty),
                            decreases n - k,
                        {
                            if self.is_multiline(&args[k].value) {
                                any_arg_ml = true;
                            }
                            k = k + 1;
                        }
                    }
                } else if n > 1 {
                    let mut k: usize = 1;
                    while k < n
                        invariant
                            n == args@.len(),
                            1 <= k <= n,
                            pretty == self.pretty(),
                            any_arg_ml == exists|q: int| 1 <= q < k && expr_multiline(#[trigger] args@[q].value, pretty),
                        decreases n - k,
                    {
                        if self.is_multiline(&args[k].value) {
                            any_arg_ml = true;
                        }
                        k = k + 1;
                    }
                }
                assert(any_arg_ml == app_args_multiline(args@, pretty));
                let mut source_vertical = false;
                if pretty && n >= 2 {
                    let mut k: usize = 0;
                    while k < n - 1
                        invariant
                            n == args@.len(),
                            n >= 2,
                            k <= n - 1,
                            source_vertical == exists|q: int| 0 <= q < k && #[trigger] next_on_later_line(args@, q),
                        decreases n - k,
                    {
                        let end = args[k].span.end.line;
                        let start = args[k + 1].span.start.line;
                        if end != 0 && start != 0 && start > end {
                            source_vertical = true;
                        }
                        assert(next_on_later_line(args@, k as int) == (end != 0 && start != 0 && start > end));
                        k = k + 1;
                    }
                }
                assert((n >= 2 && (any_arg_ml || source_vertical)) == app_vertical(args@, pretty));
                if (any_arg_ml || source_vertical) && n >= 2 {
                    self.write_application_vertical(args);
                } else {
                    let ghost whole = simple_args_text(args@, pretty);
                    let mut i: usize = 0;
                    while i < n
                        invariant
                            i <= n,
                            n == args@.len(),
                            old(self).wf(),
                            old(self).extended(&*self),
                            pretty == old(self).pretty(),
                            whole == simple_args_text(args@, pretty),
                            *expr matches Expr::Application(a) && a == args,
                            whole is Some ==> (simple_args_text(args@.take(i as int), pretty) matches Some(t)
                                && self.text() == old(self).text() + t),
                        decreases n - i,
                    {
                        proof {
                            assert(decreases_to!(*expr => args@[i as int].value));
                            if whole is Some {
                                lemma_simple_args_prefix(args@, pretty, i + 1);
                                let t = args@.take(i + 1);
                                assert(t.drop_last() =~= args@.take(i as int));
                                assert(t.last() == args@[i as int]);
                            }
                        }
                        let ghost before = self.text();
                        if i > 0 {
                            self.write_char(' ');
                            self.write_app_arg_spanned(&args[i]);
                        } else {
                            self.push_span(args[i].span);
                            self.write_expr_atomic(&args[i].value);
                            self.pop_span();
                        }
                        proof {
                            if whole is Some {
                                let t = args@.take(i + 1);
                                assert(t.len() == i + 1);
                                if i == 0 {
                                    assert(t[0] == args@[0]);
                                }
                                let a = simple_args_text(args@.take(i as int), pretty)->0;
                                let b = simple_args_text(t, pretty)->0;
                                assert(self.text() =~= old(self).text() + b);
                            }
                        }
                        i = i + 1;
                    }
                    assert(args@.take(n as int) =~= args@);
                }
            },
            Expr::Negation(inner) => {
                self.write_char('-');
                self.write_expr_atomic(&inner.value);
            },
            _ => self.write_expr_atomic(expr),
        }
    }

    /// An argument after the function: a negation stays `-x` without
    /// parentheses, everything else is atomic.
    fn write_app_arg(&mut self, expr: &Expr)
        requires
            old(self).wf(),
        ensures
            simple_arg_text(*expr, old(self).pretty()) matches Some(t) ==> final(self).text() == old(self).text() + t,
            old(self).extended(&*final(self)),
        decreases *expr, 9nat,
    {
        match expr {
            Expr::Negation(_) => self.write_expr_app(expr),
            _ => self.write_expr_atomic(expr),
        }
    }

    /// An argument with its inline block comments in front of it.
    fn write_app_arg_spanned(&mut self, spanned: &Spanned<Expr>)
        requires
            old(self).wf(),
        ensures
            spanned.comments@.len() == 0 ==> (simple_arg_text(spanned.value, old(self).pretty()) matches Some(t)
                ==> final(self).text() == old(self).text() + t),
            old(self).extended(&*final(self)),
        decreases spanned.value, 10nat,
    {
        let mut i: usize = 0;
        while i < spanned.comments.len()
            invariant
                i <= spanned.comments@.len(),
                old(self).extended(&*self),
                spanned.comments@.len() == 0 ==> self.text() == old(self).text(),
            decreases spanned.comments@.len() - i,
        {
            if let Comment::Block(_) = spanned.comments[i].value {
                self.write_comment(&spanned.comments[i].value);
                self.write_char(' ');
            }
            i = i + 1;
        }
        self.push_span(spanned.span);
        self.write_app_arg(&spanned.value);
        self.pop_span();
    }

    /// A function application with its arguments on their own lines, one
    /// level past the function's column; the first argument stays on the
    /// function's line when it was there in the source and is one-line.
    #[verifier::spinoff_prover]
    fn write_application_vertical(&mut self, args: &Vec<Spanned<Expr>>)
        requires
            old(self).wf(),
            args@.len() >= 2,
        ensures
            old(self).extended(&*final(self)),
            simple_atomic_text(args@[0].value, old(self).pretty()) matches Some(f) ==> (app_args_lines(
                args@,
                old(self).pretty(),
                if old(self).pretty() {
                    next_stop(column_of(old(self).text()), old(self).width() as nat)
                } else {
                    old(self).inner_columns()
                },
            ) matches Some(t) ==> final(self).text() == old(self).text() + f + t),
        decreases *args, 1nat,
    {
        let ghost gpretty = self.pretty();
        let ghost cols = if gpretty {
            next_stop(column_of(self.text()), self.width() as nat)
        } else {
            self.inner_columns()
        };
        let pretty = self.is_pretty();
        let fn_col = self.current_column();
        self.write_expr_atomic(&args[0].value);
        let ghost mid = self.text();
        proof {
            old(self).same_state_keeps_layout(&*self);
        }
        let saved_indent = self.indent;
        let saved_extra = self.indent_extra;
        let saved_stack = copy_stack(&self.indent_extra_stack);
        if pretty {
            self.align_to(fn_col);
            self.indent_extra_stack = Vec::new();
        }
        self.indent();
        assert(self.indent_columns() == cols);
        assert(self.pretty() == gpretty);
        self.write_application_args(args);
        let ghost end = self.text();
        self.dedent();
        self.indent = saved_indent;
        self.indent_extra = saved_extra;
        self.indent_extra_stack = saved_stack;
        proof {
            if let Some(f) = simple_atomic_text(args@[0].value, gpretty) {
                if let Some(t) = app_args_lines(args@, gpretty, cols) {
                    assert(mid == old(self).text() + f);
                    assert(self.text() =~= old(self).text() + f + t);
                }
            }
        }
    }

    #[verifier::spinoff_prover]
    fn write_application_args(&mut self, args: &Vec<Spanned<Expr>>)
        requires
            old(self).wf(),
            args@.len() >= 2,
        ensures
            old(self).extended(&*final(self)),
            app_args_lines(args@, old(self).pretty(), old(self).indent_columns()) matches Some(t) ==> final(self).text()
                == old(self).text() + t,
        decreases *args, 0nat,
    {
        let ghost pretty = self.pretty();
        let ghost cols = self.indent_columns();
        let ghost parts = args@.skip(2).map_values(|a: Spanned<Expr>| plain_arg_text(a, pretty));
        let ghost whole = app_args_lines(args@, pretty, cols);
        let first = &args[1];
        let func_end_line = args[0].span.end.line;
        let first_start_line = first.span.start.line;
        let dummy = func_end_line == 0 || first_start_line == 0;
        let first_inline_in_source = !dummy && first_start_line == func_end_line;
        if first_inline_in_source && !self.is_multiline(&first.value) {
            self.write_char(' ');
        } else {
            self.newline_indent();
        }
        let ghost lead_end = self.text();
        proof {
            old(self).same_state_keeps_layout(&*self);
        }
        self.write_app_arg_spanned(first);
        let ghost start = self.text();
        proof {
            reveal(prefixed_lines);
            assert(parts.take(0) =~= Seq::<Option<Seq<char>>>::empty());
            if whole is Some {
                assert(lead_end.len() >= old(self).text().len());
            }
        }
        let mut i: usize = 2;
        while i < args.len()
            invariant
                2 <= i <= args@.len(),
                parts.len() == args@.len() - 2,
                old(self).wf(),
                old(self).extended(&*self),
                pretty == old(self).pretty(),
                cols == old(self).indent_columns(),
                parts == args@.skip(2).map_values(|a: Spanned<Expr>| plain_arg_text(a, pretty)),
                whole == app_args_lines(args@, pretty, cols),
                whole is Some ==> prefixed_lines(parts, cols, Seq::empty(), Seq::empty()) is Some,
                whole is Some ==> (prefixed_lines(parts.take(i - 2), cols, Seq::empty(), Seq::empty()) matches Some(t)
                    && self.text() == start + t),
            decreases args@.len() - i,
        {
            proof {
                old(self).same_state_keeps_layout(&*self);
                if whole is Some {
                    lemma_prefixed_lines_step(parts, cols, Seq::empty(), Seq::empty(), i - 2);
                }
            }
            let ghost before = self.text();
            self.newline_indent();
            let ghost a = self.text();
            self.write_app_arg_spanned(&args[i]);
            proof {
                if whole is Some {
                    assert(parts[i - 2] == plain_arg_text(args@[i as int], pretty));
                    assert(a =~= before + nl(cols) + Seq::<char>::empty());
                    assert(self.text() =~= start + prefixed_lines(parts.take(i - 1), cols, Seq::empty(), Seq::empty())->0);
                }
            }
            i = i + 1;
        }
        proof {
            assert(parts.take(i - 2) =~= parts);
            if let Some(t) = whole {
                let lead = if first_inline_in_source && !expr_multiline(first.value, pretty) {
                    seq![' ']
                } else {
                    nl(cols)
                };
                assert(lead_end =~= old(self).text() + lead);
                assert(start == lead_end + plain_arg_text(*first, pretty)->0);
                assert(self.text() =~= old(self).text() + t);
            }
        }
    }

    /// Write an expression in atomic position: anything that is not
    /// naturally atomic goes in parentheses.
    fn write_expr_atomic(&mut self, expr: &Expr)
        requires
            old(self).wf(),
        ensures
            vertical_container(*expr, old(self).pretty()) ==> broke_line(old(self).text(), final(self).text()),
            simple_atomic_text(*expr, old(self).pretty()) matches Some(t) ==> final(self).text() == old(self).text()
                + t,
            old(self).extended(&*final(self)),
        decreases *expr, rank_atomic(*expr),
    {
        let saved = self.in_vertical_chain;
        self.in_vertical_chain = false;
        self.write_expr_atomic_inner(expr);
        self.in_vertical_chain = saved;
    }
}

impl Printer {
    /// A block (or multi-line) expression in parentheses: the indentation
    /// follows the column after `(`, and when the content broke over lines
    /// the `)` goes on its own line under the `(`.
    #[verifier::spinoff_prover]
    fn write_parenthesized_block(&mut self, expr: &Expr, spanned: Option<&Spanned<Expr>>, always_break: bool)
        requires
            old(self).wf(),
            old(self).pretty(),
            spanned matches Some(s) ==> s.value == *expr,
            spanned is None ==> is_block(*expr),
        ensures
            old(self).extended(&*final(self)),
            simple_text(*expr, old(self).pretty()) matches Some(t) ==> final(self).text() == old(self).text() + seq![
                '(',
            ] + t + (if t.contains('\n') || always_break {
                nl(column_of(old(self).text()))
            } else {
                Seq::empty()
            }) + seq![')'],
        decreases *expr, (if spanned is Some { 11nat } else { 4nat }),
    {
        let ghost pretty = self.pretty();
        let saved_indent = self.indent;
        let saved_extra = self.indent_extra;
        let saved_stack = copy_stack(&self.indent_extra_stack);
        self.write_char('(');
        let col = self.current_column();
        proof {
            assert(self.text().last() == '(');
            assert(self.text().drop_last() =~= old(self).text());
        }
        self.align_to(col);
        let start_len = self.buf.len();
        let ghost p0 = self.text();
        match spanned {
            Some(s) => self.write_spanned_expr(s),
            None => self.write_expr_inner(expr),
        }
        let ghost p1 = self.text();
        let wrote_newline = self.wrote_newline_since(start_len);
        proof {
            if let Some(t) = simple_text(*expr, pretty) {
                assert(p1 == p0 + t);
                if t.contains('\n') {
                    let k = choose|k: int| 0 <= k < t.len() && t[k] == '\n';
                    assert(p1[p0.len() + k] == '\n');
                }
                if wrote_newline {
                    let k = choose|k: int| start_len <= k < p1.len() && p1[k] == '\n';
                    assert(t[k - p0.len()] == '\n');
                }
                assert(wrote_newline == t.contains('\n'));
            }
        }
        self.indent = saved_indent;
        self.indent_extra = saved_extra;
        self.indent_extra_stack = saved_stack;
        if wrote_newline || always_break {
            self.newline();
            self.write_spaces(col - 1);
        }
        self.write_char(')');
        proof {
            if let Some(t) = simple_text(*expr, pretty) {
                assert(col - 1 == column_of(old(self).text()));
                assert(self.text() =~= old(self).text() + seq!['('] + t + (if t.contains('\n') || always_break {
                    nl(column_of(old(self).text()))
                } else {
                    Seq::empty()
                }) + seq![')']);
            }
        }
    }

    #[verifier::spinoff_prover]
    fn write_expr_atomic_inner(&mut self, expr: &Expr)
        requires
            old(self).wf(),
        ensures
            vertical_container(*expr, old(self).pretty()) ==> broke_line(old(self).text(), final(self).text()),
            simple_atomic_text(*expr, old(self).pretty()) matches Some(t) ==> final(self).text() == old(self).text()
                + t,
            old(self).extended(&*final(self)),
        decreases *expr, rank_atomic_inner(*expr),
    {
        let pretty = self.is_pretty();
        match expr {
            Expr::Unit | Expr::Literal(_) | Expr::FunctionOrValue { .. } | Expr::PrefixOperator(_)
            | Expr::RecordAccessFunction(_) | Expr::GLSLExpression(_) => self.write_atomic_leaf(expr),
            Expr::Parenthesized(_) => self.write_parenthesized_atomic(expr),
            Expr::Tuple(elems) => {
                self.write_comma_sep_inner('(', ')', elems, false);
            },
            Expr::List(elems) => {
                if elems.len() == 0 {
                    self.write("[]");
                    proof {
                        reveal_strlit("[]");
                        assert("[]"@ =~= seq!['[', ']']);
                    }
                } else {
                    self.write_comma_sep_inner('[', ']', elems, true);
                }
            },
            Expr::Record(_) => self.write_record_expr(expr),
            Expr::RecordUpdate { .. } => self.write_record_update_expr(expr),
            Expr::RecordAccess { record, field } => {
                let ghost start = self.text();
                self.write_expr_atomic(&record.value);
                let ghost mid = self.text();
                self.write_char('.');
                self.write(field.value.as_str());
                proof {
                    if let Some(t) = simple_atomic_text(record.value, pretty) {
                        assert(mid == start + t);
                        assert(self.text() =~= old(self).text() + (t + seq!['.'] + field.value@));
                    }
                }
            },
            Expr::OperatorApplication { .. } | Expr::Application(_) | Expr::Negation(_) | Expr::BinOps {
                ..
            } => {
                self.write_char('(');
                let ghost mid = self.text();
                self.write_expr_inner(expr);
                let ghost after = self.text();
                self.write_char(')');
                proof {
                    if !(expr is OperatorApplication) && !(expr is BinOps) {
                        assert(simple_text(*expr, pretty) == app_level_text(*expr, pretty));
                    }
                    if let Some(t) = simple_text(*expr, pretty) {
                        assert(after == mid + t);
                        assert(self.text() =~= old(self).text() + (seq!['('] + t + seq![')']));
                    }
                }
            },
            Expr::IfElse { .. } | Expr::CaseOf { .. } | Expr::LetIn { .. } | Expr::Lambda { .. } => {
                if pretty {
                    self.write_parenthesized_block(expr, None, false);
                } else {
                    self.write_char('(');
                    self.write_expr_inner(expr);
                    self.write_char(')');
                }
            },
        }
    }

    /// `()`, a literal, a name, an operator in parentheses, a field
    /// accessor or a GLSL block.
    fn write_atomic_leaf(&mut self, expr: &Expr)
        requires
            expr is Unit || expr is Literal || expr is FunctionOrValue || expr is PrefixOperator
                || expr is RecordAccessFunction || expr is GLSLExpression,
        ensures
            simple_atomic_text(*expr, old(self).pretty()) matches Some(t) ==> final(self).text() == old(self).text()
                + t,
            old(self).extended(&*final(self)),
    {
        match expr {
            Expr::Unit => {
                self.write("()");
                proof {
                    reveal_strlit("()");
                    assert("()"@ =~= seq!['(', ')']);
                }
            },
            Expr::Literal(lit) => self.write_literal(lit),
            Expr::FunctionOrValue { module_name, name } => {
                self.write_qualified(module_name, name.as_str());
            },
            Expr::PrefixOperator(op) => {
                self.write_char('(');
                self.write(op.as_str());
                self.write_char(')');
                assert(self.text() =~= old(self).text() + (seq!['('] + op@ + seq![')']));
            },
            Expr::RecordAccessFunction(name) => {
                self.write_char('.');
                self.write(name.as_str());
                assert(self.text() =~= old(self).text() + (seq!['.'] + name@));
            },
            Expr::GLSLExpression(src) => {
                self.write("[glsl|");
                self.write(src.as_str());
                self.write("|]");
                proof {
                    reveal_strlit("[glsl|");
                    reveal_strlit("|]");
                    assert(self.text() =~= old(self).text() + (seq!['[', 'g', 'l', 's', 'l', '|'] + src@ + seq![
                        '|',
                        ']',
                    ]));
                }
            },
            _ => {},
        }
    }

    /// An expression in parentheses in atomic position. In elm-format
    /// layout the parentheses go around what is atomic anyway and around a
    /// negation, and a multi-line content is laid out as a block.
    fn write_parenthesized_atomic(&mut self, expr: &Expr)
        requires
            old(self).wf(),
            expr is Parenthesized,
        ensures
            simple_atomic_text(*expr, old(self).pretty()) matches Some(t) ==> final(self).text() == old(self).text()
                + t,
            old(self).extended(&*final(self)),
        decreases *expr, 0nat,
    {
        let pretty = self.is_pretty();
        let inner = match expr {
            Expr::Parenthesized(inner) => inner,
            _ => {
                return;
            },
        };
        if pretty && is_naturally_atomic(&inner.value) {
            self.write_expr_atomic(&inner.value);
        } else if pretty && (match &inner.value {
            Expr::Negation(_) => true,
            _ => false,
        }) {
            self.write_expr_app(&inner.value);
        } else if pretty && self.is_multiline(&inner.value) {
            let block = is_block_expr(&inner.value);
            self.write_parenthesized_block(&inner.value, Some(&**inner), !block);
        } else {
            self.write_char('(');
            self.write_spanned_expr(inner);
            self.write_char(')');
        }
    }

    /// A record: `{}`, on one line, or one field per line.
    fn write_record_expr(&mut self, expr: &Expr)
        requires
            old(self).wf(),
            expr is Record,
        ensures
            vertical_container(*expr, old(self).pretty()) ==> broke_line(old(self).text(), final(self).text()),
            simple_atomic_text(*expr, old(self).pretty()) matches Some(t) ==> final(self).text() == old(self).text()
                + t,
            old(self).extended(&*final(self)),
        decreases *expr, 0nat,
    {
        let pretty = self.is_pretty();
        let fields = match expr {
            Expr::Record(fields) => fields,
            _ => {
                return;
            },
        };
        if fields.len() == 0 {
            self.write("{}");
            proof {
                reveal_strlit("{}");
                assert("{}"@ =~= seq!['{', '}']);
            }
        } else {
            let any_ml = self.any_setter_multiline(fields) || (pretty && self.any_trailing_comment(fields)) || (
            pretty && spans_multi_lines(fields)) || (pretty && fields.len() >= 2);
            if any_ml {
                proof {
                    if pretty && !any_setter_multiline(fields@, pretty) && !seq_spans_multi(fields@) && fields@.len()
                        < 2 {
                        let k = choose|k: int|
                            0 <= k < fields@.len() && (#[trigger] fields@[k]).value.trailing_comment is Some;
                        lemma_commented_setter_not_simple(fields@, k);
                    }
                }
                self.write_record_multiline(fields);
            } else {
                self.write("{ ");
                let ghost mid = self.text();
                self.write_setters_line(fields);
                let ghost after = self.text();
                self.write(" }");
                proof {
                    reveal_strlit("{ ");
                    reveal_strlit(" }");
                    if let Some(t) = simple_setters_text(fields@, pretty) {
                        assert(after == mid + t);
                        assert(self.text() =~= old(self).text() + (seq!['{', ' '] + t + seq![' ', '}']));
                    }
                }
            }
        }
    }

    /// A record update: on one line, or one field per line.
    fn write_record_update_expr(&mut self, expr: &Expr)
        requires
            old(self).wf(),
            expr is RecordUpdate,
        ensures
            vertical_container(*expr, old(self).pretty()) ==> broke_line(old(self).text(), final(self).text()),
            simple_atomic_text(*expr, old(self).pretty()) matches Some(t) ==> final(self).text() == old(self).text()
                + t,
            old(self).extended(&*final(self)),
        decreases *expr, 0nat,
    {
        let pretty = self.is_pretty();
        let (base, updates) = match expr {
            Expr::RecordUpdate { base, updates } => (base, updates),
            _ => {
                return;
            },
        };
        let any_ml = self.any_setter_multiline(updates) || (pretty && self.any_trailing_comment(updates)) || (
        pretty && spans_multi_lines(updates));
        if any_ml {
            proof {
                if pretty && !any_setter_multiline(updates@, pretty) && !seq_spans_multi(updates@) {
                    let k = choose|k: int|
                        0 <= k < updates@.len() && (#[trigger] updates@[k]).value.trailing_comment is Some;
                    lemma_commented_setter_not_simple(updates@, k);
                }
            }
            self.write("{ ");
            self.write(base.value.as_str());
            self.indent();
            self.write_update_fields(updates);
            self.dedent();
            let ghost mark = self.text().len();
            self.newline_indent();
            self.write("}");
            assert(self.text()[mark as int] == '\n');
        } else {
            self.write("{ ");
            self.write(base.value.as_str());
            self.write(" | ");
            let ghost mid = self.text();
            self.write_setters_line(updates);
            let ghost after = self.text();
            self.write(" }");
            proof {
                reveal_strlit("{ ");
                reveal_strlit(" | ");
                reveal_strlit(" }");
                if let Some(t) = simple_setters_text(updates@, pretty) {
                    assert(after == mid + t);
                    assert(self.text() =~= old(self).text() + (seq!['{', ' '] + base.value@ + seq![' ', '|', ' '] + t
                        + seq![' ', '}']));
                }
            }
        }
    }

    /// Record setters on one line, separated by `, `.
    #[verifier::spinoff_prover]
    fn write_setters_line(&mut self, fields: &Vec<Spanned<RecordSetter>>)
        requires
            old(self).wf(),
        ensures
            simple_setters_text(fields@, old(self).pretty()) matches Some(t) ==> final(self).text()
                == old(self).text() + t,
            old(self).extended(&*final(self)),
        decreases *fields, 1nat,
    {
        let ghost pretty = self.pretty();
        let ghost whole = simple_setters_text(fields@, pretty);
        let mut i: usize = 0;
        while i < fields.len()
            invariant
                i <= fields@.len(),
                old(self).wf(),
                old(self).extended(&*self),
                pretty == old(self).pretty(),
                whole == simple_setters_text(fields@, pretty),
                whole is Some ==> (simple_setters_text(fields@.take(i as int), pretty) matches Some(t)
                    && self.text() == old(self).text() + t),
            decreases fields@.len() - i,
        {
            proof {
                assert(decreases_to!(*fields => fields@[i as int].value));
                if whole is Some {
                    lemma_simple_setters_prefix(fields@, pretty, i + 1);
                    let t = fields@.take(i + 1);
                    assert(t.drop_last() =~= fields@.take(i as int));
                    assert(t.last() == fields@[i as int]);
                    if i == 0 {
                        assert(t[0] == fields@[0]);
                    }
                }
            }
            if i > 0 {
                self.write(", ");
            }
            self.write_record_setter(&fields[i].value);
            proof {
                reveal_strlit(", ");
                if whole is Some {
                    let b = simple_setters_text(fields@.take(i + 1), pretty)->0;
                    assert(self.text() =~= old(self).text() + b);
                }
            }
            i = i + 1;
        }
        assert(fields@.take(i as int) =~= fields@);
    }

    /// Whether a record field has a trailing comment.
    fn any_trailing_comment(&self, fields: &Vec<Spanned<RecordSetter>>) -> (r: bool)
        ensures
            r == exists|k: int| 0 <= k < fields@.len() && (#[trigger] fields@[k]).value.trailing_comment is Some,
    {
        let mut i: usize = 0;
        while i < fields.len()
            invariant
                i <= fields@.len(),
                forall|k: int| 0 <= k < i ==> (#[trigger] fields@[k]).value.trailing_comment is None,
            decreases fields@.len() - i,
        {
            if fields[i].value.trailing_comment.is_some() {
                return true;
            }
            i = i + 1;
        }
        false
    }

    /// A record with one field per line; in elm-format layout the commas and
    /// the closing brace line up with the `{`.
    fn write_record_multiline(&mut self, fields: &Vec<Spanned<RecordSetter>>)
        requires
            old(self).wf(),
            fields@.len() > 0,
        ensures
            broke_line(old(self).text(), final(self).text()),
            old(self).extended(&*final(self)),
        decreases *fields, 0nat,
    {
        let pretty = self.is_pretty();
        let open_col = self.current_column();
        self.write("{ ");
        self.write_record_setter(&fields[0].value);
        let mut i: usize = 1;
        while i < fields.len()
            invariant
                1 <= i <= fields@.len(),
                old(self).wf(),
                old(self).extended(&*self),
                pretty == old(self).pretty(),
            decreases fields@.len() - i,
        {
            if pretty {
                self.newline();
                self.write_spaces(open_col);
            } else {
                self.newline_indent();
            }
            self.write(", ");
            self.write_record_setter(&fields[i].value);
            i = i + 1;
        }
        let ghost mark = self.text().len();
        if pretty {
            self.newline();
            self.write_spaces(open_col);
        } else {
            self.newline_indent();
        }
        self.write("}");
        assert(self.text()[mark as int] == '\n');
    }

    /// The fields of a multi-line record update, one per line after `|` or
    /// `,`.
    #[verifier::spinoff_prover]
    fn write_update_fields(&mut self, updates: &Vec<Spanned<RecordSetter>>)
        requires
            old(self).wf(),
        ensures
            old(self).extended(&*final(self)),
            prefixed_lines(
                updates@.map_values(|u: Spanned<RecordSetter>| simple_setter_text(u.value, old(self).pretty())),
                old(self).indent_columns(),
                seq!['|', ' '],
                seq![',', ' '],
            ) matches Some(t) ==> final(self).text() == old(self).text() + t,
        decreases *updates, 0nat,
    {
        let ghost pretty = self.pretty();
        let ghost cols = self.indent_columns();
        let ghost parts = updates@.map_values(|u: Spanned<RecordSetter>| simple_setter_text(u.value, pretty));
        let ghost whole = prefixed_lines(parts, cols, seq!['|', ' '], seq![',', ' ']);
        proof {
            reveal(prefixed_lines);
            assert(parts.take(0) =~= Seq::<Option<Seq<char>>>::empty());
        }
        let mut i: usize = 0;
        while i < updates.len()
            invariant
                i <= updates@.len(),
                parts.len() == updates@.len(),
                old(self).wf(),
                old(self).extended(&*self),
                pretty == old(self).pretty(),
                cols == old(self).indent_columns(),
                parts == updates@.map_values(|u: Spanned<RecordSetter>| simple_setter_text(u.value, pretty)),
                whole == prefixed_lines(parts, cols, seq!['|', ' '], seq![',', ' ']),
                whole is Some ==> (prefixed_lines(parts.take(i as int), cols, seq!['|', ' '], seq![',', ' ']) matches Some(
                    t,
                ) && self.text() == old(self).text() + t),
            decreases updates@.len() - i,
        {
            proof {
                old(self).same_state_keeps_layout(&*self);
                if whole is Some {
                    lemma_prefixed_lines_step(parts, cols, seq!['|', ' '], seq![',', ' '], i as int);
                }
            }
            let ghost before = self.text();
            self.newline_indent();
            if i == 0 {
                self.write("| ");
            } else {
                self.write(", ");
            }
            let ghost a = self.text();
            self.write_record_setter(&updates[i].value);
            proof {
                reveal_strlit("| ");
                reveal_strlit(", ");
                if whole is Some {
                    let p = if i == 0 {
                        seq!['|', ' ']
                    } else {
                        seq![',', ' ']
                    };
                    assert(a =~= before + nl(cols) + p);
                    assert(self.text() == a + parts[i as int]->0);
                    assert(self.text() =~= old(self).text() + prefixed_lines(
                        parts.take(i + 1),
                        cols,
                        seq!['|', ' '],
                        seq![',', ' '],
                    )->0);
                }
            }
            i = i + 1;
        }
        proof {
            assert(parts.take(i as int) =~= parts);
        }
    }

    /// A comma-separated list or tuple in brackets: on one line when every
    /// element is one-line; otherwise one element per line, in elm-format
    /// layout with the commas under the opening bracket.
    #[verifier::spinoff_prover]
    fn write_comma_sep_inner(
        &mut self,
        open: char,
        close: char,
        elems: &Vec<Spanned<Expr>>,
        respect_outer_multi_line: bool,
    )
        requires
            old(self).wf(),
            respect_outer_multi_line ==> elems@.len() > 0,
        ensures
            elems@.len() > 0 && (any_multiline(elems@, old(self).pretty()) || (old(self).pretty() && seq_spans_multi(
                elems@,
            ))) ==> broke_line(old(self).text(), final(self).text()),
            respect_outer_multi_line && old(self).pretty() && elems@.len() >= 2 ==> broke_line(
                old(self).text(),
                final(self).text(),
            ),
            old(self).extended(&*final(self)),
            (!respect_outer_multi_line || !old(self).pretty()) && !any_multiline(elems@, old(self).pretty()) && !(
            old(self).pretty() && seq_spans_multi(elems@)) ==> (simple_elems_text(elems@, old(self).pretty()) matches Some(
                t,
            ) ==> final(self).text() == old(self).text() + seq![open, ' '] + t + seq![' ', close]),
        decreases *elems, 1nat,
    {
        let pretty = self.is_pretty();
        let open_col = self.current_column();
        let standard_indent = self.indent_cols();
        let at_standard_indent = open_col == standard_indent;
        let outer_multi_line = respect_outer_multi_line && pretty && at_standard_indent && match self.current_expr_span() {
            Some(s) => s.end.line > s.start.line && s.start.line != 0,
            None => false,
        };
        let any_multiline = self.any_multiline(elems) || (pretty && spans_multi_lines(elems))
            || outer_multi_line || (pretty && respect_outer_multi_line && elems.len() >= 2);
        if any_multiline && pretty && elems.len() > 0 {
            let bump_indent = open_col > standard_indent;
            let saved_extra = self.indent_extra;
            self.write_char(open);
            self.write_char(' ');
            self.write_comma_sep_element(&elems[0], bump_indent, saved_extra);
            let mut i: usize = 1;
            while i < elems.len()
                invariant
                    1 <= i <= elems@.len(),
                    old(self).wf(),
                    old(self).extended(&*self),
                    saved_extra == old(self).indent_extra,
                decreases elems@.len() - i,
            {
                self.newline();
                self.write_spaces(open_col);
                self.write(", ");
                self.write_comma_sep_element(&elems[i], bump_indent, saved_extra);
                i = i + 1;
            }
            let ghost mark = self.text().len();
            self.newline();
            self.write_spaces(open_col);
            self.write_char(close);
            assert(self.text()[mark as int] == '\n');
        } else if any_multiline {
            self.write_char(open);
            self.indent();
            self.write_comma_sep_lines(elems);
            let ghost mark = self.text().len();
            self.newline_indent();
            self.write_char(close);
            self.dedent();
            assert(self.text()[mark as int] == '\n');
        } else {
            self.write_char(open);
            self.write_char(' ');
            let ghost whole = simple_elems_text(elems@, pretty);
            let mut i: usize = 0;
            while i < elems.len()
                invariant
                    i <= elems@.len(),
                    old(self).wf(),
                    old(self).extended(&*self),
                    pretty == old(self).pretty(),
                    whole == simple_elems_text(elems@, pretty),
                    whole is Some ==> (simple_elems_text(elems@.take(i as int), pretty) matches Some(t)
                        && self.text() == old(self).text() + seq![open, ' '] + t),
                decreases elems@.len() - i,
            {
                proof {
                    if whole is Some {
                        lemma_simple_elems_prefix(elems@, pretty, i + 1);
                        let t = elems@.take(i + 1);
                        assert(t.drop_last() =~= elems@.take(i as int));
                        assert(t.last() == elems@[i as int]);
                        if i == 0 {
                            assert(t[0] == elems@[0]);
                        }
                    }
                }
                if i > 0 {
                    self.write(", ");
                }
                self.write_spanned_expr(&elems[i]);
                proof {
                    reveal_strlit(", ");
                    if whole is Some {
                        let b = simple_elems_text(elems@.take(i + 1), pretty)->0;
                        assert(self.text() =~= old(self).text() + seq![open, ' '] + b);
                    }
                }
                i = i + 1;
            }
            self.write_char(' ');
            self.write_char(close);
            proof {
                assert(elems@.take(i as int) =~= elems@);
                if whole is Some {
                    let t = whole->0;
                    assert(self.text() =~= old(self).text() + seq![open, ' '] + t + seq![' ', close]);
                }
            }
        }
    }

    /// One element of a multi-line list or tuple in elm-format layout, with
    /// its continuation lines two columns in (one level more when the
    /// bracket opened past the current indentation).
    fn write_comma_sep_element(&mut self, elem: &Spanned<Expr>, bump_indent: bool, saved_extra: u32)
        requires
            old(self).wf(),
            saved_extra == old(self).indent_extra,
        ensures
            old(self).extended(&*final(self)),
            simple_text(elem.value, old(self).pretty()) matches Some(t) ==> final(self).text() == old(self).text() + t,
        decreases elem.value, 11nat,
    {
        if bump_indent {
            self.indent();
        }
        self.indent_extra = saved_extra.saturating_add(2);
        self.write_spanned_expr(elem);
        self.indent_extra = saved_extra;
        if bump_indent {
            self.dedent();
        }
    }

    /// The elements of a multi-line list or tuple in the compact layout, one
    /// per line after two spaces or `, `.
    #[verifier::spinoff_prover]
    fn write_comma_sep_lines(&mut self, elems: &Vec<Spanned<Expr>>)
        requires
            old(self).wf(),
        ensures
            old(self).extended(&*final(self)),
            prefixed_lines(
                elems@.map_values(|x: Spanned<Expr>| simple_text(x.value, old(self).pretty())),
                old(self).indent_columns(),
                seq![' ', ' '],
                seq![',', ' '],
            ) matches Some(t) ==> final(self).text() == old(self).text() + t,
        decreases *elems, 0nat,
    {
        let ghost pretty = self.pretty();
        let ghost cols = self.indent_columns();
        let ghost parts = elems@.map_values(|x: Spanned<Expr>| simple_text(x.value, pretty));
        let ghost whole = prefixed_lines(parts, cols, seq![' ', ' '], seq![',', ' ']);
        proof {
            reveal(prefixed_lines);
            assert(parts.take(0) =~= Seq::<Option<Seq<char>>>::empty());
        }
        let mut i: usize = 0;
        while i < elems.len()
            invariant
                i <= elems@.len(),
                parts.len() == elems@.len(),
                old(self).wf(),
                old(self).extended(&*self),
                pretty == old(self).pretty(),
                cols == old(self).indent_columns(),
                parts == elems@.map_values(|x: Spanned<Expr>| simple_text(x.value, pretty)),
                whole == prefixed_lines(parts, cols, seq![' ', ' '], seq![',', ' ']),
                whole is Some ==> (prefixed_lines(parts.take(i as int), cols, seq![' ', ' '], seq![',', ' ']) matches Some(
                    t,
                ) && self.text() == old(self).text() + t),
            decreases elems@.len() - i,
        {
            proof {
                old(self).same_state_keeps_layout(&*self);
                if whole is Some {
                    lemma_prefixed_lines_step(parts, cols, seq![' ', ' '], seq![',', ' '], i as int);
                }
            }
            let ghost before = self.text();
            self.newline_indent();
            if i == 0 {
                self.write("  ");
            } else {
                self.write(", ");
            }
            let ghost a = self.text();
            self.write_spanned_expr(&elems[i]);
            proof {
                reveal_strlit("  ");
                reveal_strlit(", ");
                if whole is Some {
                    let p = if i == 0 {
                        seq![' ', ' ']
                    } else {
                        seq![',', ' ']
                    };
                    assert(a =~= before + nl(cols) + p);
                    assert(self.text() == a + parts[i as int]->0);
                    assert(self.text() =~= old(self).text() + prefixed_lines(
                        parts.take(i + 1),
                        cols,
                        seq![' ', ' '],
                        seq![',', ' '],
                    )->0);
                }
            }
            i = i + 1;
        }
        proof {
            assert(parts.take(i as int) =~= parts);
        }
    }

    /// `field = value`, the value on its own line when it is multi-line (or,
    /// in elm-format layout, was below the field in the source), then the
    /// trailing comment in elm-format layout.
    fn write_record_setter(&mut self, setter: &RecordSetter)
        requires
            old(self).wf(),
        ensures
            simple_setter_text(*setter, old(self).pretty()) matches Some(t) ==> final(self).text() == old(self).text()
                + t,
            old(self).extended(&*final(self)),
        decreases *setter, 0nat,
    {
        let pretty = self.is_pretty();
        self.write(setter.field.value.as_str());
        let source_was_multiline = pretty && setter.field.span.end.line < setter.value.span.start.line;
        if self.is_multiline(&setter.value.value) || source_was_multiline {
            self.write(" =");
            self.indent();
            self.newline_indent();
            self.write_spanned_expr(&setter.value);
            self.dedent();
        } else {
            self.write(" = ");
            let ghost mid = self.text();
            self.write_spanned_expr(&setter.value);
            proof {
                reveal_strlit(" = ");
                if let Some(t) = simple_setter_text(*setter, pretty) {
                    let v = simple_text(setter.value.value, pretty)->0;
                    assert(self.text() == mid + v);
                    assert(self.text() =~= old(self).text() + t);
                }
            }
        }
        match &setter.trailing_comment {
            Some(trailing) => {
                if pretty {
                    self.write_char(' ');
                    self.write_comment(&trailing.value);
                }
            },
            None => {},
        }
    }
}

impl Printer {
    /// An operator application. In elm-format layout, a chain of operators
    /// of one family (pipes, cons and append, composition, comparison and
    /// arithmetic, arithmetic, logic) with a multi-line part is laid out with
    /// one operator per line; otherwise the application is on one line, or
    /// breaks before its operator when an operand is multi-line.
    #[verifier::spinoff_prover]
    #[verifier::rlimit(50)]
    fn write_operator_application(&mut self, e: &Expr)
        requires
            old(self).wf(),
            e is OperatorApplication,
        ensures
            simple_text(*e, old(self).pretty()) matches Some(t) ==> final(self).text() == old(self).text() + t,
            old(self).extended(&*final(self)),
            vertical_container(*e, old(self).pretty()) ==> broke_line(old(self).text(), final(self).text()),
            expr_shape_written(*e, *old(self), old(self).text(), final(self).text()),
        decreases *e, 2nat,
    {
        match e {
            Expr::OperatorApplication { operator, left, right, .. } => {
                let pretty = self.is_pretty();
                let op = operator.as_str();
                let is_left_pipe = str_eq(op, "<|");
                let right_expr: &Expr = if pretty && is_left_pipe {
                    let inner = unwrap_parens(&right.value);
                    let inner_needs_parens = match inner {
                        Expr::OperatorApplication { operator: inner_op, .. } => is_chain_op(
                            ChainKind::Pipe,
                            inner_op.as_str(),
                        ),
                        _ => false,
                    };
                    if inner_needs_parens {
                        &right.value
                    } else {
                        inner
                    }
                } else {
                    &right.value
                };
                proof {
                    assert(decreases_to!(*e => right.value));
                    if *right_expr != right.value {
                        lemma_trans(*e, right.value, *right_expr);
                    }
                    assert(*right_expr == left_pipe_right(right.value, pretty && is_left_pipe));
                }
                let crosses = spans_cross_lines(left.span, right.span);
                if pretty && is_chain_op(ChainKind::Pipe, op) {
                    match flatten_left_chain(ChainKind::Pipe, e) {
                        Some((head, rest)) => {
                            proof {
                                assert forall|i: int| 0 <= i < rest@.len() implies is_pipe_op(#[trigger] rest@[i].0@) by {
                                    assert(in_chain(ChainKind::Pipe, rest@[i].0@));
                                }
                                assert(old(self).continues_chain() == old(self).in_vertical_chain);
                            }
                            self.write_pipe_chain_vertical(head, op, &rest, Ghost(*e));
                            proof {
                                lemma_vertical_not_simple(*e);
                            }
                            return;
                        },
                        None => {},
                    }
                }
                if pretty && is_chain_op(ChainKind::ConsAppend, op) {
                    match flatten_mixed_cons_append_chain(e) {
                        Some((head, rest)) => {
                            if self.is_multiline(&head.value) || self.any_step_multiline(&rest) || crosses {
                                self.write_vertical_chain(head, op, &rest, Ghost(*e));
                                proof {
                                    lemma_vertical_not_simple(*e);
                                }
                                return;
                            }
                        },
                        None => {},
                    }
                }
                if pretty && (str_eq(op, ">>") || str_eq(op, "<<")) {
                    match flatten_right_assoc_chain(e, op) {
                        Some(chain) => {
                            let mut rest: Vec<(&str, &Spanned<Expr>)> = Vec::new();
                            let mut any_ml = false;
                            let mut i: usize = 0;
                            while i < chain.len()
                                invariant
                                    i <= chain@.len(),
                                    forall|k: int| 0 <= k < chain@.len() ==> decreases_to!(*e => chain@[k].value),
                                    steps_within(*e, rest@),
                                    pretty == self.pretty(),
                                    forall|k: int| 0 <= k < chain@.len() ==> ml_within(*e, #[trigger] chain@[k].value),
                                    any_ml ==> expr_multiline(*e, pretty),
                                decreases chain@.len() - i,
                            {
                                if self.is_multiline(&chain[i].value) {
                                    any_ml = true;
                                }
                                if i > 0 {
                                    rest.push((op, chain[i]));
                                }
                                i = i + 1;
                            }
                            if any_ml || crosses {
                                self.write_vertical_chain(chain[0], op, &rest, Ghost(*e));
                                proof {
                                    lemma_vertical_not_simple(*e);
                                }
                                return;
                            }
                        },
                        None => {},
                    }
                }
                if pretty && is_chain_op(ChainKind::ComparisonArithmetic, op) {
                    match flatten_bidir_chain(ChainKind::ComparisonArithmetic, e) {
                        Some((head, rest)) => {
                            if self.is_multiline(&head.value) || self.any_step_multiline(&rest) || crosses {
                                self.write_vertical_chain(head, op, &rest, Ghost(*e));
                                proof {
                                    lemma_vertical_not_simple(*e);
                                }
                                return;
                            }
                        },
                        None => {},
                    }
                }
                if pretty && is_chain_op(ChainKind::Arithmetic, op) {
                    match flatten_bidir_chain(ChainKind::Arithmetic, e) {
                        Some((head, rest)) => {
                            if self.is_multiline(&head.value) || self.any_step_multiline(&rest) || crosses {
                                self.write_vertical_chain(head, op, &rest, Ghost(*e));
                                proof {
                                    lemma_vertical_not_simple(*e);
                                }
                                return;
                            }
                        },
                        None => {},
                    }
                }
                if pretty && is_chain_op(ChainKind::Logical, op) {
                    match flatten_bidir_chain(ChainKind::Logical, e) {
                        Some((head, rest)) => {
                            if self.is_multiline(&head.value) || self.any_step_multiline(&rest) || crosses {
                                self.write_vertical_chain(head, op, &rest, Ghost(*e));
                                proof {
                                    lemma_vertical_not_simple(*e);
                                }
                                return;
                            }
                        },
                        None => {},
                    }
                }
                let is_pipe = is_chain_op(ChainKind::Pipe, op);
                let right_has_line_leading = is_pipe && Self::has_line_comment(&right.comments);
                let use_vertical = if pretty {
                    self.is_multiline(&left.value) || self.is_multiline(right_expr) || crosses
                        || right_has_line_leading
                } else {
                    self.is_multiline(right_expr) || right_has_line_leading
                };
                self.write_leading_comments(&left.comments);
                let left_multiline = pretty && self.is_multiline(&left.value);
                let ghost before_left = self.text();
                self.write_expr_operand(left, op, true);
                let ghost after_left = self.text();
                if use_vertical && is_left_pipe {
                    self.write_left_pipe_vertical(right, right_expr, left_multiline, Ghost(*e));
                } else if use_vertical {
                    self.write_op_vertical(right, op, right_has_line_leading, Ghost(*e));
                } else {
                    self.write_char(' ');
                    self.write(op);
                    self.write_char(' ');
                    self.write_leading_comments(&right.comments);
                    let ghost before_right = self.text();
                    if is_left_pipe {
                        self.write_expr_inner(right_expr);
                    } else {
                        self.write_expr_operand(right, op, false);
                    }
                    proof {
                        if let Some(t) = simple_text(*e, pretty) {
                            reveal_strlit("<|");
                            let a = simple_operand_text(left.value, op@, true, pretty)->0;
                            let b = if op@ == "<|"@ {
                                simple_text(*right_expr, pretty)->0
                            } else {
                                simple_operand_text(right.value, op@, false, pretty)->0
                            };
                            assert(before_left == old(self).text());
                            assert(after_left == before_left + a);
                            assert(self.text() == before_right + b);
                            assert(self.text() =~= old(self).text() + t);
                        }
                    }
                }
                proof {
                    if simple_text(*e, pretty) is Some {
                        assert(!use_vertical);
                    }
                }
            },
            _ => {},
        }
    }

    /// The steps `op operand` of a vertical chain, each on a new line at the
    /// current indentation; with `with_comments`, an operand's line
    /// comments go on lines of their own before its operator.
    #[verifier::spinoff_prover]
    #[verifier::rlimit(100)]
    fn write_chain_steps(
        &mut self,
        rest: &Vec<(&str, &Spanned<Expr>)>,
        with_comments: bool,
        Ghost(e): Ghost<Expr>,
    ) -> (r: Ghost<(Seq<Seq<char>>, Seq<Seq<char>>)>)
        requires
            old(self).wf(),
            steps_within(e, rest@),
        ensures
            old(self).extended(&*final(self)),
            r@.0.len() == rest@.len() && r@.1.len() == rest@.len(),
            final(self).text() == old(self).text() + steps_at(step_ops(rest@), r@.0, r@.1, old(self).indent_columns()),
            chain_steps_text(rest@, with_comments, old(self).pretty(), old(self).indent_columns()) matches Some(t)
                ==> final(self).text() == old(self).text() + t,
            rest@.len() > 0 ==> broke_line(old(self).text(), final(self).text()),
        decreases e, 0nat,
    {
        let ghost pretty = self.pretty();
        let ghost cols = self.indent_columns();
        let ghost parts = rest@.map_values(
            |s: (&str, &Spanned<Expr>)| chain_step_text(s.0@, *s.1, with_comments, pretty, cols),
        );
        let ghost whole = concat_parts(parts);
        let ghost mut pres: Seq<Seq<char>> = Seq::empty();
        let ghost mut ts: Seq<Seq<char>> = Seq::empty();
        proof {
            lemma_concat_parts_empty(parts.take(0));
            assert(step_ops(rest@).take(0) =~= Seq::<Seq<char>>::empty());
        }
        let mut i: usize = 0;
        while i < rest.len()
            invariant
                i <= rest@.len(),
                parts.len() == rest@.len(),
                pres.len() == i && ts.len() == i,
                self.text() == old(self).text() + steps_at(step_ops(rest@).take(i as int), pres, ts, cols),
                old(self).wf(),
                old(self).extended(&*self),
                steps_within(e, rest@),
                pretty == old(self).pretty(),
                cols == old(self).indent_columns(),
                parts == rest@.map_values(
                    |s: (&str, &Spanned<Expr>)| chain_step_text(s.0@, *s.1, with_comments, pretty, cols),
                ),
                whole == concat_parts(parts),
                whole is Some ==> (concat_parts(parts.take(i as int)) matches Some(t) && self.text() == old(self).text()
                    + t),
                i > 0 ==> broke_line(old(self).text(), self.text()),
            decreases rest@.len() - i,
        {
            proof {
                old(self).same_state_keeps_layout(&*self);
                if whole is Some {
                    lemma_concat_parts_step(parts, i as int);
                }
            }
            let ghost before = self.text();
            let (op, operand) = rest[i];
            proof {
                assert(decreases_to!(e => rest@[i as int].1.value));
            }
            let Ghost(pt) = self.write_chain_step(op, operand, with_comments);
            proof {
                let ops = step_ops(rest@);
                assert(ops.take(i + 1) =~= ops.take(i as int).push(op@));
                lemma_steps_at_push(ops.take(i as int), pres, ts, cols, op@, pt.0, pt.1);
                assert(self.text() =~= old(self).text() + steps_at(ops.take(i + 1), pres.push(pt.0), ts.push(pt.1), cols));
                pres = pres.push(pt.0);
                ts = ts.push(pt.1);
                lemma_broke_line_earlier(old(self).text(), before, self.text());
                if whole is Some {
                    assert(self.text() =~= old(self).text() + concat_parts(parts.take(i + 1))->0);
                }
            }
            i = i + 1;
        }
        proof {
            assert(parts.take(i as int) =~= parts);
            assert(step_ops(rest@).take(i as int) =~= step_ops(rest@));
        }
        Ghost((pres, ts))
    }

    /// One step of a vertical operator chain: with `with_comments`, the
    /// operand's line comments, then `op operand` on a new line.
    #[verifier::spinoff_prover]
    #[verifier::rlimit(40)]
    fn write_chain_step(&mut self, op: &str, operand: &Spanned<Expr>, with_comments: bool) -> (r: Ghost<
        (Seq<char>, Seq<char>),
    >)
        requires
            old(self).wf(),
        ensures
            old(self).extended(&*final(self)),
            final(self).text() == old(self).text() + r@.0 + nl(old(self).indent_columns()) + op@ + seq![' '] + r@.1,
            chain_step_text(op@, *operand, with_comments, old(self).pretty(), old(self).indent_columns()) matches Some(
                t,
            ) ==> final(self).text() == old(self).text() + t,
            broke_line(old(self).text(), final(self).text()),
        decreases operand.value, 11nat,
    {
        let ghost pretty = self.pretty();
        let ghost cols = self.indent_columns();
        if with_comments {
            self.write_line_comments_on_own_lines(&operand.comments);
        }
        proof {
            old(self).same_state_keeps_layout(&*self);
        }
        let ghost pre_nl = self.text();
        self.newline_indent();
        let ghost post_nl = self.text();
        proof {
            assert(post_nl[pre_nl.len() as int] == '\n');
            assert(broke_line(old(self).text(), post_nl));
        }
        self.write(op);
        self.write_char(' ');
        let ghost a = self.text();
        self.write_expr_operand(operand, op, false);
        proof {
            reveal(chain_step_text);
            if let Some(t) = chain_step_text(op@, *operand, with_comments, pretty, cols) {
                let c = if with_comments {
                    own_line_comments(operand.comments@, cols)
                } else {
                    Seq::empty()
                };
                assert(a =~= old(self).text() + c + nl(cols) + op@ + seq![' ']);
                assert(self.text() =~= old(self).text() + t);
            }
            lemma_prefix_trans(post_nl, a, self.text());
            lemma_broke_line_kept(old(self).text(), post_nl, self.text());
        }
        let ghost pre = pre_nl.subrange(old(self).text().len() as int, pre_nl.len() as int);
        let ghost t = self.text().subrange(a.len() as int, self.text().len() as int);
        proof {
            assert(pre_nl =~= old(self).text() + pre);
            assert(a =~= pre_nl + nl(cols) + op@ + seq![' ']);
            assert(self.text() =~= old(self).text() + pre + nl(cols) + op@ + seq![' '] + t);
        }
        Ghost((pre, t))
    }

    /// A vertical chain: the head, then the steps one level in (or at the
    /// column of an enclosing vertical chain).
    fn write_vertical_chain(
        &mut self,
        head: &Spanned<Expr>,
        head_op: &str,
        rest: &Vec<(&str, &Spanned<Expr>)>,
        Ghost(e): Ghost<Expr>,
    )
        requires
            old(self).wf(),
            decreases_to!(e => head.value),
            steps_within(e, rest@),
        ensures
            old(self).extended(&*final(self)),
            simple_operand_text(head.value, head_op@, true, old(self).pretty()) matches Some(h) ==> (chain_steps_text(
                rest@,
                false,
                old(self).pretty(),
                if old(self).in_vertical_chain {
                    old(self).indent_columns()
                } else {
                    old(self).inner_columns()
                },
            ) matches Some(t) ==> final(self).text() == old(self).text() + h + t),
        decreases e, 1nat,
    {
        let outer_chain = self.in_vertical_chain;
        self.write_expr_operand(head, head_op, true);
        let ghost mid = self.text();
        proof {
            old(self).same_state_keeps_layout(&*self);
        }
        if !outer_chain {
            self.indent();
        }
        self.in_vertical_chain = true;
        let ghost start = self.text();
        assert(start == mid);
        assert(self.indent_columns() == if outer_chain {
            old(self).indent_columns()
        } else {
            old(self).inner_columns()
        });
        assert(self.pretty() == old(self).pretty());
        self.write_chain_steps(rest, false, Ghost(e));
        let ghost end = self.text();
        self.in_vertical_chain = outer_chain;
        if !outer_chain {
            self.dedent();
        }
        assert(self.text() == end);
        proof {
            let pretty = old(self).pretty();
            let cols = if outer_chain {
                old(self).indent_columns()
            } else {
                old(self).inner_columns()
            };
            if let Some(h) = simple_operand_text(head.value, head_op@, true, pretty) {
                if let Some(t) = chain_steps_text(rest@, false, pretty, cols) {
                    assert(mid == old(self).text() + h);
                    assert(end == start + t);
                    assert(self.text() =~= old(self).text() + h + t);
                }
            }
        }
    }

    /// A vertical pipe chain. A head that is itself an operator chain joins
    /// the same vertical layout; the steps align one level past the column
    /// where the head starts.
    #[verifier::spinoff_prover]
    fn write_pipe_chain_vertical(
        &mut self,
        head: &Spanned<Expr>,
        op: &str,
        rest: &Vec<(&str, &Spanned<Expr>)>,
        Ghost(e): Ghost<Expr>,
    )
        requires
            old(self).wf(),
            old(self).pretty(),
            decreases_to!(e => head.value),
            steps_within(e, rest@),
        ensures
            old(self).extended(&*final(self)),
            rest@.len() > 0 ==> broke_line(old(self).text(), final(self).text()),
            rest@.len() > 0 && (forall|i: int| 0 <= i < rest@.len() ==> is_pipe_op(#[trigger] rest@[i].0@))
                ==> pipeline_written(
                old(self).text(),
                final(self).text(),
                if old(self).in_vertical_chain {
                    old(self).indent_columns()
                } else {
                    next_stop(column_of(old(self).text()), old(self).width() as nat)
                },
            ),
            !flattens_as_chain(head.value) ==> (simple_operand_text(head.value, op@, true, old(self).pretty()) matches Some(
                h,
            ) ==> (chain_steps_text(
                rest@,
                true,
                old(self).pretty(),
                if old(self).in_vertical_chain {
                    old(self).indent_columns()
                } else {
                    next_stop(column_of(old(self).text()), old(self).width() as nat)
                },
            ) matches Some(t) ==> final(self).text() == old(self).text() + h + t)),
        decreases e, 1nat,
    {
        let ghost pretty = self.pretty();
        let ghost cols = if self.in_vertical_chain {
            self.indent_columns()
        } else {
            next_stop(column_of(self.text()), self.width() as nat)
        };
        let (real_head, head_rest) = match flatten_as_chain(&head.value) {
            Some((h, t)) => {
                proof {
                    lemma_trans(e, head.value, h.value);
                    assert forall|i: int| 0 <= i < t@.len() implies decreases_to!(e => t@[i].1.value) by {
                        lemma_trans(e, head.value, t@[i].1.value);
                    }
                }
                (h, t)
            },
            None => (head, Vec::new()),
        };
        let first_op = if head_rest.len() > 0 {
            head_rest[0].0
        } else {
            op
        };
        let outer_chain = self.in_vertical_chain;
        let head_col = self.current_column();
        self.write_expr_operand(real_head, first_op, true);
        let ghost mid = self.text();
        proof {
            old(self).same_state_keeps_layout(&*self);
        }
        let saved_indent = self.indent;
        let saved_extra = self.indent_extra;
        let saved_stack = copy_stack(&self.indent_extra_stack);
        if !outer_chain {
            self.align_to(head_col);
            self.indent_extra_stack = Vec::new();
            self.indent();
        }
        self.in_vertical_chain = true;
        assert(self.indent_columns() == cols);
        assert(self.pretty() == pretty);
        let Ghost(r1) = self.write_chain_steps(&head_rest, true, Ghost(e));
        let ghost mid2 = self.text();
        proof {
            if !flattens_as_chain(head.value) {
                assert(head_rest@.len() == 0);
                let parts = head_rest@.map_values(
                    |s: (&str, &Spanned<Expr>)| chain_step_text(s.0@, *s.1, true, pretty, cols),
                );
                lemma_concat_parts_empty(parts);
                assert(mid2 == mid);
            }
        }
        let Ghost(r2) = self.write_chain_steps(rest, true, Ghost(e));
        let ghost end = self.text();
        proof {
            if rest@.len() > 0 {
                lemma_broke_line_earlier(old(self).text(), mid2, end);
            }
            let h = mid.subrange(old(self).text().len() as int, mid.len() as int);
            assert(mid =~= old(self).text() + h);
            let pt = pipeline_text(h, step_ops(head_rest@), r1.0, r1.1, step_ops(rest@), r2.0, r2.1, cols);
            assert(end =~= old(self).text() + pt);
            assert(pt =~= end.subrange(old(self).text().len() as int, end.len() as int));
            assert forall|i: int| 0 <= i < step_ops(rest@).len() implies step_ops(rest@)[i] == rest@[i].0@ by {}
        }
        self.in_vertical_chain = outer_chain;
        if !outer_chain {
            self.indent = saved_indent;
            self.indent_extra = saved_extra;
            self.indent_extra_stack = saved_stack;
        }
        proof {
            if !flattens_as_chain(head.value) {
                if let Some(h) = simple_operand_text(head.value, op@, true, pretty) {
                    if let Some(t) = chain_steps_text(rest@, true, pretty, cols) {
                        assert(mid == old(self).text() + h);
                        assert(self.text() =~= old(self).text() + h + t);
                    }
                }
            }
        }
    }

    /// The right operand of `<|` on a new line one level in; a right operand
    /// that is an operator chain is laid out vertically there.
    #[verifier::spinoff_prover]
    fn write_left_pipe_vertical(
        &mut self,
        right: &Spanned<Expr>,
        right_expr: &Expr,
        left_multiline: bool,
        Ghost(e): Ghost<Expr>,
    )
        requires
            old(self).wf(),
            decreases_to!(e => *right_expr),
        ensures
            old(self).extended(&*final(self)),
            !flattens_as_chain(*right_expr) && right.comments@.len() == 0 ==> (simple_text(
                *right_expr,
                old(self).pretty(),
            ) matches Some(t) ==> final(self).text() == old(self).text() + (if left_multiline {
                nl(old(self).indent_columns())
            } else {
                seq![' ']
            }) + seq!['<', '|'] + nl(old(self).inner_columns()) + t),
        decreases e, 1nat,
    {
        let ghost pretty = self.pretty();
        let ghost cols = self.indent_columns();
        let ghost inner = self.inner_columns();
        if left_multiline {
            self.newline_indent();
            self.write("<|");
        } else {
            self.write(" <|");
        }
        proof {
            reveal_strlit("<|");
            reveal_strlit(" <|");
            old(self).same_state_keeps_layout(&*self);
            assert(self.text() =~= old(self).text() + (if left_multiline {
                nl(cols)
            } else {
                seq![' ']
            }) + seq!['<', '|']);
        }
        let saved_chain = self.in_vertical_chain;
        self.in_vertical_chain = false;
        self.indent();
        self.newline_indent();
        self.write_leading_comments(&right.comments);
        let ghost a = self.text();
        let mut done = false;
        match flatten_as_chain(right_expr) {
            Some((rhead, rrest)) => {
                if rrest.len() > 0 {
                    proof {
                        lemma_trans(e, *right_expr, rhead.value);
                        assert forall|i: int| 0 <= i < rrest@.len() implies decreases_to!(e => rrest@[i].1.value) by {
                            lemma_trans(e, *right_expr, rrest@[i].1.value);
                        }
                    }
                    let first_op = rrest[0].0;
                    self.write_expr_operand(rhead, first_op, true);
                    self.indent();
                    self.in_vertical_chain = true;
                    self.write_chain_steps(&rrest, false, Ghost(e));
                    self.dedent();
                    done = true;
                }
            },
            None => {},
        }
        if !done {
            self.write_expr_inner(right_expr);
        }
        let ghost end = self.text();
        self.dedent();
        self.in_vertical_chain = saved_chain;
        proof {
            if !flattens_as_chain(*right_expr) && right.comments@.len() == 0 {
                if let Some(t) = simple_text(*right_expr, pretty) {
                    assert(end == a + t);
                    assert(self.text() =~= old(self).text() + (if left_multiline {
                        nl(cols)
                    } else {
                        seq![' ']
                    }) + seq!['<', '|'] + nl(inner) + t);
                }
            }
        }
    }

    /// The right operand of another operator on a new line, one level in
    /// (or at the column of an enclosing vertical chain).
    #[verifier::spinoff_prover]
    fn write_op_vertical(
        &mut self,
        right: &Spanned<Expr>,
        op: &str,
        right_has_line_leading: bool,
        Ghost(e): Ghost<Expr>,
    )
        requires
            old(self).wf(),
            decreases_to!(e => right.value),
        ensures
            old(self).extended(&*final(self)),
            right_has_line_leading || right.comments@.len() == 0 ==> (chain_step_text(
                op@,
                *right,
                right_has_line_leading,
                old(self).pretty(),
                if old(self).in_vertical_chain {
                    old(self).indent_columns()
                } else {
                    old(self).inner_columns()
                },
            ) matches Some(t) ==> final(self).text() == old(self).text() + t),
        decreases e, 1nat,
    {
        let ghost pretty = self.pretty();
        let ghost cols = if self.in_vertical_chain {
            self.indent_columns()
        } else {
            self.inner_columns()
        };
        let outer_chain = self.in_vertical_chain;
        if !outer_chain {
            self.indent();
        }
        let ghost start = self.text();
        let ghost s0 = *self;
        assert(self.indent_columns() == cols);
        let ghost lead = if right_has_line_leading {
            own_line_comments(right.comments@, cols)
        } else {
            Seq::empty()
        };
        self.write_op_step_lead(right, op, right_has_line_leading);
        let ghost a = self.text();
        proof {
            s0.same_state_keeps_layout(&*self);
        }
        self.write_expr_operand(right, op, false);
        let ghost end = self.text();
        if !outer_chain {
            self.dedent();
        }
        proof {
            reveal(chain_step_text);
            if let Some(t) = chain_step_text(op@, *right, right_has_line_leading, pretty, cols) {
                if right_has_line_leading || right.comments@.len() == 0 {
                    let x = simple_operand_text(right.value, op@, false, pretty)->0;
                    assert(end == a + x);
                    assert(end =~= start + t);
                }
            }
        }
    }
}

impl Printer {
    /// What goes before the right operand of a vertical operator: its line
    /// comments on lines of their own and then the operator on a new line,
    /// or the operator on a new line and then the comments.
    fn write_op_step_lead(&mut self, right: &Spanned<Expr>, op: &str, right_has_line_leading: bool)
        ensures
            old(self).extended(&*final(self)),
            right_has_line_leading || right.comments@.len() == 0 ==> final(self).text() == old(self).text() + (
            if right_has_line_leading {
                own_line_comments(right.comments@, old(self).indent_columns())
            } else {
                Seq::empty()
            }) + nl(old(self).indent_columns()) + op@ + seq![' '],
    {
        let ghost cols = self.indent_columns();
        if right_has_line_leading {
            self.write_line_comments_on_own_lines(&right.comments);
            proof {
                old(self).same_state_keeps_layout(&*self);
            }
            self.newline_indent();
            self.write(op);
            self.write_char(' ');
            proof {
                assert(self.text() =~= old(self).text() + own_line_comments(right.comments@, cols) + nl(cols) + op@
                    + seq![' ']);
            }
        } else {
            self.newline_indent();
            self.write(op);
            self.write_char(' ');
            let ghost a = self.text();
            self.write_leading_comments(&right.comments);
            proof {
                if right.comments@.len() == 0 {
                    assert(self.text() == a);
                    assert(self.text() =~= old(self).text() + Seq::<char>::empty() + nl(cols) + op@ + seq![' ']);
                }
            }
        }
    }

    /// `keyword cond then`; in elm-format layout a multi-line condition goes
    /// on its own lines between the keyword and `then`.
    fn write_if_condition(&mut self, keyword: &str, cond: &Spanned<Expr>)
        requires
            old(self).wf(),
        ensures
            old(self).extended(&*final(self)),
            if_condition_text(keyword@, *cond, old(self).pretty(), old(self).indent_columns(), old(self).inner_columns())
                matches Some(t) ==> final(self).text() == old(self).text() + t,
            (old(self).text() + keyword@).is_prefix_of(final(self).text()),
        decreases cond.value, 11nat,
    {
        let ghost pretty = self.pretty();
        let ghost cols = self.indent_columns();
        let ghost inner = self.inner_columns();
        let ghost kw_end: Seq<char>;
        let multiline_cond = self.is_pretty() && self.is_multiline(&cond.value);
        if multiline_cond {
            self.write(keyword);
            proof {
                kw_end = self.text();
            }
            proof {
                old(self).same_state_keeps_layout(&*self);
            }
            self.indent();
            self.newline_indent();
            let ghost a = self.text();
            self.write_spanned_expr(cond);
            let ghost b = self.text();
            self.dedent();
            proof {
                old(self).same_state_keeps_layout(&*self);
            }
            self.newline_indent();
            self.write("then");
            proof {
                reveal_strlit("then");
                if let Some(t) = if_condition_text(keyword@, *cond, pretty, cols, inner) {
                    let c = simple_text(cond.value, pretty)->0;
                    assert(a =~= old(self).text() + keyword@ + nl(inner));
                    assert(b == a + c);
                    assert(self.text() =~= old(self).text() + t);
                }
            }
        } else {
            self.write(keyword);
            proof {
                kw_end = self.text();
            }
            self.write_char(' ');
            let ghost a = self.text();
            self.write_spanned_expr(cond);
            let ghost b = self.text();
            self.write(" then");
            proof {
                reveal_strlit(" then");
                if let Some(t) = if_condition_text(keyword@, *cond, pretty, cols, inner) {
                    let c = simple_text(cond.value, pretty)->0;
                    assert(b == a + c);
                    assert(self.text() =~= old(self).text() + t);
                }
            }
        }
        proof {
            assert((old(self).text() + keyword@).is_prefix_of(kw_end));
            assert(kw_end.is_prefix_of(self.text()));
        }
    }

    /// A branch body one level in, followed by a blank line.
    fn write_if_body(&mut self, body: &Spanned<Expr>)
        requires
            old(self).wf(),
        ensures
            old(self).extended(&*final(self)),
            if_body_text(*body, old(self).pretty(), old(self).indent_columns(), old(self).inner_columns()) matches Some(t)
                ==> final(self).text() == old(self).text() + t,
        decreases body.value, 11nat,
    {
        let ghost pretty = self.pretty();
        let ghost cols = self.indent_columns();
        let ghost inner = self.inner_columns();
        self.indent();
        self.newline_indent();
        self.write_leading_comments(&body.comments);
        let ghost a = self.text();
        self.write_spanned_expr(body);
        let ghost b = self.text();
        self.dedent();
        proof {
            old(self).same_state_keeps_layout(&*self);
        }
        self.newline();
        self.newline_indent();
        proof {
            if let Some(t) = if_body_text(*body, pretty, cols, inner) {
                assert(a =~= old(self).text() + nl(inner));
                assert(b == a + plain_text(*body, pretty)->0);
                assert(self.text() =~= old(self).text() + t);
            }
        }
    }

    /// `else` and its value one level in.
    fn write_else(&mut self, else_branch: &Spanned<Expr>) -> (y: Ghost<Seq<char>>)
        requires
            old(self).wf(),
        ensures
            old(self).extended(&*final(self)),
            final(self).text() == old(self).text() + seq!['e', 'l', 's', 'e'] + y@,
            else_text(*else_branch, old(self).pretty(), old(self).inner_columns()) matches Some(t) ==> final(self).text()
                == old(self).text() + t,
        decreases else_branch.value, 11nat,
    {
        let ghost pretty = self.pretty();
        let ghost inner = self.inner_columns();
        self.write("else");
        let ghost e0 = self.text();
        proof {
            old(self).same_state_keeps_layout(&*self);
            reveal_strlit("else");
            assert(e0 =~= old(self).text() + seq!['e', 'l', 's', 'e']);
        }
        self.indent();
        self.newline_indent();
        self.write_leading_comments(&else_branch.comments);
        let ghost a = self.text();
        self.write_spanned_expr(else_branch);
        let ghost b = self.text();
        self.dedent();
        proof {
            reveal_strlit("else");
            if let Some(t) = else_text(*else_branch, pretty, inner) {
                assert(a =~= old(self).text() + seq!['e', 'l', 's', 'e'] + nl(inner));
                assert(b == a + plain_text(*else_branch, pretty)->0);
                assert(self.text() =~= old(self).text() + t);
            }
        }
        let ghost y = self.text().subrange(old(self).text().len() as int + 4, self.text().len() as int);
        proof {
            assert(e0.is_prefix_of(self.text()));
            assert(self.text() =~= old(self).text() + seq!['e', 'l', 's', 'e'] + y);
        }
        Ghost(y)
    }

    /// An `if` expression: on one line in the compact layout when it has one
    /// simple branch, otherwise with its branches on their own lines; in
    /// elm-format layout indented from the column of `if`, with a nested
    /// `if` in the `else` branch flattened into `else if` arms.
    #[verifier::spinoff_prover]
    #[verifier::rlimit(100)]
    fn write_if_expr(&mut self, e: &Expr)
        requires
            old(self).wf(),
            e is IfElse,
        ensures
            simple_text(*e, old(self).pretty()) matches Some(t) ==> final(self).text() == old(self).text() + t,
            old(self).extended(&*final(self)),
            expr_shape_written(*e, *old(self), old(self).text(), final(self).text()),
        decreases *e, 2nat,
    {
        match e {
            Expr::IfElse { branches, else_branch } => {
                let pretty = self.is_pretty();
                let all_simple = !pretty && branches.len() == 1 && !self.is_multiline(&branches[0].0.value)
                    && !self.is_multiline(&branches[0].1.value) && !self.is_multiline(&else_branch.value)
                    && branches[0].1.comments.len() == 0 && else_branch.comments.len() == 0;
                if all_simple {
                    self.write("if ");
                    let ghost p0 = self.text();
                    self.write_spanned_expr(&branches[0].0);
                    let ghost p1 = self.text();
                    self.write(" then ");
                    let ghost p2 = self.text();
                    self.write_spanned_expr(&branches[0].1);
                    let ghost p3 = self.text();
                    self.write(" else ");
                    let ghost p4 = self.text();
                    self.write_spanned_expr(else_branch);
                    proof {
                        reveal_strlit("if ");
                        reveal_strlit(" then ");
                        reveal_strlit(" else ");
                        if let Some(t) = simple_text(*e, pretty) {
                            let c = simple_text(branches@[0].0.value, pretty)->0;
                            let a = simple_text(branches@[0].1.value, pretty)->0;
                            let b = simple_text(else_branch.value, pretty)->0;
                            assert(p1 == p0 + c);
                            assert(p3 == p2 + a);
                            assert(self.text() == p4 + b);
                            assert(self.text() =~= old(self).text() + t);
                        }
                        let x = seq![' '] + p1.subrange(p0.len() as int, p1.len() as int) + seq![' ', 't', 'h', 'e', 'n', ' ']
                            + p3.subrange(p2.len() as int, p3.len() as int) + seq![' '];
                        let y = seq![' '] + self.text().subrange(p4.len() as int, self.text().len() as int);
                        assert(p0 =~= old(self).text() + seq!['i', 'f', ' ']);
                        assert(p1 =~= p0 + p1.subrange(p0.len() as int, p1.len() as int));
                        assert(p2 =~= p1 + seq![' ', 't', 'h', 'e', 'n', ' ']);
                        assert(p3 =~= p2 + p3.subrange(p2.len() as int, p3.len() as int));
                        assert(p4 =~= p3 + seq![' ', 'e', 'l', 's', 'e', ' ']);
                        assert(self.text() =~= p4 + self.text().subrange(p4.len() as int, self.text().len() as int));
                        assert(if_shape(x, y) =~= self.text().subrange(
                            old(self).text().len() as int,
                            self.text().len() as int,
                        ));
                    }
                } else if pretty {
                    let if_col = self.current_column();
                    let saved_indent = self.indent;
                    let saved_extra = self.indent_extra;
                    let saved_stack = copy_stack(&self.indent_extra_stack);
                    self.align_to(if_col);
                    self.write_if_arms(e, true);
                    let ghost arms_end = self.text();
                    let ghost before_else: Seq<char>;
                    let ghost zy: (Seq<char>, Seq<char>);
                    match &else_branch.value {
                        Expr::IfElse { branches: nested_branches, else_branch: nested_else } => {
                            self.write_else_if_arms(nested_branches);
                            proof {
                                before_else = self.text();
                            }
                            let Ghost(r) = self.write_if_else_tail(nested_else);
                            proof {
                                zy = r;
                            }
                        },
                        _ => {
                            proof {
                                before_else = self.text();
                            }
                            let Ghost(y) = self.write_else(else_branch);
                            proof {
                                zy = (Seq::empty(), y);
                            }
                        },
                    }
                    self.indent = saved_indent;
                    self.indent_extra = saved_extra;
                    self.indent_extra_stack = saved_stack;
                    proof {
                        if branches@.len() > 0 {
                            let head = old(self).text() + seq!['i', 'f'];
                            assert(head.is_prefix_of(arms_end));
                            assert(head.is_prefix_of(before_else));
                            let x = before_else.subrange(head.len() as int, before_else.len() as int) + zy.0;
                            assert(before_else =~= head + before_else.subrange(head.len() as int, before_else.len() as int));
                            assert(self.text() =~= before_else + zy.0 + seq!['e', 'l', 's', 'e'] + zy.1);
                            assert(if_shape(x, zy.1) =~= self.text().subrange(
                                old(self).text().len() as int,
                                self.text().len() as int,
                            ));
                        }
                    }
                } else {
                    self.write_if_arms(e, false);
                    let ghost before_else = self.text();
                    let Ghost(y) = self.write_else(else_branch);
                    proof {
                        if branches@.len() > 0 {
                            let head = old(self).text() + seq!['i', 'f'];
                            assert(head.is_prefix_of(before_else));
                            let x = before_else.subrange(head.len() as int, before_else.len() as int);
                            assert(before_else =~= head + x);
                            assert(if_shape(x, y) =~= self.text().subrange(
                                old(self).text().len() as int,
                                self.text().len() as int,
                            ));
                        }
                    }
                }
            },
            _ => {},
        }
    }

    /// The `if` and `else if` arms of an `if` expression.
    fn write_if_arms(&mut self, e: &Expr, pretty_keywords: bool)
        requires
            old(self).wf(),
            e is IfElse,
        ensures
            old(self).extended(&*final(self)),
            e matches Expr::IfElse { branches, .. } && arms_text(
                branches@,
                seq!['i', 'f'],
                old(self).pretty(),
                pretty_keywords,
                old(self).indent_columns(),
                old(self).inner_columns(),
            ) matches Some(t) ==> final(self).text() == old(self).text() + t,
            e matches Expr::IfElse { branches, .. } && (branches@.len() > 0 ==> (old(self).text() + seq!['i', 'f']).is_prefix_of(
                final(self).text(),
            )),
        decreases *e, 1nat,
    {
        match e {
            Expr::IfElse { branches, .. } => {
                proof {
                    reveal_strlit("if");
                    assert("if"@ =~= seq!['i', 'f']);
                }
                self.write_arm_run(branches, "if", pretty_keywords);
            },
            _ => {},
        }
    }

    /// Arms of an `if`, the first after `first_kw` and the others after
    /// `else if`.
    #[verifier::spinoff_prover]
    fn write_arm_run(
        &mut self,
        branches: &Vec<(Spanned<Expr>, Spanned<Expr>)>,
        first_kw: &str,
        pretty_keywords: bool,
    )
        requires
            old(self).wf(),
        ensures
            old(self).extended(&*final(self)),
            arms_text(
                branches@,
                first_kw@,
                old(self).pretty(),
                pretty_keywords,
                old(self).indent_columns(),
                old(self).inner_columns(),
            ) matches Some(t) ==> final(self).text() == old(self).text() + t,
            branches@.len() > 0 ==> (old(self).text() + first_kw@).is_prefix_of(final(self).text()),
        decreases *branches, 0nat,
    {
        let ghost pretty = self.pretty();
        let ghost cols = self.indent_columns();
        let ghost inner = self.inner_columns();
        let ghost whole = arms_text(branches@, first_kw@, pretty, pretty_keywords, cols, inner);
        let mut i: usize = 0;
        proof {
            reveal(arms_text);
            assert(branches@.take(0) =~= Seq::<(Spanned<Expr>, Spanned<Expr>)>::empty());
        }
        while i < branches.len()
            invariant
                i <= branches@.len(),
                old(self).wf(),
                old(self).extended(&*self),
                pretty == old(self).pretty(),
                cols == old(self).indent_columns(),
                inner == old(self).inner_columns(),
                whole == arms_text(branches@, first_kw@, pretty, pretty_keywords, cols, inner),
                whole is Some ==> (arms_text(
                    branches@.take(i as int),
                    first_kw@,
                    pretty,
                    pretty_keywords,
                    cols,
                    inner,
                ) matches Some(t) && self.text() == old(self).text() + t),
                i > 0 ==> (old(self).text() + first_kw@).is_prefix_of(self.text()),
                i == 0 ==> self.text() == old(self).text(),
            decreases branches@.len() - i,
        {
            let keyword = if i == 0 {
                first_kw
            } else {
                "else if"
            };
            proof {
                old(self).same_state_keeps_layout(&*self);
                reveal_strlit("else if");
                assert(keyword@ == if i == 0 {
                    first_kw@
                } else {
                    seq!['e', 'l', 's', 'e', ' ', 'i', 'f']
                });
                if whole is Some {
                    lemma_arms_step(branches@, first_kw@, pretty, pretty_keywords, cols, inner, i as int);
                }
            }
            let ghost before_arm = self.text();
            self.write_if_arm(keyword, &branches[i], pretty_keywords);
            proof {
                if i == 0 {
                    assert(before_arm == old(self).text());
                }
            }
            i = i + 1;
        }
        assert(branches@.take(i as int) =~= branches@);
    }

    /// One arm of an `if`: its condition after `keyword`, then its body.
    fn write_if_arm(&mut self, keyword: &str, arm: &(Spanned<Expr>, Spanned<Expr>), pretty_keywords: bool)
        requires
            old(self).wf(),
        ensures
            old(self).extended(&*final(self)),
            arm_text(
                keyword@,
                *arm,
                old(self).pretty(),
                pretty_keywords,
                old(self).indent_columns(),
                old(self).inner_columns(),
            ) matches Some(t) ==> final(self).text() == old(self).text() + t,
            (old(self).text() + keyword@).is_prefix_of(final(self).text()),
        decreases *arm, 0nat,
    {
        let ghost pretty = self.pretty();
        let ghost cols = self.indent_columns();
        let ghost inner = self.inner_columns();
        proof {
            reveal(arm_text);
        }
        let ghost some = arm_text(keyword@, *arm, pretty, pretty_keywords, cols, inner) is Some;
        if pretty_keywords {
            self.write_if_condition(keyword, &arm.0);
        } else {
            self.write(keyword);
            proof {
                assert((old(self).text() + keyword@).is_prefix_of(self.text()));
            }
            self.write_char(' ');
            let ghost a = self.text();
            self.write_spanned_expr(&arm.0);
            let ghost b = self.text();
            self.write(" then");
            proof {
                reveal_strlit(" then");
                if some {
                    let c = simple_text(arm.0.value, pretty)->0;
                    assert(b == a + c);
                    assert(self.text() =~= old(self).text() + (keyword@ + seq![' '] + c + seq![
                        ' ',
                        't',
                        'h',
                        'e',
                        'n',
                    ]));
                }
            }
        }
        let ghost mid = self.text();
        proof {
            old(self).same_state_keeps_layout(&*self);
        }
        self.write_if_body(&arm.1);
        proof {
            if some {
                assert(self.text() =~= old(self).text() + arm_text(keyword@, *arm, pretty, pretty_keywords, cols, inner)->0);
            }
            assert((old(self).text() + keyword@).is_prefix_of(self.text()));
        }
    }

    /// The arms of an `if` nested in an `else` branch, as `else if` arms.
    fn write_else_if_arms(&mut self, branches: &Vec<(Spanned<Expr>, Spanned<Expr>)>)
        requires
            old(self).wf(),
        ensures
            old(self).extended(&*final(self)),
            arms_text(
                branches@,
                seq!['e', 'l', 's', 'e', ' ', 'i', 'f'],
                old(self).pretty(),
                true,
                old(self).indent_columns(),
                old(self).inner_columns(),
            ) matches Some(t) ==> final(self).text() == old(self).text() + t,
        decreases *branches, 1nat,
    {
        proof {
            reveal_strlit("else if");
            assert("else if"@ =~= seq!['e', 'l', 's', 'e', ' ', 'i', 'f']);
        }
        self.write_arm_run(branches, "else if", true);
    }

    /// The rest of a flattened `else if` chain.
    fn write_if_else_tail(&mut self, else_branch: &Spanned<Expr>) -> (zy: Ghost<(Seq<char>, Seq<char>)>)
        requires
            old(self).wf(),
        ensures
            old(self).extended(&*final(self)),
            final(self).text() == old(self).text() + zy@.0 + seq!['e', 'l', 's', 'e'] + zy@.1,
            if_else_tail_text(
                *else_branch,
                old(self).pretty(),
                old(self).indent_columns(),
                old(self).inner_columns(),
            ) matches Some(t) ==> final(self).text() == old(self).text() + t,
        decreases else_branch.value, 12nat,
    {
        match &else_branch.value {
            Expr::IfElse { branches: nested_branches, else_branch: nested_else } => {
                let ghost pretty = self.pretty();
                let ghost cols = self.indent_columns();
                let ghost inner = self.inner_columns();
                proof {
                    reveal_strlit("else if");
                    assert("else if"@ =~= seq!['e', 'l', 's', 'e', ' ', 'i', 'f']);
                }
                self.write_arm_run(nested_branches, "else if", false);
                let ghost mid = self.text();
                proof {
                    old(self).same_state_keeps_layout(&*self);
                }
                let Ghost(zy) = self.write_if_else_tail(nested_else);
                proof {
                    let z = mid.subrange(old(self).text().len() as int, mid.len() as int) + zy.0;
                    assert(self.text() =~= old(self).text() + z + seq!['e', 'l', 's', 'e'] + zy.1);
                    if let Some(t) = if_else_tail_text(*else_branch, pretty, cols, inner) {
                        let a = arms_text(nested_branches@, seq!['e', 'l', 's', 'e', ' ', 'i', 'f'], pretty, false, cols, inner)->0;
                        let b = if_else_tail_text(**nested_else, pretty, cols, inner)->0;
                        assert(mid == old(self).text() + a);
                        assert(self.text() == mid + b);
                        assert(self.text() =~= old(self).text() + t);
                    }
                }
                Ghost((mid.subrange(old(self).text().len() as int, mid.len() as int) + zy.0, zy.1))
            },
            _ => {
                let Ghost(y) = self.write_else(else_branch);
                Ghost((Seq::empty(), y))
            },
        }
    }

    /// A `case` expression with its branches one level in; in elm-format
    /// layout indented from the column of `case`, with blank lines between
    /// branches and a multi-line subject on its own lines.
    #[verifier::spinoff_prover]
    fn write_case_expr(&mut self, e: &Expr)
        requires
            old(self).wf(),
            e is CaseOf,
        ensures
            old(self).extended(&*final(self)),
            e matches Expr::CaseOf { expr: subject, branches } ==> (!(old(self).pretty() && hanging_subject(
                subject.value,
            )) ==> (simple_text(subject.value, old(self).pretty()) matches Some(st) ==> (case_branches_text(
                branches@,
                old(self).pretty(),
                old(self).pretty(),
                block_inner(
                    old(self).pretty(),
                    column_of(old(self).text()),
                    old(self).width() as nat,
                    old(self).inner_columns(),
                ),
                block_inner2(
                    old(self).pretty(),
                    column_of(old(self).text()),
                    old(self).width() as nat,
                    old(self).inner2_columns(),
                ),
            ) matches Some(t) ==> final(self).text() == old(self).text() + seq!['c', 'a', 's', 'e', ' '] + st + seq![
                ' ',
                'o',
                'f',
            ] + t))),
            e matches Expr::CaseOf { expr: subject, .. } ==> case_written(
                old(self).text(),
                final(self).text(),
                old(self).pretty() && hanging_subject(subject.value),
                aligned_columns(column_of(old(self).text()), old(self).width() as nat),
                next_stop(column_of(old(self).text()), old(self).width() as nat),
            ),
        decreases *e, 2nat,
    {
        let ghost pretty = self.pretty();
        let ghost c0 = column_of(self.text());
        let ghost w = self.width() as nat;
        let ghost cols = block_inner(pretty, column_of(self.text()), self.width() as nat, self.inner_columns());
        let ghost cols2 = block_inner2(pretty, column_of(self.text()), self.width() as nat, self.inner2_columns());
        match e {
            Expr::CaseOf { expr: subject, branches } => {
                let ghost hang = pretty && hanging_subject(subject.value);
                if self.is_pretty() {
                    let case_col = self.current_column();
                    let saved_indent = self.indent;
                    let saved_extra = self.indent_extra;
                    let saved_stack = copy_stack(&self.indent_extra_stack);
                    self.align_to(case_col);
                    let ghost a0 = *self;
                    let hanging = match &subject.value {
                        Expr::IfElse { .. } | Expr::LetIn { .. } | Expr::CaseOf { .. } => true,
                        _ => false,
                    } || self.is_multiline(&subject.value);
                    assert(hanging == hang);
                    let Ghost(sh) = self.write_case_head(subject, hanging);
                    let ghost mid = self.text();
                    proof {
                        a0.same_state_keeps_layout(&*self);
                    }
                    self.indent();
                    self.write_case_branches(e, true);
                    let ghost end = self.text();
                    self.dedent();
                    self.indent = saved_indent;
                    self.indent_extra = saved_extra;
                    self.indent_extra_stack = saved_stack;
                    proof {
                        assert(a0.indent_columns() == aligned_columns(c0, w));
                        assert(a0.inner_columns() == next_stop(c0, w));
                        assert(a0.text() == old(self).text());
                        let rest = self.text().subrange(mid.len() as int, self.text().len() as int);
                        assert(self.text() =~= mid + rest);
                        let _ = case_head(sh, true, 0, 0);
                        let _ = case_head(rest, true, 0, 0);
                        assert(self.text() == old(self).text() + case_head(sh, hang, aligned_columns(c0, w), next_stop(c0, w))
                            + rest);
                        if !hanging {
                            if let Some(st) = simple_text(subject.value, pretty) {
                                if let Some(t) = case_branches_text(branches@, pretty, pretty, cols, cols2) {
                                    assert(mid =~= old(self).text() + seq!['c', 'a', 's', 'e', ' '] + st + seq![' ', 'o', 'f']);
                                    assert(self.text() =~= old(self).text() + seq!['c', 'a', 's', 'e', ' '] + st + seq![' ', 'o', 'f'] + t);
                                }
                            }
                        }
                    }
                } else {
                    let Ghost(sh) = self.write_case_head(subject, false);
                    let ghost mid = self.text();
                    proof {
                        old(self).same_state_keeps_layout(&*self);
                    }
                    self.indent();
                    self.write_case_branches(e, false);
                    let ghost end = self.text();
                    self.dedent();
                    proof {
                        let rest = self.text().subrange(mid.len() as int, self.text().len() as int);
                        assert(self.text() =~= mid + rest);
                        let _ = case_head(sh, true, 0, 0);
                        let _ = case_head(rest, true, 0, 0);
                        assert(case_head(sh, false, old(self).indent_columns(), old(self).inner_columns()) == case_head(
                            sh,
                            hang,
                            aligned_columns(c0, w),
                            next_stop(c0, w),
                        ));
                        assert(self.text() == old(self).text() + case_head(sh, hang, aligned_columns(c0, w), next_stop(c0, w))
                            + rest);
                        if let Some(st) = simple_text(subject.value, pretty) {
                            if let Some(t) = case_branches_text(branches@, pretty, pretty, cols, cols2) {
                                assert(mid =~= old(self).text() + seq!['c', 'a', 's', 'e', ' '] + st + seq![' ', 'o', 'f']);
                                assert(self.text() =~= old(self).text() + seq!['c', 'a', 's', 'e', ' '] + st + seq![' ', 'o', 'f'] + t);
                            }
                        }
                    }
                }
            },
            _ => {},
        }
    }

    /// `case subject of` on one line, or, when `hanging`, `case`, the
    /// subject one level in and `of` on a line of its own.
    fn write_case_head(&mut self, subject: &Spanned<Expr>, hanging: bool) -> (sub: Ghost<Seq<char>>)
        requires
            old(self).wf(),
        ensures
            old(self).extended(&*final(self)),
            final(self).text() == old(self).text() + case_head(
                sub@,
                hanging,
                old(self).indent_columns(),
                old(self).inner_columns(),
            ),
            !hanging ==> (simple_text(subject.value, old(self).pretty()) matches Some(st) ==> final(self).text()
                == old(self).text() + case_head(st, false, 0, 0)),
        decreases subject.value, 11nat,
    {
        let ghost cols = self.indent_columns();
        let ghost inner = self.inner_columns();
        let ghost sub_start: Seq<char>;
        let ghost sub_end: Seq<char>;
        if hanging {
            self.write("case");
            proof {
                old(self).same_state_keeps_layout(&*self);
            }
            self.indent();
            self.newline_indent();
            proof {
                sub_start = self.text();
            }
            self.write_expr(&subject.value);
            proof {
                sub_end = self.text();
            }
            self.dedent();
            proof {
                old(self).same_state_keeps_layout(&*self);
            }
            self.newline_indent();
            self.write("of");
        } else {
            self.write("case ");
            proof {
                sub_start = self.text();
            }
            self.write_expr(&subject.value);
            proof {
                sub_end = self.text();
            }
            self.write(" of");
        }
        proof {
            reveal_strlit("case");
            reveal_strlit("of");
            reveal_strlit("case ");
            reveal_strlit(" of");
            let sub = sub_end.subrange(sub_start.len() as int, sub_end.len() as int);
            assert(sub_end =~= sub_start + sub);
            assert(self.text() =~= old(self).text() + case_head(sub, hanging, cols, inner));
        }
        Ghost(sub_end.subrange(sub_start.len() as int, sub_end.len() as int))
    }

    /// The branches `pattern ->` and body of a `case`, each on a new line,
    /// with a blank line between branches when asked.
    #[verifier::spinoff_prover]
    fn write_case_branches(&mut self, e: &Expr, blank_lines: bool)
        requires
            old(self).wf(),
            e is CaseOf,
        ensures
            old(self).extended(&*final(self)),
            e matches Expr::CaseOf { branches, .. } && case_branches_text(
                branches@,
                old(self).pretty(),
                blank_lines,
                old(self).indent_columns(),
                old(self).inner_columns(),
            ) matches Some(t) ==> final(self).text() == old(self).text() + t,
        decreases *e, 1nat,
    {
        let ghost pretty = self.pretty();
        let ghost cols = self.indent_columns();
        let ghost inner = self.inner_columns();
        match e {
            Expr::CaseOf { branches, .. } => {
                let ghost bs = branches@;
                let ghost parts = Seq::new(
                    bs.len(),
                    |k: int| case_branch_text(bs[k], pretty, k == 0, blank_lines, cols, inner),
                );
                let ghost whole = concat_parts(parts);
                proof {
                    lemma_concat_parts_empty(parts.take(0));
                }
                let mut i: usize = 0;
                while i < branches.len()
                    invariant
                        i <= branches@.len(),
                        bs == branches@,
                        parts.len() == bs.len(),
                        old(self).wf(),
                        old(self).extended(&*self),
                        pretty == old(self).pretty(),
                        cols == old(self).indent_columns(),
                        inner == old(self).inner_columns(),
                        *e matches Expr::CaseOf { branches: b, .. } && b == branches,
                        forall|k: int|
                            0 <= k < bs.len() ==> parts[k] == case_branch_text(
                                bs[k],
                                pretty,
                                k == 0,
                                blank_lines,
                                cols,
                                inner,
                            ),
                        whole == concat_parts(parts),
                        whole is Some ==> (concat_parts(parts.take(i as int)) matches Some(t) && self.text()
                            == old(self).text() + t),
                    decreases branches@.len() - i,
                {
                    proof {
                        old(self).same_state_keeps_layout(&*self);
                        if whole is Some {
                            lemma_concat_parts_step(parts, i as int);
                        }
                    }
                    let ghost before = self.text();
                    proof {
                        assert(decreases_to!(*e => branches@[i as int]));
                    }
                    self.write_case_branch(&branches[i], i == 0, blank_lines);
                    i = i + 1;
                }
                proof {
                    assert(parts.take(i as int) =~= parts);
                }
            },
            _ => {},
        }
    }

    /// The start of a `case` branch: a blank line when asked and it is not
    /// the first, then on a new line the pattern and `->`.
    fn write_case_branch_head(&mut self, branch: &CaseBranch, first: bool, blank_lines: bool)
        ensures
            old(self).extended(&*final(self)),
            branch.pattern.comments@.len() == 0 ==> final(self).text() == old(self).text() + (if blank_lines && !first {
                seq!['\n']
            } else {
                Seq::<char>::empty()
            }) + nl(old(self).indent_columns()) + pattern_text(branch.pattern.value, old(self).pretty()) + seq![
                ' ',
                '-',
                '>',
            ],
    {
        let ghost pretty = self.pretty();
        let ghost cols = self.indent_columns();
        if blank_lines && !first {
            self.newline();
        }
        proof {
            old(self).same_state_keeps_layout(&*self);
        }
        self.newline_indent();
        let ghost a = self.text();
        self.write_leading_comments(&branch.pattern.comments);
        let ghost b = self.text();
        proof {
            old(self).same_state_keeps_layout(&*self);
        }
        self.write_pattern(&branch.pattern.value);
        self.write(" ->");
        proof {
            reveal_strlit(" ->");
            if branch.pattern.comments@.len() == 0 {
                let blank = if blank_lines && !first {
                    seq!['\n']
                } else {
                    Seq::<char>::empty()
                };
                assert(b == a);
                assert(a =~= old(self).text() + blank + nl(cols));
                assert(self.text() =~= old(self).text() + blank + nl(cols) + pattern_text(branch.pattern.value, pretty)
                    + seq![' ', '-', '>']);
            }
        }
    }

    /// One branch of a `case` on a new line, after a blank line when asked
    /// and it is not the first.
    #[verifier::spinoff_prover]
    #[verifier::rlimit(40)]
    fn write_case_branch(&mut self, branch: &CaseBranch, first: bool, blank_lines: bool)
        requires
            old(self).wf(),
        ensures
            old(self).extended(&*final(self)),
            case_branch_text(
                *branch,
                old(self).pretty(),
                first,
                blank_lines,
                old(self).indent_columns(),
                old(self).inner_columns(),
            ) matches Some(t) ==> final(self).text() == old(self).text() + t,
        decreases *branch, 0nat,
    {
        let ghost pretty = self.pretty();
        let ghost cols = self.indent_columns();
        let ghost inner = self.inner_columns();
        self.write_case_branch_head(branch, first, blank_lines);
        let ghost head = self.text();
        proof {
            old(self).same_state_keeps_layout(&*self);
        }
        self.indent();
        self.newline_indent();
        let ghost n0 = self.text();
        assert(n0 =~= head + nl(inner));
        self.write_leading_comments(&branch.body.comments);
        let ghost a = self.text();
        self.write_spanned_expr(&branch.body);
        let ghost b = self.text();
        self.dedent();
        assert(self.text() == b);
        proof {
            reveal(case_branch_text);
            if branch.pattern.comments@.len() == 0 && branch.body.comments@.len() == 0 {
                assert(a == n0);
                if let Some(x) = simple_text(branch.body.value, pretty) {
                    assert(b == a + x);
                    assert(b =~= head + nl(inner) + x);
                }
            }
        }
    }

    /// A `let` expression: the declarations one level in, then `in` and the
    /// body; in elm-format layout indented from the column of `let`, with
    /// blank lines between declarations.
    #[verifier::spinoff_prover]
    #[verifier::rlimit(100)]
    fn write_let_expr(&mut self, e: &Expr)
        requires
            old(self).wf(),
            e is LetIn,
        ensures
            old(self).extended(&*final(self)),
            e matches Expr::LetIn { declarations, trailing_comments, body } ==> (let_decls_text(
                declarations@,
                trailing_comments@,
                old(self).pretty(),
                old(self).pretty(),
                block_inner(
                    old(self).pretty(),
                    column_of(old(self).text()),
                    old(self).width() as nat,
                    old(self).inner_columns(),
                ),
                block_inner2(
                    old(self).pretty(),
                    column_of(old(self).text()),
                    old(self).width() as nat,
                    old(self).inner2_columns(),
                ),
            ) matches Some(d) ==> (plain_text(**body, old(self).pretty()) matches Some(b) ==> final(self).text()
                == old(self).text() + seq!['l', 'e', 't'] + d + nl(block_cols(old(self).pretty(), column_of(old(self).text()), old(self).width() as nat, old(self).indent_columns())) + seq!['i', 'n']
                + nl(block_cols(old(self).pretty(), column_of(old(self).text()), old(self).width() as nat, old(self).indent_columns())) + b)),
            let_written(
                old(self).text(),
                final(self).text(),
                block_cols(
                    old(self).pretty(),
                    column_of(old(self).text()),
                    old(self).width() as nat,
                    old(self).indent_columns(),
                ),
            ),
        decreases *e, 2nat,
    {
        let ghost pretty = self.pretty();
        let ghost c = column_of(self.text());
        let ghost w = self.width() as nat;
        let ghost cols = block_cols(pretty, c, w, self.indent_columns());
        let ghost i1 = block_inner(pretty, c, w, self.inner_columns());
        let ghost i2 = block_inner2(pretty, c, w, self.inner2_columns());
        match e {
            Expr::LetIn { body, .. } => {
                let saved_indent = self.indent;
                let saved_extra = self.indent_extra;
                let saved_stack = copy_stack(&self.indent_extra_stack);
                let is_pretty = self.is_pretty();
                if is_pretty {
                    let let_col = self.current_column();
                    self.align_to(let_col);
                }
                let ghost a0 = *self;
                assert(a0.indent_columns() == cols && a0.inner_columns() == i1 && a0.inner2_columns() == i2);
                self.write("let");
                proof {
                    a0.same_state_keeps_layout(&*self);
                }
                let ghost p0 = self.text();
                self.indent();
                self.write_let_declarations(e, is_pretty);
                let ghost p1 = self.text();
                self.dedent();
                proof {
                    a0.same_state_keeps_layout(&*self);
                }
                self.newline_indent();
                self.write("in");
                self.newline_indent();
                let ghost p2 = self.text();
                self.write_leading_comments(&body.comments);
                let ghost p3 = self.text();
                self.write_spanned_expr(body);
                let ghost p4 = self.text();
                if is_pretty {
                    self.indent = saved_indent;
                    self.indent_extra = saved_extra;
                    self.indent_extra_stack = saved_stack;
                }
                proof {
                    reveal_strlit("let");
                    reveal_strlit("in");
                    if let Some(d) = let_decls_text(
                        e->declarations@,
                        e->trailing_comments@,
                        pretty,
                        pretty,
                        i1,
                        i2,
                    ) {
                        if let Some(b) = plain_text(**body, pretty) {
                            assert(p0 =~= old(self).text() + seq!['l', 'e', 't']);
                            assert(p2 =~= p1 + nl(cols) + seq!['i', 'n'] + nl(cols));
                            assert(p3 == p2);
                            assert(self.text() =~= old(self).text() + seq!['l', 'e', 't'] + d + nl(cols) + seq!['i', 'n']
                                + nl(cols) + b);
                        }
                    }
                    let dd = p1.subrange(p0.len() as int, p1.len() as int);
                    let bb = self.text().subrange(p2.len() as int, self.text().len() as int);
                    assert(p0 =~= old(self).text() + seq!['l', 'e', 't']);
                    assert(p1 =~= p0 + dd);
                    assert(p2 =~= p1 + nl(cols) + seq!['i', 'n'] + nl(cols));
                    assert(self.text() =~= p2 + bb);
                    assert(let_shape(dd, bb, cols) =~= self.text().subrange(
                        old(self).text().len() as int,
                        self.text().len() as int,
                    ));
                }
            },
            _ => {},
        }
    }

    /// The declarations of a `let` and its trailing comments, each on a new
    /// line, with blank lines between them when asked.
    #[verifier::spinoff_prover]
    fn write_let_declarations(&mut self, e: &Expr, blank_lines: bool)
        requires
            old(self).wf(),
            e is LetIn,
        ensures
            old(self).extended(&*final(self)),
            e matches Expr::LetIn { declarations, trailing_comments, .. } && let_decls_text(
                declarations@,
                trailing_comments@,
                old(self).pretty(),
                blank_lines,
                old(self).indent_columns(),
                old(self).inner_columns(),
            ) matches Some(t) ==> final(self).text() == old(self).text() + t,
        decreases *e, 1nat,
    {
        let ghost pretty = self.pretty();
        let ghost cols = self.indent_columns();
        let ghost inner = self.inner_columns();
        match e {
            Expr::LetIn { declarations, trailing_comments, .. } => {
                let ghost ds = declarations@;
                let ghost parts = Seq::new(
                    ds.len(),
                    |k: int| let_decl_part(ds[k], pretty, k == 0, blank_lines, cols, inner),
                );
                let ghost whole = concat_parts(parts);
                proof {
                    lemma_concat_parts_empty(parts.take(0));
                }
                let mut i: usize = 0;
                while i < declarations.len()
                    invariant
                        i <= declarations@.len(),
                        ds == declarations@,
                        parts.len() == ds.len(),
                        old(self).wf(),
                        old(self).extended(&*self),
                        pretty == old(self).pretty(),
                        cols == old(self).indent_columns(),
                        inner == old(self).inner_columns(),
                        *e matches Expr::LetIn { declarations: d, .. } && d == declarations,
                        forall|k: int|
                            0 <= k < ds.len() ==> parts[k] == let_decl_part(ds[k], pretty, k == 0, blank_lines, cols, inner),
                        whole == concat_parts(parts),
                        whole is Some ==> (concat_parts(parts.take(i as int)) matches Some(t) && self.text()
                            == old(self).text() + t),
                    decreases declarations@.len() - i,
                {
                    proof {
                        old(self).same_state_keeps_layout(&*self);
                        if whole is Some {
                            lemma_concat_parts_step(parts, i as int);
                        }
                        assert(decreases_to!(*e => declarations@[i as int].value));
                    }
                    self.write_let_decl_line(&declarations[i], i == 0, blank_lines);
                    i = i + 1;
                }
                proof {
                    assert(parts.take(i as int) =~= parts);
                    old(self).same_state_keeps_layout(&*self);
                }
                let ghost mid = self.text();
                let ghost cparts = trailing_comments@.map_values(
                    |c: Spanned<Comment>| Some(nl(cols) + comment_text(c.value, pretty, cols)),
                );
                if trailing_comments.len() > 0 {
                    if blank_lines {
                        self.newline();
                    }
                    let ghost start = self.text();
                    proof {
                        lemma_concat_parts_empty(cparts.take(0));
                        old(self).same_state_keeps_layout(&*self);
                    }
                    let mut k: usize = 0;
                    while k < trailing_comments.len()
                        invariant
                            k <= trailing_comments@.len(),
                            cparts.len() == trailing_comments@.len(),
                            old(self).extended(&*self),
                            pretty == old(self).pretty(),
                            cols == old(self).indent_columns(),
                            cparts == trailing_comments@.map_values(
                                |c: Spanned<Comment>| Some(nl(cols) + comment_text(c.value, pretty, cols)),
                            ),
                            concat_parts(cparts.take(k as int)) matches Some(t) && self.text() == start + t,
                        decreases trailing_comments@.len() - k,
                    {
                        proof {
                            old(self).same_state_keeps_layout(&*self);
                            reveal(concat_parts);
                            assert(cparts.take(k + 1).drop_last() =~= cparts.take(k as int));
                        }
                        let ghost before = self.text();
                        self.newline_indent();
                        let ghost n0 = self.text();
                        proof {
                            assert(n0 =~= before + seq!['\n'] + spaces(cols));
                            lemma_column_after_nl(before, cols);
                            assert(column_of(n0) == cols);
                        }
                        self.write_comment(&trailing_comments[k].value);
                        proof {
                            assert(self.text() =~= before + cparts[k as int]->0);
                        }
                        k = k + 1;
                    }
                    proof {
                        assert(cparts.take(k as int) =~= cparts);
                    }
                }
                proof {
                    if let Some(t) = let_decls_text(declarations@, trailing_comments@, pretty, blank_lines, cols, inner) {
                        assert(self.text() =~= old(self).text() + t);
                    }
                }
            },
            _ => {},
        }
    }

    /// One declaration of a `let` on a new line, after a blank line when
    /// asked and it is not the first.
    fn write_let_decl_line(&mut self, decl: &Spanned<LetDeclaration>, first: bool, blank_lines: bool)
        requires
            old(self).wf(),
        ensures
            old(self).extended(&*final(self)),
            let_decl_part(
                *decl,
                old(self).pretty(),
                first,
                blank_lines,
                old(self).indent_columns(),
                old(self).inner_columns(),
            ) matches Some(t) ==> final(self).text() == old(self).text() + t,
        decreases decl.value, 2nat,
    {
        let ghost pretty = self.pretty();
        let ghost cols = self.indent_columns();
        let ghost inner = self.inner_columns();
        if blank_lines && !first {
            self.newline();
        }
        proof {
            old(self).same_state_keeps_layout(&*self);
        }
        self.newline_indent();
        let ghost a = self.text();
        self.write_leading_comments(&decl.comments);
        let ghost b = self.text();
        proof {
            old(self).same_state_keeps_layout(&*self);
        }
        self.write_let_declaration(&decl.value);
        proof {
            if decl.comments@.len() == 0 {
                let blank = if blank_lines && !first {
                    seq!['\n']
                } else {
                    Seq::<char>::empty()
                };
                assert(b == a);
                assert(a =~= old(self).text() + blank + nl(cols));
                if let Some(t) = let_decl_text(decl.value, pretty, cols, inner) {
                    assert(self.text() =~= old(self).text() + blank + nl(cols) + t);
                }
            }
        }
    }

    /// A declaration inside a `let`.
    #[verifier::spinoff_prover]
    fn write_let_declaration(&mut self, decl: &LetDeclaration)
        requires
            old(self).wf(),
        ensures
            old(self).extended(&*final(self)),
            let_decl_text(*decl, old(self).pretty(), old(self).indent_columns(), old(self).inner_columns()) matches Some(
                t,
            ) ==> final(self).text() == old(self).text() + t,
        decreases *decl, 1nat,
    {
        let ghost pretty = self.pretty();
        let ghost cols = self.indent_columns();
        let ghost inner = self.inner_columns();
        match decl {
            LetDeclaration::Function(func) => {
                match &func.signature {
                    Some(sig) => {
                        self.write_signature(&sig.value);
                        self.newline_indent();
                    },
                    None => {},
                }
                let ghost a = self.text();
                proof {
                    old(self).same_state_keeps_layout(&*self);
                }
                self.write_function_impl(&func.declaration.value);
                proof {
                    if let Some(t) = let_decl_text(*decl, pretty, cols, inner) {
                        let sig = if func.signature is Some {
                            signature_line(func.signature->0.value, pretty) + nl(cols)
                        } else {
                            Seq::empty()
                        };
                        assert(a =~= old(self).text() + sig);
                        assert(self.text() =~= old(self).text() + t);
                    }
                }
            },
            LetDeclaration::Destructuring { pattern, body } => {
                self.write_pattern(&pattern.value);
                self.write(" =");
                proof {
                    old(self).same_state_keeps_layout(&*self);
                }
                self.indent();
                self.newline_indent();
                self.write_leading_comments(&body.comments);
                let ghost a = self.text();
                self.write_spanned_expr(body);
                let ghost b = self.text();
                self.dedent();
                proof {
                    reveal_strlit(" =");
                    if let Some(t) = let_decl_text(*decl, pretty, cols, inner) {
                        assert(a =~= old(self).text() + pattern_text(pattern.value, pretty) + seq![' ', '='] + nl(inner));
                        assert(self.text() =~= old(self).text() + t);
                    }
                }
            },
        }
    }

    /// `name args =` and the body one level in; in elm-format layout the
    /// parentheses around the whole body go.
    #[verifier::spinoff_prover]
    #[verifier::rlimit(60)]
    pub(super) fn write_function_impl(&mut self, imp: &FunctionImplementation)
        requires
            old(self).wf(),
        ensures
            old(self).extended(&*final(self)),
            simple_function_impl_text(*imp, old(self).pretty(), old(self).inner_columns()) matches Some(t)
                ==> final(self).text() == old(self).text() + t,
            impl_written(old(self).text(), final(self).text(), *imp, old(self).pretty(), old(self).inner_columns()),
        decreases *imp, 0nat,
    {
        let ghost pretty = self.pretty();
        self.write(imp.name.value.as_str());
        let mut i: usize = 0;
        while i < imp.args.len()
            invariant
                i <= imp.args@.len(),
                old(self).extended(&*self),
                pretty == old(self).pretty(),
                self.text() == old(self).text() + imp.name.value@ + pattern_args_text(imp.args@.take(i as int), pretty),
            decreases imp.args@.len() - i,
        {
            self.write_char(' ');
            self.write_pattern_atomic(&imp.args[i].value);
            proof {
                let t = imp.args@.take(i + 1);
                assert(t.drop_last() =~= imp.args@.take(i as int));
                assert(t.last() == imp.args@[i as int]);
                assert(self.text() =~= old(self).text() + imp.name.value@ + pattern_args_text(t, pretty));
            }
            i = i + 1;
        }
        assert(imp.args@.take(i as int) =~= imp.args@);
        self.write(" =");
        proof {
            old(self).same_state_keeps_layout(&*self);
        }
        self.indent();
        let ghost head = self.text();
        self.newline_indent();
        if imp.body.comments.len() > 0 {
            self.write_leading_comments(&imp.body.comments);
        }
        let body = if self.is_pretty() {
            unwrap_parens(&imp.body.value)
        } else {
            &imp.body.value
        };
        proof {
            assert(decreases_to!(*imp => imp.body.value));
            if *body != imp.body.value {
                lemma_trans_fi(*imp, imp.body.value, *body);
            }
        }
        let ghost before_body = self.text();
        self.write_expr(body);
        self.dedent();
        proof {
            reveal_strlit(" =");
            if let Some(t) = simple_function_impl_text(*imp, pretty, old(self).inner_columns()) {
                let b = simple_text(*body, pretty)->0;
                assert(before_body == head + seq!['\n'] + spaces(old(self).inner_columns()));
                assert(self.text() =~= old(self).text() + t);
            }
            let nl_end = head + nl(old(self).inner_columns());
            assert(head =~= old(self).text() + imp.name.value@ + pattern_args_text(imp.args@, pretty) + seq![' ', '=']);
            assert(nl_end.is_prefix_of(self.text()));
            let b = self.text().subrange(nl_end.len() as int, self.text().len() as int);
            assert(self.text() =~= nl_end + b);
            assert(impl_shape(*imp, pretty, old(self).inner_columns(), b) =~= self.text().subrange(
                old(self).text().len() as int,
                self.text().len() as int,
            ));
        }
    }

    /// A lambda `\args -> body`, the body on its own line one level in when
    /// it is multi-line (or, in elm-format layout, was below the arguments
    /// in the source).
    #[verifier::spinoff_prover]
    #[verifier::rlimit(100)]
    fn write_lambda(&mut self, e: &Expr)
        requires
            old(self).wf(),
            e is Lambda,
        ensures
            simple_text(*e, old(self).pretty()) matches Some(t) ==> final(self).text() == old(self).text() + t,
            old(self).extended(&*final(self)),
            expr_shape_written(*e, *old(self), old(self).text(), final(self).text()),
        decreases *e, 2nat,
    {
        match e {
            Expr::Lambda { args, body } => {
                let ghost pretty = self.pretty();
                self.write("\\");
                proof {
                    reveal_strlit("\\");
                    assert(args@.take(0) =~= Seq::<Spanned<Pattern>>::empty());
                    assert(self.text() =~= old(self).text() + seq!['\\'] + lambda_args_text(args@.take(0), pretty));
                }
                let mut i: usize = 0;
                while i < args.len()
                    invariant
                        i <= args@.len(),
                        old(self).extended(&*self),
                        pretty == old(self).pretty(),
                        self.text() == old(self).text() + seq!['\\'] + lambda_args_text(args@.take(i as int), pretty),
                    decreases args@.len() - i,
                {
                    if i > 0 {
                        self.write_char(' ');
                    }
                    self.write_pattern_atomic(&args[i].value);
                    proof {
                        let t = args@.take(i + 1);
                        assert(t.drop_last() =~= args@.take(i as int));
                        assert(t.last() == args@[i as int]);
                        if i == 0 {
                            assert(t[0] == args@[0]);
                        }
                        assert(self.text() =~= old(self).text() + seq!['\\'] + lambda_args_text(t, pretty));
                    }
                    i = i + 1;
                }
                assert(args@.take(i as int) =~= args@);
                let ghost head = self.text();
                let body_broken_in_source = self.is_pretty() && args.len() > 0 && {
                    let last = &args[args.len() - 1];
                    last.span.end.line != 0 && body.span.start.line != 0 && body.span.start.line
                        > last.span.end.line
                };
                proof {
                    old(self).same_state_keeps_layout(&*self);
                }
                let ghost body_start: Seq<char>;
                if self.is_multiline(&body.value) || body_broken_in_source {
                    self.write(" ->");
                    self.indent();
                    self.newline_indent();
                    proof {
                        body_start = self.text();
                    }
                    self.write_spanned_expr(body);
                    self.dedent();
                    proof {
                        reveal_strlit(" ->");
                        assert(body_start =~= head + seq![' ', '-', '>'] + nl(old(self).inner_columns()));
                    }
                } else {
                    self.write(" -> ");
                    let ghost mid = self.text();
                    self.write_spanned_expr(body);
                    proof {
                        reveal_strlit(" -> ");
                        body_start = mid;
                        assert(mid =~= head + seq![' ', '-', '>'] + seq![' ']);
                        assert(simple_text(*e, pretty) == lambda_parts_text(args@, **body, pretty));
                        if let Some(t) = simple_text(*e, pretty) {
                            let b = simple_text(body.value, pretty)->0;
                            assert(self.text() == mid + b);
                            assert(self.text() =~= old(self).text() + t);
                        }
                    }
                }
                proof {
                    let b = self.text().subrange(body_start.len() as int, self.text().len() as int);
                    assert(self.text() =~= body_start + b);
                    assert(lambda_shape(args@, **body, pretty, old(self).inner_columns(), b) =~= self.text().subrange(
                        old(self).text().len() as int,
                        self.text().len() as int,
                    ));
                }
            },
            _ => {},
        }
    }
}

proof fn lemma_trans_fi(a: FunctionImplementation, b: Expr, c: Expr)
    requires
        decreases_to!(a => b),
        decreases_to!(b => c),
    ensures
        decreases_to!(a => c),
{
}

} // verus!
