//! Eager detection of expressions whose printed form spans several lines.

use vstd::prelude::*;

use super::Printer;
use crate::expr::{Expr, RecordSetter};
use crate::literal::Literal;
use crate::node::Spanned;
use crate::span::Span;
use super::literals::contains_char;
use crate::text::{chars_of, str_eq};

verus! {

/// Both spans come from source (line 0 marks synthesized nodes) and `b`
/// ends on a later line than `a` starts.
pub open spec fn spans_cross(a: Span, b: Span) -> bool {
    a.start.line != 0 && b.end.line != 0 && b.end.line > a.start.line
}

/// A source span that covers more than one line.
pub open spec fn span_multi(s: Span) -> bool {
    s.start.line != 0 && s.end.line > s.start.line
}

/// The first and last of a sequence of nodes sit on different source lines.
pub open spec fn seq_spans_multi<T>(items: Seq<Spanned<T>>) -> bool {
    items.len() > 0 && spans_cross(items[0].span, items.last().span)
}

/// Whether an expression prints on several lines: block expressions do
/// (an `if` only when it has `else if` arms or a multi-line part, and
/// always in elm-format layout), containers do when a child does, and in
/// elm-format layout so do containers whose source spanned several lines,
/// lists and records of two or more entries, and pipelines.
pub open spec fn expr_multiline(e: Expr, pretty: bool) -> bool
    decreases e,
{
    match e {
        Expr::IfElse { branches, else_branch } => {
            if pretty {
                true
            } else if branches@.len() == 1 {
                expr_multiline(branches@[0].0.value, pretty) || expr_multiline(
                    branches@[0].1.value,
                    pretty,
                ) || expr_multiline(else_branch.value, pretty)
            } else {
                true
            }
        },
        Expr::CaseOf { .. } => true,
        Expr::LetIn { .. } => true,
        Expr::Lambda { args, body } => {
            ||| expr_multiline(body.value, pretty)
            ||| pretty && span_multi(body.span)
            ||| pretty && args@.len() > 0 && args@.last().span.end.line != 0 && body.span.start.line
                != 0 && body.span.start.line > args@.last().span.end.line
        },
        Expr::Application(args) => any_multiline(args@, pretty) || (pretty && seq_spans_multi(args@)),
        Expr::List(elems) => any_multiline(elems@, pretty) || (pretty && (seq_spans_multi(elems@) || elems@.len()
            >= 2)),
        Expr::Tuple(elems) => any_multiline(elems@, pretty) || (pretty && seq_spans_multi(elems@)),
        Expr::Record(fields) => any_setter_multiline(fields@, pretty) || (pretty && (seq_spans_multi(fields@)
            || fields@.len() >= 2)),
        Expr::RecordUpdate { updates, .. } => any_setter_multiline(updates@, pretty) || (pretty
            && seq_spans_multi(updates@)),
        Expr::OperatorApplication { operator, left, right, .. } => {
            ||| expr_multiline(left.value, pretty)
            ||| expr_multiline(right.value, pretty)
            ||| pretty && spans_cross(left.span, right.span)
            ||| pretty && is_pipe_op(operator@)
        },
        Expr::Parenthesized(inner) => expr_multiline(inner.value, pretty),
        Expr::Negation(inner) => expr_multiline(inner.value, pretty),
        Expr::Literal(Literal::MultilineString(s)) => s@.contains('\n'),
        _ => false,
    }
}

/// A pipeline operator: `|>`, and the parser pipelines `|.` and `|=`.
pub open spec fn is_pipe_op(op: Seq<char>) -> bool {
    op == "|>"@ || op == "|."@ || op == "|="@
}

/// `after` holds a line break past the end of `before`.
pub open spec fn broke_line(before: Seq<char>, after: Seq<char>) -> bool {
    exists|i: int| before.len() <= i < after.len() && #[trigger] after[i] == '\n'
}

/// A line break written after `before` stays when more text follows.
pub proof fn lemma_broke_line_kept(before: Seq<char>, mid: Seq<char>, after: Seq<char>)
    requires
        broke_line(before, mid),
        mid.is_prefix_of(after),
    ensures
        broke_line(before, after),
{
    let i = choose|i: int| before.len() <= i < mid.len() && #[trigger] mid[i] == '\n';
    assert(after[i] == mid[i]);
}

/// A line break past the end of a longer text is past the end of a
/// shorter one.
pub proof fn lemma_broke_line_earlier(before: Seq<char>, mid: Seq<char>, after: Seq<char>)
    requires
        broke_line(mid, after),
        before.len() <= mid.len(),
    ensures
        broke_line(before, after),
{
    let i = choose|i: int| mid.len() <= i < after.len() && #[trigger] after[i] == '\n';
    assert(after[i] == '\n');
}

/// Writing a line break after `before` (or after more text) breaks the line.
pub proof fn lemma_broke_line_newline(before: Seq<char>, mid: Seq<char>)
    requires
        before.is_prefix_of(mid),
    ensures
        broke_line(before, mid + seq!['\n']),
{
    assert((mid + seq!['\n'])[mid.len() as int] == '\n');
}

/// A tuple or list with a multi-line element (or, in elm-format layout,
/// whose elements sat on several source lines, or a list of two or more
/// elements), or a record or record update with a multi-line field value
/// (or, in elm-format layout, a trailing comment or fields on several
/// source lines, or a record of two or more fields): such a container is
/// laid out vertically. So is, in elm-format layout, a pipeline, one step
/// per line.
pub open spec fn vertical_container(e: Expr, pretty: bool) -> bool {
    match e {
        Expr::Tuple(elems) => elems@.len() > 0 && (any_multiline(elems@, pretty) || (pretty && seq_spans_multi(
            elems@,
        ))),
        Expr::List(elems) => elems@.len() > 0 && (any_multiline(elems@, pretty) || (pretty && (seq_spans_multi(
            elems@,
        ) || elems@.len() >= 2))),
        Expr::Record(fields) => fields@.len() > 0 && (any_setter_multiline(fields@, pretty) || (pretty && (
        seq_spans_multi(fields@) || fields@.len() >= 2 || exists|k: int|
            0 <= k < fields@.len() && (#[trigger] fields@[k]).value.trailing_comment is Some))),
        Expr::RecordUpdate { updates, .. } => any_setter_multiline(updates@, pretty) || (pretty && (seq_spans_multi(
            updates@,
        ) || exists|k: int| 0 <= k < updates@.len() && (#[trigger] updates@[k]).value.trailing_comment is Some)),
        Expr::OperatorApplication { operator, .. } => pretty && is_pipe_op(operator@),
        _ => false,
    }
}

/// Some expression of the sequence is multi-line.
pub open spec fn any_multiline(es: Seq<Spanned<Expr>>, pretty: bool) -> bool
    decreases es,
{
    if es.len() == 0 {
        false
    } else {
        any_multiline(es.drop_last(), pretty) || expr_multiline(es.last().value, pretty)
    }
}

/// Some record setter's value is multi-line.
pub open spec fn any_setter_multiline(fs: Seq<Spanned<RecordSetter>>, pretty: bool) -> bool
    decreases fs,
{
    if fs.len() == 0 {
        false
    } else {
        any_setter_multiline(fs.drop_last(), pretty) || expr_multiline(
            fs.last().value.value.value,
            pretty,
        )
    }
}

pub fn spans_cross_lines(a: Span, b: Span) -> (r: bool)
    ensures
        r == spans_cross(a, b),
{
    a.start.line != 0 && b.end.line != 0 && b.end.line > a.start.line
}

pub fn span_crosses_lines(s: Span) -> (r: bool)
    ensures
        r == span_multi(s),
{
    s.start.line != 0 && s.end.line > s.start.line
}

pub fn spans_multi_lines<T>(items: &Vec<Spanned<T>>) -> (r: bool)
    ensures
        r == seq_spans_multi(items@),
{
    if items.len() == 0 {
        false
    } else {
        spans_cross_lines(items[0].span, items[items.len() - 1].span)
    }
}

impl Printer {
    /// Whether `expr` will print on several lines.
    pub(super) fn is_multiline(&self, expr: &Expr) -> (r: bool)
        ensures
            r == expr_multiline(*expr, self.pretty()),
        decreases expr, 1nat,
    {
        let pretty = self.is_pretty();
        match expr {
            Expr::IfElse { branches, else_branch } => {
                if pretty {
                    return true;
                }
                if branches.len() == 1 {
                    if !self.is_multiline(&branches[0].0.value) && !self.is_multiline(&branches[0].1.value)
                        && !self.is_multiline(&else_branch.value) {
                        return false;
                    }
                }
                true
            },
            Expr::CaseOf { .. } | Expr::LetIn { .. } => true,
            Expr::Lambda { args, body } => {
                self.is_multiline(&body.value) || (pretty && span_crosses_lines(body.span)) || (pretty
                    && args.len() > 0 && {
                    let last = &args[args.len() - 1];
                    last.span.end.line != 0 && body.span.start.line != 0 && body.span.start.line
                        > last.span.end.line
                })
            },
            Expr::Application(args) => self.any_multiline(args) || (pretty && spans_multi_lines(args)),
            Expr::List(elems) => self.any_multiline(elems) || (pretty && (spans_multi_lines(elems) || elems.len()
                >= 2)),
            Expr::Tuple(elems) => self.any_multiline(elems) || (pretty && spans_multi_lines(elems)),
            Expr::Record(fields) => self.any_setter_multiline(fields) || (pretty && (spans_multi_lines(fields)
                || fields.len() >= 2)),
            Expr::RecordUpdate { updates, .. } => self.any_setter_multiline(updates) || (pretty
                && spans_multi_lines(updates)),
            Expr::OperatorApplication { operator, left, right, .. } => {
                self.is_multiline(&left.value) || self.is_multiline(&right.value) || (pretty
                    && spans_cross_lines(left.span, right.span)) || (pretty && (str_eq(operator.as_str(), "|>")
                    || str_eq(operator.as_str(), "|.") || str_eq(operator.as_str(), "|=")))
            },
            Expr::Parenthesized(inner) => self.is_multiline(&inner.value),
            Expr::Negation(inner) => self.is_multiline(&inner.value),
            Expr::Literal(Literal::MultilineString(s)) => {
                let cs = chars_of(s.as_str());
                contains_char(&cs, '\n')
            },
            _ => false,
        }
    }

    pub(super) fn any_multiline(&self, es: &Vec<Spanned<Expr>>) -> (r: bool)
        ensures
            r == any_multiline(es@, self.pretty()),
        decreases es@, 0nat,
    {
        let mut i: usize = 0;
        let mut found = false;
        while i < es.len()
            invariant
                i <= es@.len(),
                found == any_multiline(es@.take(i as int), self.pretty()),
            decreases es@.len() - i,
        {
            let m = self.is_multiline(&es[i].value);
            assert(es@.take(i + 1).drop_last() =~= es@.take(i as int));
            found = found || m;
            i = i + 1;
        }
        assert(es@.take(i as int) =~= es@);
        found
    }

    pub(super) fn any_setter_multiline(&self, fs: &Vec<Spanned<RecordSetter>>) -> (r: bool)
        ensures
            r == any_setter_multiline(fs@, self.pretty()),
        decreases fs@, 0nat,
    {
        let mut i: usize = 0;
        let mut found = false;
        while i < fs.len()
            invariant
                i <= fs@.len(),
                found == any_setter_multiline(fs@.take(i as int), self.pretty()),
            decreases fs@.len() - i,
        {
            let m = self.is_multiline(&fs[i].value.value.value);
            assert(fs@.take(i + 1).drop_last() =~= fs@.take(i as int));
            found = found || m;
            i = i + 1;
        }
        assert(fs@.take(i as int) =~= fs@);
        found
    }
}

} // verus!
