//! Shapes of whole code blocks and paragraphs of doc examples: paragraphs,
//! declarations, comment paragraphs, unseparated assertions, and whether
//! elm-format would re-print a block differently from its source.

use vstd::prelude::*;

use super::super::literals::contains_char;
use super::assertion_blocks::{blank, is_blank_line, lead_byte_count, lines_view};
use super::assertions::{assertion_line, find_sub, find_substring, looks_like_assertion};
use super::code_blocks::lead_bytes;
use super::line_shapes::{
    has_compact_tuple, has_tight_binary_op, hex_scan, if_scan, import_has_unsorted_exposing, import_unsorted,
    is_redundant_paren_expr, is_single_line_value_decl, line_has_sci_float_without_dot,
    line_has_single_line_if_then_else, line_has_unpadded_hex, redundant_parens, sci_scan, single_value_decl,
    tight_scan, tuple_scan, value_start,
};
use super::lines::{ends_with, ends_with_str, starts_with, starts_with_str};
use super::spacing::{in_literal, lex_next, lex_step, plain, Lexing};
use crate::text::{chars_range, trim, trimmed};

verus! {

// ---------------------------------------------------------------------
/// A character of a value name: a letter, digit, `_` or `'`.
pub open spec fn name_char(c: char) -> bool {
    ('a' <= c && c <= 'z') || ('A' <= c && c <= 'Z') || ('0' <= c && c <= '9') || c == '_' || c == '\''
}

/// The end of the run of name characters from `k`.
pub open spec fn name_end(l: Seq<char>, k: int) -> int
    decreases l.len() - k,
{
    if 0 <= k < l.len() && name_char(l[k]) {
        name_end(l, k + 1)
    } else {
        k
    }
}

/// Scanning from `i` for an `=` at bracket depth zero, outside literals,
/// with a space before it and not followed by another `=`.
pub open spec fn outer_eq_scan(l: Seq<char>, i: int, lx: Lexing, depth: int) -> bool
    decreases l.len() - i,
{
    if i < 0 || i >= l.len() {
        false
    } else {
        let b = l[i];
        if in_literal(lx) || b == '"' || b == '\'' {
            outer_eq_scan(l, i + 1, lex_next(lx, b), depth)
        } else if b == '(' || b == '[' || b == '{' {
            outer_eq_scan(l, i + 1, lx, depth + 1)
        } else if b == ')' || b == ']' || b == '}' {
            outer_eq_scan(l, i + 1, lx, depth - 1)
        } else if b == '=' && depth == 0 {
            let prev = if i > 0 {
                l[i - 1]
            } else {
                ' '
            };
            let next = if i + 1 < l.len() {
                l[i + 1]
            } else {
                ' '
            };
            if prev != ' ' || next == '=' {
                outer_eq_scan(l, i + 1, lx, depth)
            } else {
                true
            }
        } else {
            outer_eq_scan(l, i + 1, lx, depth)
        }
    }
}

/// A line that starts a value declaration: a lower-case name, a space,
/// and later an `=` at the outer level.
pub open spec fn value_decl_start(l: Seq<char>) -> bool {
    l.len() > 0 && value_start(l[0]) && name_end(l, 0) < l.len() && l[name_end(l, 0)] == ' ' && outer_eq_scan(
        l,
        name_end(l, 0),
        plain(),
        0,
    )
}

/// Whether a line starts a value declaration `name args = ...`.
pub fn looks_like_value_decl_start(l: &Vec<char>) -> (r: bool)
    ensures
        r == value_decl_start(l@),
{
    let n = l.len();
    if n == 0 {
        return false;
    }
    let first = l[0];
    if !(('a' <= first && first <= 'z') || first == '_') {
        return false;
    }
    let mut i: usize = 0;
    while i < n && is_name_char(l[i])
        invariant
            i <= n,
            n == l@.len(),
            name_end(l@, 0) == name_end(l@, i as int),
        decreases n - i,
    {
        i = i + 1;
    }
    if i == 0 || i >= n {
        return false;
    }
    if l[i] != ' ' {
        return false;
    }
    let start = i;
    let mut lx = Lexing { in_str: false, in_char: false, esc: false };
    let mut depth: i128 = 0;
    while i < n
        invariant
            start <= i <= n,
            n == l@.len(),
            l@.len() > 0 && value_start(l@[0]),
            name_end(l@, 0) == start,
            start < l@.len() && l@[start as int] == ' ',
            -(i as int) <= depth <= i,
            outer_eq_scan(l@, start as int, plain(), 0) == outer_eq_scan(l@, i as int, lx, depth as int),
        decreases n - i,
    {
        let b = l[i];
        if lx.esc || lx.in_str || lx.in_char || b == '"' || b == '\'' {
            lx = lex_step(lx, b);
        } else if b == '(' || b == '[' || b == '{' {
            depth = depth + 1;
        } else if b == ')' || b == ']' || b == '}' {
            depth = depth - 1;
        } else if b == '=' && depth == 0 {
            let prev = if i > 0 {
                l[i - 1]
            } else {
                ' '
            };
            let next = if i + 1 < n {
                l[i + 1]
            } else {
                ' '
            };
            if !(prev != ' ' || next == '=') {
                return true;
            }
        }
        i = i + 1;
    }
    false
}

fn is_name_char(c: char) -> (r: bool)
    ensures
        r == name_char(c),
{
    ('a' <= c && c <= 'z') || ('A' <= c && c <= 'Z') || ('0' <= c && c <= '9') || c == '_' || c == '\''
}

/// Scanning for ` : ` outside strings.
pub open spec fn annotation_scan(l: Seq<char>, i: int, in_string: bool, escape: bool) -> bool
    decreases l.len() - i,
{
    if i < 0 || i >= l.len() {
        false
    } else {
        let c = l[i];
        if escape {
            annotation_scan(l, i + 1, in_string, false)
        } else if in_string {
            annotation_scan(l, i + 1, c != '"', c == '\\')
        } else if c == '"' {
            annotation_scan(l, i + 1, true, false)
        } else if c == ':' && i + 1 < l.len() && l[i + 1] == ' ' && i > 0 && l[i - 1] == ' ' {
            true
        } else {
            annotation_scan(l, i + 1, in_string, escape)
        }
    }
}

/// Whether a line looks like a type annotation `name : Type`.
pub fn looks_like_type_annotation(l: &Vec<char>) -> (r: bool)
    ensures
        r == annotation_scan(l@, 0, false, false),
{
    let n = l.len();
    let mut in_string = false;
    let mut escape = false;
    let mut i: usize = 0;
    while i < n
        invariant
            i <= n,
            n == l@.len(),
            annotation_scan(l@, 0, false, false) == annotation_scan(l@, i as int, in_string, escape),
        decreases n - i,
    {
        let c = l[i];
        if escape {
            escape = false;
        } else if in_string {
            escape = c == '\\';
            in_string = c != '"';
        } else if c == '"' {
            in_string = true;
        } else if c == ':' && i + 1 < n && l[i + 1] == ' ' && i > 0 && l[i - 1] == ' ' {
            return true;
        }
        i = i + 1;
    }
    false
}

// ---------------------------------------------------------------------
/// The paragraphs (runs of non-blank lines) from line `k` on, after the
/// paragraphs `acc` and the open paragraph `cur`.
pub open spec fn raw_paragraphs(
    ls: Seq<Seq<char>>,
    k: int,
    cur: Seq<Seq<char>>,
    acc: Seq<Seq<Seq<char>>>,
) -> Seq<Seq<Seq<char>>>
    decreases ls.len() - k,
{
    if k < 0 || k >= ls.len() {
        if cur.len() > 0 {
            acc.push(cur)
        } else {
            acc
        }
    } else if blank(ls[k]) {
        raw_paragraphs(ls, k + 1, Seq::empty(), if cur.len() > 0 {
            acc.push(cur)
        } else {
            acc
        })
    } else {
        raw_paragraphs(ls, k + 1, cur.push(ls[k]), acc)
    }
}

/// The paragraphs of a block.
pub open spec fn paragraphs(ls: Seq<Seq<char>>) -> Seq<Seq<Seq<char>>> {
    raw_paragraphs(ls, 0, Seq::empty(), Seq::empty())
}

proof fn lemma_raw_paragraphs(ls: Seq<Seq<char>>, k: int, cur: Seq<Seq<char>>, acc: Seq<Seq<Seq<char>>>)
    requires
        0 <= k <= ls.len(),
        forall|q: int| 0 <= q < acc.len() ==> (#[trigger] acc[q]).len() > 0,
    ensures
        forall|q: int|
            0 <= q < raw_paragraphs(ls, k, cur, acc).len() ==> (#[trigger] raw_paragraphs(ls, k, cur, acc)[q]).len() > 0,
    decreases ls.len() - k,
{
    if k < ls.len() {
        let acc2 = if cur.len() > 0 {
            acc.push(cur)
        } else {
            acc
        };
        assert forall|q: int| 0 <= q < acc2.len() implies (#[trigger] acc2[q]).len() > 0 by {
            if q < acc.len() {
                assert(acc2[q] == acc[q]);
            }
        }
        if blank(ls[k]) {
            lemma_raw_paragraphs(ls, k + 1, Seq::empty(), acc2);
            assert(raw_paragraphs(ls, k, cur, acc) == raw_paragraphs(ls, k + 1, Seq::empty(), acc2));
        } else {
            lemma_raw_paragraphs(ls, k + 1, cur.push(ls[k]), acc);
            assert(raw_paragraphs(ls, k, cur, acc) == raw_paragraphs(ls, k + 1, cur.push(ls[k]), acc));
        }
    } else {
        let acc2 = if cur.len() > 0 {
            acc.push(cur)
        } else {
            acc
        };
        assert(raw_paragraphs(ls, k, cur, acc) == acc2);
        assert forall|q: int| 0 <= q < acc2.len() implies (#[trigger] acc2[q]).len() > 0 by {
            if q < acc.len() {
                assert(acc2[q] == acc[q]);
            }
        }
    }
}

pub open spec fn paragraphs_view(ps: Seq<Vec<Vec<char>>>) -> Seq<Seq<Seq<char>>> {
    ps.map_values(|p: Vec<Vec<char>>| lines_view(p@))
}

fn copy_line(l: &Vec<char>) -> (r: Vec<char>)
    ensures
        r@ == l@,
{
    let r = chars_range(l, 0, l.len());
    assert(r@ =~= l@);
    r
}

fn split_raw_paragraphs(ls: &Vec<Vec<char>>) -> (r: Vec<Vec<Vec<char>>>)
    ensures
        paragraphs_view(r@) == paragraphs(lines_view(ls@)),
{
    let ghost v = lines_view(ls@);
    let mut acc: Vec<Vec<Vec<char>>> = Vec::new();
    let mut cur: Vec<Vec<char>> = Vec::new();
    let mut k: usize = 0;
    assert(paragraphs_view(acc@) =~= Seq::<Seq<Seq<char>>>::empty());
    assert(lines_view(cur@) =~= Seq::<Seq<char>>::empty());
    while k < ls.len()
        invariant
            k <= ls@.len(),
            v == lines_view(ls@),
            raw_paragraphs(v, k as int, lines_view(cur@), paragraphs_view(acc@)) == paragraphs(v),
        decreases ls@.len() - k,
    {
        let ghost a0 = paragraphs_view(acc@);
        let ghost c0 = lines_view(cur@);
        assert(v[k as int] == ls@[k as int]@);
        if is_blank_line(&ls[k]) {
            if cur.len() > 0 {
                let done = cur;
                acc.push(done);
                assert(paragraphs_view(acc@) =~= a0.push(c0));
            }
            cur = Vec::new();
            assert(lines_view(cur@) =~= Seq::<Seq<char>>::empty());
        } else {
            cur.push(copy_line(&ls[k]));
            assert(lines_view(cur@) =~= c0.push(v[k as int]));
        }
        k = k + 1;
    }
    let ghost a0 = paragraphs_view(acc@);
    let ghost c0 = lines_view(cur@);
    if cur.len() > 0 {
        acc.push(cur);
        assert(paragraphs_view(acc@) =~= a0.push(c0));
    }
    acc
}

/// A paragraph that continues the one before it: its first line starts
/// with `-` and a digit or `(`, which Elm reads as a subtraction.
pub open spec fn minus_continuation(p: Seq<Seq<char>>) -> bool {
    p.len() > 0 && {
        let t = trim(p[0]);
        t.len() >= 2 && t[0] == '-' && (('0' <= t[1] && t[1] <= '9') || t[1] == '(')
    }
}

/// The first `k` paragraphs with each minus continuation merged into the
/// paragraph before it.
pub open spec fn merged_paragraphs(ps: Seq<Seq<Seq<char>>>, k: int) -> Seq<Seq<Seq<char>>>
    decreases k,
{
    if k <= 0 {
        Seq::empty()
    } else {
        let m = merged_paragraphs(ps, k - 1);
        let p = ps[k - 1];
        if minus_continuation(p) && m.len() > 0 {
            m.update(m.len() - 1, m.last() + p)
        } else {
            m.push(p)
        }
    }
}

/// The paragraphs of a block of code lines, with a paragraph that starts
/// with a subtraction (`-1`, `-(x)`) joined to the one before it.
pub open spec fn code_paragraphs(ls: Seq<Seq<char>>) -> Seq<Seq<Seq<char>>> {
    let ps = paragraphs(ls);
    merged_paragraphs(ps, ps.len() as int)
}

/// Split code lines into paragraphs at blank lines; a paragraph starting
/// with `-` and a digit or `(` joins the one before it.
pub fn split_into_paragraphs(ls: &Vec<Vec<char>>) -> (r: Vec<Vec<Vec<char>>>)
    ensures
        paragraphs_view(r@) == code_paragraphs(lines_view(ls@)),
{
    let raw = split_raw_paragraphs(ls);
    let ghost pv = paragraphs_view(raw@);
    let mut merged: Vec<Vec<Vec<char>>> = Vec::new();
    let mut k: usize = 0;
    while k < raw.len()
        invariant
            k <= raw@.len(),
            pv == paragraphs_view(raw@),
            paragraphs_view(merged@) == merged_paragraphs(pv, k as int),
        decreases raw@.len() - k,
    {
        let ghost m0 = paragraphs_view(merged@);
        let p = &raw[k];
        assert(pv[k as int] == lines_view(p@));
        let mut is_minus = false;
        if p.len() > 0 {
            let t = trimmed(&p[0]);
            assert(lines_view(p@)[0] == p@[0]@);
            is_minus = t.len() >= 2 && t[0] == '-' && (('0' <= t[1] && t[1] <= '9') || t[1] == '(');
        }
        if is_minus && merged.len() > 0 {
            let mut last = merged.pop().unwrap();
            let ghost lv = lines_view(last@);
            assert(lv == m0.last());
            let mut q: usize = 0;
            while q < p.len()
                invariant
                    q <= p@.len(),
                    lines_view(last@) == lv + lines_view(p@).take(q as int),
                decreases p@.len() - q,
            {
                let ghost before = lines_view(last@);
                last.push(copy_line(&p[q]));
                assert(lines_view(last@) =~= before.push(p@[q as int]@));
                assert(lines_view(p@).take(q + 1) =~= lines_view(p@).take(q as int).push(p@[q as int]@));
                q = q + 1;
                assert(lines_view(last@) =~= lv + lines_view(p@).take(q as int));
            }
            assert(lines_view(p@).take(q as int) =~= lines_view(p@));
            merged.push(last);
            assert(paragraphs_view(merged@) =~= m0.update(m0.len() - 1, m0.last() + pv[k as int]));
        } else {
            let mut copy: Vec<Vec<char>> = Vec::new();
            let mut q: usize = 0;
            while q < p.len()
                invariant
                    q <= p@.len(),
                    lines_view(copy@) == lines_view(p@).take(q as int),
                decreases p@.len() - q,
            {
                let ghost before = lines_view(copy@);
                copy.push(copy_line(&p[q]));
                assert(lines_view(copy@) =~= before.push(p@[q as int]@));
                assert(lines_view(p@).take(q + 1) =~= lines_view(p@).take(q as int).push(p@[q as int]@));
                q = q + 1;
                assert(lines_view(copy@) =~= lines_view(p@).take(q as int));
            }
            assert(lines_view(p@).take(q as int) =~= lines_view(p@));
            merged.push(copy);
            assert(paragraphs_view(merged@) =~= m0.push(pv[k as int]));
        }
        k = k + 1;
    }
    assert(pv.len() == raw@.len());
    merged
}

/// Every line of a paragraph is a `--` comment.
pub open spec fn all_comment_lines(p: Seq<Seq<char>>) -> bool {
    forall|k: int| 0 <= k < p.len() ==> starts_with(trim(#[trigger] p[k]), "--"@)
}

/// A block of code with a declaration first and a paragraph of only
/// comments last: elm-format treats it as loose and puts a blank line
/// before it when re-printing.
pub open spec fn comment_paragraph_block(ls: Seq<Seq<char>>) -> bool {
    let ps = paragraphs(ls);
    ps.len() >= 2 && all_comment_lines(ps.last()) && {
        let f = trim(ps[0][0]);
        !starts_with(f, "import "@) && !starts_with(f, "--"@) && !starts_with(f, "module "@) && (starts_with(
            f,
            "type "@,
        ) || starts_with(f, "port "@) || annotation_scan(f, 0, false, false) || value_decl_start(f))
    }
}

/// Whether a block opens with a declaration and closes with a paragraph
/// of comments.
pub fn block_has_comment_paragraph(ls: &Vec<Vec<char>>) -> (r: bool)
    ensures
        r == comment_paragraph_block(lines_view(ls@)),
{
    let ps = split_raw_paragraphs(ls);
    let ghost pv = paragraphs_view(ps@);
    proof {
        lemma_raw_paragraphs(lines_view(ls@), 0, Seq::empty(), Seq::empty());
    }
    if ps.len() < 2 {
        return false;
    }
    let last = &ps[ps.len() - 1];
    assert(pv.last() == lines_view(last@));
    let mut q: usize = 0;
    while q < last.len()
        invariant
            q <= last@.len(),
            pv.len() >= 2,
            pv == paragraphs(lines_view(ls@)),
            pv.last() == lines_view(last@),
            forall|k: int| 0 <= k < q ==> starts_with(trim(#[trigger] lines_view(last@)[k]), "--"@),
        decreases last@.len() - q,
    {
        let t = trimmed(&last[q]);
        assert(lines_view(last@)[q as int] == last@[q as int]@);
        if !starts_with_str(&t, "--") {
            assert(!all_comment_lines(pv.last()));
            return false;
        }
        q = q + 1;
    }
    let first = &ps[0];
    assert(pv[0] == lines_view(first@));
    assert(pv[0].len() > 0);
    let f = trimmed(&first[0]);
    assert(lines_view(first@)[0] == first@[0]@);
    if starts_with_str(&f, "import ") || starts_with_str(&f, "--") || starts_with_str(&f, "module ") {
        return false;
    }
    starts_with_str(&f, "type ") || starts_with_str(&f, "port ") || looks_like_type_annotation(&f)
        || looks_like_value_decl_start(&f)
}

// ---------------------------------------------------------------------
/// From line `k` on, every non-blank line of a paragraph is an import,
/// and some line (from the start) was one when `saw` holds.
pub open spec fn imports_from(p: Seq<Seq<char>>, k: int, saw: bool) -> bool
    decreases p.len() - k,
{
    if k < 0 || k >= p.len() {
        saw
    } else if trim(p[k]).len() == 0 {
        imports_from(p, k + 1, saw)
    } else {
        starts_with(trim(p[k]), "import "@) && imports_from(p, k + 1, true)
    }
}

/// Whether the non-blank lines of a paragraph are all imports (and there
/// is at least one).
pub fn paragraph_is_all_imports(p: &Vec<Vec<char>>) -> (r: bool)
    ensures
        r == imports_from(lines_view(p@), 0, false),
{
    let ghost v = lines_view(p@);
    let mut saw = false;
    let mut k: usize = 0;
    while k < p.len()
        invariant
            k <= p@.len(),
            v == lines_view(p@),
            imports_from(v, 0, false) == imports_from(v, k as int, saw),
        decreases p@.len() - k,
    {
        assert(v[k as int] == p@[k as int]@);
        let t = trimmed(&p[k]);
        if t.len() == 0 {
            k = k + 1;
            continue;
        }
        if !starts_with_str(&t, "import ") {
            return false;
        }
        saw = true;
        k = k + 1;
    }
    saw
}

/// The first non-blank line from `k` on is a `--` comment.
pub open spec fn starts_with_comment_from(p: Seq<Seq<char>>, k: int) -> bool
    decreases p.len() - k,
{
    if k < 0 || k >= p.len() {
        false
    } else if trim(p[k]).len() == 0 {
        starts_with_comment_from(p, k + 1)
    } else {
        starts_with(trim(p[k]), "--"@)
    }
}

/// Whether the first non-blank line of a paragraph is a `--` comment.
pub fn paragraph_starts_with_line_comment(p: &Vec<Vec<char>>) -> (r: bool)
    ensures
        r == starts_with_comment_from(lines_view(p@), 0),
{
    let ghost v = lines_view(p@);
    let mut k: usize = 0;
    while k < p.len()
        invariant
            k <= p@.len(),
            v == lines_view(p@),
            starts_with_comment_from(v, 0) == starts_with_comment_from(v, k as int),
        decreases p@.len() - k,
    {
        assert(v[k as int] == p@[k as int]@);
        let t = trimmed(&p[k]);
        if t.len() > 0 {
            return starts_with_str(&t, "--");
        }
        k = k + 1;
    }
    false
}

/// The number of non-blank lines from `k` on.
pub open spec fn nonblank_count(p: Seq<Seq<char>>, k: int) -> nat
    decreases p.len() - k,
{
    if k < 0 || k >= p.len() {
        0
    } else {
        (if trim(p[k]).len() == 0 {
            0nat
        } else {
            1nat
        }) + nonblank_count(p, k + 1)
    }
}

/// From line `k` on (with `count` assertions so far), every non-blank line
/// starts at column zero and is a comment or an assertion, and there is at
/// least one assertion.
pub open spec fn assertion_only_from(p: Seq<Seq<char>>, k: int, count: nat) -> bool
    decreases p.len() - k,
{
    if k < 0 || k >= p.len() {
        count >= 1
    } else if trim(p[k]).len() == 0 {
        assertion_only_from(p, k + 1, count)
    } else if starts_with(p[k], " "@) || starts_with(p[k], "\t"@) {
        false
    } else if starts_with(trim(p[k]), "--"@) {
        assertion_only_from(p, k + 1, count)
    } else if !assertion_line(trim(p[k])) {
        false
    } else {
        assertion_only_from(p, k + 1, count + 1)
    }
}

/// A paragraph of two or more lines made only of assertions (and comments).
pub open spec fn assertion_only_paragraph(p: Seq<Seq<char>>) -> bool {
    nonblank_count(p, 0) >= 2 && assertion_only_from(p, 0, 0)
}

/// Whether a paragraph (of lines without their block indent) is made only
/// of assertion lines and comments, with two or more lines.
pub fn is_assertion_only_paragraph(p: &Vec<Vec<char>>) -> (r: bool)
    ensures
        r == assertion_only_paragraph(lines_view(p@)),
{
    let ghost v = lines_view(p@);
    let mut nonblank: usize = 0;
    let mut k: usize = 0;
    while k < p.len()
        invariant
            k <= p@.len(),
            v == lines_view(p@),
            nonblank <= k,
            nonblank_count(v, 0) == nonblank + nonblank_count(v, k as int),
        decreases p@.len() - k,
    {
        assert(v[k as int] == p@[k as int]@);
        let t = trimmed(&p[k]);
        if t.len() > 0 {
            nonblank = nonblank + 1;
        }
        k = k + 1;
    }
    if nonblank < 2 {
        return false;
    }
    let mut count: usize = 0;
    let mut k: usize = 0;
    while k < p.len()
        invariant
            k <= p@.len(),
            v == lines_view(p@),
            count <= k,
            nonblank_count(v, 0) >= 2,
            assertion_only_from(v, 0, 0) == assertion_only_from(v, k as int, count as nat),
        decreases p@.len() - k,
    {
        let l = &p[k];
        assert(v[k as int] == l@);
        let t = trimmed(l);
        if t.len() == 0 {
            k = k + 1;
            continue;
        }
        if starts_with_str(l, " ") || starts_with_str(l, "\t") {
            return false;
        }
        if starts_with_str(&t, "--") {
            k = k + 1;
            continue;
        }
        if !looks_like_assertion(&t) {
            return false;
        }
        count = count + 1;
        k = k + 1;
    }
    count >= 1
}

// ---------------------------------------------------------------------
/// Some line from `k` on, indented by four bytes or more, holds an inline
/// `if`-`then`-`else`.
pub open spec fn single_if_from(ls: Seq<Seq<char>>, k: int) -> bool
    decreases ls.len() - k,
{
    if k < 0 || k >= ls.len() {
        false
    } else {
        let t = trim(ls[k]);
        (t.len() > 0 && lead_bytes(ls[k]) >= 4 && if_scan(t, 0, plain(), false, false, false)) || single_if_from(
            ls,
            k + 1,
        )
    }
}

/// Whether some code line of a block holds an inline `if`.
pub fn block_has_single_line_if(ls: &Vec<Vec<char>>) -> (r: bool)
    ensures
        r == single_if_from(lines_view(ls@), 0),
{
    let ghost v = lines_view(ls@);
    let mut k: usize = 0;
    while k < ls.len()
        invariant
            k <= ls@.len(),
            v == lines_view(ls@),
            single_if_from(v, 0) == single_if_from(v, k as int),
        decreases ls@.len() - k,
    {
        let l = &ls[k];
        assert(v[k as int] == l@);
        let t = trimmed(l);
        if t.len() > 0 && lead_byte_count(l) >= 4 && line_has_single_line_if_then_else(&t) {
            return true;
        }
        k = k + 1;
    }
    false
}

/// Scanning from line `k` with a run of `run` adjacent assertions at the
/// block indent (comments do not break a run): some run has two or more.
pub open spec fn unseparated_from(ls: Seq<Seq<char>>, k: int, run: nat) -> bool
    decreases ls.len() - k,
{
    if k < 0 || k >= ls.len() {
        run >= 2
    } else {
        let l = ls[k];
        let t = trim(l);
        if t.len() == 0 || lead_bytes(l) != 4 {
            run >= 2 || unseparated_from(ls, k + 1, 0)
        } else if starts_with(t, "--"@) {
            unseparated_from(ls, k + 1, run)
        } else if assertion_line(t) {
            unseparated_from(ls, k + 1, run + 1)
        } else {
            run >= 2 || unseparated_from(ls, k + 1, 0)
        }
    }
}

/// Whether a block has two or more assertions without a blank line
/// between them.
pub fn block_has_unseparated_assertions(ls: &Vec<Vec<char>>) -> (r: bool)
    ensures
        r == unseparated_from(lines_view(ls@), 0, 0),
{
    let ghost v = lines_view(ls@);
    let mut run: usize = 0;
    let mut k: usize = 0;
    while k < ls.len()
        invariant
            k <= ls@.len(),
            run <= k,
            v == lines_view(ls@),
            unseparated_from(v, 0, 0) == unseparated_from(v, k as int, run as nat),
        decreases ls@.len() - k,
    {
        let l = &ls[k];
        assert(v[k as int] == l@);
        let t = trimmed(l);
        if t.len() == 0 || lead_byte_count(l) != 4 {
            if run >= 2 {
                return true;
            }
            run = 0;
        } else if starts_with_str(&t, "--") {
        } else if looks_like_assertion(&t) {
            run = run + 1;
        } else {
            if run >= 2 {
                return true;
            }
            run = 0;
        }
        k = k + 1;
    }
    run >= 2
}

// ---------------------------------------------------------------------
/// `p` occurs in `t`.
pub open spec fn contains_sub(t: Seq<char>, p: Seq<char>) -> bool {
    find_sub(t, p, 0) is Some
}

/// A compact list opening such as `[1` or `["`.
pub open spec fn compact_list(t: Seq<char>) -> bool {
    t.contains('[') && t.contains(']') && (contains_sub(t, "[\""@) || contains_sub(t, "[("@) || contains_sub(
        t,
        "['"@,
    ) || contains_sub(t, "[0"@) || contains_sub(t, "[1"@) || contains_sub(t, "[2"@) || contains_sub(t, "[3"@)
        || contains_sub(t, "[4"@) || contains_sub(t, "[5"@) || contains_sub(t, "[6"@) || contains_sub(t, "[7"@)
        || contains_sub(t, "[8"@) || contains_sub(t, "[9"@))
}

/// A code line that elm-format would print differently: indentation off
/// the four-space grid, an unsorted import list, compact lists or tuples,
/// one-line value, type or doc-comment declarations, tight operators,
/// redundant parentheses, unpadded hex literals or scientific floats
/// without a dot.
pub open spec fn line_needs_reformat(l: Seq<char>) -> bool {
    let t = trim(l);
    let lead = lead_bytes(l);
    ||| lead > 4 && (lead - 4) % 4 != 0
    ||| lead == 4 && import_unsorted(t)
    ||| compact_list(t)
    ||| t.contains('(') && t.contains(',') && t.contains(')') && tuple_scan(t, 0, plain())
    ||| lead == 4 && single_value_decl(t)
    ||| lead == 4 && (starts_with(t, "type alias "@) || starts_with(t, "type "@)) && contains_sub(t, " = "@)
    ||| lead == 4 && starts_with(t, "{-|"@) && ends_with(t, "-}"@) && t.len() > 5
    ||| tight_scan(t, 0, false, false)
    ||| lead == 4 && redundant_parens(t)
    ||| hex_scan(t, 0, plain())
    ||| sci_scan(t, 0, plain())
}

/// Some non-blank line from `k` on needs re-printing.
pub open spec fn some_line_needs_reformat(ls: Seq<Seq<char>>, k: int) -> bool
    decreases ls.len() - k,
{
    if k < 0 || k >= ls.len() {
        false
    } else {
        (trim(ls[k]).len() > 0 && line_needs_reformat(ls[k])) || some_line_needs_reformat(ls, k + 1)
    }
}

/// A code block that elm-format would print differently from its source.
pub open spec fn block_needs_reformat(ls: Seq<Seq<char>>) -> bool {
    some_line_needs_reformat(ls, 0) || unseparated_from(ls, 0, 0) || single_if_from(ls, 0)
}

fn has_sub(t: &Vec<char>, p: &str) -> (r: bool)
    ensures
        r == contains_sub(t@, p@),
{
    find_substring(t, p).is_some()
}

fn is_compact_list(t: &Vec<char>) -> (r: bool)
    ensures
        r == compact_list(t@),
{
    contains_char(t, '[') && contains_char(t, ']') && (has_sub(t, "[\"") || has_sub(t, "[(") || has_sub(t, "['")
        || has_sub(t, "[0") || has_sub(t, "[1") || has_sub(t, "[2") || has_sub(t, "[3") || has_sub(t, "[4")
        || has_sub(t, "[5") || has_sub(t, "[6") || has_sub(t, "[7") || has_sub(t, "[8") || has_sub(t, "[9"))
}

fn line_flag(l: &Vec<char>) -> (r: bool)
    ensures
        r == line_needs_reformat(l@),
{
    let t = trimmed(l);
    let lead = lead_byte_count(l);
    if lead > 4 && (lead - 4) % 4 != 0 {
        return true;
    }
    if lead == 4 && import_has_unsorted_exposing(&t) {
        return true;
    }
    if is_compact_list(&t) {
        return true;
    }
    if contains_char(&t, '(') && contains_char(&t, ',') && contains_char(&t, ')') && has_compact_tuple(&t) {
        return true;
    }
    if lead == 4 && is_single_line_value_decl(&t) {
        return true;
    }
    if lead == 4 && (starts_with_str(&t, "type alias ") || starts_with_str(&t, "type ")) && has_sub(&t, " = ") {
        return true;
    }
    if lead == 4 && starts_with_str(&t, "{-|") && ends_with_str(&t, "-}") && t.len() > 5 {
        return true;
    }
    if has_tight_binary_op(&t) {
        return true;
    }
    if lead == 4 && is_redundant_paren_expr(&t) {
        return true;
    }
    if line_has_unpadded_hex(&t) {
        return true;
    }
    line_has_sci_float_without_dot(&t)
}

/// Whether elm-format would print a doc code block differently from its
/// source: a line needs it (see `line_needs_reformat`), assertions are not
/// separated by blank lines, or an `if` sits on one line.
pub fn code_block_needs_reformat(ls: &Vec<Vec<char>>) -> (r: bool)
    ensures
        r == block_needs_reformat(lines_view(ls@)),
{
    let ghost v = lines_view(ls@);
    let mut any = false;
    let mut k: usize = 0;
    while k < ls.len()
        invariant
            k <= ls@.len(),
            v == lines_view(ls@),
            some_line_needs_reformat(v, 0) == (any || some_line_needs_reformat(v, k as int)),
        decreases ls@.len() - k,
    {
        let l = &ls[k];
        assert(v[k as int] == l@);
        let t = trimmed(l);
        if t.len() > 0 && line_flag(l) {
            any = true;
        }
        k = k + 1;
    }
    any || block_has_unseparated_assertions(ls) || block_has_single_line_if(ls)
}

} // verus!
