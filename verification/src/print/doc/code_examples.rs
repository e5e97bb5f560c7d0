//! Indented code blocks of doc comments: example assertions are
//! re-printed, paragraphs of imports and comments are spaced as
//! elm-format's renderer spaces them, and a block of nothing but comments
//! is followed by three newlines.

use vstd::prelude::*;

use super::assertion_blocks::{
    assertion_paragraphs, blank, is_blank_line, lines_view, next_nonblank, next_nonblank_line,
    transform_assertion_paragraphs,
};
use super::lines::{push_all, starts_with, starts_with_str, trim_start_chars};
use crate::text::{chars_of, chars_range, join_lines, join_with_newlines, lines_of, split_lines, string_of, trim, trim_start, trimmed};

verus! {

/// Line `i` opens an indented code block: four spaces, first or after a
/// blank line.
pub open spec fn opens_code(ls: Seq<Seq<char>>, i: int) -> bool {
    starts_with(ls[i], "    "@) && (i == 0 || blank(ls[i - 1]))
}

/// The last line of the indented code block that reaches line `e`: blank
/// lines belong to it when an indented line follows them.
pub open spec fn code_block_end(ls: Seq<Seq<char>>, e: int) -> int
    decreases ls.len() - e,
{
    if e < 0 || e + 1 >= ls.len() {
        e
    } else if blank(ls[e + 1]) {
        if e + 2 < ls.len() && starts_with(ls[e + 2], "    "@) {
            code_block_end(ls, e + 1)
        } else {
            e
        }
    } else if starts_with(ls[e + 1], "    "@) {
        code_block_end(ls, e + 1)
    } else {
        e
    }
}

/// Some line of `b` from `k` on is a `-->` result comment.
pub open spec fn arrow_from(b: Seq<Seq<char>>, k: int) -> bool
    decreases b.len() - k,
{
    if k < 0 || k >= b.len() {
        false
    } else {
        starts_with(trim(b[k]), "-->"@) || arrow_from(b, k + 1)
    }
}

/// Some code block from line `i` on shows expected output with `-->`.
pub open spec fn arrow_block_from(ls: Seq<Seq<char>>, i: int) -> bool
    decreases ls.len() - i,
{
    if i < 0 || i >= ls.len() {
        false
    } else if !opens_code(ls, i) {
        arrow_block_from(ls, i + 1)
    } else {
        let e = code_block_end(ls, i);
        proof {
            lemma_code_block_end(ls, i);
        }
        arrow_from(ls.subrange(i, e + 1), 0) || arrow_block_from(ls, e + 1)
    }
}

/// The non-blank lines of `b` from `k` on are all comments; some line
/// (from the start) was one when `saw` holds.
pub open spec fn comments_from(b: Seq<Seq<char>>, k: int, saw: bool) -> bool
    decreases b.len() - k,
{
    if k < 0 || k >= b.len() {
        saw
    } else if trim(b[k]).len() == 0 {
        comments_from(b, k + 1, saw)
    } else {
        starts_with(trim(b[k]), "--"@) && comments_from(b, k + 1, true)
    }
}

/// The lines of the paragraph from `k` on all start (after whitespace)
/// with `p`.
pub open spec fn para_all_from(ls: Seq<Seq<char>>, k: int, p: Seq<char>) -> bool
    decreases ls.len() - k,
{
    if k < 0 || k >= ls.len() || blank(ls[k]) {
        true
    } else {
        starts_with(trim_start(ls[k]), p) && para_all_from(ls, k + 1, p)
    }
}

/// The lines of the paragraph that ends at `j` all start (after
/// whitespace) with `p`.
pub open spec fn para_all_back(ls: Seq<Seq<char>>, j: int, p: Seq<char>) -> bool
    decreases j + 1,
{
    if j < 0 || j >= ls.len() || blank(ls[j]) {
        true
    } else {
        starts_with(trim_start(ls[j]), p) && para_all_back(ls, j - 1, p)
    }
}

/// The last line before `k` that is not blank, or -1.
pub open spec fn prev_nonblank(ls: Seq<Seq<char>>, k: int) -> int
    decreases k,
{
    if k <= 0 {
        -1
    } else if !blank(ls[k - 1]) {
        k - 1
    } else {
        prev_nonblank(ls, k - 1)
    }
}

/// Line `k` starts a paragraph of comments right after a paragraph of
/// imports: elm-format's renderer puts an extra blank line between them.
pub open spec fn loose_before(ls: Seq<Seq<char>>, k: int) -> bool {
    &&& !blank(ls[k])
    &&& (k == 0 || blank(ls[k - 1]))
    &&& para_all_from(ls, k, "--"@)
    &&& prev_nonblank(ls, k) >= 0
    &&& para_all_back(ls, prev_nonblank(ls, k), "import "@)
}

/// The first `k` lines with a blank line inserted before each loose
/// paragraph.
pub open spec fn loose_lines(ls: Seq<Seq<char>>, k: int) -> Seq<Seq<char>>
    decreases k,
{
    if k <= 0 {
        Seq::empty()
    } else {
        loose_lines(ls, k - 1) + (if loose_before(ls, k - 1) {
            seq![Seq::<char>::empty()]
        } else {
            Seq::empty()
        }) + seq![ls[k - 1]]
    }
}

/// The text of a code block with the loose paragraph breaks inserted.
pub open spec fn loose_text(t: Seq<char>) -> Seq<char> {
    let ls = lines_of(t);
    join_lines(loose_lines(ls, ls.len() as int))
}

/// The output from line `i` on; `example` says whether some block shows
/// expected output, in which case blocks are copied as they are.
pub open spec fn code_indent_from(ls: Seq<Seq<char>>, i: int, example: bool) -> Seq<char>
    decreases ls.len() - i,
{
    if i < 0 || i >= ls.len() {
        Seq::empty()
    } else if !opens_code(ls, i) {
        ls[i] + (if i + 1 < ls.len() {
            seq!['\n']
        } else {
            Seq::empty()
        }) + code_indent_from(ls, i + 1, example)
    } else {
        let e = code_block_end(ls, i);
        proof {
            lemma_code_block_end(ls, i);
        }
        let block = ls.subrange(i, e + 1);
        let body = loose_text(
            if example {
                join_lines(block)
            } else {
                assertion_paragraphs(block)
            },
        );
        let nl = if e < ls.len() - 1 {
            seq!['\n']
        } else {
            Seq::empty()
        };
        if comments_from(block, 0, false) {
            proof {
                super::assertion_blocks::lemma_next_nonblank(ls, e + 1);
            }
            body + nl + seq!['\n', '\n', '\n'] + code_indent_from(ls, next_nonblank(ls, e + 1), example)
        } else {
            body + nl + code_indent_from(ls, e + 1, example)
        }
    }
}

/// The doc text with its indented code blocks normalized.
pub open spec fn code_blocks_normalized(t: Seq<char>) -> Seq<char> {
    let ls = lines_of(t);
    code_indent_from(ls, 0, arrow_block_from(ls, 0))
}

pub proof fn lemma_code_block_end(ls: Seq<Seq<char>>, e: int)
    requires
        0 <= e < ls.len(),
    ensures
        e <= code_block_end(ls, e) < ls.len(),
    decreases ls.len() - e,
{
    if e + 1 < ls.len() {
        if blank(ls[e + 1]) {
            if e + 2 < ls.len() && starts_with(ls[e + 2], "    "@) {
                lemma_code_block_end(ls, e + 1);
            }
        } else if starts_with(ls[e + 1], "    "@) {
            lemma_code_block_end(ls, e + 1);
        }
    }
}

fn block_end(ls: &Vec<Vec<char>>, i: usize) -> (r: usize)
    requires
        i < ls@.len(),
    ensures
        r == code_block_end(lines_view(ls@), i as int),
        i <= r < ls@.len(),
{
    let ghost v = lines_view(ls@);
    let n = ls.len();
    let mut e = i;
    while e + 1 < n
        invariant
            i <= e < n,
            n == v.len(),
            v == lines_view(ls@),
            code_block_end(v, i as int) == code_block_end(v, e as int),
        decreases n - e,
    {
        assert(v[e + 1] == ls@[e + 1]@);
        if is_blank_line(&ls[e + 1]) {
            if e + 2 < n && starts_with_str(&ls[e + 2], "    ") {
                assert(v[e + 2] == ls@[e + 2]@);
                e = e + 1;
                continue;
            }
            proof {
                if e + 2 < n {
                    assert(v[e + 2] == ls@[e + 2]@);
                }
            }
            return e;
        } else if starts_with_str(&ls[e + 1], "    ") {
            e = e + 1;
        } else {
            return e;
        }
    }
    e
}

fn sub_lines(ls: &Vec<Vec<char>>, i: usize, e: usize) -> (r: Vec<Vec<char>>)
    requires
        i <= e < ls@.len(),
    ensures
        lines_view(r@) == lines_view(ls@).subrange(i as int, e + 1),
{
    let mut r: Vec<Vec<char>> = Vec::new();
    let mut k = i;
    let n = ls.len();
    while k <= e
        invariant
            i <= k <= e + 1,
            e < n,
            n == ls@.len(),
            lines_view(r@) == lines_view(ls@).subrange(i as int, k as int),
        decreases e + 1 - k,
    {
        let ghost before = lines_view(r@);
        let l = chars_range(&ls[k], 0, ls[k].len());
        assert(l@ =~= ls@[k as int]@);
        r.push(l);
        assert(lines_view(r@) =~= before.push(l@));
        assert(lines_view(ls@)[k as int] == ls@[k as int]@);
        k = k + 1;
        assert(lines_view(r@) =~= lines_view(ls@).subrange(i as int, k as int));
    }
    r
}

/// Whether some line of a code block is a `-->` result comment.
pub fn block_has_result_arrow_comment(b: &Vec<Vec<char>>) -> (r: bool)
    ensures
        r == arrow_from(lines_view(b@), 0),
{
    let ghost v = lines_view(b@);
    let mut k: usize = 0;
    while k < b.len()
        invariant
            k <= b@.len(),
            v == lines_view(b@),
            arrow_from(v, 0) == arrow_from(v, k as int),
        decreases b@.len() - k,
    {
        assert(v[k as int] == b@[k as int]@);
        let t = trimmed(&b[k]);
        if starts_with_str(&t, "-->") {
            return true;
        }
        k = k + 1;
    }
    false
}

/// Whether some indented code block of the doc lines shows expected
/// output with `-->` lines, which makes elm-format keep every block of the
/// comment as written.
pub fn doc_comment_has_mixed_block(ls: &Vec<Vec<char>>) -> (r: bool)
    ensures
        r == arrow_block_from(lines_view(ls@), 0),
{
    let ghost v = lines_view(ls@);
    let n = ls.len();
    let mut i: usize = 0;
    while i < n
        invariant
            i <= n,
            n == v.len(),
            v == lines_view(ls@),
            arrow_block_from(v, 0) == arrow_block_from(v, i as int),
        decreases n - i,
    {
        assert(v[i as int] == ls@[i as int]@);
        if i > 0 {
            assert(v[i - 1] == ls@[i - 1]@);
        }
        let opens = starts_with_str(&ls[i], "    ") && (i == 0 || is_blank_line(&ls[i - 1]));
        if !opens {
            i = i + 1;
            continue;
        }
        let e = block_end(ls, i);
        let block = sub_lines(ls, i, e);
        if block_has_result_arrow_comment(&block) {
            return true;
        }
        i = e + 1;
    }
    false
}

/// Whether the non-blank lines of a code block are all line comments (and
/// there is at least one).
pub fn block_is_all_comments(b: &Vec<Vec<char>>) -> (r: bool)
    ensures
        r == comments_from(lines_view(b@), 0, false),
{
    let ghost v = lines_view(b@);
    let mut saw = false;
    let mut k: usize = 0;
    while k < b.len()
        invariant
            k <= b@.len(),
            v == lines_view(b@),
            comments_from(v, 0, false) == comments_from(v, k as int, saw),
        decreases b@.len() - k,
    {
        assert(v[k as int] == b@[k as int]@);
        let t = trimmed(&b[k]);
        if t.len() == 0 {
            k = k + 1;
            continue;
        }
        if !starts_with_str(&t, "--") {
            return false;
        }
        saw = true;
        k = k + 1;
    }
    saw
}

fn para_all_forward(ls: &Vec<Vec<char>>, k0: usize, p: &str) -> (r: bool)
    requires
        k0 <= ls@.len(),
    ensures
        r == para_all_from(lines_view(ls@), k0 as int, p@),
{
    let ghost v = lines_view(ls@);
    let mut k = k0;
    while k < ls.len() && !is_blank_line(&ls[k])
        invariant
            k0 <= k <= ls@.len(),
            v == lines_view(ls@),
            para_all_from(v, k0 as int, p@) == para_all_from(v, k as int, p@),
        decreases ls@.len() - k,
    {
        assert(v[k as int] == ls@[k as int]@);
        let t = trim_start_chars(&ls[k]);
        if !starts_with_str(&t, p) {
            return false;
        }
        k = k + 1;
    }
    proof {
        if k < ls@.len() {
            assert(v[k as int] == ls@[k as int]@);
        }
    }
    true
}

fn para_all_backward(ls: &Vec<Vec<char>>, j0: usize, p: &str) -> (r: bool)
    requires
        j0 < ls@.len(),
    ensures
        r == para_all_back(lines_view(ls@), j0 as int, p@),
{
    let ghost v = lines_view(ls@);
    let mut j = j0;
    loop
        invariant
            j <= j0 < ls@.len(),
            v == lines_view(ls@),
            para_all_back(v, j0 as int, p@) == para_all_back(v, j as int, p@),
        decreases j,
    {
        assert(v[j as int] == ls@[j as int]@);
        if is_blank_line(&ls[j]) {
            return true;
        }
        let t = trim_start_chars(&ls[j]);
        if !starts_with_str(&t, p) {
            return false;
        }
        if j == 0 {
            assert(para_all_back(v, -1, p@));
            return true;
        }
        j = j - 1;
    }
}

fn is_loose_before(ls: &Vec<Vec<char>>, k: usize) -> (r: bool)
    requires
        k < ls@.len(),
    ensures
        r == loose_before(lines_view(ls@), k as int),
{
    let ghost v = lines_view(ls@);
    assert(v[k as int] == ls@[k as int]@);
    if k > 0 {
        assert(v[k - 1] == ls@[k - 1]@);
    }
    if is_blank_line(&ls[k]) || !(k == 0 || is_blank_line(&ls[k - 1])) {
        return false;
    }
    if !para_all_forward(ls, k, "--") {
        return false;
    }
    let mut p = k;
    while p > 0 && is_blank_line(&ls[p - 1])
        invariant
            p <= k < ls@.len(),
            v == lines_view(ls@),
            prev_nonblank(v, k as int) == prev_nonblank(v, p as int),
        decreases p,
    {
        assert(v[p - 1] == ls@[p - 1]@);
        p = p - 1;
    }
    if p == 0 {
        return false;
    }
    assert(v[p - 1] == ls@[p - 1]@);
    para_all_backward(ls, p - 1, "import ")
}

/// Insert an extra blank line between a paragraph of imports and a
/// following paragraph of comments, as elm-format's renderer spaces them.
pub fn insert_loose_paragraph_breaks(joined: &Vec<char>) -> (r: Vec<char>)
    ensures
        r@ == loose_text(joined@),
{
    let lines = split_lines(joined);
    let ghost ls = lines_of(joined@);
    assert(lines_view(lines@) =~= ls);
    let mut out: Vec<Vec<char>> = Vec::new();
    let mut k: usize = 0;
    while k < lines.len()
        invariant
            k <= lines@.len(),
            ls == lines_view(lines@),
            lines_view(out@) == loose_lines(ls, k as int),
        decreases lines@.len() - k,
    {
        let ghost before = lines_view(out@);
        if is_loose_before(&lines, k) {
            out.push(Vec::new());
        }
        let l = chars_range(&lines[k], 0, lines[k].len());
        assert(l@ =~= ls[k as int]);
        out.push(l);
        k = k + 1;
        assert(lines_view(out@) =~= loose_lines(ls, k as int));
    }
    join_with_newlines(&out)
}

fn emit_block(lines: &Vec<Vec<char>>, i: usize, example: bool, out: &mut Vec<char>) -> (r: usize)
    requires
        i < lines@.len(),
        opens_code(lines_view(lines@), i as int),
    ensures
        i < r <= lines@.len(),
        final(out)@ + code_indent_from(lines_view(lines@), r as int, example) == old(out)@ + code_indent_from(
            lines_view(lines@),
            i as int,
            example,
        ),
{
    let ghost ls = lines_view(lines@);
    let n = lines.len();
    let e = block_end(lines, i);
    let block = sub_lines(lines, i, e);
    let transformed = if example {
        join_with_newlines(&block)
    } else {
        transform_assertion_paragraphs(&block)
    };
    let body = insert_loose_paragraph_breaks(&transformed);
    push_all(out, &body);
    if e < n - 1 {
        out.push('\n');
    }
    let ghost mid = out@;
    if block_is_all_comments(&block) {
        let k = next_nonblank_line(lines, e + 1);
        out.push('\n');
        out.push('\n');
        out.push('\n');
        assert(out@ =~= mid + seq!['\n', '\n', '\n']);
        k
    } else {
        e + 1
    }
}

/// Normalize the indented code blocks of a doc comment: example blocks get
/// their assertions re-printed (unless some block shows expected output
/// with `-->`, in which case all are kept), loose paragraph breaks are
/// inserted, and a block of only comments is followed by three newlines.
pub fn normalize_code_block_indent(text: &str) -> (r: String)
    ensures
        r@ == code_blocks_normalized(text@),
{
    let lines = split_lines(&chars_of(text));
    let ghost ls = lines_of(text@);
    assert(lines_view(lines@) =~= ls);
    let example = doc_comment_has_mixed_block(&lines);
    let n = lines.len();
    let mut out: Vec<char> = Vec::new();
    let mut i: usize = 0;
    while i < n
        invariant
            i <= n,
            n == ls.len(),
            ls == lines_view(lines@),
            example == arrow_block_from(ls, 0),
            out@ + code_indent_from(ls, i as int, example) == code_indent_from(ls, 0, example),
        decreases n - i,
    {
        let ghost o0 = out@;
        let ghost i0 = i as int;
        assert(ls[i as int] == lines@[i as int]@);
        if i > 0 {
            assert(ls[i - 1] == lines@[i - 1]@);
        }
        let opens = starts_with_str(&lines[i], "    ") && (i == 0 || is_blank_line(&lines[i - 1]));
        if !opens {
            push_all(&mut out, &lines[i]);
            if i + 1 < n {
                out.push('\n');
            }
            i = i + 1;
            assert(out@ + code_indent_from(ls, i as int, example) =~= o0 + code_indent_from(ls, i0, example));
            continue;
        }
        i = emit_block(&lines, i, example, &mut out);
    }
    string_of(&out)
}

} // verus!
