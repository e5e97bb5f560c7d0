//! Example blocks in doc comments made of `expr == value` assertions:
//! elm-format re-prints each assertion as its own paragraph, with spacing
//! normalized, and cuts an assertion chain continued by `...` at its
//! operators.

use vstd::prelude::*;

use super::super::exposing_layout::{utf8_len, utf8_width};
use super::assertions::{assertion_line, looks_like_assertion};
use super::code_blocks::lead_bytes;
use super::lines::{ends_with, ends_with_str, push_all, starts_with, starts_with_str, trim_start_chars};
use super::spacing::{
    chain_split, collapse_spaces_outside_strings, plain, space_tight_binary_ops, space_tight_tuples_lists,
    spaces_collapsed, split_at_chain_operators, tight_ops_from, tuples_spaced,
};
use crate::text::{chars_range, join_lines, join_with_newlines, trim, trim_end, trim_start, trimmed, trimmed_end};

verus! {

/// A line that is empty once trimmed.
pub open spec fn blank(l: Seq<char>) -> bool {
    trim(l).len() == 0
}

/// The first line at or after `j` that is not blank, or the end.
pub open spec fn next_nonblank(ls: Seq<Seq<char>>, j: int) -> int
    decreases ls.len() - j,
{
    if 0 <= j < ls.len() && blank(ls[j]) {
        next_nonblank(ls, j + 1)
    } else {
        j
    }
}

/// One past the last line of `out` that is not blank.
pub open spec fn nonblank_end(out: Seq<Seq<char>>) -> int
    decreases out.len(),
{
    if out.len() > 0 && blank(out.last()) {
        nonblank_end(out.drop_last())
    } else {
        out.len() as int
    }
}

/// The lines from `i` on, appended to `out`, with each standalone `...`
/// line merged into the assertion before it as a trailing ` ...` (the blank
/// lines around the `...` are dropped).
pub open spec fn dots_merged_from(ls: Seq<Seq<char>>, i: int, out: Seq<Seq<char>>) -> Seq<Seq<char>>
    decreases ls.len() - i,
{
    if i < 0 || i >= ls.len() {
        out
    } else {
        let line = ls[i];
        let li = nonblank_end(out);
        let lt = trim(out[li - 1]);
        let merge = trim(line) == "..."@ && out.len() > 0 && li > 0 && lt.len() > 0 && !starts_with(lt, "--"@)
            && !ends_with(lt, " ..."@);
        if merge {
            proof {
                lemma_next_nonblank(ls, i + 1);
            }
            let merged = out.take(li).update(li - 1, trim_end(out[li - 1]) + " ..."@);
            dots_merged_from(ls, next_nonblank(ls, i + 1), merged)
        } else {
            dots_merged_from(ls, i + 1, out.push(line))
        }
    }
}

/// From line `i` on (an assertion already `seen` or not), the block holds
/// something other than example lines: an import or module line, a line
/// that is not an assertion, or a standalone comment paragraph after an
/// assertion.
pub open spec fn non_assertion_from(ls: Seq<Seq<char>>, i: int, seen: bool) -> bool
    decreases ls.len() - i,
{
    if i < 0 || i >= ls.len() {
        false
    } else {
        let t = trim(ls[i]);
        if t.len() == 0 {
            non_assertion_from(ls, i + 1, seen)
        } else if starts_with(t, "import "@) || starts_with(t, "module "@) {
            true
        } else if starts_with(t, "--"@) {
            let prev_blank = i == 0 || blank(ls[i - 1]);
            let next_blank = i + 1 >= ls.len() || blank(ls[i + 1]);
            if seen && prev_blank && next_blank {
                true
            } else {
                non_assertion_from(ls, i + 1, seen)
            }
        } else if assertion_line(t) {
            non_assertion_from(ls, i + 1, true)
        } else {
            true
        }
    }
}

/// The last line of the run of adjacent lines that reaches line `e`; a run
/// continues across blank lines after an assertion ending in ` ...` when
/// the next line is an assertion.
pub open spec fn run_end_from(ls: Seq<Seq<char>>, e: int) -> int
    decreases ls.len() - e,
{
    let next = e + 1;
    if e < 0 || next >= ls.len() {
        e
    } else if !blank(ls[next]) {
        run_end_from(ls, next)
    } else if !ends_with(trim(ls[e]), " ..."@) {
        e
    } else {
        let j = next_nonblank(ls, next);
        proof {
            lemma_next_nonblank(ls, next);
        }
        if j >= ls.len() {
            e
        } else {
            let nt = trim(ls[j]);
            if starts_with(nt, "--"@) || !assertion_line(nt) {
                e
            } else {
                run_end_from(ls, j)
            }
        }
    }
}

/// Every line of `k ..= e` that is not blank is indented by `fi` bytes and
/// is a comment or an assertion.
pub open spec fn run_valid(ls: Seq<Seq<char>>, k: int, e: int, fi: nat) -> bool
    decreases e - k + 1,
{
    if k > e || k < 0 || e >= ls.len() {
        true
    } else {
        let l = ls[k];
        let t = trim(l);
        (blank(l) || (lead_bytes(l) == fi && (starts_with(t, "--"@) || assertion_line(t)))) && run_valid(
            ls,
            k + 1,
            e,
            fi,
        )
    }
}

/// The number of assertion lines (not comments) in `k ..= e`.
pub open spec fn run_assertions(ls: Seq<Seq<char>>, k: int, e: int) -> nat
    decreases e - k + 1,
{
    if k > e || k < 0 || e >= ls.len() {
        0
    } else {
        let t = trim(ls[k]);
        (if t.len() > 0 && !starts_with(t, "--"@) && assertion_line(t) {
            1nat
        } else {
            0nat
        }) + run_assertions(ls, k + 1, e)
    }
}

/// The last line of `s ..= e` that is not blank (or `s`).
pub open spec fn last_nonblank(ls: Seq<Seq<char>>, s: int, e: int) -> int
    decreases e - s,
{
    if e > s && blank(ls[e]) {
        last_nonblank(ls, s, e - 1)
    } else {
        e
    }
}

/// The leading whitespace of a line.
pub open spec fn lead_ws(l: Seq<char>) -> Seq<char> {
    l.take(l.len() - trim_start(l).len())
}

/// An assertion's text with its spacing normalized.
pub open spec fn spacing_normalized(x: Seq<char>) -> Seq<char> {
    tuples_spaced(tight_ops_from(spaces_collapsed(x), 0, plain(), false))
}

/// `n` spaces.
pub open spec fn spaces(n: nat) -> Seq<char> {
    Seq::new(n, |k: int| ' ')
}

/// The comment lines of a chain, each followed by a newline.
pub open spec fn comments_text(ls: Seq<Seq<char>>, cs: Seq<usize>) -> Seq<char>
    decreases cs.len(),
{
    if cs.len() == 0 {
        Seq::empty()
    } else {
        comments_text(ls, cs.drop_last()) + ls[cs.last() as int] + seq!['\n']
    }
}

/// The trimmed lines `as_`, joined with single spaces.
pub open spec fn joined_trimmed(ls: Seq<Seq<char>>, as_: Seq<usize>) -> Seq<char>
    decreases as_.len(),
{
    if as_.len() == 0 {
        Seq::empty()
    } else if as_.len() == 1 {
        trim(ls[as_[0] as int])
    } else {
        joined_trimmed(ls, as_.drop_last()) + seq![' '] + trim(ls[as_.last() as int])
    }
}

/// Segments after the first, each on a continuation line indented by
/// `fi + 4` spaces.
pub open spec fn continued_segments(segs: Seq<Seq<char>>, fi: nat) -> Seq<char>
    decreases segs.len(),
{
    if segs.len() == 0 {
        Seq::empty()
    } else {
        continued_segments(segs.drop_last(), fi) + seq!['\n'] + spaces(fi + 4) + segs.last()
    }
}

/// The assertions of a chain: one assertion keeps its indent with its text
/// re-spaced; several are joined, re-spaced and cut at their operators.
pub open spec fn assertions_text(ls: Seq<Seq<char>>, as_: Seq<usize>, fi: nat) -> Seq<char> {
    if as_.len() == 1 {
        let l = ls[as_[0] as int];
        lead_ws(l) + spacing_normalized(trim_start(l))
    } else if as_.len() > 1 {
        let segs = chain_split(spacing_normalized(joined_trimmed(ls, as_)));
        lead_ws(ls[as_[0] as int]) + segs[0] + continued_segments(segs.skip(1), fi)
    } else {
        Seq::empty()
    }
}

/// What goes before chain number `ci` of a run that starts at line `i`.
pub open spec fn chain_sep(ci: nat, i: int) -> Seq<char> {
    if ci == 0 && i > 0 {
        seq!['\n']
    } else if ci > 0 {
        seq!['\n', '\n']
    } else {
        Seq::empty()
    }
}

/// A chain: its comments, then its assertions.
pub open spec fn chain_text(ls: Seq<Seq<char>>, cs: Seq<usize>, as_: Seq<usize>, fi: nat) -> Seq<char> {
    comments_text(ls, cs) + assertions_text(ls, as_, fi)
}

/// The chains of an assertion run from line `k` to `e`, with the comments
/// `cs` and assertions `as_` of the chain being gathered; a chain closes at
/// an assertion that does not end in ` ...`.
pub open spec fn chains_from(
    ls: Seq<Seq<char>>,
    k: int,
    e: int,
    cs: Seq<usize>,
    as_: Seq<usize>,
    ci: nat,
    i: int,
    fi: nat,
) -> Seq<char>
    decreases e - k + 1,
{
    if k > e || k < 0 || e >= ls.len() {
        if cs.len() > 0 || as_.len() > 0 {
            chain_sep(ci, i) + chain_text(ls, cs, as_, fi)
        } else {
            Seq::empty()
        }
    } else {
        let t = trim(ls[k]);
        if t.len() == 0 {
            chains_from(ls, k + 1, e, cs, as_, ci, i, fi)
        } else if starts_with(t, "--"@) {
            chains_from(ls, k + 1, e, cs.push(k as usize), as_, ci, i, fi)
        } else if !ends_with(t, " ..."@) {
            chain_sep(ci, i) + chain_text(ls, cs, as_.push(k as usize), fi) + chains_from(
                ls,
                k + 1,
                e,
                Seq::empty(),
                Seq::empty(),
                ci + 1,
                i,
                fi,
            )
        } else {
            chains_from(ls, k + 1, e, cs, as_.push(k as usize), ci, i, fi)
        }
    }
}

/// Lines `i ..= e` as they are, after a newline unless at the start.
pub open spec fn verbatim(ls: Seq<Seq<char>>, i: int, e: int) -> Seq<char> {
    (if i > 0 {
        seq!['\n']
    } else {
        Seq::empty()
    }) + join_lines(ls.subrange(i, e + 1))
}

/// The output of the assertion transform from line `i` on.
pub open spec fn assertion_blocks_from(ls: Seq<Seq<char>>, i: int) -> Seq<char>
    decreases ls.len() - i,
{
    if i < 0 || i >= ls.len() {
        Seq::empty()
    } else if blank(ls[i]) {
        (if i > 0 {
            seq!['\n']
        } else {
            Seq::empty()
        }) + ls[i] + assertion_blocks_from(ls, i + 1)
    } else {
        let e = run_end_from(ls, i);
        proof {
            lemma_run_end(ls, i);
        }
        let fi = lead_bytes(ls[i]);
        let t_last = trim(ls[e]);
        let is_run = run_valid(ls, i, e, fi) && run_assertions(ls, i, e) >= 1 && !starts_with(t_last, "--"@)
            && assertion_line(t_last);
        let dots = ends_with(trim(ls[last_nonblank(ls, i, e)]), " ..."@);
        let piece = if is_run && !dots {
            chains_from(ls, i, e, Seq::empty(), Seq::empty(), 0, i, fi)
        } else {
            verbatim(ls, i, e)
        };
        piece + assertion_blocks_from(ls, e + 1)
    }
}

/// The block after the assertion transform: unchanged (joined) when it
/// holds anything but example lines, otherwise with its assertions
/// re-printed.
pub open spec fn assertion_paragraphs(ls: Seq<Seq<char>>) -> Seq<char> {
    let m = dots_merged_from(ls, 0, Seq::empty());
    if non_assertion_from(m, 0, false) {
        join_lines(m)
    } else {
        assertion_blocks_from(m, 0)
    }
}

/// The views of a vector of lines.
pub open spec fn lines_view(ls: Seq<Vec<char>>) -> Seq<Seq<char>> {
    ls.map_values(|l: Vec<char>| l@)
}

pub fn is_blank_line(l: &Vec<char>) -> (r: bool)
    ensures
        r == blank(l@),
{
    trimmed(l).len() == 0
}

fn copy_line(l: &Vec<char>) -> (r: Vec<char>)
    ensures
        r@ == l@,
{
    let r = chars_range(l, 0, l.len());
    assert(r@ =~= l@);
    r
}


pub fn next_nonblank_line(ls: &Vec<Vec<char>>, j: usize) -> (r: usize)
    requires
        j <= ls@.len(),
    ensures
        r == next_nonblank(lines_view(ls@), j as int),
        j <= r <= ls@.len(),
{
    let ghost v = lines_view(ls@);
    let mut k = j;
    while k < ls.len() && is_blank_line(&ls[k])
        invariant
            j <= k <= ls@.len(),
            v == lines_view(ls@),
            next_nonblank(v, j as int) == next_nonblank(v, k as int),
        decreases ls@.len() - k,
    {
        assert(v[k as int] == ls@[k as int]@);
        k = k + 1;
    }
    proof {
        if k < ls@.len() {
            assert(v[k as int] == ls@[k as int]@);
        }
    }
    k
}

/// Merge each standalone `...` line into the assertion before it.
fn merge_dots(block: &Vec<Vec<char>>) -> (r: Vec<Vec<char>>)
    ensures
        lines_view(r@) == dots_merged_from(lines_view(block@), 0, Seq::empty()),
{
    let ghost ls = lines_view(block@);
    let n = block.len();
    let mut out: Vec<Vec<char>> = Vec::new();
    let mut i: usize = 0;
    assert(lines_view(out@) =~= Seq::<Seq<char>>::empty());
    while i < n
        invariant
            i <= n,
            n == ls.len(),
            ls == lines_view(block@),
            dots_merged_from(ls, i as int, lines_view(out@)) == dots_merged_from(ls, 0, Seq::empty()),
        decreases n - i,
    {
        let ghost ov = lines_view(out@);
        let ghost i0 = i as int;
        let line = &block[i];
        assert(ls[i as int] == line@);
        let t = trimmed(line);
        let dots = crate::text::chars_of("...");
        let mut merged = false;
        if crate::text::chars_eq(&t, &dots) && out.len() > 0 {
            let mut li = out.len();
            assert(ov.take(li as int) =~= ov);
            while li > 0 && is_blank_line(&out[li - 1])
                invariant
                    li <= out@.len(),
                    ov == lines_view(out@),
                    nonblank_end(ov) == nonblank_end(ov.take(li as int)),
                decreases li,
            {
                assert(ov[li - 1] == out@[li - 1]@);
                assert(ov.take(li as int).drop_last() =~= ov.take(li - 1));
                li = li - 1;
            }
            proof {
                if li > 0 {
                    assert(ov[li - 1] == out@[li - 1]@);
                }
                assert(nonblank_end(ov.take(li as int)) == li);
            }
            if li > 0 {
                let last = &out[li - 1];
                assert(ov[li - 1] == last@);
                let lt = trimmed(last);
                if lt.len() > 0 && !starts_with_str(&lt, "--") && !ends_with_str(&lt, " ...") {
                    let mut nl = trimmed_end(last);
                    let tail = crate::text::chars_of(" ...");
                    push_all(&mut nl, &tail);
                    assert(forall|q: int| 0 <= q < li ==> (#[trigger] out@[q])@ == ov[q]);
                    while out.len() > li
                        invariant
                            li <= out@.len(),
                            forall|q: int| 0 <= q < li ==> (#[trigger] out@[q])@ == ov[q],
                        decreases out@.len(),
                    {
                        out.pop();
                    }
                    out.set(li - 1, nl);
                    proof {
                        assert(lines_view(out@) =~= ov.take(li as int).update(li - 1, trim_end(ov[li - 1]) + " ..."@));
                    }
                    i = next_nonblank_line(block, i + 1);
                    merged = true;
                }
            }
        }
        if !merged {
            out.push(copy_line(line));
            i = i + 1;
            proof {
                assert(lines_view(out@) =~= ov.push(ls[i0]));
            }
        }
    }
    out
}

/// Whether a doc code block holds something other than example lines: an
/// import or module line, a line that is not an assertion, or a standalone
/// comment paragraph after an assertion.
pub fn block_has_non_assertion_content(ls: &Vec<Vec<char>>) -> (r: bool)
    ensures
        r == non_assertion_from(lines_view(ls@), 0, false),
{
    let ghost v = lines_view(ls@);
    let n = ls.len();
    let mut seen = false;
    let mut i: usize = 0;
    while i < n
        invariant
            i <= n,
            n == v.len(),
            v == lines_view(ls@),
            non_assertion_from(v, 0, false) == non_assertion_from(v, i as int, seen),
        decreases n - i,
    {
        let line = &ls[i];
        assert(v[i as int] == line@);
        let t = trimmed(line);
        if t.len() == 0 {
            i = i + 1;
            continue;
        }
        if starts_with_str(&t, "import ") || starts_with_str(&t, "module ") {
            return true;
        }
        if starts_with_str(&t, "--") {
            let prev_blank = i == 0 || is_blank_line(&ls[i - 1]);
            let next_blank = i + 1 >= n || is_blank_line(&ls[i + 1]);
            proof {
                if i > 0 {
                    assert(v[i - 1] == ls@[i - 1]@);
                }
                if i + 1 < n {
                    assert(v[i + 1] == ls@[i + 1]@);
                }
            }
            if seen && prev_blank && next_blank {
                return true;
            }
            i = i + 1;
            continue;
        }
        if looks_like_assertion(&t) {
            seen = true;
            i = i + 1;
            continue;
        }
        return true;
    }
    false
}

fn run_end(ls: &Vec<Vec<char>>, i: usize) -> (r: usize)
    requires
        i < ls@.len(),
    ensures
        r == run_end_from(lines_view(ls@), i as int),
{
    let ghost v = lines_view(ls@);
    let n = ls.len();
    let mut e = i;
    while e + 1 < n
        invariant
            i <= e < n,
            n == v.len(),
            v == lines_view(ls@),
            run_end_from(v, i as int) == run_end_from(v, e as int),
        decreases n - e,
    {
        let next = e + 1;
        assert(v[next as int] == ls@[next as int]@);
        assert(v[e as int] == ls@[e as int]@);
        if !is_blank_line(&ls[next]) {
            e = next;
            continue;
        }
        let te = trimmed(&ls[e]);
        if !ends_with_str(&te, " ...") {
            return e;
        }
        let j = next_nonblank_line(ls, next);
        if j >= n {
            return e;
        }
        assert(v[j as int] == ls@[j as int]@);
        let nt = trimmed(&ls[j]);
        if starts_with_str(&nt, "--") || !looks_like_assertion(&nt) {
            return e;
        }
        e = j;
    }
    e
}

proof fn lemma_utf8_take(s: Seq<char>, k: int)
    requires
        0 <= k < s.len(),
    ensures
        utf8_len(s.take(k + 1)) == utf8_len(s.take(k)) + utf8_width(s[k]),
        utf8_width(s[k]) <= 4,
{
    assert(s.take(k + 1).drop_last() =~= s.take(k));
    assert(s.take(k + 1).last() == s[k]);
}

/// The number of bytes of a line's leading whitespace.
pub fn lead_byte_count(l: &Vec<char>) -> (r: u128)
    ensures
        r == lead_bytes(l@),
        r <= 4 * l@.len(),
{
    let t = trim_start_chars(l);
    proof {
        crate::text::lemma_trim_start_suffix(l@);
    }
    let m = l.len() - t.len();
    let mut sum: u128 = 0;
    let mut k: usize = 0;
    while k < m
        invariant
            k <= m,
            m <= l@.len(),
            m == l@.len() - trim_start(l@).len(),
            sum == utf8_len(l@.take(k as int)),
            sum <= 4 * k,
        decreases m - k,
    {
        let c = l[k];
        let w: u128 = if (c as u32) < 0x80 {
            1
        } else if (c as u32) < 0x800 {
            2
        } else if (c as u32) < 0x10000 {
            3
        } else {
            4
        };
        proof {
            lemma_utf8_take(l@, k as int);
        }
        sum = sum + w;
        k = k + 1;
    }
    sum
}

/// Whether lines `i ..= e` form a valid assertion run with at least one
/// assertion (the last line is checked by the caller).
fn run_ok(ls: &Vec<Vec<char>>, i: usize, e: usize, fi: u128) -> (r: bool)
    requires
        i <= e < ls@.len(),
    ensures
        r == (run_valid(lines_view(ls@), i as int, e as int, fi as nat) && run_assertions(
            lines_view(ls@),
            i as int,
            e as int,
        ) >= 1),
{
    let ghost v = lines_view(ls@);
    let n = ls.len();
    let mut count: usize = 0;
    let mut k = i;
    while k <= e
        invariant
            i <= k <= e + 1,
            e < n,
            n == ls@.len(),
            v == lines_view(ls@),
            run_valid(v, i as int, e as int, fi as nat) == run_valid(v, k as int, e as int, fi as nat),
            run_assertions(v, i as int, e as int) == count + run_assertions(v, k as int, e as int),
            count <= k - i,
        decreases e + 1 - k,
    {
        let l = &ls[k];
        assert(v[k as int] == l@);
        let t = trimmed(l);
        if t.len() == 0 {
            k = k + 1;
            continue;
        }
        if lead_byte_count(l) != fi {
            return false;
        }
        let is_comment = starts_with_str(&t, "--");
        let is_assertion = looks_like_assertion(&t);
        if !is_comment && !is_assertion {
            return false;
        }
        if !is_comment && is_assertion {
            count = count + 1;
        }
        k = k + 1;
    }
    count >= 1
}

fn last_nonblank_idx(ls: &Vec<Vec<char>>, s: usize, e: usize) -> (r: usize)
    requires
        s <= e < ls@.len(),
    ensures
        r == last_nonblank(lines_view(ls@), s as int, e as int),
        s <= r <= e,
{
    let ghost v = lines_view(ls@);
    let mut idx = e;
    while idx > s && is_blank_line(&ls[idx])
        invariant
            s <= idx <= e,
            e < ls@.len(),
            v == lines_view(ls@),
            last_nonblank(v, s as int, e as int) == last_nonblank(v, s as int, idx as int),
        decreases idx,
    {
        assert(v[idx as int] == ls@[idx as int]@);
        idx = idx - 1;
    }
    proof {
        assert(v[idx as int] == ls@[idx as int]@);
    }
    idx
}

fn emit_verbatim(ls: &Vec<Vec<char>>, i: usize, e: usize, out: &mut Vec<char>)
    requires
        i <= e < ls@.len(),
    ensures
        final(out)@ == old(out)@ + verbatim(lines_view(ls@), i as int, e as int),
{
    let ghost v = lines_view(ls@);
    if i > 0 {
        out.push('\n');
    }
    let ghost base = out@;
    let n = ls.len();
    let mut k = i;
    while k <= e
        invariant
            i <= k <= e + 1,
            e < n,
            n == ls@.len(),
            v == lines_view(ls@),
            out@ == base + join_lines(v.subrange(i as int, k as int)),
        decreases e + 1 - k,
    {
        if k > i {
            out.push('\n');
        }
        push_all(out, &ls[k]);
        proof {
            let t = v.subrange(i as int, k + 1);
            assert(t.drop_last() =~= v.subrange(i as int, k as int));
            assert(t.last() == ls@[k as int]@);
            if k == i {
                assert(join_lines(v.subrange(i as int, k as int)) =~= Seq::<char>::empty());
                assert(out@ =~= base + join_lines(t));
            } else {
                assert(out@ =~= base + join_lines(t));
            }
        }
        k = k + 1;
    }
}

/// An assertion's text with its spacing normalized.
fn normalize_spacing(x: &Vec<char>) -> (r: Vec<char>)
    ensures
        r@ == spacing_normalized(x@),
{
    let a = collapse_spaces_outside_strings(x);
    let b = space_tight_binary_ops(&a);
    space_tight_tuples_lists(&b)
}

fn emit_chain(ls: &Vec<Vec<char>>, cs: &Vec<usize>, as_: &Vec<usize>, fi: u128, out: &mut Vec<char>)
    requires
        forall|q: int| 0 <= q < cs@.len() ==> #[trigger] cs@[q] < ls@.len(),
        forall|q: int| 0 <= q < as_@.len() ==> #[trigger] as_@[q] < ls@.len(),
        fi <= 4 * usize::MAX,
    ensures
        final(out)@ == old(out)@ + chain_text(lines_view(ls@), cs@, as_@, fi as nat),
{
    let ghost v = lines_view(ls@);
    let mut q: usize = 0;
    while q < cs.len()
        invariant
            q <= cs@.len(),
            v == lines_view(ls@),
            forall|p: int| 0 <= p < cs@.len() ==> #[trigger] cs@[p] < ls@.len(),
            out@ == old(out)@ + comments_text(v, cs@.take(q as int)),
        decreases cs@.len() - q,
    {
        let c = cs[q];
        push_all(out, &ls[c]);
        out.push('\n');
        proof {
            let t = cs@.take(q + 1);
            assert(t.drop_last() =~= cs@.take(q as int));
            assert(t.last() == c);
            assert(v[c as int] == ls@[c as int]@);
            assert(out@ =~= old(out)@ + comments_text(v, t));
        }
        q = q + 1;
    }
    assert(cs@.take(q as int) =~= cs@);
    let ghost mid = out@;
    if as_.len() == 1 {
        let l = &ls[as_[0]];
        assert(v[as_@[0] as int] == l@);
        let t = trim_start_chars(l);
        proof {
            crate::text::lemma_trim_start_suffix(l@);
        }
        let lead = chars_range(l, 0, l.len() - t.len());
        push_all(out, &lead);
        let norm = normalize_spacing(&t);
        push_all(out, &norm);
        assert(out@ =~= mid + assertions_text(v, as_@, fi as nat));
    } else if as_.len() > 1 {
        let mut joined: Vec<char> = Vec::new();
        let mut q: usize = 0;
        while q < as_.len()
            invariant
                q <= as_@.len(),
                v == lines_view(ls@),
                forall|p: int| 0 <= p < as_@.len() ==> #[trigger] as_@[p] < ls@.len(),
                joined@ == joined_trimmed(v, as_@.take(q as int)),
            decreases as_@.len() - q,
        {
            let a = as_[q];
            assert(v[a as int] == ls@[a as int]@);
            let t = trimmed(&ls[a]);
            if q > 0 {
                joined.push(' ');
            }
            push_all(&mut joined, &t);
            proof {
                let tk = as_@.take(q + 1);
                assert(tk.drop_last() =~= as_@.take(q as int));
                assert(tk.last() == a);
                if q == 0 {
                    assert(tk.len() == 1 && tk[0] == a);
                    assert(joined@ =~= joined_trimmed(v, tk));
                } else {
                    assert(joined@ =~= joined_trimmed(v, tk));
                }
            }
            q = q + 1;
        }
        assert(as_@.take(q as int) =~= as_@);
        let norm = normalize_spacing(&joined);
        let segs = split_at_chain_operators(&norm);
        let ghost sv = segs@.map_values(|x: Vec<char>| x@);
        assert(sv.len() >= 1);
        let first_line = &ls[as_[0]];
        assert(v[as_@[0] as int] == first_line@);
        let t0 = trim_start_chars(first_line);
        proof {
            crate::text::lemma_trim_start_suffix(first_line@);
        }
        let lead = chars_range(first_line, 0, first_line.len() - t0.len());
        push_all(out, &lead);
        push_all(out, &segs[0]);
        assert(sv[0] == segs@[0]@);
        let ghost head = out@;
        assert(sv.subrange(1, 1) =~= Seq::<Seq<char>>::empty());
        let mut k: usize = 1;
        while k < segs.len()
            invariant
                1 <= k <= segs@.len(),
                sv == segs@.map_values(|x: Vec<char>| x@),
                fi <= 4 * usize::MAX,
                out@ == head + continued_segments(sv.subrange(1, k as int), fi as nat),
            decreases segs@.len() - k,
        {
            out.push('\n');
            let mut w: u128 = 0;
            while w < fi + 4
                invariant
                    w <= fi + 4,
                    fi <= 4 * usize::MAX,
                    out@ == head + continued_segments(sv.subrange(1, k as int), fi as nat) + seq!['\n'] + spaces(
                        w as nat,
                    ),
                decreases fi + 4 - w,
            {
                out.push(' ');
                w = w + 1;
                assert(out@ =~= head + continued_segments(sv.subrange(1, k as int), fi as nat) + seq!['\n']
                    + spaces(w as nat));
            }
            push_all(out, &segs[k]);
            proof {
                let t = sv.subrange(1, k + 1);
                assert(t.drop_last() =~= sv.subrange(1, k as int));
                assert(t.last() == segs@[k as int]@);
                assert(out@ =~= head + continued_segments(t, fi as nat));
            }
            k = k + 1;
        }
        assert(sv.subrange(1, k as int) =~= sv.skip(1));
        assert(out@ =~= mid + assertions_text(v, as_@, fi as nat));
    } else {
        assert(out@ =~= mid + assertions_text(v, as_@, fi as nat));
    }
}

fn emit_chains(ls: &Vec<Vec<char>>, i: usize, e: usize, fi: u128, out: &mut Vec<char>)
    requires
        i <= e < ls@.len(),
        fi <= 4 * usize::MAX,
    ensures
        final(out)@ == old(out)@ + chains_from(
            lines_view(ls@),
            i as int,
            e as int,
            Seq::empty(),
            Seq::empty(),
            0,
            i as int,
            fi as nat,
        ),
{
    let ghost v = lines_view(ls@);
    let mut cs: Vec<usize> = Vec::new();
    let mut as_: Vec<usize> = Vec::new();
    let mut ci: usize = 0;
    let n = ls.len();
    let mut k = i;
    assert(cs@ =~= Seq::<usize>::empty());
    assert(as_@ =~= Seq::<usize>::empty());
    while k <= e
        invariant
            i <= k <= e + 1,
            e < n,
            n == ls@.len(),
            ci <= k - i,
            fi <= 4 * usize::MAX,
            v == lines_view(ls@),
            forall|q: int| 0 <= q < cs@.len() ==> #[trigger] cs@[q] < ls@.len(),
            forall|q: int| 0 <= q < as_@.len() ==> #[trigger] as_@[q] < ls@.len(),
            old(out)@ + chains_from(v, i as int, e as int, Seq::empty(), Seq::empty(), 0, i as int, fi as nat)
                == out@ + chains_from(v, k as int, e as int, cs@, as_@, ci as nat, i as int, fi as nat),
        decreases e + 1 - k,
    {
        let ghost o0 = out@;
        let l = &ls[k];
        assert(v[k as int] == l@);
        let t = trimmed(l);
        if t.len() == 0 {
        } else if starts_with_str(&t, "--") {
            cs.push(k);
        } else if !ends_with_str(&t, " ...") {
            as_.push(k);
            if ci == 0 && i > 0 {
                out.push('\n');
            } else if ci > 0 {
                out.push('\n');
                out.push('\n');
            }
            assert(out@ =~= o0 + chain_sep(ci as nat, i as int));
            emit_chain(ls, &cs, &as_, fi, out);
            assert(out@ =~= o0 + chain_sep(ci as nat, i as int) + chain_text(v, cs@, as_@, fi as nat));
            cs = Vec::new();
            as_ = Vec::new();
            ci = ci + 1;
            assert(cs@ =~= Seq::<usize>::empty());
            assert(as_@ =~= Seq::<usize>::empty());
        } else {
            as_.push(k);
        }
        k = k + 1;
    }
    if cs.len() > 0 || as_.len() > 0 {
        let ghost o0 = out@;
        if ci == 0 && i > 0 {
            out.push('\n');
        } else if ci > 0 {
            out.push('\n');
            out.push('\n');
        }
        assert(out@ =~= o0 + chain_sep(ci as nat, i as int));
        emit_chain(ls, &cs, &as_, fi, out);
    }
}

/// Re-print the assertion lines of a doc code block as elm-format does:
/// a standalone `...` line joins the assertion before it; each `expr ==
/// value` becomes its own paragraph with its spacing normalized; a chain
/// continued by ` ...` is cut at its operators onto indented lines. A
/// block holding anything but example lines is left as it is.
pub fn transform_assertion_paragraphs(block: &Vec<Vec<char>>) -> (r: Vec<char>)
    ensures
        r@ == assertion_paragraphs(lines_view(block@)),
{
    let m = merge_dots(block);
    let ghost v = lines_view(m@);
    if block_has_non_assertion_content(&m) {
        return join_with_newlines(&m);
    }
    let n = m.len();
    let mut out: Vec<char> = Vec::new();
    let mut i: usize = 0;
    while i < n
        invariant
            i <= n,
            n == v.len(),
            v == lines_view(m@),
            out@ + assertion_blocks_from(v, i as int) == assertion_blocks_from(v, 0),
        decreases n - i,
    {
        let ghost o0 = out@;
        let ghost i0 = i as int;
        let line = &m[i];
        assert(v[i as int] == line@);
        if is_blank_line(line) {
            if i > 0 {
                out.push('\n');
            }
            push_all(&mut out, line);
            i = i + 1;
            assert(out@ + assertion_blocks_from(v, i as int) =~= o0 + assertion_blocks_from(v, i0));
            continue;
        }
        let e = run_end(&m, i);
        proof {
            lemma_run_end(v, i as int);
        }
        let fi = lead_byte_count(line);
        let ll = line.len();
        assert(fi <= 4 * usize::MAX);
        assert(m@[e as int]@ == v[e as int]);
        let t_last = trimmed(&m[e]);
        let is_run = run_ok(&m, i, e, fi) && !starts_with_str(&t_last, "--") && looks_like_assertion(&t_last);
        let lnb = last_nonblank_idx(&m, i, e);
        assert(m@[lnb as int]@ == v[lnb as int]);
        let tl = trimmed(&m[lnb]);
        let dots = ends_with_str(&tl, " ...");
        if is_run && !dots {
            emit_chains(&m, i, e, fi, &mut out);
        } else {
            emit_verbatim(&m, i, e, &mut out);
        }
        i = e + 1;
        assert(out@ + assertion_blocks_from(v, i as int) =~= o0 + assertion_blocks_from(v, i0));
    }
    out
}

pub proof fn lemma_next_nonblank(ls: Seq<Seq<char>>, j: int)
    requires
        0 <= j,
    ensures
        j <= next_nonblank(ls, j),
        next_nonblank(ls, j) < ls.len() ==> !blank(ls[next_nonblank(ls, j)]),
        j <= ls.len() ==> next_nonblank(ls, j) <= ls.len(),
        forall|k: int| j <= k < next_nonblank(ls, j) ==> blank(#[trigger] ls[k]),
    decreases ls.len() - j,
{
    if j < ls.len() && blank(ls[j]) {
        lemma_next_nonblank(ls, j + 1);
    }
}

pub proof fn lemma_run_end(ls: Seq<Seq<char>>, e: int)
    requires
        0 <= e < ls.len(),
    ensures
        e <= run_end_from(ls, e) < ls.len(),
        !blank(ls[e]) ==> !blank(ls[run_end_from(ls, e)]),
    decreases ls.len() - e,
{
    let next = e + 1;
    if next < ls.len() {
        if !blank(ls[next]) {
            lemma_run_end(ls, next);
        } else if ends_with(trim(ls[e]), " ..."@) {
            lemma_next_nonblank(ls, next);
            let j = next_nonblank(ls, next);
            if j < ls.len() {
                let nt = trim(ls[j]);
                if !(starts_with(nt, "--"@) || !assertion_line(nt)) {
                    lemma_run_end(ls, j);
                }
            }
        }
    }
}

proof fn lemma_nonblank_end(out: Seq<Seq<char>>)
    ensures
        0 <= nonblank_end(out) <= out.len(),
        nonblank_end(out) > 0 ==> !blank(out[nonblank_end(out) - 1]),
        forall|k: int| nonblank_end(out) <= k < out.len() ==> blank(#[trigger] out[k]),
    decreases out.len(),
{
    if out.len() > 0 && blank(out.last()) {
        lemma_nonblank_end(out.drop_last());
        assert forall|k: int| nonblank_end(out) <= k < out.len() implies blank(#[trigger] out[k]) by {
            if k < out.len() - 1 {
                assert(out[k] == out.drop_last()[k]);
            }
        }
    }
}

proof fn lemma_last_nonblank(ls: Seq<Seq<char>>, s: int, e: int)
    requires
        s <= e,
    ensures
        s <= last_nonblank(ls, s, e) <= e,
    decreases e - s,
{
    if e > s && blank(ls[e]) {
        lemma_last_nonblank(ls, s, e - 1);
    }
}

} // verus!
