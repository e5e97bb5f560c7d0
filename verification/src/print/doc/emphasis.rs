//! Emphasis and code spans in doc comments: `*text*` becomes `_text_`, a
//! lone `*` is escaped, a leading `* ` bullet becomes `- `, and backticks
//! with no matching closer are escaped. Code spans, fenced and indented code
//! blocks, `**bold**` runs and `@docs` lines are left as they are.

use vstd::prelude::*;

use super::lines::{starts_with, starts_with_str};
use crate::text::{chars_of, chars_range, string_of};

verus! {

/// The scanner's state between two characters.
#[derive(Clone, Copy)]
pub struct EmphasisScan {
    pub at_line_start: bool,
    pub line_indent: usize,
    pub in_docs_line: bool,
    pub prev_line_blank: bool,
    pub has_content: bool,
    pub in_code_block: bool,
}

/// The state at the start of the text.
pub open spec fn scan_start() -> EmphasisScan {
    EmphasisScan {
        at_line_start: true,
        line_indent: 0,
        in_docs_line: false,
        prev_line_blank: false,
        has_content: false,
        in_code_block: false,
    }
}

/// The number of consecutive `c` in `s` from `i`.
pub open spec fn run_of(s: Seq<char>, i: int, c: char) -> nat
    decreases s.len() - i,
{
    if 0 <= i < s.len() && s[i] == c {
        1 + run_of(s, i + 1, c)
    } else {
        0
    }
}

/// The index of the first newline at or after `i`, or the length.
pub open spec fn next_nl(s: Seq<char>, i: int) -> int
    decreases s.len() - i,
{
    if i < 0 || i >= s.len() {
        s.len() as int
    } else if s[i] == '\n' {
        i
    } else {
        next_nl(s, i + 1)
    }
}

/// A blank line starts at `q`: spaces, then a newline or the end.
pub open spec fn blank_from(s: Seq<char>, q: int) -> bool {
    let w = q + run_of(s, q, ' ');
    w >= s.len() || s[w] == '\n'
}

/// Where the search for the closer of a multi-backtick code span stops:
/// at the newline before a blank line, or at the end of the text.
pub open spec fn span_limit(s: Seq<char>, k: int) -> int
    decreases s.len() - k,
{
    if k < 0 || k >= s.len() {
        s.len() as int
    } else if s[k] == '\n' {
        if k + 1 >= s.len() {
            s.len() as int
        } else if blank_from(s, k + 1) {
            k
        } else {
            span_limit(s, k + 1)
        }
    } else {
        span_limit(s, k + 1)
    }
}

/// The start of the first run of exactly `n` backticks that begins in
/// `k .. e`.
pub open spec fn closing_run(s: Seq<char>, k: int, e: int, n: nat) -> Option<int>
    decreases s.len() - k,
{
    if k < 0 || k >= e || k >= s.len() {
        None
    } else if s[k] == '`' {
        let cc = run_of(s, k, '`');
        proof {
            assert(cc == 1 + run_of(s, k + 1, '`'));
            lemma_run_of(s, k, '`');
        }
        if cc == n {
            Some(k)
        } else {
            closing_run(s, k + cc, e, n)
        }
    } else {
        closing_run(s, k + 1, e, n)
    }
}

/// The rest of the line from `q` holds only spaces and tabs.
pub open spec fn blank_to_eol(s: Seq<char>, q: int) -> bool
    decreases s.len() - q,
{
    if q < 0 || q >= s.len() || s[q] == '\n' {
        true
    } else if s[q] == ' ' || s[q] == '\t' {
        blank_to_eol(s, q + 1)
    } else {
        false
    }
}

/// The body of a fenced block opened by `n` backticks, copied from `p`:
/// the text and where scanning resumes. A line that starts with at least
/// `n` backticks and then holds only spaces and tabs closes the block; it
/// is copied without its newline.
pub open spec fn fence_body(s: Seq<char>, p: int, n: nat) -> (Seq<char>, int)
    decreases s.len() - p,
{
    if p < 0 || p >= s.len() {
        (Seq::empty(), p)
    } else {
        let bc = run_of(s, p, '`');
        if bc >= n && blank_to_eol(s, p + bc) {
            let j = next_nl(s, p + bc);
            (s.subrange(p, j), j)
        } else {
            let nl = next_nl(s, p);
            let q = if nl < s.len() {
                nl + 1
            } else {
                s.len() as int
            };
            proof {
                lemma_next_nl(s, p);
            }
            let rest = fence_body(s, q, n);
            (s.subrange(p, q) + rest.0, rest.1)
        }
    }
}

/// The inside of a `**bold**` run, copied from `p`: the text, where
/// scanning resumes, and whether a newline ended the run.
pub open spec fn bold_body(s: Seq<char>, p: int) -> (Seq<char>, int, bool)
    decreases s.len() - p,
{
    if p < 0 || p >= s.len() {
        (Seq::empty(), p, false)
    } else if s[p] == '*' && p + 1 < s.len() && s[p + 1] == '*' {
        (seq!['*', '*'], p + 2, false)
    } else if s[p] == '\n' {
        (seq!['\n'], p + 1, true)
    } else {
        let r = bold_body(s, p + 1);
        (seq![s[p]] + r.0, r.1, r.2)
    }
}

/// The `*` that closes an emphasis whose text starts at `start`, searching
/// from `k` on the same line: a `*` after `start` not preceded by a space.
pub open spec fn emphasis_close(s: Seq<char>, start: int, k: int) -> Option<int>
    decreases s.len() - k,
{
    if k < 0 || k >= s.len() {
        None
    } else if s[k] == '*' && k > start && s[k - 1] != ' ' {
        Some(k)
    } else if s[k] == '\n' {
        None
    } else {
        emphasis_close(s, start, k + 1)
    }
}

/// `n` escaped backticks.
pub open spec fn escaped_ticks(n: nat) -> Seq<char>
    decreases n,
{
    if n == 0 {
        Seq::empty()
    } else {
        escaped_ticks((n - 1) as nat) + seq!['\\', '`']
    }
}

/// A run of backticks at `i`: a fence at the start of a line (three or
/// more) is copied with its block; a code span with a matching closer is
/// copied; otherwise each backtick is escaped. The output and where
/// scanning resumes.
pub open spec fn tick_step(s: Seq<char>, i: int) -> (Seq<char>, int) {
    let n = run_of(s, i, '`');
    if n >= 3 && (i == 0 || s[i - 1] == '\n') {
        let le = next_nl(s, i);
        if le < s.len() {
            let f = fence_body(s, le + 1, n);
            (s.subrange(i, le) + seq!['\n'] + f.0, f.1)
        } else {
            (s.subrange(i, le), le)
        }
    } else {
        let after = i + n;
        let lim = if n == 1 {
            next_nl(s, after)
        } else {
            span_limit(s, after)
        };
        match closing_run(s, after, lim, n) {
            Some(k) => (s.subrange(i, k + n), k + n),
            None => (escaped_ticks(n), after),
        }
    }
}

/// A `*` at `i`: `**` opens a bold run copied as it is; `*text*` on one
/// line becomes `_text_`; any other `*` is escaped unless a backslash
/// precedes it.
pub open spec fn star_step(s: Seq<char>, i: int, st: EmphasisScan) -> (Seq<char>, int, EmphasisScan) {
    if i + 1 < s.len() && s[i + 1] == '*' {
        let b = bold_body(s, i + 2);
        let st2 = if b.2 {
            EmphasisScan {
                at_line_start: true,
                line_indent: 0,
                in_docs_line: st.in_docs_line,
                prev_line_blank: st.prev_line_blank,
                has_content: st.has_content,
                in_code_block: st.in_code_block,
            }
        } else {
            st
        };
        (seq!['*', '*'] + b.0, b.1, st2)
    } else {
        let close = if i + 1 < s.len() && s[i + 1] != ' ' && s[i + 1] != '\n' {
            emphasis_close(s, i + 1, i + 1)
        } else {
            None
        };
        match close {
            Some(e) => (seq!['_'] + s.subrange(i + 1, e) + seq!['_'], e + 1, st),
            None => if i > 0 && s[i - 1] == '\\' {
                (seq!['*'], i + 1, st)
            } else {
                (seq!['\\', '*'], i + 1, st)
            },
        }
    }
}

/// The state once the first character of a line other than a space is
/// reached at `i`: a line indented by four or more spaces continues a code
/// block, or opens one after a blank line; a line starting with `@docs`
/// is left alone.
pub open spec fn entered_line(s: Seq<char>, i: int, st: EmphasisScan) -> EmphasisScan {
    EmphasisScan {
        at_line_start: false,
        line_indent: st.line_indent,
        in_docs_line: st.in_docs_line || starts_with(s.skip(i), "@docs"@),
        prev_line_blank: st.prev_line_blank,
        has_content: true,
        in_code_block: if st.line_indent >= 4 {
            st.in_code_block || st.prev_line_blank
        } else {
            false
        },
    }
}

/// One step of the scan at `i`: the output, where scanning resumes, and
/// the new state.
pub open spec fn emph_step(s: Seq<char>, i: int, st: EmphasisScan) -> (Seq<char>, int, EmphasisScan) {
    let c = s[i];
    if (c as u32) > 127 {
        (
            seq![c],
            i + 1,
            EmphasisScan {
                at_line_start: false,
                line_indent: st.line_indent,
                in_docs_line: st.in_docs_line,
                prev_line_blank: st.prev_line_blank,
                has_content: st.has_content,
                in_code_block: st.in_code_block,
            },
        )
    } else if c == '\n' {
        (
            seq!['\n'],
            i + 1,
            EmphasisScan {
                at_line_start: true,
                line_indent: 0,
                in_docs_line: false,
                prev_line_blank: !st.has_content,
                has_content: false,
                in_code_block: st.in_code_block,
            },
        )
    } else if st.at_line_start && c == ' ' {
        (
            seq![' '],
            i + 1,
            EmphasisScan {
                at_line_start: true,
                line_indent: (st.line_indent + 1) as usize,
                in_docs_line: st.in_docs_line,
                prev_line_blank: st.prev_line_blank,
                has_content: st.has_content,
                in_code_block: st.in_code_block,
            },
        )
    } else if st.at_line_start {
        let st2 = entered_line(s, i, st);
        if !st2.in_code_block && c == '*' && i + 1 < s.len() && s[i + 1] == ' ' {
            (seq!['-'], i + 1, st2)
        } else {
            (Seq::empty(), i, st2)
        }
    } else if st.in_docs_line || st.in_code_block {
        (seq![c], i + 1, st)
    } else if c == '`' {
        let t = tick_step(s, i);
        (t.0, t.1, st)
    } else if c == '*' {
        star_step(s, i, st)
    } else {
        (seq![c], i + 1, st)
    }
}

/// The output of the scan from `i` in state `st`.
pub open spec fn emph_from(s: Seq<char>, i: int, st: EmphasisScan) -> Seq<char>
    decreases s.len() - i, if st.at_line_start {
        1int
    } else {
        0int
    },
{
    if i < 0 || i >= s.len() {
        Seq::empty()
    } else {
        let r = emph_step(s, i, st);
        proof {
            lemma_step_progress(s, i, st);
        }
        r.0 + emph_from(s, r.1, r.2)
    }
}

/// The doc text with its emphasis normalized.
pub open spec fn emphasis_normalized(t: Seq<char>) -> Seq<char> {
    emph_from(t, 0, scan_start())
}

fn push_range(out: &mut Vec<char>, s: &Vec<char>, from: usize, to: usize)
    requires
        from <= to <= s@.len(),
    ensures
        final(out)@ == old(out)@ + s@.subrange(from as int, to as int),
{
    let mut k = from;
    while k < to
        invariant
            from <= k <= to,
            to <= s@.len(),
            out@ == old(out)@ + s@.subrange(from as int, k as int),
        decreases to - k,
    {
        out.push(s[k]);
        k = k + 1;
        assert(out@ =~= old(out)@ + s@.subrange(from as int, k as int));
    }
}

fn run_len(s: &Vec<char>, i: usize, c: char) -> (r: usize)
    requires
        i <= s@.len(),
    ensures
        r == run_of(s@, i as int, c),
        i + r <= s@.len(),
{
    let mut j = i;
    while j < s.len() && s[j] == c
        invariant
            i <= j <= s@.len(),
            run_of(s@, i as int, c) == (j - i) + run_of(s@, j as int, c),
        decreases s@.len() - j,
    {
        j = j + 1;
    }
    j - i
}

fn find_nl(s: &Vec<char>, i: usize) -> (r: usize)
    requires
        i <= s@.len(),
    ensures
        r == next_nl(s@, i as int),
        i <= r <= s@.len(),
{
    let mut j = i;
    while j < s.len() && s[j] != '\n'
        invariant
            i <= j <= s@.len(),
            next_nl(s@, i as int) == next_nl(s@, j as int),
        decreases s@.len() - j,
    {
        j = j + 1;
    }
    j
}

fn find_span_limit(s: &Vec<char>, k: usize) -> (r: usize)
    requires
        k <= s@.len(),
    ensures
        r == span_limit(s@, k as int),
        k <= r <= s@.len(),
{
    let n = s.len();
    let mut se = k;
    while se < n
        invariant
            k <= se <= n,
            n == s@.len(),
            span_limit(s@, k as int) == span_limit(s@, se as int),
        decreases n - se,
    {
        if s[se] == '\n' {
            if se + 1 >= n {
                return n;
            }
            let w = run_len(s, se + 1, ' ');
            if se + 1 + w >= n || s[se + 1 + w] == '\n' {
                return se;
            }
        }
        se = se + 1;
    }
    n
}

fn find_closing_run(s: &Vec<char>, k: usize, e: usize, n: usize) -> (r: Option<usize>)
    requires
        k <= e <= s@.len(),
    ensures
        match r {
            Some(x) => closing_run(s@, k as int, e as int, n as nat) == Some(x as int),
            None => closing_run(s@, k as int, e as int, n as nat) is None,
        },
{
    let len = s.len();
    let mut cs = k;
    while cs < e
        invariant
            len == s@.len(),
            k <= cs <= s@.len(),
            e <= s@.len(),
            closing_run(s@, k as int, e as int, n as nat) == closing_run(s@, cs as int, e as int, n as nat),
        decreases s@.len() - cs,
    {
        if s[cs] == '`' {
            let cc = run_len(s, cs, '`');
            assert(run_of(s@, cs as int, '`') == 1 + run_of(s@, cs + 1, '`'));
            if cc == n {
                return Some(cs);
            }
            cs = cs + cc;
        } else {
            cs = cs + 1;
        }
    }
    None
}

fn rest_is_blank(s: &Vec<char>, q: usize) -> (r: bool)
    requires
        q <= s@.len(),
    ensures
        r == blank_to_eol(s@, q as int),
{
    let mut j = q;
    while j < s.len() && s[j] != '\n'
        invariant
            q <= j <= s@.len(),
            blank_to_eol(s@, q as int) == blank_to_eol(s@, j as int),
        decreases s@.len() - j,
    {
        if s[j] != ' ' && s[j] != '\t' {
            return false;
        }
        j = j + 1;
    }
    true
}

fn copy_fence_body(s: &Vec<char>, p: usize, n: usize, out: &mut Vec<char>) -> (r: usize)
    requires
        p <= s@.len(),
    ensures
        r == fence_body(s@, p as int, n as nat).1,
        final(out)@ == old(out)@ + fence_body(s@, p as int, n as nat).0,
{
    let len = s.len();
    let mut q = p;
    while q < len
        invariant
            p <= q <= len,
            len == s@.len(),
            fence_body(s@, p as int, n as nat).1 == fence_body(s@, q as int, n as nat).1,
            old(out)@ + fence_body(s@, p as int, n as nat).0 == out@ + fence_body(s@, q as int, n as nat).0,
        decreases len - q,
    {
        let ghost out0 = out@;
        let bc = run_len(s, q, '`');
        if bc >= n && rest_is_blank(s, q + bc) {
            let j = find_nl(s, q + bc);
            push_range(out, s, q, j);
            return j;
        }
        let nl = find_nl(s, q);
        let q2 = if nl < len {
            nl + 1
        } else {
            len
        };
        push_range(out, s, q, q2);
        assert(out@ + fence_body(s@, q2 as int, n as nat).0 =~= out0 + fence_body(s@, q as int, n as nat).0);
        q = q2;
    }
    q
}

fn copy_bold_body(s: &Vec<char>, p: usize, out: &mut Vec<char>) -> (r: (usize, bool))
    requires
        p <= s@.len(),
    ensures
        r.0 == bold_body(s@, p as int).1,
        r.1 == bold_body(s@, p as int).2,
        final(out)@ == old(out)@ + bold_body(s@, p as int).0,
{
    let len = s.len();
    let mut q = p;
    while q < len
        invariant
            p <= q <= len,
            len == s@.len(),
            bold_body(s@, p as int).1 == bold_body(s@, q as int).1,
            bold_body(s@, p as int).2 == bold_body(s@, q as int).2,
            old(out)@ + bold_body(s@, p as int).0 == out@ + bold_body(s@, q as int).0,
        decreases len - q,
    {
        let ghost out0 = out@;
        if s[q] == '*' && q + 1 < len && s[q + 1] == '*' {
            out.push('*');
            out.push('*');
            assert(out@ =~= out0 + bold_body(s@, q as int).0);
            return (q + 2, false);
        }
        if s[q] == '\n' {
            out.push('\n');
            assert(out@ =~= out0 + bold_body(s@, q as int).0);
            return (q + 1, true);
        }
        out.push(s[q]);
        assert(out@ + bold_body(s@, q + 1).0 =~= out0 + bold_body(s@, q as int).0);
        q = q + 1;
    }
    (q, false)
}

fn find_emphasis_close(s: &Vec<char>, start: usize, k: usize) -> (r: Option<usize>)
    requires
        k <= s@.len(),
    ensures
        match r {
            Some(e) => emphasis_close(s@, start as int, k as int) == Some(e as int),
            None => emphasis_close(s@, start as int, k as int) is None,
        },
{
    let mut end = k;
    while end < s.len()
        invariant
            k <= end <= s@.len(),
            emphasis_close(s@, start as int, k as int) == emphasis_close(s@, start as int, end as int),
        decreases s@.len() - end,
    {
        if s[end] == '*' && end > start && s[end - 1] != ' ' {
            return Some(end);
        }
        if s[end] == '\n' {
            return None;
        }
        end = end + 1;
    }
    None
}

fn tick_step_exec(s: &Vec<char>, i: usize, out: &mut Vec<char>) -> (r: usize)
    requires
        i < s@.len(),
        s@[i as int] == '`',
    ensures
        r == tick_step(s@, i as int).1,
        final(out)@ == old(out)@ + tick_step(s@, i as int).0,
{
    let len = s.len();
    let n = run_len(s, i, '`');
    if n >= 3 && (i == 0 || s[i - 1] == '\n') {
        let le = find_nl(s, i);
        push_range(out, s, i, le);
        if le < len {
            let ghost mid = out@;
            out.push('\n');
            let j = copy_fence_body(s, le + 1, n, out);
            assert(out@ =~= old(out)@ + tick_step(s@, i as int).0);
            return j;
        }
        return le;
    }
    let after = i + n;
    let lim = if n == 1 {
        find_nl(s, after)
    } else {
        find_span_limit(s, after)
    };
    proof {
        lemma_closing_run(s@, after as int, lim as int, n as nat);
    }
    match find_closing_run(s, after, lim, n) {
        Some(k) => {
            push_range(out, s, i, k + n);
            k + n
        },
        None => {
            let mut t: usize = 0;
            while t < n
                invariant
                    t <= n,
                    out@ == old(out)@ + escaped_ticks(t as nat),
                decreases n - t,
            {
                out.push('\\');
                out.push('`');
                t = t + 1;
                assert(out@ =~= old(out)@ + escaped_ticks(t as nat));
            }
            after
        },
    }
}

fn star_step_exec(s: &Vec<char>, i: usize, st: EmphasisScan, out: &mut Vec<char>) -> (r: (usize, EmphasisScan))
    requires
        i < s@.len(),
        s@[i as int] == '*',
    ensures
        r.0 == star_step(s@, i as int, st).1,
        r.1 == star_step(s@, i as int, st).2,
        final(out)@ == old(out)@ + star_step(s@, i as int, st).0,
{
    let len = s.len();
    if i + 1 < len && s[i + 1] == '*' {
        out.push('*');
        out.push('*');
        let (j, nl) = copy_bold_body(s, i + 2, out);
        assert(out@ =~= old(out)@ + star_step(s@, i as int, st).0);
        let st2 = if nl {
            EmphasisScan {
                at_line_start: true,
                line_indent: 0,
                in_docs_line: st.in_docs_line,
                prev_line_blank: st.prev_line_blank,
                has_content: st.has_content,
                in_code_block: st.in_code_block,
            }
        } else {
            st
        };
        return (j, st2);
    }
    let close = if i + 1 < len && s[i + 1] != ' ' && s[i + 1] != '\n' {
        find_emphasis_close(s, i + 1, i + 1)
    } else {
        None
    };
    proof {
        lemma_emphasis_close(s@, i + 1, i + 1);
    }
    match close {
        Some(e) => {
            out.push('_');
            push_range(out, s, i + 1, e);
            out.push('_');
            assert(out@ =~= old(out)@ + star_step(s@, i as int, st).0);
            (e + 1, st)
        },
        None => {
            if i > 0 && s[i - 1] == '\\' {
                out.push('*');
            } else {
                out.push('\\');
                out.push('*');
            }
            assert(out@ =~= old(out)@ + star_step(s@, i as int, st).0);
            (i + 1, st)
        },
    }
}

fn starts_at(s: &Vec<char>, i: usize, p: &str) -> (r: bool)
    requires
        i <= s@.len(),
    ensures
        r == starts_with(s@.skip(i as int), p@),
{
    let rest = chars_range(s, i, s.len());
    assert(rest@ =~= s@.skip(i as int));
    starts_with_str(&rest, p)
}

/// Normalize emphasis markers in doc text: `*text*` becomes `_text_`, a
/// lone `*` becomes `\*` (unless a backslash precedes it), a `* ` bullet at
/// the start of a line becomes `- `, and backticks without a matching
/// closer are escaped. `**bold**` runs, code spans, fenced and indented code
/// blocks and `@docs` lines are copied as they are.
pub fn normalize_emphasis(text: &str) -> (r: String)
    ensures
        r@ == emphasis_normalized(text@),
{
    let s = chars_of(text);
    let len = s.len();
    let mut out: Vec<char> = Vec::new();
    let mut i: usize = 0;
    let mut st = EmphasisScan {
        at_line_start: true,
        line_indent: 0,
        in_docs_line: false,
        prev_line_blank: false,
        has_content: false,
        in_code_block: false,
    };
    while i < len
        invariant
            len == s@.len(),
            i <= len,
            st.line_indent <= i,
            out@ + emph_from(s@, i as int, st) == emph_from(s@, 0, scan_start()),
        decreases len - i, if st.at_line_start {
            1int
        } else {
            0int
        },
    {
        let ghost step = emph_step(s@, i as int, st);
        let ghost out0 = out@;
        let ghost i0 = i as int;
        let ghost st0 = st;
        let c = s[i];
        if (c as u32) > 127 {
            out.push(c);
            st.at_line_start = false;
            i = i + 1;
        } else if c == '\n' {
            out.push('\n');
            st = EmphasisScan {
                at_line_start: true,
                line_indent: 0,
                in_docs_line: false,
                prev_line_blank: !st.has_content,
                has_content: false,
                in_code_block: st.in_code_block,
            };
            i = i + 1;
        } else if st.at_line_start && c == ' ' {
            out.push(' ');
            st.line_indent = st.line_indent + 1;
            i = i + 1;
        } else if st.at_line_start {
            let docs = starts_at(&s, i, "@docs");
            let code = if st.line_indent >= 4 {
                st.in_code_block || st.prev_line_blank
            } else {
                false
            };
            st = EmphasisScan {
                at_line_start: false,
                line_indent: st.line_indent,
                in_docs_line: st.in_docs_line || docs,
                prev_line_blank: st.prev_line_blank,
                has_content: true,
                in_code_block: code,
            };
            if !code && c == '*' && i + 1 < len && s[i + 1] == ' ' {
                out.push('-');
                i = i + 1;
            }
        } else if st.in_docs_line || st.in_code_block {
            out.push(c);
            i = i + 1;
        } else if c == '`' {
            i = tick_step_exec(&s, i, &mut out);
        } else if c == '*' {
            let (j, st2) = star_step_exec(&s, i, st, &mut out);
            i = j;
            st = st2;
        } else {
            out.push(c);
            i = i + 1;
        }
        proof {
            lemma_step_progress(s@, i0, st0);
            assert(out@ =~= out0 + step.0);
            assert(emph_from(s@, i0, st0) == step.0 + emph_from(s@, step.1, step.2));
            assert(out@ + emph_from(s@, i as int, st) =~= out0 + emph_from(s@, i0, st0));
        }
    }
    string_of(&out)
}

/// Only `*` characters and backticks are ever rewritten: a doc text with
/// neither is left exactly as it is.
pub proof fn emphasis_keeps_text_without_stars_or_backticks(t: Seq<char>)
    requires
        !t.contains('*'),
        !t.contains('`'),
    ensures
        emphasis_normalized(t) == t,
{
    lemma_emph_plain(t, 0, scan_start());
    assert(t.skip(0) =~= t);
}

proof fn lemma_emph_plain(t: Seq<char>, i: int, st: EmphasisScan)
    requires
        0 <= i <= t.len(),
        !t.contains('*'),
        !t.contains('`'),
    ensures
        emph_from(t, i, st) == t.skip(i),
    decreases t.len() - i, if st.at_line_start {
        1int
    } else {
        0int
    },
{
    if i < t.len() {
        lemma_step_progress(t, i, st);
        let r = emph_step(t, i, st);
        assert(t[i] != '*');
        assert(t[i] != '`');
        lemma_emph_plain(t, r.1, r.2);
        if r.1 == i {
            assert(r.0 =~= Seq::<char>::empty());
            assert(emph_from(t, i, st) =~= t.skip(i));
        } else {
            assert(r.0 == seq![t[i]]);
            assert(r.1 == i + 1);
            assert(t.skip(i) =~= seq![t[i]] + t.skip(i + 1));
        }
    } else {
        assert(t.skip(i) =~= Seq::<char>::empty());
    }
}

pub proof fn lemma_run_of(s: Seq<char>, i: int, c: char)
    requires
        0 <= i <= s.len(),
    ensures
        i + run_of(s, i, c) <= s.len(),
        forall|k: int| i <= k < i + run_of(s, i, c) ==> s[k] == c,
        i + run_of(s, i, c) == s.len() || s[i + run_of(s, i, c)] != c,
    decreases s.len() - i,
{
    if i < s.len() && s[i] == c {
        lemma_run_of(s, i + 1, c);
    }
}

pub proof fn lemma_next_nl(s: Seq<char>, i: int)
    requires
        0 <= i <= s.len(),
    ensures
        i <= next_nl(s, i) <= s.len(),
        next_nl(s, i) < s.len() ==> s[next_nl(s, i)] == '\n',
        forall|k: int| i <= k < next_nl(s, i) ==> s[k] != '\n',
    decreases s.len() - i,
{
    if i < s.len() && s[i] != '\n' {
        lemma_next_nl(s, i + 1);
    }
}

pub proof fn lemma_span_limit(s: Seq<char>, k: int)
    requires
        0 <= k <= s.len(),
    ensures
        k <= span_limit(s, k) <= s.len(),
    decreases s.len() - k,
{
    if k < s.len() {
        if s[k] == '\n' {
            if k + 1 < s.len() && !blank_from(s, k + 1) {
                lemma_span_limit(s, k + 1);
            }
        } else {
            lemma_span_limit(s, k + 1);
        }
    }
}

pub proof fn lemma_closing_run(s: Seq<char>, k: int, e: int, n: nat)
    requires
        0 <= k,
        e <= s.len(),
    ensures
        closing_run(s, k, e, n) matches Some(x) ==> k <= x < e && x + n <= s.len() && run_of(s, x, '`')
            == n,
    decreases s.len() - k,
{
    if k < e && k < s.len() {
        if s[k] == '`' {
            lemma_run_of(s, k, '`');
            let cc = run_of(s, k, '`');
            assert(cc == 1 + run_of(s, k + 1, '`'));
            if cc != n {
                lemma_closing_run(s, k + cc, e, n);
            }
        } else {
            lemma_closing_run(s, k + 1, e, n);
        }
    }
}

pub proof fn lemma_fence_body(s: Seq<char>, p: int, n: nat)
    requires
        0 <= p <= s.len(),
    ensures
        p <= fence_body(s, p, n).1 <= s.len(),
    decreases s.len() - p,
{
    if p < s.len() {
        let bc = run_of(s, p, '`');
        lemma_run_of(s, p, '`');
        if bc >= n && blank_to_eol(s, p + bc) {
            lemma_next_nl(s, p + bc);
        } else {
            lemma_next_nl(s, p);
            let nl = next_nl(s, p);
            let q = if nl < s.len() {
                nl + 1
            } else {
                s.len() as int
            };
            lemma_fence_body(s, q, n);
        }
    }
}

pub proof fn lemma_bold_body(s: Seq<char>, p: int)
    requires
        0 <= p <= s.len(),
    ensures
        p <= bold_body(s, p).1 <= s.len(),
        bold_body(s, p).1 > p || p == s.len(),
    decreases s.len() - p,
{
    if p < s.len() && !(s[p] == '*' && p + 1 < s.len() && s[p + 1] == '*') && s[p] != '\n' {
        lemma_bold_body(s, p + 1);
    }
}

pub proof fn lemma_emphasis_close(s: Seq<char>, start: int, k: int)
    requires
        0 <= k,
    ensures
        emphasis_close(s, start, k) matches Some(e) ==> k <= e < s.len(),
    decreases s.len() - k,
{
    if k < s.len() && !(s[k] == '*' && k > start && s[k - 1] != ' ') && s[k] != '\n' {
        lemma_emphasis_close(s, start, k + 1);
    }
}

pub proof fn lemma_tick_progress(s: Seq<char>, i: int)
    requires
        0 <= i < s.len(),
        s[i] == '`',
    ensures
        i < tick_step(s, i).1 <= s.len(),
{
    lemma_run_of(s, i, '`');
    let n = run_of(s, i, '`');
    if n >= 3 && (i == 0 || s[i - 1] == '\n') {
        lemma_next_nl(s, i + 1);
        assert(next_nl(s, i) == next_nl(s, i + 1));
        let le = next_nl(s, i);
        if le < s.len() {
            lemma_fence_body(s, le + 1, n);
        }
    } else {
        let after = i + n;
        let lim = if n == 1 {
            next_nl(s, after)
        } else {
            span_limit(s, after)
        };
        if n == 1 {
            lemma_next_nl(s, after);
        } else {
            lemma_span_limit(s, after);
        }
        lemma_closing_run(s, after, lim, n);
    }
}

pub proof fn lemma_step_progress(s: Seq<char>, i: int, st: EmphasisScan)
    requires
        0 <= i < s.len(),
    ensures
        (i < emph_step(s, i, st).1 <= s.len()) || (emph_step(s, i, st).1 == i && st.at_line_start
            && !emph_step(s, i, st).2.at_line_start),
{
    let c = s[i];
    if (c as u32) > 127 || c == '\n' || st.at_line_start {
    } else if st.in_docs_line || st.in_code_block {
    } else if c == '`' {
        lemma_tick_progress(s, i);
    } else if c == '*' {
        if i + 1 < s.len() && s[i + 1] == '*' {
            lemma_bold_body(s, i + 2);
        } else if i + 1 < s.len() && s[i + 1] != ' ' && s[i + 1] != '\n' {
            lemma_emphasis_close(s, i + 1, i + 1);
        }
    }
}

} // verus!
