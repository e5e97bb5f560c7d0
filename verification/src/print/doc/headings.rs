//! The overall shape of a doc comment: a blank comment becomes one space, a
//! one-line comment gets a line break before `-}`, a first line directly
//! after `{-|` moves up, headings get two blank lines before and one after,
//! and the comment ends with one newline (two for several paragraphs).

use vstd::prelude::*;

use super::lines::{ends_with, starts_with, starts_with_str};
use crate::text::{all_ws, chars_of, chars_range, is_blank, lines_of, split_lines, string_of, trim_end, trimmed_end};

verus! {

/// A Markdown heading line (`#` to `######` and a space, not indented).
pub open spec fn is_heading(l: Seq<char>) -> bool {
    (starts_with(l, "# "@) || starts_with(l, "## "@) || starts_with(l, "### "@) || starts_with(l, "#### "@)
        || starts_with(l, "##### "@) || starts_with(l, "###### "@)) && !starts_with(l, "    "@)
}

/// The text built from the first `k` lines: each heading preceded by two
/// blank lines and followed by one when the next line is not blank.
pub open spec fn heading_pass(ls: Seq<Seq<char>>, k: int) -> Seq<char>
    decreases k,
{
    if k <= 0 {
        Seq::empty()
    } else {
        let i = k - 1;
        let prev = heading_pass(ls, i);
        let l = ls[i];
        let before = if is_heading(l) && prev.len() > 0 && !ends_with(prev, seq!['\n', '\n', '\n']) {
            if ends_with(prev, seq!['\n', '\n']) {
                prev + seq!['\n']
            } else if ends_with(prev, seq!['\n']) {
                prev + seq!['\n', '\n']
            } else {
                prev
            }
        } else {
            prev
        };
        let with_line = before + l;
        if i + 1 < ls.len() {
            if is_heading(l) && !all_ws(ls[i + 1]) {
                with_line + seq!['\n', '\n']
            } else {
                with_line + seq!['\n']
            }
        } else {
            with_line
        }
    }
}

/// The text without its trailing newlines.
pub open spec fn trim_newlines_end(s: Seq<char>) -> Seq<char>
    decreases s.len(),
{
    if s.len() > 0 && s.last() == '\n' {
        trim_newlines_end(s.drop_last())
    } else {
        s
    }
}

/// Two consecutive newlines somewhere in `s`.
pub open spec fn has_blank_line(s: Seq<char>) -> bool {
    exists|i: int| 0 <= i < s.len() - 1 && s[i] == '\n' && #[trigger] s[i + 1] == '\n'
}

/// The text without trailing double newlines, then ending in one newline.
pub open spec fn single_newline_end(s: Seq<char>) -> Seq<char>
    decreases s.len(),
{
    if ends_with(s, seq!['\n', '\n']) {
        single_newline_end(s.drop_last())
    } else if ends_with(s, seq!['\n']) {
        s
    } else {
        s + seq!['\n']
    }
}

/// The ending: two newlines for several paragraphs, one otherwise.
pub open spec fn with_doc_ending(s: Seq<char>) -> Seq<char> {
    if has_blank_line(trim_newlines_end(s)) {
        if ends_with(s, seq!['\n', '\n']) {
            s
        } else if ends_with(s, seq!['\n']) {
            s + seq!['\n']
        } else {
            s + seq!['\n', '\n']
        }
    } else {
        single_newline_end(s)
    }
}

/// A first line right after `{-|` moves up beside it, unless it is code,
/// which gets a blank line before it instead.
pub open spec fn lifted_first_line(t: Seq<char>) -> Seq<char> {
    if t.len() > 0 && t[0] == '\n' && !(t.len() > 1 && t[1] == '\n') {
        let rest = t.skip(1);
        if !(rest.len() > 0 && rest[0] == '\n') && !all_ws(rest) {
            if starts_with(rest, "    "@) {
                seq!['\n', '\n'] + rest
            } else {
                seq![' '] + rest
            }
        } else {
            t
        }
    } else {
        t
    }
}

/// The normalized shape of a doc comment's text.
pub open spec fn doc_shape(t: Seq<char>) -> Seq<char> {
    if all_ws(t) {
        seq![' ']
    } else if !t.contains('\n') {
        trim_end(t) + seq!['\n']
    } else {
        let u = lifted_first_line(t);
        with_doc_ending(heading_pass(lines_of(u), lines_of(u).len() as int))
    }
}

fn ends_with_chars(v: &Vec<char>, p: &Vec<char>) -> (r: bool)
    ensures
        r == ends_with(v@, p@),
{
    if v.len() < p.len() {
        return false;
    }
    let n = v.len();
    let off = n - p.len();
    let mut i: usize = 0;
    while i < p.len()
        invariant
            i <= p@.len(),
            n == v@.len(),
            off + p@.len() == n,
            forall|k: int| 0 <= k < i ==> v@[off + k] == p@[k],
        decreases p@.len() - i,
    {
        if v[off + i] != p[i] {
            assert(v@.skip(off as int)[i as int] != p@[i as int]);
            return false;
        }
        i = i + 1;
    }
    assert(v@.skip(off as int) =~= p@);
    true
}

fn newlines_vec(n: usize) -> (r: Vec<char>)
    ensures
        r@ == Seq::new(n as nat, |i: int| '\n'),
{
    let mut r: Vec<char> = Vec::new();
    let mut i: usize = 0;
    while i < n
        invariant
            i <= n,
            r@ == Seq::new(i as nat, |k: int| '\n'),
        decreases n - i,
    {
        r.push('\n');
        assert(r@ =~= Seq::new((i + 1) as nat, |k: int| '\n'));
        i = i + 1;
    }
    r
}

fn heading_line(l: &Vec<char>) -> (r: bool)
    ensures
        r == is_heading(l@),
{
    (starts_with_str(l, "# ") || starts_with_str(l, "## ") || starts_with_str(l, "### ") || starts_with_str(l, "#### ")
        || starts_with_str(l, "##### ") || starts_with_str(l, "###### ")) && !starts_with_str(l, "    ")
}

proof fn lemma_trim_newlines_end(s: Seq<char>, j: int)
    requires
        0 <= j <= s.len(),
        forall|k: int| j <= k < s.len() ==> s[k] == '\n',
        j == 0 || s[j - 1] != '\n',
    ensures
        trim_newlines_end(s) == s.take(j),
    decreases s.len() - j,
{
    if j == s.len() {
        assert(s.take(j) =~= s);
    } else {
        lemma_trim_newlines_end(s.drop_last(), j);
        assert(s.drop_last().take(j) =~= s.take(j));
    }
}

/// Normalize the shape of a doc comment's text (between `{-|` and `-}`).
pub fn normalize_doc_comment(text: &str) -> (r: String)
    ensures
        r@ == doc_shape(text@),
{
    let chars = chars_of(text);
    if is_blank(&chars) {
        let mut sp: Vec<char> = Vec::new();
        sp.push(' ');
        assert(sp@ =~= seq![' ']);
        return string_of(&sp);
    }
    if !crate::print::literals::contains_char(&chars, '\n') {
        let mut r = trimmed_end(&chars);
        r.push('\n');
        return string_of(&r);
    }
    let u: Vec<char> = if chars.len() > 0 && chars[0] == '\n' && !(chars.len() > 1 && chars[1] == '\n') {
        let rest = chars_range(&chars, 1, chars.len());
        assert(rest@ =~= chars@.skip(1));
        if !(rest.len() > 0 && rest[0] == '\n') && !is_blank(&rest) {
            if starts_with_str(&rest, "    ") {
                let mut v = newlines_vec(2);
                let mut rr = rest;
                v.append(&mut rr);
                assert(Seq::new(2, |i: int| '\n') =~= seq!['\n', '\n']);
                v
            } else {
                let mut v: Vec<char> = Vec::new();
                v.push(' ');
                let mut rr = rest;
                v.append(&mut rr);
                v
            }
        } else {
            chars
        }
    } else {
        chars
    };
    assert(u@ =~= lifted_first_line(text@));
    let lines = split_lines(&u);
    let ghost ls = lines_of(u@);
    let n = lines.len();
    let mut result: Vec<char> = Vec::new();
    let nl1 = newlines_vec(1);
    let nl2 = newlines_vec(2);
    let nl3 = newlines_vec(3);
    proof {
        assert(nl1@ =~= seq!['\n']);
        assert(nl2@ =~= seq!['\n', '\n']);
        assert(nl3@ =~= seq!['\n', '\n', '\n']);
    }
    let mut i: usize = 0;
    while i < n
        invariant
            i <= n,
            n == ls.len(),
            n == lines@.len(),
            forall|k: int| 0 <= k < n ==> (#[trigger] lines@[k])@ == ls[k],
            nl1@ == seq!['\n'],
            nl2@ == seq!['\n', '\n'],
            nl3@ == seq!['\n', '\n', '\n'],
            result@ == heading_pass(ls, i as int),
        decreases n - i,
    {
        let line = &lines[i];
        let heading = heading_line(line);
        if heading && result.len() > 0 && !ends_with_chars(&result, &nl3) {
            if ends_with_chars(&result, &nl2) {
                result.push('\n');
            } else if ends_with_chars(&result, &nl1) {
                result.push('\n');
                result.push('\n');
            }
        }
        let mut copy = chars_range(line, 0, line.len());
        assert(line@.subrange(0, line@.len() as int) =~= line@);
        result.append(&mut copy);
        if i + 1 < n {
            result.push('\n');
            if heading && !is_blank(&lines[i + 1]) {
                result.push('\n');
            }
        }
        proof {
            assert(ls[i as int] == line@);
            if i + 1 < n {
                assert(ls[i + 1] == lines@[i + 1]@);
            }
            assert(result@ =~= heading_pass(ls, i + 1));
        }
        i = i + 1;
    }
    let ghost built = result@;
    let mut j = result.len();
    while j > 0 && result[j - 1] == '\n'
        invariant
            j <= result@.len(),
            forall|k: int| j <= k < result@.len() ==> result@[k] == '\n',
        decreases j,
    {
        j = j - 1;
    }
    proof {
        lemma_trim_newlines_end(result@, j as int);
    }
    let mut multiple = false;
    let mut q: usize = 0;
    while q < j && j - q > 1
        invariant
            j <= result@.len(),
            q <= j,
            multiple == exists|p: int| 0 <= p < q && result@[p] == '\n' && #[trigger] result@[p + 1] == '\n',
        decreases j - q,
    {
        if result[q] == '\n' && result[q + 1] == '\n' {
            multiple = true;
        }
        q = q + 1;
    }
    proof {
        let tt = result@.take(j as int);
        assert(multiple == has_blank_line(tt)) by {
            if multiple {
                let p = choose|p: int| 0 <= p < q && result@[p] == '\n' && #[trigger] result@[p + 1] == '\n';
                assert(tt[p] == '\n' && tt[p + 1] == '\n');
            }
            if has_blank_line(tt) {
                let p = choose|p: int| 0 <= p < tt.len() - 1 && tt[p] == '\n' && #[trigger] tt[p + 1] == '\n';
                assert(result@[p] == '\n' && result@[p + 1] == '\n');
            }
        }
    }
    if multiple {
        if !ends_with_chars(&result, &nl2) {
            if ends_with_chars(&result, &nl1) {
                result.push('\n');
            } else {
                result.push('\n');
                result.push('\n');
            }
        }
    } else {
        let ghost start = result@;
        while ends_with_chars(&result, &nl2)
            invariant
                nl1@ == seq!['\n'],
                nl2@ == seq!['\n', '\n'],
                single_newline_end(result@) == single_newline_end(start),
            decreases result@.len(),
        {
            result.pop();
        }
        if !ends_with_chars(&result, &nl1) {
            result.push('\n');
        }
    }
    string_of(&result)
}

} // verus!
