//! Paragraph-level normalizations of documentation comments: blank lines
//! before link references, leading spaces of continuation lines, and runs
//! of spaces inside prose.

use vstd::prelude::*;

use super::lines::{join_to_string, starts_with, starts_with_str, trim_start_chars};
use crate::text::{
    all_ws, chars_of, chars_range, is_blank, join_lines, leading_count, lines_of, split_lines,
    trim_start,
};

verus! {

/// The number of leading ASCII digits of `s`.
pub open spec fn digit_run(s: Seq<char>) -> nat
    decreases s.len(),
{
    if s.len() > 0 && '0' <= s[0] && s[0] <= '9' {
        1 + digit_run(s.drop_first())
    } else {
        0
    }
}

/// For an ordered list item (`12. text`, after leading whitespace), the
/// text after the spaces that follow the `.`.
pub open spec fn ordered_list_rest(line: Seq<char>) -> Option<Seq<char>> {
    let t = trim_start(line);
    let d = digit_run(t);
    if d > 0 && d + 1 < t.len() && t[d as int] == '.' && t[(d + 1) as int] == ' ' {
        Some(trim_start(t.skip((d + 1) as int)))
    } else {
        None
    }
}

proof fn lemma_digit_run(s: Seq<char>, i: int)
    requires
        0 <= i <= s.len(),
        forall|k: int| 0 <= k < i ==> '0' <= #[trigger] s[k] && s[k] <= '9',
        i == s.len() || !('0' <= s[i] && s[i] <= '9'),
    ensures
        digit_run(s) == i,
    decreases i,
{
    if i > 0 {
        lemma_digit_run(s.drop_first(), i - 1);
    }
}

/// If `line` is an ordered list item, the text after its marker.
pub fn strip_ordered_list_prefix(line: &Vec<char>) -> (r: Option<Vec<char>>)
    ensures
        match r {
            Some(v) => ordered_list_rest(line@) == Some(v@),
            None => ordered_list_rest(line@) is None,
        },
{
    let t = trim_start_chars(line);
    let mut d: usize = 0;
    while d < t.len() && '0' <= t[d] && t[d] <= '9'
        invariant
            d <= t@.len(),
            forall|k: int| 0 <= k < d ==> '0' <= #[trigger] t@[k] && t@[k] <= '9',
        decreases t@.len() - d,
    {
        d = d + 1;
    }
    proof {
        lemma_digit_run(t@, d as int);
    }
    if d > 0 && d < t.len() - 1 && t[d] == '.' && t[d + 1] == ' ' {
        let after = chars_range(&t, d + 1, t.len());
        assert(after@ =~= t@.skip(d + 1));
        Some(trim_start_chars(&after))
    } else {
        None
    }
}

/// The index of the first blank line from `i` on (or the number of lines).
pub open spec fn first_nonblank_from(ls: Seq<Seq<char>>, i: int) -> int
    decreases ls.len() - i,
{
    if i >= ls.len() || !all_ws(ls[i]) {
        i
    } else {
        first_nonblank_from(ls, i + 1)
    }
}

/// The index of the first `c` in `s`, if any.
pub open spec fn index_of(s: Seq<char>, c: char) -> Option<nat>
    decreases s.len(),
{
    if s.len() == 0 {
        None
    } else if s[0] == c {
        Some(0)
    } else {
        match index_of(s.drop_first(), c) {
            Some(k) => Some(k + 1),
            None => None,
        }
    }
}

/// A Markdown link reference definition: `[name]: url`.
pub open spec fn is_link_ref(line: Seq<char>) -> bool {
    let t = trim_start(line);
    t.len() > 0 && t[0] == '[' && match index_of(t, ']') {
        Some(close) => {
            let after = t.skip((close + 1) as int);
            starts_with(after, seq![':', ' ']) || starts_with(after, seq![':', '\t'])
        },
        None => false,
    }
}

/// The lines from `i` on, with a run of blank lines right before a link
/// reference definition cut to one.
pub open spec fn collapsed_from(ls: Seq<Seq<char>>, i: int) -> Seq<Seq<char>>
    decreases ls.len() - i, 1int,
{
    if i < 0 || i >= ls.len() {
        Seq::empty()
    } else if all_ws(ls[i]) {
        collapsed_blank_run(ls, i, first_nonblank_from(ls, i))
    } else {
        seq![ls[i]] + collapsed_from(ls, i + 1)
    }
}

pub open spec fn collapsed_blank_run(ls: Seq<Seq<char>>, i: int, j: int) -> Seq<Seq<char>>
    decreases ls.len() - i, 0int,
{
    if i < 0 || i >= ls.len() || j <= i || j > ls.len() {
        Seq::empty()
    } else {
        let run = j - i;
        let emit = if j < ls.len() && is_link_ref(ls[j]) && run > 1 {
            1
        } else {
            run
        };
        blank_lines(emit as nat) + collapsed_from(ls, j)
    }
}

/// `n` empty lines.
pub open spec fn blank_lines(n: nat) -> Seq<Seq<char>> {
    Seq::new(n, |k: int| Seq::<char>::empty())
}

/// The text with runs of blank lines before a link reference definition
/// cut to one blank line (a blank text is unchanged).
pub open spec fn link_refs_collapsed(t: Seq<char>) -> Seq<char> {
    if all_ws(t) {
        t
    } else {
        join_lines(collapsed_from(lines_of(t), 0))
    }
}

proof fn lemma_first_nonblank(ls: Seq<Seq<char>>, i: int, j: int)
    requires
        0 <= i <= j <= ls.len(),
        forall|k: int| i <= k < j ==> all_ws(#[trigger] ls[k]),
        j == ls.len() || !all_ws(ls[j]),
    ensures
        first_nonblank_from(ls, i) == j,
    decreases j - i,
{
    if i < j {
        lemma_first_nonblank(ls, i + 1, j);
    }
}

fn index_of_char(v: &Vec<char>, c: char) -> (r: Option<usize>)
    ensures
        match r {
            Some(k) => index_of(v@, c) == Some(k as nat),
            None => index_of(v@, c) is None,
        },
{
    let mut i: usize = 0;
    assert(v@.skip(0) =~= v@);
    while i < v.len()
        invariant
            i <= v@.len(),
            forall|k: int| 0 <= k < i ==> v@[k] != c,
            index_of(v@, c) == match index_of(v@.skip(i as int), c) {
                Some(k) => Some((k + i) as nat),
                None => None::<nat>,
            },
        decreases v@.len() - i,
    {
        if v[i] == c {
            return Some(i);
        }
        assert(v@.skip(i as int).drop_first() =~= v@.skip(i + 1));
        i = i + 1;
    }
    None
}

fn link_ref_line(line: &Vec<char>) -> (r: bool)
    ensures
        r == is_link_ref(line@),
{
    let t = trim_start_chars(line);
    if t.len() == 0 || t[0] != '[' {
        return false;
    }
    match index_of_char(&t, ']') {
        Some(close) => {
            proof {
                assert(index_of(t@, ']') == Some(close as nat));
                lemma_index_of_bound(t@, ']');
            }
            let after = chars_range(&t, close + 1, t.len());
            assert(after@ =~= t@.skip(close + 1));
            let colon_space = {
                let mut p: Vec<char> = Vec::new();
                p.push(':');
                p.push(' ');
                p
            };
            let colon_tab = {
                let mut p: Vec<char> = Vec::new();
                p.push(':');
                p.push('\t');
                p
            };
            assert(colon_space@ =~= seq![':', ' ']);
            assert(colon_tab@ =~= seq![':', '\t']);
            super::lines::starts_with_chars(&after, &colon_space) || super::lines::starts_with_chars(
                &after,
                &colon_tab,
            )
        },
        None => false,
    }
}

proof fn lemma_index_of_bound(s: Seq<char>, c: char)
    ensures
        index_of(s, c) matches Some(k) ==> k < s.len() && s[k as int] == c,
    decreases s.len(),
{
    if s.len() > 0 && s[0] != c {
        lemma_index_of_bound(s.drop_first(), c);
    }
}

/// Cut a run of two or more blank lines right before a link reference
/// definition (`[name]: url`) to a single blank line; other blank lines
/// stay.
pub fn collapse_blank_lines_in_doc(text: &str) -> (r: String)
    ensures
        r@ == link_refs_collapsed(text@),
{
    let chars = chars_of(text);
    if is_blank(&chars) {
        return text.to_owned();
    }
    let lines = split_lines(&chars);
    let ghost ls = lines_of(text@);
    proof {
        assert(lines@.map_values(|l: Vec<char>| l@) =~= ls);
    }
    let n = lines.len();
    let mut out: Vec<Vec<char>> = Vec::new();
    let mut i: usize = 0;
    while i < n
        invariant
            i <= n,
            n == ls.len(),
            lines@.map_values(|l: Vec<char>| l@) == ls,
            out@.map_values(|l: Vec<char>| l@) + collapsed_from(ls, i as int) == collapsed_from(ls, 0),
        decreases n - i,
    {
        let ghost before = out@.map_values(|l: Vec<char>| l@);
        if is_blank(&lines[i]) {
            let mut j = i;
            while j < n && is_blank(&lines[j])
                invariant
                    i <= j <= n,
                    n == ls.len(),
                    lines@.map_values(|l: Vec<char>| l@) == ls,
                    forall|k: int| i <= k < j ==> all_ws(#[trigger] ls[k]),
                decreases n - j,
            {
                assert(lines@[j as int]@ == ls[j as int]);
                j = j + 1;
            }
            proof {
                if j < n {
                    assert(lines@[j as int]@ == ls[j as int]);
                }
                lemma_first_nonblank(ls, i as int, j as int);
            }
            let run = j - i;
            let next_is_link_ref = j < n && link_ref_line(&lines[j]);
            let emit = if next_is_link_ref && run > 1 {
                1
            } else {
                run
            };
            let mut k: usize = 0;
            while k < emit
                invariant
                    k <= emit,
                    out@.map_values(|l: Vec<char>| l@) == before + blank_lines(k as nat),
                decreases emit - k,
            {
                let ghost prev = out@;
                out.push(Vec::new());
                proof {
                    assert(out@.map_values(|l: Vec<char>| l@) =~= prev.map_values(|l: Vec<char>| l@).push(Seq::<char>::empty()));
                    assert(blank_lines((k + 1) as nat) =~= blank_lines(k as nat).push(Seq::<char>::empty()));
                    assert(out@.map_values(|l: Vec<char>| l@) =~= before + blank_lines((k + 1) as nat));
                }
                k = k + 1;
            }
            proof {
                assert(lines@[i as int]@ == ls[i as int]);
                if j < n {
                    assert(lines@[j as int]@ == ls[j as int]);
                }
                assert(first_nonblank_from(ls, i as int) == j);
                assert(collapsed_blank_run(ls, i as int, j as int) == blank_lines(emit as nat) + collapsed_from(ls, j as int));
                assert(collapsed_from(ls, i as int) == blank_lines(emit as nat) + collapsed_from(ls, j as int));
                assert(out@.map_values(|l: Vec<char>| l@) + collapsed_from(ls, j as int) =~= before + collapsed_from(ls, i as int));
            }
            i = j;
        } else {
            out.push(chars_range(&lines[i], 0, lines[i].len()));
            proof {
                assert(lines@[i as int]@ == ls[i as int]);
                assert(lines@[i as int]@.subrange(0, lines@[i as int]@.len() as int) =~= ls[i as int]);
                assert(out@.map_values(|l: Vec<char>| l@) =~= before.push(ls[i as int]));
                assert(collapsed_from(ls, i as int) == seq![ls[i as int]] + collapsed_from(ls, i + 1));
                assert(out@.map_values(|l: Vec<char>| l@) + collapsed_from(ls, i + 1) =~= before + collapsed_from(ls, i as int));
            }
            i = i + 1;
        }
    }
    proof {
        assert(collapsed_from(ls, n as int) == Seq::<Seq<char>>::empty());
        assert(out@.map_values(|l: Vec<char>| l@) =~= collapsed_from(ls, 0));
    }
    join_to_string(&out)
}

/// Whether line `i` is inside an indented code block: a line indented by
/// four spaces after a blank line starts one, and it lasts until a
/// non-blank line that is not so indented.
pub open spec fn code_state(ls: Seq<Seq<char>>, i: int) -> bool
    decreases i,
{
    if i < 0 {
        false
    } else {
        let prev = if i == 0 {
            false
        } else {
            code_state(ls, i - 1)
        };
        if starts_with(ls[i], "    "@) {
            if i == 0 || all_ws(ls[i - 1]) {
                true
            } else {
                prev
            }
        } else if !all_ws(ls[i]) {
            false
        } else {
            prev
        }
    }
}

/// An ASCII whitespace character.
pub open spec fn ascii_ws(c: char) -> bool {
    c == ' ' || c == '\t' || c == '\n' || c == '\x0C' || c == '\r'
}

/// Line `i` after dropping one leading space of a paragraph continuation
/// line (not in code, not the first line, not a list item, heading or
/// `@docs` line).
pub open spec fn paragraph_line(ls: Seq<Seq<char>>, i: int) -> Seq<char> {
    let l = ls[i];
    let t = trim_start(l);
    if code_state(ls, i) || all_ws(l) || i == 0 {
        l
    } else if starts_with(t, "- "@) || starts_with(t, "@docs"@) || starts_with(t, "#"@) || ordered_list_rest(t) is Some {
        l
    } else if l.len() > 1 && l[0] == ' ' && !ascii_ws(l[1]) {
        l.skip(1)
    } else {
        l
    }
}

/// The text with one leading space dropped from paragraph continuation
/// lines.
pub open spec fn paragraphs_unindented(t: Seq<char>) -> Seq<char> {
    let ls = lines_of(t);
    join_lines(Seq::new(ls.len(), |i: int| paragraph_line(ls, i)))
}

/// Whether the line after `prev` is in an indented code block.
fn next_code_state(lines: &Vec<Vec<char>>, i: usize, prev: bool) -> (r: bool)
    requires
        i < lines@.len(),
        prev == code_state(lines@.map_values(|l: Vec<char>| l@), i - 1),
    ensures
        r == code_state(lines@.map_values(|l: Vec<char>| l@), i as int),
{
    let ghost ls = lines@.map_values(|l: Vec<char>| l@);
    assert(ls[i as int] == lines@[i as int]@);
    if i > 0 {
        assert(ls[i - 1] == lines@[i - 1]@);
    }
    if starts_with_str(&lines[i], "    ") {
        if i == 0 || is_blank(&lines[i - 1]) {
            true
        } else {
            prev
        }
    } else if !is_blank(&lines[i]) {
        false
    } else {
        prev
    }
}

fn is_ascii_ws(c: char) -> (r: bool)
    ensures
        r == ascii_ws(c),
{
    c == ' ' || c == '\t' || c == '\n' || c == '\x0C' || c == '\r'
}

/// Drop one leading space from paragraph continuation lines, as
/// elm-format's Markdown renderer does; code blocks, list items, headings
/// and `@docs` lines keep theirs.
pub fn strip_paragraph_leading_whitespace(text: &str) -> (r: String)
    ensures
        r@ == paragraphs_unindented(text@),
{
    let lines = split_lines(&chars_of(text));
    let ghost ls = lines_of(text@);
    proof {
        assert(lines@.map_values(|l: Vec<char>| l@) =~= ls);
    }
    let mut out: Vec<Vec<char>> = Vec::new();
    let mut in_code_block = false;
    let mut i: usize = 0;
    while i < lines.len()
        invariant
            i <= lines@.len(),
            lines@.map_values(|l: Vec<char>| l@) == ls,
            in_code_block == code_state(ls, i - 1),
            out@.len() == i,
            forall|k: int| 0 <= k < i ==> (#[trigger] out@[k])@ == paragraph_line(ls, k),
        decreases lines@.len() - i,
    {
        in_code_block = next_code_state(&lines, i, in_code_block);
        let line = &lines[i];
        assert(ls[i as int] == line@);
        let keep = if in_code_block || is_blank(line) || i == 0 {
            true
        } else {
            let t = trim_start_chars(line);
            starts_with_str(&t, "- ") || starts_with_str(&t, "@docs") || starts_with_str(&t, "#")
                || strip_ordered_list_prefix(&t).is_some()
        };
        if !keep && line.len() > 1 && line[0] == ' ' && !is_ascii_ws(line[1]) {
            out.push(chars_range(line, 1, line.len()));
            assert(line@.subrange(1, line@.len() as int) =~= line@.skip(1));
        } else {
            out.push(chars_range(line, 0, line.len()));
            assert(line@.subrange(0, line@.len() as int) =~= line@);
        }
        i = i + 1;
    }
    proof {
        assert(out@.map_values(|l: Vec<char>| l@) =~= Seq::new(ls.len(), |k: int| paragraph_line(ls, k)));
    }
    join_to_string(&out)
}

/// Runs of spaces collapsed to one outside inline code (between
/// backquotes); `in_span` says whether the text starts inside inline code.
pub open spec fn collapse_spaces(s: Seq<char>, in_span: bool) -> Seq<char>
    decreases s.len(),
{
    if s.len() == 0 {
        s
    } else if s[0] == '`' {
        seq!['`'] + collapse_spaces(s.drop_first(), !in_span)
    } else if !in_span && s[0] == ' ' {
        proof {
            crate::text::lemma_leading_count_le(s, ' ');
        }
        seq![' '] + collapse_spaces(s.skip(leading_count(s, ' ') as int), in_span)
    } else {
        seq![s[0]] + collapse_spaces(s.drop_first(), in_span)
    }
}

/// Line `i` with runs of spaces collapsed, unless it is in code, blank, a
/// block quote or an ordered list item; its leading whitespace stays.
pub open spec fn prose_line(ls: Seq<Seq<char>>, i: int) -> Seq<char> {
    let l = ls[i];
    let t = trim_start(l);
    if code_state(ls, i) || all_ws(l) || starts_with(t, ">"@) || ordered_list_rest(t) is Some {
        l
    } else {
        l.take(l.len() - t.len()) + collapse_spaces(t, false)
    }
}

/// The text with runs of spaces inside prose collapsed to one.
pub open spec fn prose_spaces_collapsed(t: Seq<char>) -> Seq<char> {
    let ls = lines_of(t);
    join_lines(Seq::new(ls.len(), |i: int| prose_line(ls, i)))
}

proof fn lemma_collapse_step(s: Seq<char>, i: int, in_span: bool)
    requires
        0 <= i < s.len(),
        s[i] == ' ',
        !in_span,
    ensures
        collapse_spaces(s.skip(i), in_span) == seq![' '] + collapse_spaces(
            s.skip(i + leading_count(s.skip(i), ' ')),
            in_span,
        ),
        i + leading_count(s.skip(i), ' ') <= s.len(),
{
    crate::text::lemma_leading_count_le(s.skip(i), ' ');
    assert(s.skip(i).skip(leading_count(s.skip(i), ' ') as int) =~= s.skip(i + leading_count(s.skip(i), ' ')));
}

/// Collapse runs of spaces outside inline code.
fn collapse_spaces_chars(s: &Vec<char>) -> (r: Vec<char>)
    ensures
        r@ == collapse_spaces(s@, false),
{
    let mut out: Vec<char> = Vec::new();
    let mut in_span = false;
    let mut j: usize = 0;
    assert(s@.skip(0) =~= s@);
    while j < s.len()
        invariant
            j <= s@.len(),
            out@ + collapse_spaces(s@.skip(j as int), in_span) == collapse_spaces(s@, false),
        decreases s@.len() - j,
    {
        let c = s[j];
        let ghost before = out@;
        assert(s@.skip(j as int)[0] == c);
        if c == '`' {
            out.push('`');
            assert(s@.skip(j as int).drop_first() =~= s@.skip(j + 1));
            assert(out@ + collapse_spaces(s@.skip(j + 1), !in_span) =~= before + collapse_spaces(s@.skip(j as int), in_span));
            in_span = !in_span;
            j = j + 1;
        } else if !in_span && c == ' ' {
            out.push(' ');
            let start = j;
            let mut k = j;
            while k < s.len() && s[k] == ' '
                invariant
                    start <= k <= s@.len(),
                    forall|q: int| start <= q < k ==> s@[q] == ' ',
                decreases s@.len() - k,
            {
                k = k + 1;
            }
            proof {
                crate::text::lemma_leading_count(s@.skip(start as int), ' ', k - start);
                lemma_collapse_step(s@, start as int, in_span);
                assert(out@ + collapse_spaces(s@.skip(k as int), in_span) =~= before + collapse_spaces(s@.skip(start as int), in_span));
            }
            j = k;
        } else {
            out.push(c);
            assert(s@.skip(j as int).drop_first() =~= s@.skip(j + 1));
            assert(out@ + collapse_spaces(s@.skip(j + 1), in_span) =~= before + collapse_spaces(s@.skip(j as int), in_span));
            j = j + 1;
        }
    }
    assert(out@ =~= collapse_spaces(s@, false));
    out
}

/// Collapse runs of two or more spaces to one inside prose, outside inline
/// code; code blocks, block quotes and ordered list items keep theirs.
pub fn collapse_prose_internal_spaces(text: &str) -> (r: String)
    ensures
        r@ == prose_spaces_collapsed(text@),
{
    let lines = split_lines(&chars_of(text));
    let ghost ls = lines_of(text@);
    proof {
        assert(lines@.map_values(|l: Vec<char>| l@) =~= ls);
    }
    let mut out: Vec<Vec<char>> = Vec::new();
    let mut in_code_block = false;
    let mut i: usize = 0;
    while i < lines.len()
        invariant
            i <= lines@.len(),
            lines@.map_values(|l: Vec<char>| l@) == ls,
            in_code_block == code_state(ls, i - 1),
            out@.len() == i,
            forall|k: int| 0 <= k < i ==> (#[trigger] out@[k])@ == prose_line(ls, k),
        decreases lines@.len() - i,
    {
        in_code_block = next_code_state(&lines, i, in_code_block);
        let line = &lines[i];
        assert(ls[i as int] == line@);
        let t = trim_start_chars(line);
        let keep = in_code_block || is_blank(line) || starts_with_str(&t, ">") || strip_ordered_list_prefix(
            &t,
        ).is_some();
        if keep {
            out.push(chars_range(line, 0, line.len()));
            assert(line@.subrange(0, line@.len() as int) =~= line@);
        } else {
            proof {
                crate::text::lemma_trim_start_suffix(line@);
            }
            let lead = line.len() - t.len();
            let mut nl = chars_range(line, 0, lead);
            let mut rest = collapse_spaces_chars(&t);
            nl.append(&mut rest);
            assert(line@.subrange(0, lead as int) =~= line@.take(line@.len() - t@.len()));
            out.push(nl);
        }
        i = i + 1;
    }
    proof {
        assert(out@.map_values(|l: Vec<char>| l@) =~= Seq::new(ls.len(), |k: int| prose_line(ls, k)));
    }
    join_to_string(&out)
}

} // verus!
