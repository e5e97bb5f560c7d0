//! Markdown lists in doc comments, shaped as elm-format's renderer prints
//! them: `- item` is indented by two spaces, ordered items get two spaces
//! after their number, continuation lines are aligned with the item's
//! text, a list that follows a paragraph gets a blank line before it, and
//! word-boundary underscores in bullet text are escaped.

use vstd::prelude::*;

use super::lines::{join_to_string, push_all, starts_with, starts_with_str, trim_start_chars};
use super::paragraphs::{digit_run, ordered_list_rest, strip_ordered_list_prefix};
use crate::text::{all_ws, chars_of, chars_range, is_blank, join_lines, lines_of, split_lines, trim_start};

verus! {

/// An ASCII letter or digit.
pub open spec fn ascii_alnum(c: char) -> bool {
    ('a' <= c && c <= 'z') || ('A' <= c && c <= 'Z') || ('0' <= c && c <= '9')
}

/// ASCII whitespace: space, tab, line feed, form feed, carriage return.
pub open spec fn ascii_space(c: char) -> bool {
    c == ' ' || c == '\t' || c == '\n' || c == '\x0C' || c == '\r'
}

/// Whether the scan is inside `[link text]` and inside a backtick span,
/// before the character at `k`.
pub open spec fn span_state(c: Seq<char>, k: int) -> (bool, bool)
    decreases k,
{
    if k <= 0 {
        (false, false)
    } else {
        let st = span_state(c, k - 1);
        let b = c[k - 1];
        if b == '[' && !st.0 && !st.1 {
            (true, st.1)
        } else if b == ']' && st.0 {
            (false, st.1)
        } else if b == '`' {
            (st.0, !st.1)
        } else {
            st
        }
    }
}

/// The underscore at `k` sits on a word boundary: a letter or digit on one
/// side only, or punctuation on one side and a space (or an end) on the
/// other.
pub open spec fn flanking(c: Seq<char>, k: int) -> bool {
    let n = c.len();
    let has_prev = k > 0;
    let has_next = k + 1 < n;
    let l = has_prev && ascii_alnum(c[k - 1]);
    let r = has_next && ascii_alnum(c[k + 1]);
    if l != r {
        true
    } else if !l && !r {
        let prev_nonspace = has_prev && !ascii_space(c[k - 1]);
        let next_space_or_end = !has_next || ascii_space(c[k + 1]);
        let prev_space_or_start = !has_prev || ascii_space(c[k - 1]);
        let next_nonspace = has_next && !ascii_space(c[k + 1]);
        (prev_nonspace && next_space_or_end) || (prev_space_or_start && next_nonspace)
    } else {
        false
    }
}

/// The character at `k` is an underscore that markdown would read as an
/// emphasis delimiter: outside link text and backtick spans, not already
/// escaped, and flanking.
pub open spec fn delimiter_at(c: Seq<char>, k: int) -> bool {
    &&& c[k] == '_'
    &&& !span_state(c, k).0
    &&& !span_state(c, k).1
    &&& !(k > 0 && c[k - 1] == '\\')
    &&& flanking(c, k)
}

/// The number of delimiter underscores among the first `k` characters.
pub open spec fn delimiter_count(c: Seq<char>, k: int) -> nat
    decreases k,
{
    if k <= 0 {
        0
    } else {
        delimiter_count(c, k - 1) + if delimiter_at(c, k - 1) {
            1nat
        } else {
            0nat
        }
    }
}

/// The first `k` characters with each delimiter underscore escaped.
pub open spec fn delimiters_escaped(c: Seq<char>, k: int) -> Seq<char>
    decreases k,
{
    if k <= 0 {
        Seq::empty()
    } else {
        delimiters_escaped(c, k - 1) + (if delimiter_at(c, k - 1) {
            seq!['\\']
        } else {
            Seq::empty()
        }) + seq![c[k - 1]]
    }
}

/// A bullet line with the underscores of its text (after `marker_len`
/// characters) escaped, unless they pair up as an italic span.
pub open spec fn bullet_escaped(line: Seq<char>, marker_len: nat) -> Seq<char> {
    if line.len() <= marker_len {
        line
    } else {
        let c = line.skip(marker_len as int);
        let n = delimiter_count(c, c.len() as int);
        if n >= 2 && n % 2 == 0 {
            line
        } else {
            line.take(marker_len as int) + delimiters_escaped(c, c.len() as int)
        }
    }
}

/// A list item line: `- text`, a lone `-`, or an ordered item.
pub open spec fn list_marker_line(t: Seq<char>) -> bool {
    starts_with(t, "- "@) || t == "-"@ || ordered_list_rest(t) is Some
}

/// Line `i` starts a list right after a paragraph, so a blank line goes
/// before it.
pub open spec fn list_after_prose(ls: Seq<Seq<char>>, i: int, list_indent: Option<nat>) -> bool {
    if list_indent is Some || i <= 0 || all_ws(ls[i - 1]) {
        false
    } else {
        let pt = trim_start(ls[i - 1]);
        !list_marker_line(pt) && !starts_with(pt, "#"@) && !starts_with(pt, "@docs"@)
    }
}

/// `n` spaces.
pub open spec fn spaces(n: nat) -> Seq<char> {
    Seq::new(n, |k: int| ' ')
}

/// The output lines for line `i`, with the code-block state and the list
/// continuation indent after it.
pub open spec fn list_line(ls: Seq<Seq<char>>, i: int, code: bool, list_indent: Option<nat>) -> (
    Seq<Seq<char>>,
    bool,
    Option<nat>,
) {
    let line = ls[i];
    let code2 = if starts_with(line, "    "@) {
        code || i == 0 || all_ws(ls[i - 1])
    } else if !all_ws(line) {
        false
    } else {
        code
    };
    let gap: Seq<Seq<char>> = if list_after_prose(ls, i, list_indent) {
        seq![Seq::empty()]
    } else {
        Seq::empty()
    };
    if code2 {
        (seq![line], code2, list_indent)
    } else if all_ws(line) {
        (seq![line], code2, None)
    } else if starts_with(line, "- "@) || line == "-"@ {
        (gap + seq!["  "@ + bullet_escaped(line, 2)], code2, Some(4))
    } else if starts_with(line, "  - "@) {
        (gap + seq![bullet_escaped(line, 4)], code2, Some(4))
    } else if ordered_list_rest(line) is Some {
        let t = trim_start(line);
        let d = digit_run(t);
        let rest = ordered_list_rest(line)->0;
        (gap + seq![t.take(d + 1 as int) + "  "@ + rest], code2, Some(d + 3))
    } else if list_indent is Some {
        let t = trim_start(line);
        if starts_with(t, "@docs"@) || starts_with(t, "#"@) {
            (seq![line], code2, None)
        } else {
            (seq![spaces(list_indent->0) + t], code2, list_indent)
        }
    } else {
        (seq![line], code2, list_indent)
    }
}

/// The output lines from line `i` on.
pub open spec fn lists_from(ls: Seq<Seq<char>>, i: int, code: bool, list_indent: Option<nat>) -> Seq<
    Seq<char>,
>
    decreases ls.len() - i,
{
    if i < 0 || i >= ls.len() {
        Seq::empty()
    } else {
        let r = list_line(ls, i, code, list_indent);
        r.0 + lists_from(ls, i + 1, r.1, r.2)
    }
}

/// The doc text with its lists normalized.
pub open spec fn lists_normalized(t: Seq<char>) -> Seq<char> {
    join_lines(lists_from(lines_of(t), 0, false, None))
}

/// Underscores inside a word (a letter or digit on both sides, as in
/// `foo_bar`) are not emphasis delimiters: a bullet whose underscores are
/// all inside words is left as it is.
pub proof fn mid_word_underscores_are_kept(line: Seq<char>, marker_len: nat)
    requires
        forall|k: int|
            marker_len <= k < line.len() && #[trigger] line[k] == '_' ==> marker_len < k && k + 1 < line.len()
                && ascii_alnum(line[k - 1]) && ascii_alnum(line[k + 1]),
    ensures
        bullet_escaped(line, marker_len) == line,
{
    if line.len() > marker_len {
        let c = line.skip(marker_len as int);
        assert forall|k: int| 0 <= k < c.len() implies !delimiter_at(c, k) by {
            if c[k] == '_' {
                assert(line[marker_len + k] == '_');
                assert(c[k - 1] == line[marker_len + k - 1]);
                assert(c[k + 1] == line[marker_len + k + 1]);
            }
        }
        lemma_no_delimiters(c, c.len() as int);
        assert(line.take(marker_len as int) + c.take(c.len() as int) =~= line);
    }
}

proof fn lemma_no_delimiters(c: Seq<char>, k: int)
    requires
        0 <= k <= c.len(),
        forall|q: int| 0 <= q < c.len() ==> !delimiter_at(c, q),
    ensures
        delimiter_count(c, k) == 0,
        delimiters_escaped(c, k) == c.take(k),
    decreases k,
{
    if k > 0 {
        lemma_no_delimiters(c, k - 1);
        assert(!delimiter_at(c, k - 1));
        assert(c.take(k) =~= c.take(k - 1) + seq![c[k - 1]]);
    }
}

fn is_ascii_alnum(c: char) -> (r: bool)
    ensures
        r == ascii_alnum(c),
{
    ('a' <= c && c <= 'z') || ('A' <= c && c <= 'Z') || ('0' <= c && c <= '9')
}

fn is_ascii_space(c: char) -> (r: bool)
    ensures
        r == ascii_space(c),
{
    c == ' ' || c == '\t' || c == '\n' || c == '\x0C' || c == '\r'
}

fn is_flanking(c: &Vec<char>, k: usize) -> (r: bool)
    requires
        k < c@.len(),
    ensures
        r == flanking(c@, k as int),
{
    let n = c.len();
    let has_prev = k > 0;
    let has_next = k + 1 < n;
    let l = has_prev && is_ascii_alnum(c[k - 1]);
    let r = has_next && is_ascii_alnum(c[k + 1]);
    if l != r {
        true
    } else if !l && !r {
        let prev_nonspace = has_prev && !is_ascii_space(c[k - 1]);
        let next_space_or_end = !has_next || is_ascii_space(c[k + 1]);
        let prev_space_or_start = !has_prev || is_ascii_space(c[k - 1]);
        let next_nonspace = has_next && !is_ascii_space(c[k + 1]);
        (prev_nonspace && next_space_or_end) || (prev_space_or_start && next_nonspace)
    } else {
        false
    }
}

/// Whether the text of a bullet has an even, nonzero number of delimiter
/// underscores: they pair up as italic spans and are left as they are.
fn has_balanced_flanking_underscores(c: &Vec<char>) -> (r: bool)
    ensures
        r == (delimiter_count(c@, c@.len() as int) >= 2 && delimiter_count(c@, c@.len() as int) % 2 == 0),
{
    let mut count: usize = 0;
    let mut in_link = false;
    let mut in_ticks = false;
    let mut k: usize = 0;
    while k < c.len()
        invariant
            k <= c@.len(),
            (in_link, in_ticks) == span_state(c@, k as int),
            count == delimiter_count(c@, k as int),
            count <= k,
        decreases c@.len() - k,
    {
        let b = c[k];
        let escaped = k > 0 && c[k - 1] == '\\';
        if b == '_' && !in_link && !in_ticks && !escaped && is_flanking(c, k) {
            count = count + 1;
        }
        if b == '[' && !in_link && !in_ticks {
            in_link = true;
        } else if b == ']' && in_link {
            in_link = false;
        } else if b == '`' {
            in_ticks = !in_ticks;
        }
        k = k + 1;
    }
    count >= 2 && count % 2 == 0
}

/// Escape the word-boundary underscores in the text of a bullet line (the
/// part after `marker_len` characters), as markdown would otherwise read
/// them as emphasis. Underscores inside `[link text]` or backticks, already
/// escaped ones, and underscores that pair up as italic spans are left
/// alone.
pub fn escape_bullet_leading_underscore(line: &Vec<char>, marker_len: usize) -> (r: Vec<char>)
    ensures
        r@ == bullet_escaped(line@, marker_len as nat),
{
    if line.len() <= marker_len {
        return chars_range(line, 0, line.len());
    }
    let c = chars_range(line, marker_len, line.len());
    assert(c@ =~= line@.skip(marker_len as int));
    if has_balanced_flanking_underscores(&c) {
        return chars_range(line, 0, line.len());
    }
    let mut out = chars_range(line, 0, marker_len);
    let mut in_link = false;
    let mut in_ticks = false;
    let mut k: usize = 0;
    while k < c.len()
        invariant
            k <= c@.len(),
            marker_len <= line@.len(),
            c@ == line@.skip(marker_len as int),
            (in_link, in_ticks) == span_state(c@, k as int),
            out@ == line@.take(marker_len as int) + delimiters_escaped(c@, k as int),
        decreases c@.len() - k,
    {
        let b = c[k];
        let escaped = k > 0 && c[k - 1] == '\\';
        if b == '_' && !in_link && !in_ticks && !escaped && is_flanking(&c, k) {
            out.push('\\');
        }
        out.push(b);
        if b == '[' && !in_link && !in_ticks {
            in_link = true;
        } else if b == ']' && in_link {
            in_link = false;
        } else if b == '`' {
            in_ticks = !in_ticks;
        }
        k = k + 1;
        assert(out@ =~= line@.take(marker_len as int) + delimiters_escaped(c@, k as int));
    }
    out
}

fn is_list_marker_line(t: &Vec<char>) -> (r: bool)
    ensures
        r == list_marker_line(t@),
{
    let dash = chars_of("-");
    starts_with_str(t, "- ") || crate::text::chars_eq(t, &dash) || strip_ordered_list_prefix(t).is_some()
}

/// Whether the list item at line `i` follows a paragraph line directly, so
/// that a blank line must separate them.
pub fn starts_list_after_prose(lines: &Vec<Vec<char>>, i: usize, list_indent: Option<usize>) -> (r: bool)
    requires
        i < lines@.len(),
    ensures
        r == list_after_prose(
            lines@.map_values(|l: Vec<char>| l@),
            i as int,
            match list_indent {
                Some(w) => Some(w as nat),
                None => None,
            },
        ),
{
    let ghost ls = lines@.map_values(|l: Vec<char>| l@);
    if list_indent.is_some() || i == 0 || is_blank(&lines[i - 1]) {
        proof {
            if i > 0 {
                assert(ls[i - 1] == lines@[i - 1]@);
            }
        }
        return false;
    }
    assert(ls[i - 1] == lines@[i - 1]@);
    let pt = trim_start_chars(&lines[i - 1]);
    !is_list_marker_line(&pt) && !starts_with_str(&pt, "#") && !starts_with_str(&pt, "@docs")
}


/// Indent markdown list items as elm-format's renderer prints them: `- a`
/// becomes `  - a`, `1. a` becomes `1.  a`, continuation lines align with
/// the item's text, and a list right after a paragraph gets a blank line
/// before it. Indented code blocks are left alone.
pub fn normalize_markdown_lists(text: &str) -> (r: String)
    ensures
        r@ == lists_normalized(text@),
{
    let lines = split_lines(&chars_of(text));
    let ghost ls = lines_of(text@);
    assert(lines@.map_values(|l: Vec<char>| l@) =~= ls);
    let n = lines.len();
    let mut out: Vec<Vec<char>> = Vec::new();
    let mut code = false;
    // The continuation indent, held as one less than its width so that the
    // width of an item with a long number always fits.
    let mut indent: Option<usize> = None;
    let mut i: usize = 0;
    while i < n
        invariant
            i <= n,
            n == ls.len(),
            lines@.map_values(|l: Vec<char>| l@) == ls,
            out@.map_values(|l: Vec<char>| l@) + lists_from(
                ls,
                i as int,
                code,
                match indent {
                    Some(w) => Some((w + 1) as nat),
                    None => None,
                },
            ) == lists_from(ls, 0, false, None),
        decreases n - i,
    {
        let ghost li = match indent {
            Some(w) => Some((w + 1) as nat),
            None => None::<nat>,
        };
        let ghost step = list_line(ls, i as int, code, li);
        let ghost before = out@.map_values(|l: Vec<char>| l@);
        let line = &lines[i];
        assert(ls[i as int] == line@);
        if i > 0 {
            assert(ls[i - 1] == lines@[i - 1]@);
        }
        if starts_with_str(line, "    ") {
            if i == 0 || is_blank(&lines[i - 1]) {
                code = true;
            }
        } else if !is_blank(line) {
            code = false;
        }
        let gap = starts_list_after_prose(&lines, i, indent);
        let dash = chars_of("-");
        if code {
            out.push(chars_range(line, 0, line.len()));
        } else if is_blank(line) {
            indent = None;
            out.push(chars_range(line, 0, line.len()));
        } else if starts_with_str(line, "- ") || crate::text::chars_eq(line, &dash) {
            if gap {
                out.push(Vec::new());
            }
            let mut nl = chars_of("  ");
            let esc = escape_bullet_leading_underscore(line, 2);
            push_all(&mut nl, &esc);
            out.push(nl);
            indent = Some(3);
            assert(out@.map_values(|l: Vec<char>| l@) =~= before + step.0);
        } else if starts_with_str(line, "  - ") {
            if gap {
                out.push(Vec::new());
            }
            out.push(escape_bullet_leading_underscore(line, 4));
            indent = Some(3);
            assert(out@.map_values(|l: Vec<char>| l@) =~= before + step.0);
        } else if let Some(rest) = strip_ordered_list_prefix(line) {
            if gap {
                out.push(Vec::new());
            }
            let t = trim_start_chars(line);
            let mut d: usize = 0;
            while d < t.len() && '0' <= t[d] && t[d] <= '9'
                invariant
                    d <= t@.len(),
                    forall|q: int| 0 <= q < d ==> '0' <= #[trigger] t@[q] && t@[q] <= '9',
                decreases t@.len() - d,
            {
                d = d + 1;
            }
            proof {
                lemma_digit_run_at(t@, d as int);
            }
            let mut nl = chars_range(&t, 0, d + 1);
            nl.push(' ');
            nl.push(' ');
            push_all(&mut nl, &rest);
            proof {
                reveal_strlit("  ");
            }
            assert(nl@ =~= trim_start(line@).take(d + 1) + "  "@ + rest@);
            out.push(nl);
            indent = Some(d + 2);
            assert(out@.map_values(|l: Vec<char>| l@) =~= before + step.0);
        } else if let Some(w) = indent {
            let t = trim_start_chars(line);
            if starts_with_str(&t, "@docs") || starts_with_str(&t, "#") {
                indent = None;
                out.push(chars_range(line, 0, line.len()));
            } else {
                let mut nl: Vec<char> = Vec::new();
                nl.push(' ');
                let mut q: usize = 0;
                while q < w
                    invariant
                        q <= w,
                        nl@ == spaces((q + 1) as nat),
                    decreases w - q,
                {
                    nl.push(' ');
                    q = q + 1;
                    assert(nl@ =~= spaces((q + 1) as nat));
                }
                push_all(&mut nl, &t);
                out.push(nl);
            }
        } else {
            out.push(chars_range(line, 0, line.len()));
        }
        proof {
            assert(line@.subrange(0, line@.len() as int) =~= line@);
            let li2 = match indent {
                Some(w) => Some((w + 1) as nat),
                None => None::<nat>,
            };
            assert(code == step.1);
            assert(li2 == step.2);
            assert(out@.map_values(|l: Vec<char>| l@) =~= before + step.0);
            assert(lists_from(ls, i as int, step.1, li) == step.0 + lists_from(ls, i + 1, step.1, step.2));
        }
        i = i + 1;
    }
    join_to_string(&out)
}

proof fn lemma_digit_run_at(s: Seq<char>, i: int)
    requires
        0 <= i <= s.len(),
        forall|k: int| 0 <= k < i ==> '0' <= #[trigger] s[k] && s[k] <= '9',
        i == s.len() || !('0' <= s[i] && s[i] <= '9'),
    ensures
        digit_run(s) == i,
    decreases i,
{
    if i > 0 {
        lemma_digit_run_at(s.drop_first(), i - 1);
    }
}

} // verus!
