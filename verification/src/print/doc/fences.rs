//! Fenced code blocks in doc comments: elm-format's renderer prints a
//! ```` ``` ```` or ```` ```elm ```` block as a block indented by four
//! spaces, except inside a list item, where the fence is kept.

use vstd::prelude::*;

use super::assertion_blocks::{blank, is_blank_line, lead_byte_count, lines_view};
use super::code_blocks::lead_bytes;
use super::lines::{push_all, starts_with, starts_with_str, trim_start_chars};
use super::paragraphs::{ordered_list_rest, strip_ordered_list_prefix};
use crate::text::{chars_of, join_lines, lines_of, split_lines, string_of, trim, trim_start, trimmed};

verus! {

/// A trimmed line that opens a fence converted to an indented block:
/// three backticks, alone or followed by `elm` in any case.
pub open spec fn fence_open(t: Seq<char>) -> bool {
    t == "```"@ || (t.len() == 6 && starts_with(t, "```"@) && (t[3] == 'e' || t[3] == 'E') && (t[4] == 'l'
        || t[4] == 'L') && (t[5] == 'm' || t[5] == 'M'))
}

/// The first line from `k` on that closes a fence, or the end.
pub open spec fn fence_close(ls: Seq<Seq<char>>, k: int) -> int
    decreases ls.len() - k,
{
    if k < 0 || k >= ls.len() {
        ls.len() as int
    } else if trim(ls[k]) == "```"@ {
        k
    } else {
        fence_close(ls, k + 1)
    }
}

/// Walking back from line `k`: a list item comes before any unindented
/// line of prose (blank and indented lines are passed over).
pub open spec fn list_before(ls: Seq<Seq<char>>, k: int) -> bool
    decreases k + 1,
{
    if k < 0 || k >= ls.len() {
        false
    } else if blank(ls[k]) {
        list_before(ls, k - 1)
    } else {
        let t = trim_start(ls[k]);
        if starts_with(t, "- "@) || t == "-"@ || ordered_list_rest(t) is Some {
            true
        } else if lead_bytes(ls[k]) >= 2 {
            list_before(ls, k - 1)
        } else {
            false
        }
    }
}

/// A line of a converted fence body: indented by four spaces unless empty.
pub open spec fn fenced_line(l: Seq<char>) -> Seq<char> {
    if l.len() == 0 {
        l
    } else {
        "    "@ + l
    }
}

/// The body lines `s .. e` of a converted fence, after a newline when
/// something was written before.
pub open spec fn fence_body_text(ls: Seq<Seq<char>>, s: int, e: int, after_text: bool) -> Seq<char> {
    if e <= s {
        Seq::empty()
    } else {
        (if after_text {
            seq!['\n']
        } else {
            Seq::empty()
        }) + join_lines(ls.subrange(s, e).map_values(|l: Seq<char>| fenced_line(l)))
    }
}

/// The output from line `i` on, after the output `out`.
pub open spec fn fences_run(ls: Seq<Seq<char>>, i: int, out: Seq<char>) -> Seq<char>
    decreases ls.len() - i,
{
    if i < 0 || i >= ls.len() {
        out
    } else {
        let end = fence_close(ls, i + 1);
        proof {
            lemma_fence_close(ls, i + 1);
        }
        if fence_open(trim(ls[i])) && end < ls.len() && !list_before(ls, i - 1) {
            fences_run(ls, end + 1, out + fence_body_text(ls, i + 1, end, out.len() > 0))
        } else {
            fences_run(
                ls,
                i + 1,
                out + (if i > 0 {
                    seq!['\n']
                } else {
                    Seq::empty()
                }) + ls[i],
            )
        }
    }
}

/// The doc text with its fenced blocks converted.
pub open spec fn fences_converted(t: Seq<char>) -> Seq<char> {
    fences_run(lines_of(t), 0, Seq::empty())
}

pub proof fn lemma_fence_close(ls: Seq<Seq<char>>, k: int)
    requires
        0 <= k,
    ensures
        k <= fence_close(ls, k) || k > ls.len(),
        fence_close(ls, k) <= ls.len(),
    decreases ls.len() - k,
{
    if k < ls.len() && trim(ls[k]) != "```"@ {
        lemma_fence_close(ls, k + 1);
    }
}

/// Whether the fence at line `fence_idx` sits inside a list item: walking
/// back over blank and indented lines reaches a list item before an
/// unindented line.
pub fn fence_is_in_list_context(lines: &Vec<Vec<char>>, fence_idx: usize) -> (r: bool)
    requires
        fence_idx <= lines@.len(),
    ensures
        r == list_before(lines_view(lines@), fence_idx - 1),
{
    let ghost v = lines_view(lines@);
    let mut k = fence_idx;
    while k > 0
        invariant
            k <= fence_idx <= lines@.len(),
            v == lines_view(lines@),
            list_before(v, fence_idx - 1) == list_before(v, k - 1),
        decreases k,
    {
        k = k - 1;
        let line = &lines[k];
        assert(v[k as int] == line@);
        if is_blank_line(line) {
            continue;
        }
        let t = trim_start_chars(line);
        let dash = chars_of("-");
        if starts_with_str(&t, "- ") || crate::text::chars_eq(&t, &dash) || strip_ordered_list_prefix(&t).is_some() {
            return true;
        }
        if lead_byte_count(line) >= 2 {
            continue;
        }
        return false;
    }
    false
}

fn find_close(lines: &Vec<Vec<char>>, k: usize) -> (r: usize)
    requires
        k <= lines@.len(),
    ensures
        r == fence_close(lines_view(lines@), k as int),
        k <= r <= lines@.len(),
{
    let ghost v = lines_view(lines@);
    let fence = chars_of("```");
    let mut j = k;
    while j < lines.len()
        invariant
            k <= j <= lines@.len(),
            v == lines_view(lines@),
            fence@ == "```"@,
            fence_close(v, k as int) == fence_close(v, j as int),
        decreases lines@.len() - j,
    {
        assert(v[j as int] == lines@[j as int]@);
        let t = trimmed(&lines[j]);
        if crate::text::chars_eq(&t, &fence) {
            return j;
        }
        j = j + 1;
    }
    j
}

fn is_fence_open(t: &Vec<char>) -> (r: bool)
    ensures
        r == fence_open(t@),
{
    let fence = chars_of("```");
    if crate::text::chars_eq(t, &fence) {
        return true;
    }
    t.len() == 6 && starts_with_str(t, "```") && (t[3] == 'e' || t[3] == 'E') && (t[4] == 'l' || t[4] == 'L')
        && (t[5] == 'm' || t[5] == 'M')
}

/// Convert fenced code blocks to blocks indented by four spaces, dropping
/// the fences; fences inside list items, fences tagged with a language
/// other than `elm`, and fences with no closing line are kept.
pub fn normalize_fenced_code_blocks(text: &str) -> (r: String)
    ensures
        r@ == fences_converted(text@),
{
    let lines = split_lines(&chars_of(text));
    let ghost ls = lines_of(text@);
    assert(lines_view(lines@) =~= ls);
    let n = lines.len();
    let mut out: Vec<char> = Vec::new();
    let mut i: usize = 0;
    while i < n
        invariant
            i <= n,
            n == ls.len(),
            ls == lines_view(lines@),
            fences_run(ls, i as int, out@) == fences_converted(text@),
        decreases n - i,
    {
        let ghost o0 = out@;
        let ghost i0 = i as int;
        assert(ls[i as int] == lines@[i as int]@);
        let t = trimmed(&lines[i]);
        let end = find_close(&lines, i + 1);
        if is_fence_open(&t) && end < n && !fence_is_in_list_context(&lines, i) {
            let after_text = out.len() > 0;
            let ghost base = out@;
            let mut j = i + 1;
            while j < end
                invariant
                    i + 1 <= j <= end,
                    end < n,
                    n == ls.len(),
                    ls == lines_view(lines@),
                    after_text == (base.len() > 0),
                    out@ == base + fence_body_text(ls, i + 1, j as int, after_text),
                decreases end - j,
            {
                let ghost before = out@;
                if out.len() > 0 || j > i + 1 {
                    out.push('\n');
                }
                let l = &lines[j];
                assert(ls[j as int] == l@);
                if l.len() > 0 {
                    out.push(' ');
                    out.push(' ');
                    out.push(' ');
                    out.push(' ');
                    push_all(&mut out, l);
                }
                proof {
                    reveal_strlit("    ");
                    let mapped = ls.subrange(i + 1, j + 1).map_values(|x: Seq<char>| fenced_line(x));
                    assert(mapped.drop_last() =~= ls.subrange(i + 1, j as int).map_values(
                        |x: Seq<char>| fenced_line(x),
                    ));
                    assert(mapped.last() == fenced_line(l@));
                    if j == i + 1 {
                        assert(out@ =~= base + fence_body_text(ls, i + 1, j + 1, after_text));
                    } else {
                        assert(out@ =~= base + fence_body_text(ls, i + 1, j + 1, after_text));
                    }
                }
                j = j + 1;
            }
            i = end + 1;
        } else {
            if i > 0 {
                out.push('\n');
            }
            push_all(&mut out, &lines[i]);
            i = i + 1;
            assert(out@ =~= o0 + (if i0 > 0 {
                seq!['\n']
            } else {
                Seq::empty()
            }) + ls[i0]);
        }
    }
    string_of(&out)
}

} // verus!
