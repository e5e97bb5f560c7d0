//! Small whole-text clean-ups of documentation comments: trailing
//! whitespace, empty link references, blank lines before link references
//! and before `@docs` lines.

use vstd::prelude::*;

use super::lines::{join_to_string, starts_with, starts_with_str, trim_start_chars};
use crate::text::{all_ws, chars_of, is_blank, join_lines, lines_of, split_lines, string_of, trim_end, trim_start, trimmed_end};

verus! {

/// The text with trailing whitespace removed from every line but the last.
pub open spec fn trailing_stripped(t: Seq<char>) -> Seq<char> {
    let ls = lines_of(t);
    join_lines(Seq::new(ls.len(), |i: int| if i == ls.len() - 1 { ls[i] } else { trim_end(ls[i]) }))
}

/// Strip trailing whitespace from every line of a doc comment but the last
/// (which stands before `-}`).
pub fn strip_trailing_whitespace_in_doc(text: &str) -> (r: String)
    ensures
        r@ == trailing_stripped(text@),
{
    let lines = split_lines(&chars_of(text));
    let ghost ls = lines_of(text@);
    let n = lines.len();
    let mut out: Vec<Vec<char>> = Vec::new();
    let mut i: usize = 0;
    while i < n
        invariant
            i <= n,
            n == lines@.len(),
            lines@.len() == ls.len(),
            forall|k: int| 0 <= k < n ==> (#[trigger] lines@[k])@ == ls[k],
            out@.len() == i,
            forall|k: int| 0 <= k < i ==> (#[trigger] out@[k])@ == (if k == ls.len() - 1 { ls[k] } else { trim_end(ls[k]) }),
        decreases n - i,
    {
        if i == n - 1 {
            out.push(crate::text::chars_range(&lines[i], 0, lines[i].len()));
            assert(lines@[i as int]@.subrange(0, lines@[i as int]@.len() as int) =~= lines@[i as int]@);
        } else {
            out.push(trimmed_end(&lines[i]));
        }
        i = i + 1;
    }
    proof {
        assert(out@.map_values(|l: Vec<char>| l@) =~= Seq::new(ls.len(), |k: int| if k == ls.len() - 1 { ls[k] } else { trim_end(ls[k]) }));
    }
    join_to_string(&out)
}

/// The text with every `][]` replaced by `]`, scanning from the left.
pub open spec fn without_empty_refs(s: Seq<char>) -> Seq<char>
    decreases s.len(),
{
    if s.len() == 0 {
        s
    } else if s.len() >= 3 && s[0] == ']' && s[1] == '[' && s[2] == ']' {
        seq![']'] + without_empty_refs(s.skip(3))
    } else {
        seq![s[0]] + without_empty_refs(s.skip(1))
    }
}

/// `][]` stands at `k` in `s`.
pub open spec fn empty_ref_at(s: Seq<char>, k: int) -> bool {
    s[k] == ']' && s[k + 1] == '[' && s[k + 2] == ']'
}

/// Only `[]` right after `]` is removed: a text without `][]` is left as
/// it is.
pub proof fn empty_refs_only_touch_bracket_pairs(s: Seq<char>)
    requires
        forall|k: int| 0 <= k && k + 2 < s.len() ==> !#[trigger] empty_ref_at(s, k),
    ensures
        without_empty_refs(s) == s,
    decreases s.len(),
{
    if s.len() > 0 {
        if s.len() >= 3 {
            assert(!empty_ref_at(s, 0));
        }
        let rest = s.skip(1);
        assert forall|k: int| 0 <= k && k + 2 < rest.len() implies !#[trigger] empty_ref_at(rest, k) by {
            assert(rest[k] == s[k + 1] && rest[k + 1] == s[k + 2] && rest[k + 2] == s[k + 3]);
            assert(!empty_ref_at(s, k + 1));
        }
        empty_refs_only_touch_bracket_pairs(rest);
        assert(s =~= seq![s[0]] + rest);
    }
}

/// Turn empty link references `[text][]` into `[text]`.
pub fn normalize_empty_link_refs(text: &str) -> (r: String)
    ensures
        r@ == without_empty_refs(text@),
{
    let v = chars_of(text);
    let mut out: Vec<char> = Vec::new();
    let mut i: usize = 0;
    assert(v@.skip(0) =~= v@);
    while i < v.len()
        invariant
            i <= v@.len(),
            out@ + without_empty_refs(v@.skip(i as int)) == without_empty_refs(v@),
        decreases v@.len() - i,
    {
        if v.len() - i >= 3 && v[i] == ']' && v[i + 1] == '[' && v[i + 2] == ']' {
            out.push(']');
            proof {
                assert(v@.skip(i as int).skip(3) =~= v@.skip(i + 3));
                assert(out@ + without_empty_refs(v@.skip(i + 3)) =~= (out@.drop_last() + seq![']']) + without_empty_refs(v@.skip(i + 3)));
            }
            i = i + 3;
        } else {
            out.push(v[i]);
            proof {
                assert(v@.skip(i as int).skip(1) =~= v@.skip(i + 1));
                assert(v@.skip(i as int)[0] == v@[i as int]);
            }
            i = i + 1;
        }
    }
    proof {
        assert(v@.skip(i as int) =~= Seq::<char>::empty());
        assert(out@ =~= without_empty_refs(v@));
    }
    string_of(&out)
}

/// A blank line is needed above line `idx` when it is an `@docs` line right
/// after a line of prose.
pub open spec fn needs_blank_before_docs(ls: Seq<Seq<char>>, idx: int) -> bool {
    let t = trim_start(ls[idx]);
    let prev = ls[idx - 1];
    let pt = trim_start(prev);
    &&& idx > 0
    &&& starts_with(t, "@docs"@)
    &&& !all_ws(prev)
    &&& !starts_with(pt, "@docs"@)
    &&& !starts_with(pt, "#"@)
    &&& !starts_with(pt, "- "@)
    &&& !starts_with(pt, "* "@)
    &&& !starts_with(pt, "\\* "@)
    &&& !starts_with(prev, "    "@)
    &&& !starts_with(pt, "```"@)
}

/// The first `k` lines with the blank lines inserted above `@docs` lines.
pub open spec fn docs_spaced_lines(ls: Seq<Seq<char>>, k: int) -> Seq<Seq<char>>
    decreases k,
{
    if k <= 0 {
        Seq::empty()
    } else {
        docs_spaced_lines(ls, k - 1) + if needs_blank_before_docs(ls, k - 1) {
            seq![Seq::<char>::empty(), ls[k - 1]]
        } else {
            seq![ls[k - 1]]
        }
    }
}

/// The text with a blank line between prose and a following `@docs` line.
pub open spec fn docs_spaced(t: Seq<char>) -> Seq<char> {
    join_lines(docs_spaced_lines(lines_of(t), lines_of(t).len() as int))
}

/// Whether line `idx` needs a blank line above it (an `@docs` line after
/// prose).
fn blank_needed_before_docs(lines: &Vec<Vec<char>>, idx: usize) -> (r: bool)
    requires
        idx < lines@.len(),
    ensures
        r == needs_blank_before_docs(lines@.map_values(|l: Vec<char>| l@), idx as int),
{
    let ghost ls = lines@.map_values(|l: Vec<char>| l@);
    let t = trim_start_chars(&lines[idx]);
    if idx == 0 || !starts_with_str(&t, "@docs") {
        return false;
    }
    let prev = &lines[idx - 1];
    let pt = trim_start_chars(prev);
    !is_blank(prev) && !starts_with_str(&pt, "@docs") && !starts_with_str(&pt, "#") && !starts_with_str(&pt, "- ")
        && !starts_with_str(&pt, "* ") && !starts_with_str(&pt, "\\* ") && !starts_with_str(prev, "    ")
        && !starts_with_str(&pt, "```")
}

/// Put a blank line between a paragraph of prose and a following `@docs`
/// line.
pub fn ensure_blank_before_docs_after_prose(text: &str) -> (r: String)
    ensures
        r@ == docs_spaced(text@),
{
    let lines = split_lines(&chars_of(text));
    let ghost ls = lines_of(text@);
    proof {
        assert(lines@.map_values(|l: Vec<char>| l@) =~= ls);
    }
    let mut out: Vec<Vec<char>> = Vec::new();
    let mut i: usize = 0;
    while i < lines.len()
        invariant
            i <= lines@.len(),
            lines@.map_values(|l: Vec<char>| l@) == ls,
            out@.map_values(|l: Vec<char>| l@) == docs_spaced_lines(ls, i as int),
        decreases lines@.len() - i,
    {
        let ghost before = out@;
        if blank_needed_before_docs(&lines, i) {
            out.push(Vec::new());
        }
        out.push(crate::text::chars_range(&lines[i], 0, lines[i].len()));
        proof {
            assert(lines@[i as int]@.subrange(0, lines@[i as int]@.len() as int) =~= ls[i as int]);
            assert(out@.map_values(|l: Vec<char>| l@) =~= docs_spaced_lines(ls, i + 1));
        }
        i = i + 1;
    }
    join_to_string(&out)
}

} // verus!
