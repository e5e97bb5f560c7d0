//! Re-indentation of the continuation lines of a multi-line block comment.
//!
//! elm-format re-aligns the continuation lines of a multi-line block comment
//! (`{- ... -}`) so that their minimum indent sits at `{- column + 3`, the
//! column where content after `{- ` begins. The closing `-}` line is moved
//! to the `{-` column.

use vstd::prelude::*;

use super::spaces;
use crate::text::{
    all_ws, chars_of, count_leading, is_blank, join_lines, join_with_newlines, leading_count,
    lines_of, split_lines, string_of,
};

verus! {

/// The smallest count of leading spaces among the lines `1 .. n` of `ls`
/// that are not blank, if there is one.
pub open spec fn min_content_indent(ls: Seq<Seq<char>>, n: int) -> Option<nat>
    decreases n,
{
    if n <= 1 {
        None
    } else {
        let prev = min_content_indent(ls, n - 1);
        let l = ls[n - 1];
        if all_ws(l) {
            prev
        } else {
            let ind = leading_count(l, ' ');
            match prev {
                Some(m) => Some(if ind < m { ind } else { m }),
                None => Some(ind),
            }
        }
    }
}

/// The new indent of a continuation line that had `ind` leading spaces:
/// shifted so that the minimum `m` lands on `col + 3`, never below zero.
pub open spec fn shifted_indent(ind: nat, m: Option<nat>, col: nat) -> nat {
    match m {
        Some(m) => if ind + col + 3 >= m {
            (ind + col + 3 - m) as nat
        } else {
            0
        },
        None => ind,
    }
}

/// Line `i` of a block comment after re-indentation; `last` is the index of
/// the closing line.
pub open spec fn reindented_line(l: Seq<char>, i: int, last: int, m: Option<nat>, col: nat) -> Seq<
    char,
> {
    if i == 0 {
        l
    } else if i == last {
        spaces(col) + l.skip(leading_count(l, ' ') as int)
    } else if l.len() == 0 {
        l
    } else {
        let ind = leading_count(l, ' ');
        spaces(shifted_indent(ind, m, col)) + l.skip(ind as int)
    }
}

/// The text of a block comment whose `{-` stands at column `col`, with its
/// continuation lines re-indented (a one-line text is unchanged).
pub open spec fn reindented_block(t: Seq<char>, col: nat) -> Seq<char> {
    let ls = lines_of(t);
    if ls.len() <= 1 {
        t
    } else {
        let m = min_content_indent(ls, ls.len() - 1);
        join_lines(Seq::new(ls.len(), |i: int| reindented_line(ls[i], i, ls.len() - 1, m, col)))
    }
}

/// No line of a text is longer than the text.
pub proof fn lemma_line_len_bound(s: Seq<char>)
    ensures
        forall|i: int| 0 <= i < lines_of(s).len() ==> (#[trigger] lines_of(s)[i]).len() <= s.len(),
    decreases s.len(),
{
    if s.len() > 0 {
        lemma_line_len_bound(s.drop_last());
        crate::text::lemma_lines_nonempty(s.drop_last());
    }
}

/// A leading run of a character is no longer than the text.
proof fn lemma_leading_le(s: Seq<char>, c: char)
    ensures
        leading_count(s, c) <= s.len(),
    decreases s.len(),
{
    if s.len() > 0 && s[0] == c {
        lemma_leading_le(s.drop_first(), c);
    }
}

fn push_spaces(out: &mut Vec<char>, n: usize)
    ensures
        final(out)@ == old(out)@ + spaces(n as nat),
{
    let mut k: usize = 0;
    while k < n
        invariant
            k <= n,
            out@ == old(out)@ + spaces(k as nat),
        decreases n - k,
    {
        out.push(' ');
        assert(out@ =~= old(out)@ + spaces((k + 1) as nat));
        k = k + 1;
    }
}

fn push_from(out: &mut Vec<char>, v: &Vec<char>, from: usize)
    requires
        from <= v@.len(),
    ensures
        final(out)@ == old(out)@ + v@.skip(from as int),
{
    let mut k: usize = from;
    while k < v.len()
        invariant
            from <= k <= v@.len(),
            out@ == old(out)@ + v@.subrange(from as int, k as int),
        decreases v@.len() - k,
    {
        out.push(v[k]);
        assert(out@ =~= old(out)@ + v@.subrange(from as int, k + 1));
        k = k + 1;
    }
    assert(v@.subrange(from as int, k as int) =~= v@.skip(from as int));
}

/// Re-indent a multi-line block comment's text for a `{-` written at
/// column `brace_col`.
pub fn reindent_block_comment(text: &str, brace_col: usize) -> (r: String)
    requires
        brace_col + 3 + text@.len() <= usize::MAX,
    ensures
        r@ == reindented_block(text@, brace_col as nat),
{
    let chars = chars_of(text);
    let lines = split_lines(&chars);
    let ghost ls = lines_of(text@);
    proof {
        lemma_line_len_bound(text@);
    }
    if lines.len() <= 1 {
        return text.to_owned();
    }
    let last = lines.len() - 1;
    let mut min_indent: Option<usize> = None;
    let mut i: usize = 1;
    while i < last
        invariant
            1 <= i <= last,
            last == lines@.len() - 1,
            lines@.len() == ls.len(),
            forall|k: int| 0 <= k < lines@.len() ==> (#[trigger] lines@[k])@ == ls[k],
            match min_indent {
                Some(m) => min_content_indent(ls, i as int) == Some(m as nat),
                None => min_content_indent(ls, i as int) is None,
            },
        decreases last - i,
    {
        if !is_blank(&lines[i]) {
            let ind = count_leading(&lines[i], ' ');
            min_indent = match min_indent {
                Some(m) => Some(if ind < m { ind } else { m }),
                None => Some(ind),
            };
        }
        i = i + 1;
    }
    let ghost m: Option<nat> = min_content_indent(ls, last as int);
    let target = brace_col + 3;
    let mut out: Vec<Vec<char>> = Vec::new();
    let mut j: usize = 0;
    while j < lines.len()
        invariant
            j <= lines@.len(),
            last == lines@.len() - 1,
            lines@.len() == ls.len(),
            target == brace_col + 3,
            brace_col + 3 + text@.len() <= usize::MAX,
            forall|k: int| 0 <= k < ls.len() ==> (#[trigger] ls[k]).len() <= text@.len(),
            forall|k: int| 0 <= k < lines@.len() ==> (#[trigger] lines@[k])@ == ls[k],
            match min_indent {
                Some(mi) => m == Some(mi as nat),
                None => m is None,
            },
            out@.len() == j,
            forall|k: int| 0 <= k < j ==> (#[trigger] out@[k])@ == reindented_line(ls[k], k, last as int, m, brace_col as nat),
        decreases lines@.len() - j,
    {
        let line = &lines[j];
        let mut nl: Vec<char> = Vec::new();
        if j == 0 {
            push_from(&mut nl, line, 0);
            assert(line@.skip(0) =~= line@);
        } else if j == last {
            let ind = count_leading(line, ' ');
            push_spaces(&mut nl, brace_col);
            push_from(&mut nl, line, ind);
        } else if line.len() == 0 {
            assert(nl@ =~= ls[j as int]);
        } else {
            let ind = count_leading(line, ' ');
            let new_ind = match min_indent {
                Some(mi) => {
                    if ind + target >= mi {
                        ind + target - mi
                    } else {
                        0
                    }
                },
                None => ind,
            };
            push_spaces(&mut nl, new_ind);
            push_from(&mut nl, line, ind);
        }
        out.push(nl);
        proof {
            assert forall|k: int| 0 <= k < j + 1 implies (#[trigger] out@[k])@ == reindented_line(
                ls[k],
                k,
                last as int,
                m,
                brace_col as nat,
            ) by {
                if k == j {
                    assert(out@[k] == nl);
                }
            }
        }
        j = j + 1;
    }
    let joined = join_with_newlines(&out);
    proof {
        let mapped = out@.map_values(|l: Vec<char>| l@);
        let want = Seq::new(ls.len(), |k: int| reindented_line(ls[k], k, ls.len() - 1, m, brace_col as nat));
        assert(mapped =~= want);
    }
    string_of(&joined)
}

} // verus!
