//! Spacing before indented code blocks of declarations that end in a
//! trailing `-- comment` line: elm-format separates such a block from the
//! paragraph before it by two blank lines instead of one.

use vstd::prelude::*;

use super::super::exposing_layout::utf8_len;
use super::lines::{join_to_string, starts_with, starts_with_str, trim_start_chars};
use crate::text::{all_ws, chars_of, chars_range, is_blank, join_lines, lines_of, split_lines, trim_start};

verus! {

/// An ASCII lower-case letter.
pub open spec fn is_lower(c: char) -> bool {
    'a' <= c && c <= 'z'
}

/// A character that continues an identifier.
pub open spec fn is_ident_char(c: char) -> bool {
    ('a' <= c && c <= 'z') || ('A' <= c && c <= 'Z') || ('0' <= c && c <= '9') || c == '_' || c == '\''
}

/// The number of identifier characters at the start of `s`.
pub open spec fn ident_run(s: Seq<char>) -> nat
    decreases s.len(),
{
    if s.len() > 0 && is_ident_char(s[0]) {
        1 + ident_run(s.drop_first())
    } else {
        0
    }
}

/// Scanning `s` from `j` with bracket counts and string/char state: an `=`
/// outside brackets, strings and characters that is not part of `==`, `/=`,
/// `>=` or `<=`.
pub open spec fn top_level_eq(
    s: Seq<char>,
    j: int,
    opens_r: int,
    closes_r: int,
    opens_s: int,
    closes_s: int,
    opens_c: int,
    closes_c: int,
    in_str: bool,
    in_chr: bool,
) -> bool
    decreases s.len() - j,
{
    if j < 0 || j >= s.len() {
        false
    } else {
        let b = s[j];
        if in_str || in_chr {
            if b == '\\' && j + 1 < s.len() {
                top_level_eq(s, j + 2, opens_r, closes_r, opens_s, closes_s, opens_c, closes_c, in_str, in_chr)
            } else if in_str && b == '"' {
                top_level_eq(s, j + 1, opens_r, closes_r, opens_s, closes_s, opens_c, closes_c, false, in_chr)
            } else if !in_str && b == '\'' {
                top_level_eq(s, j + 1, opens_r, closes_r, opens_s, closes_s, opens_c, closes_c, in_str, false)
            } else {
                top_level_eq(s, j + 1, opens_r, closes_r, opens_s, closes_s, opens_c, closes_c, in_str, in_chr)
            }
        } else if b == '"' {
            top_level_eq(s, j + 1, opens_r, closes_r, opens_s, closes_s, opens_c, closes_c, true, in_chr)
        } else if b == '\'' {
            top_level_eq(s, j + 1, opens_r, closes_r, opens_s, closes_s, opens_c, closes_c, in_str, true)
        } else if b == '(' {
            top_level_eq(s, j + 1, opens_r + 1, closes_r, opens_s, closes_s, opens_c, closes_c, in_str, in_chr)
        } else if b == ')' {
            top_level_eq(s, j + 1, opens_r, closes_r + 1, opens_s, closes_s, opens_c, closes_c, in_str, in_chr)
        } else if b == '[' {
            top_level_eq(s, j + 1, opens_r, closes_r, opens_s + 1, closes_s, opens_c, closes_c, in_str, in_chr)
        } else if b == ']' {
            top_level_eq(s, j + 1, opens_r, closes_r, opens_s, closes_s + 1, opens_c, closes_c, in_str, in_chr)
        } else if b == '{' {
            top_level_eq(s, j + 1, opens_r, closes_r, opens_s, closes_s, opens_c + 1, closes_c, in_str, in_chr)
        } else if b == '}' {
            top_level_eq(s, j + 1, opens_r, closes_r, opens_s, closes_s, opens_c, closes_c + 1, in_str, in_chr)
        } else if b == '=' && opens_r == closes_r && opens_s == closes_s && opens_c == closes_c {
            let prev = if j > 0 {
                s[j - 1]
            } else {
                ' '
            };
            let next = if j + 1 < s.len() {
                s[j + 1]
            } else {
                ' '
            };
            if prev != '=' && prev != '/' && prev != '>' && prev != '<' && next != '=' {
                true
            } else {
                top_level_eq(s, j + 1, opens_r, closes_r, opens_s, closes_s, opens_c, closes_c, in_str, in_chr)
            }
        } else {
            top_level_eq(s, j + 1, opens_r, closes_r, opens_s, closes_s, opens_c, closes_c, in_str, in_chr)
        }
    }
}

/// A line (already trimmed at the start) that looks like an Elm top-level
/// declaration: a type, alias, port or infix declaration, a type
/// annotation `name : ...`, or a binding `name args = ...`.
pub open spec fn looks_like_decl(l: Seq<char>) -> bool {
    if starts_with(l, "type "@) || starts_with(l, "type alias "@) || starts_with(l, "port "@) || starts_with(
        l,
        "infix "@,
    ) {
        true
    } else if l.len() == 0 || !(is_lower(l[0]) || l[0] == '_') {
        false
    } else {
        let rest = l.skip((1 + ident_run(l.drop_first())) as int);
        starts_with(rest, " : "@) || rest == " :"@ || top_level_eq(rest, 0, 0, 0, 0, 0, 0, 0, false, false)
    }
}

proof fn lemma_ident_run(s: Seq<char>, i: int)
    requires
        0 <= i <= s.len(),
        forall|k: int| 0 <= k < i ==> is_ident_char(#[trigger] s[k]),
        i == s.len() || !is_ident_char(s[i]),
    ensures
        ident_run(s) == i,
    decreases i,
{
    if i > 0 {
        lemma_ident_run(s.drop_first(), i - 1);
    }
}

/// Whether a line (trimmed at the start) looks like a declaration.
pub fn looks_like_code_block_decl(line: &Vec<char>) -> (r: bool)
    ensures
        r == looks_like_decl(line@),
{
    if starts_with_str(line, "type ") || starts_with_str(line, "type alias ") || starts_with_str(line, "port ")
        || starts_with_str(line, "infix ") {
        return true;
    }
    if line.len() == 0 {
        return false;
    }
    let first = line[0];
    if !(('a' <= first && first <= 'z') || first == '_') {
        return false;
    }
    let mut idx: usize = 1;
    while idx < line.len() && is_ident(line[idx])
        invariant
            1 <= idx <= line@.len(),
            forall|k: int| 1 <= k < idx ==> is_ident_char(#[trigger] line@[k]),
        decreases line@.len() - idx,
    {
        idx = idx + 1;
    }
    proof {
        let d = line@.drop_first();
        assert forall|k: int| 0 <= k < idx - 1 implies is_ident_char(#[trigger] d[k]) by {
            assert(d[k] == line@[k + 1]);
        }
        if idx < line@.len() {
            assert(d[idx - 1] == line@[idx as int]);
        }
        lemma_ident_run(d, idx - 1);
    }
    let rest = chars_range(line, idx, line.len());
    assert(rest@ =~= line@.skip((1 + ident_run(line@.drop_first())) as int));
    if starts_with_str(&rest, " : ") {
        return true;
    }
    let colon = chars_of(" :");
    if crate::text::chars_eq(&rest, &colon) {
        return true;
    }
    has_top_level_eq(&rest)
}

fn is_ident(c: char) -> (r: bool)
    ensures
        r == is_ident_char(c),
{
    ('a' <= c && c <= 'z') || ('A' <= c && c <= 'Z') || ('0' <= c && c <= '9') || c == '_' || c == '\''
}

fn has_top_level_eq(s: &Vec<char>) -> (r: bool)
    ensures
        r == top_level_eq(s@, 0, 0, 0, 0, 0, 0, 0, false, false),
{
    let n = s.len();
    let mut j: usize = 0;
    let mut opens_r: usize = 0;
    let mut closes_r: usize = 0;
    let mut opens_s: usize = 0;
    let mut closes_s: usize = 0;
    let mut opens_c: usize = 0;
    let mut closes_c: usize = 0;
    let mut in_str = false;
    let mut in_chr = false;
    while j < n
        invariant
            n == s@.len(),
            j <= n + 1,
            opens_r + closes_r + opens_s + closes_s + opens_c + closes_c <= j,
            top_level_eq(s@, 0, 0, 0, 0, 0, 0, 0, false, false) == top_level_eq(
                s@,
                j as int,
                opens_r as int,
                closes_r as int,
                opens_s as int,
                closes_s as int,
                opens_c as int,
                closes_c as int,
                in_str,
                in_chr,
            ),
        decreases n + 1 - j,
    {
        let b = s[j];
        if in_str || in_chr {
            if b == '\\' && j + 1 < n {
                j = j + 2;
            } else if in_str && b == '"' {
                in_str = false;
                j = j + 1;
            } else if !in_str && b == '\'' {
                in_chr = false;
                j = j + 1;
            } else {
                j = j + 1;
            }
        } else if b == '"' {
            in_str = true;
            j = j + 1;
        } else if b == '\'' {
            in_chr = true;
            j = j + 1;
        } else if b == '(' {
            opens_r = opens_r + 1;
            j = j + 1;
        } else if b == ')' {
            closes_r = closes_r + 1;
            j = j + 1;
        } else if b == '[' {
            opens_s = opens_s + 1;
            j = j + 1;
        } else if b == ']' {
            closes_s = closes_s + 1;
            j = j + 1;
        } else if b == '{' {
            opens_c = opens_c + 1;
            j = j + 1;
        } else if b == '}' {
            closes_c = closes_c + 1;
            j = j + 1;
        } else if b == '=' && opens_r == closes_r && opens_s == closes_s && opens_c == closes_c {
            let prev = if j > 0 {
                s[j - 1]
            } else {
                ' '
            };
            let next = if j + 1 < n {
                s[j + 1]
            } else {
                ' '
            };
            if prev != '=' && prev != '/' && prev != '>' && prev != '<' && next != '=' {
                return true;
            }
            j = j + 1;
        } else {
            j = j + 1;
        }
    }
    false
}

/// A line that continues an indented code block: blank or indented by
/// four spaces.
pub open spec fn block_line(l: Seq<char>) -> bool {
    all_ws(l) || starts_with(l, "    "@)
}

/// Line `i` starts an indented code block: indented, not blank, and first
/// or after a blank line.
pub open spec fn starts_code(ls: Seq<Seq<char>>, i: int) -> bool {
    starts_with(ls[i], "    "@) && !all_ws(ls[i]) && (i == 0 || all_ws(ls[i - 1]))
}

/// The last line of the code block that reaches line `e`.
pub open spec fn block_end_from(ls: Seq<Seq<char>>, e: int) -> int
    decreases ls.len() - e,
{
    if 0 <= e && e + 1 < ls.len() && block_line(ls[e + 1]) {
        block_end_from(ls, e + 1)
    } else {
        e
    }
}

/// The last non-blank line of the block `s ..= e`.
pub open spec fn last_nonblank_back(ls: Seq<Seq<char>>, s: int, e: int) -> int
    decreases e - s,
{
    if e > s && all_ws(ls[e]) {
        last_nonblank_back(ls, s, e - 1)
    } else {
        e
    }
}

/// The number of bytes of a line's leading whitespace.
pub open spec fn lead_bytes(l: Seq<char>) -> nat {
    utf8_len(l.take(l.len() - trim_start(l).len()))
}

/// The lines `k ..= e` at the block's base indent (four bytes), other than
/// comments, all look like declarations, and some line from the block's
/// start does (`saw`).
pub open spec fn decl_lines(ls: Seq<Seq<char>>, k: int, e: int, saw: bool) -> bool
    decreases e - k + 1,
{
    if k > e || k < 0 || e >= ls.len() {
        saw
    } else {
        let l = ls[k];
        let t = trim_start(l);
        if all_ws(l) || lead_bytes(l) != 4 || starts_with(t, "--"@) {
            decl_lines(ls, k + 1, e, saw)
        } else if looks_like_decl(t) {
            decl_lines(ls, k + 1, e, true)
        } else {
            false
        }
    }
}

/// The block `s ..= e` is a run of declarations capped by a trailing
/// `-- comment` at its base indent, and does not start with an import.
pub open spec fn block_marked(ls: Seq<Seq<char>>, s: int, e: int) -> bool {
    let lnb = last_nonblank_back(ls, s, e);
    let last = ls[lnb];
    &&& lead_bytes(last) == 4
    &&& starts_with(trim_start(last), "--"@)
    &&& !starts_with(trim_start(ls[s]), "import "@)
    &&& decl_lines(ls, s, lnb, false)
}

/// The starts of the marked code blocks from line `i` on.
pub open spec fn mark_scan(ls: Seq<Seq<char>>, i: int) -> Seq<int>
    decreases ls.len() - i,
{
    if i < 0 || i >= ls.len() {
        Seq::empty()
    } else if starts_code(ls, i) {
        let e = block_end_from(ls, i);
        if i <= e < ls.len() {
            (if block_marked(ls, i, e) {
                seq![i]
            } else {
                Seq::empty()
            }) + mark_scan(ls, e + 1)
        } else {
            Seq::empty()
        }
    } else {
        mark_scan(ls, i + 1)
    }
}

/// A line of prose before a code block: not blank, not indented, not a
/// heading, list item, `@docs` line or fence.
pub open spec fn prose_before(l: Seq<char>) -> bool {
    &&& !all_ws(l)
    &&& !starts_with(l, " "@)
    &&& !starts_with(l, "\t"@)
    &&& !starts_with(l, "#"@)
    &&& !starts_with(l, "- "@)
    &&& !starts_with(l, "* "@)
    &&& !starts_with(l, "\\* "@)
    &&& !starts_with(l, "@docs "@)
    &&& !starts_with(l, "```"@)
}

/// The first `k` output lines: a marked block right after a blank line
/// that follows prose gets one more blank line, unless two are already
/// there.
pub open spec fn spaced_before_blocks(ls: Seq<Seq<char>>, marks: Seq<int>, k: int) -> Seq<Seq<char>>
    decreases k,
{
    if k <= 0 {
        Seq::empty()
    } else {
        let out = spaced_before_blocks(ls, marks, k - 1);
        let i = k - 1;
        let add = marks.contains(i) && i >= 2 && all_ws(ls[i - 1]) && prose_before(ls[i - 2]) && !(out.len()
            >= 2 && all_ws(out[out.len() - 1]) && all_ws(out[out.len() - 2]));
        (if add {
            out.push(Seq::empty())
        } else {
            out
        }).push(ls[i])
    }
}

/// The text with the extra blank line before marked code blocks.
pub open spec fn blank_before_commented_blocks(t: Seq<char>) -> Seq<char> {
    let ls = lines_of(t);
    join_lines(spaced_before_blocks(ls, mark_scan(ls, 0), ls.len() as int))
}

proof fn lemma_block_end(ls: Seq<Seq<char>>, e: int)
    requires
        0 <= e < ls.len(),
    ensures
        e <= block_end_from(ls, e) < ls.len(),
    decreases ls.len() - e,
{
    if e + 1 < ls.len() && block_line(ls[e + 1]) {
        lemma_block_end(ls, e + 1);
    }
}

proof fn lemma_last_nonblank(ls: Seq<Seq<char>>, s: int, e: int)
    requires
        s <= e,
    ensures
        s <= last_nonblank_back(ls, s, e) <= e,
    decreases e - s,
{
    if e > s && all_ws(ls[e]) {
        lemma_last_nonblank(ls, s, e - 1);
    }
}

proof fn lemma_mark_scan_range(ls: Seq<Seq<char>>, i: int, x: int)
    requires
        mark_scan(ls, i).contains(x),
    ensures
        i <= x < ls.len(),
    decreases ls.len() - i,
{
    if 0 <= i < ls.len() {
        if starts_code(ls, i) {
            let e = block_end_from(ls, i);
            lemma_block_end(ls, i);
            let head = if block_marked(ls, i, e) {
                seq![i]
            } else {
                Seq::<int>::empty()
            };
            let tail = mark_scan(ls, e + 1);
            assert(mark_scan(ls, i) == head + tail);
            if !head.contains(x) {
                let k = choose|k: int| 0 <= k < (head + tail).len() && (head + tail)[k] == x;
                assert(tail[k - head.len()] == x);
                lemma_mark_scan_range(ls, e + 1, x);
            }
        } else {
            lemma_mark_scan_range(ls, i + 1, x);
        }
    }
}

proof fn lemma_utf8_len_mono(s: Seq<char>, i: int, j: int)
    requires
        0 <= i <= j <= s.len(),
    ensures
        utf8_len(s.take(i)) <= utf8_len(s.take(j)),
    decreases j - i,
{
    if i < j {
        lemma_utf8_len_mono(s, i, j - 1);
        assert(s.take(j).drop_last() =~= s.take(j - 1));
    }
}

/// Whether a line's leading whitespace takes four bytes.
fn lead_bytes_is_four(l: &Vec<char>) -> (r: bool)
    ensures
        r == (lead_bytes(l@) == 4),
{
    let t = trim_start_chars(l);
    proof {
        crate::text::lemma_trim_start_suffix(l@);
    }
    let lead = chars_range(l, 0, l.len() - t.len());
    assert(lead@ =~= l@.take(l@.len() - trim_start(l@).len()));
    let mut sum: usize = 0;
    let mut i: usize = 0;
    while i < lead.len()
        invariant
            i <= lead@.len(),
            lead@ == l@.take(l@.len() - trim_start(l@).len()),
            sum == utf8_len(lead@.take(i as int)),
            sum <= 4,
        decreases lead@.len() - i,
    {
        let c = lead[i];
        let w: usize = if (c as u32) < 0x80 {
            1
        } else if (c as u32) < 0x800 {
            2
        } else if (c as u32) < 0x10000 {
            3
        } else {
            4
        };
        assert(lead@.take(i + 1).drop_last() =~= lead@.take(i as int));
        assert(lead@.take(i + 1).last() == c);
        assert(utf8_len(lead@.take(i + 1)) == sum + w);
        if sum + w > 4 {
            proof {
                lemma_utf8_len_mono(lead@, i + 1, lead@.len() as int);
                assert(lead@.take(lead@.len() as int) =~= lead@);
            }
            return false;
        }
        sum = sum + w;
        i = i + 1;
    }
    assert(lead@.take(i as int) =~= lead@);
    sum == 4
}

/// Whether the block `s ..= e` is marked.
fn is_block_marked(lines: &Vec<Vec<char>>, s: usize, e: usize) -> (r: bool)
    requires
        s <= e < lines@.len(),
    ensures
        r == block_marked(lines@.map_values(|l: Vec<char>| l@), s as int, e as int),
{
    let ghost ls = lines@.map_values(|l: Vec<char>| l@);
    let mut lnb = e;
    while lnb > s && is_blank(&lines[lnb])
        invariant
            s <= lnb <= e,
            e < lines@.len(),
            ls == lines@.map_values(|l: Vec<char>| l@),
            last_nonblank_back(ls, s as int, e as int) == last_nonblank_back(ls, s as int, lnb as int),
        decreases lnb,
    {
        assert(ls[lnb as int] == lines@[lnb as int]@);
        lnb = lnb - 1;
    }
    proof {
        assert(ls[lnb as int] == lines@[lnb as int]@);
        assert(ls[s as int] == lines@[s as int]@);
    }
    let last = &lines[lnb];
    let last_t = trim_start_chars(last);
    let first_t = trim_start_chars(&lines[s]);
    if !lead_bytes_is_four(last) || !starts_with_str(&last_t, "--") || starts_with_str(&first_t, "import ") {
        return false;
    }
    let mut saw = false;
    let nlines = lines.len();
    let mut k = s;
    while k <= lnb
        invariant
            nlines == lines@.len(),
            s <= k <= lnb + 1,
            lnb as int == last_nonblank_back(ls, s as int, e as int),
            lead_bytes(ls[lnb as int]) == 4,
            starts_with(trim_start(ls[lnb as int]), "--"@),
            !starts_with(trim_start(ls[s as int]), "import "@),
            lnb <= e,
            e < lines@.len(),
            ls == lines@.map_values(|l: Vec<char>| l@),
            decl_lines(ls, s as int, lnb as int, false) == decl_lines(ls, k as int, lnb as int, saw),
        decreases lnb + 1 - k,
    {
        let l = &lines[k];
        assert(ls[k as int] == l@);
        if is_blank(l) {
            k = k + 1;
            continue;
        }
        if !lead_bytes_is_four(l) {
            k = k + 1;
            continue;
        }
        let t = trim_start_chars(l);
        if starts_with_str(&t, "--") {
            k = k + 1;
            continue;
        }
        if looks_like_code_block_decl(&t) {
            saw = true;
        } else {
            return false;
        }
        k = k + 1;
    }
    saw
}

fn is_prose_before(l: &Vec<char>) -> (r: bool)
    ensures
        r == prose_before(l@),
{
    !is_blank(l) && !starts_with_str(l, " ") && !starts_with_str(l, "\t") && !starts_with_str(l, "#")
        && !starts_with_str(l, "- ") && !starts_with_str(l, "* ") && !starts_with_str(l, "\\* ")
        && !starts_with_str(l, "@docs ") && !starts_with_str(l, "```")
}

/// Give an indented code block of declarations that ends in a trailing
/// `-- comment` line two blank lines (instead of one) after the paragraph
/// before it.
pub fn ensure_blank_before_code_block_with_trailing_comment(text: &str) -> (r: String)
    ensures
        r@ == blank_before_commented_blocks(text@),
{
    let lines = split_lines(&chars_of(text));
    let ghost ls = lines_of(text@);
    proof {
        assert(lines@.map_values(|l: Vec<char>| l@) =~= ls);
    }
    let n = lines.len();
    let mut marked: Vec<bool> = Vec::new();
    let mut q: usize = 0;
    while q < n
        invariant
            q <= n,
            marked@.len() == q,
            forall|k: int| 0 <= k < q ==> !marked@[k],
        decreases n - q,
    {
        marked.push(false);
        q = q + 1;
    }
    let ghost mut found: Seq<int> = Seq::empty();
    let mut i: usize = 0;
    while i < n
        invariant
            i <= n,
            n == ls.len(),
            lines@.map_values(|l: Vec<char>| l@) == ls,
            marked@.len() == n,
            mark_scan(ls, 0) == found + mark_scan(ls, i as int),
            forall|k: int| 0 <= k < n ==> marked@[k] == found.contains(k),
            forall|x: int| found.contains(x) ==> x < i,
        decreases n - i,
    {
        let line = &lines[i];
        assert(ls[i as int] == line@);
        if i > 0 {
            assert(ls[i - 1] == lines@[i - 1]@);
        }
        let starts = starts_with_str(line, "    ") && !is_blank(line) && (i == 0 || is_blank(&lines[i - 1]));
        if !starts {
            i = i + 1;
            continue;
        }
        let mut e = i;
        while e + 1 < n && (is_blank(&lines[e + 1]) || starts_with_str(&lines[e + 1], "    "))
            invariant
                i <= e < n,
                n == ls.len(),
                lines@.map_values(|l: Vec<char>| l@) == ls,
                block_end_from(ls, i as int) == block_end_from(ls, e as int),
            decreases n - e,
        {
            assert(ls[e + 1] == lines@[e + 1]@);
            e = e + 1;
        }
        proof {
            if e + 1 < n {
                assert(ls[e + 1] == lines@[e + 1]@);
            }
        }
        let m = is_block_marked(&lines, i, e);
        proof {
            lemma_block_end(ls, i as int);
        }
        if m {
            marked.set(i, true);
            proof {
                let old_found = found;
                found = found.push(i as int);
                assert(mark_scan(ls, i as int) == seq![i as int] + mark_scan(ls, e + 1));
                assert(found + mark_scan(ls, e + 1) =~= old_found + (seq![i as int] + mark_scan(ls, e + 1)));
                assert forall|k: int| 0 <= k < n implies marked@[k] == found.contains(k) by {
                    if k == i {
                        assert(found[found.len() - 1] == i);
                    } else {
                        if found.contains(k) {
                            let w = choose|w: int| 0 <= w < found.len() && found[w] == k;
                            if w < old_found.len() {
                                assert(old_found[w] == k);
                            }
                        }
                        if old_found.contains(k) {
                            let w = choose|w: int| 0 <= w < old_found.len() && old_found[w] == k;
                            assert(found[w] == k);
                        }
                    }
                }
                assert forall|x: int| found.contains(x) implies x < e + 1 by {
                    let w = choose|w: int| 0 <= w < found.len() && found[w] == x;
                    if w < old_found.len() {
                        assert(old_found[w] == x);
                        assert(old_found.contains(x));
                    }
                }
            }
        } else {
            proof {
                assert(mark_scan(ls, i as int) == Seq::<int>::empty() + mark_scan(ls, e + 1));
                assert(Seq::<int>::empty() + mark_scan(ls, e + 1) =~= mark_scan(ls, e + 1));
            }
        }
        i = e + 1;
    }
    proof {
        assert(mark_scan(ls, n as int) == Seq::<int>::empty());
        assert(found + Seq::<int>::empty() =~= found);
    }
    let ghost marks = mark_scan(ls, 0);
    let mut out: Vec<Vec<char>> = Vec::new();
    let mut k: usize = 0;
    while k < n
        invariant
            k <= n,
            n == ls.len(),
            lines@.map_values(|l: Vec<char>| l@) == ls,
            marked@.len() == n,
            marks == found,
            forall|j: int| 0 <= j < n ==> marked@[j] == marks.contains(j),
            out@.map_values(|l: Vec<char>| l@) == spaced_before_blocks(ls, marks, k as int),
        decreases n - k,
    {
        let ghost before = out@.map_values(|l: Vec<char>| l@);
        let mut add = false;
        if marked[k] && k >= 2 {
            let prev = &lines[k - 1];
            let prev2 = &lines[k - 2];
            assert(ls[k - 1] == prev@);
            assert(ls[k - 2] == prev2@);
            if is_blank(prev) && is_prose_before(prev2) {
                let o = out.len();
                let already_double = o >= 2 && is_blank(&out[o - 1]) && is_blank(&out[o - 2]);
                proof {
                    if o >= 2 {
                        assert(before[o - 1] == out@[o - 1]@);
                        assert(before[o - 2] == out@[o - 2]@);
                    }
                }
                add = !already_double;
            }
        }
        if add {
            out.push(Vec::new());
        }
        out.push(chars_range(&lines[k], 0, lines[k].len()));
        proof {
            assert(ls[k as int] == lines@[k as int]@);
            assert(lines@[k as int]@.subrange(0, lines@[k as int]@.len() as int) =~= ls[k as int]);
            let base = if add {
                before.push(Seq::<char>::empty())
            } else {
                before
            };
            assert(out@.map_values(|l: Vec<char>| l@) =~= base.push(ls[k as int]));
        }
        k = k + 1;
    }
    join_to_string(&out)
}

} // verus!
