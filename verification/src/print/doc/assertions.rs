//! Recognizing example lines in doc code blocks: `expr == value`
//! assertions, `expr -- comment` lines and simple standalone expressions.

use vstd::prelude::*;

use super::lines::{starts_with, starts_with_str};
use super::spacing::{in_literal, lex_next, plain, Lexing};
use crate::text::{chars_range, trim_end, trimmed_end};

verus! {

/// The first index from `k` at which `p` occurs in `t`.
pub open spec fn find_sub(t: Seq<char>, p: Seq<char>, k: int) -> Option<int>
    decreases t.len() + 1 - k,
{
    if k < 0 || k + p.len() > t.len() {
        None
    } else if t.subrange(k, k + p.len()) == p {
        Some(k)
    } else {
        find_sub(t, p, k + 1)
    }
}

/// `c` is one of the characters of `set`.
pub open spec fn one_of(c: char, set: Seq<char>) -> bool {
    set.contains(c)
}

/// A character of the first word of a line: a letter, digit, `_` or `.`.
pub open spec fn word_or_dot(c: char) -> bool {
    ('a' <= c && c <= 'z') || ('A' <= c && c <= 'Z') || ('0' <= c && c <= '9') || c == '_' || c == '.'
}

/// The length of the run of word characters at the start of `t`.
pub open spec fn word_len(t: Seq<char>, k: int) -> int
    decreases t.len() - k,
{
    if 0 <= k < t.len() && word_or_dot(t[k]) {
        word_len(t, k + 1)
    } else {
        k
    }
}

/// Words that start a line of a larger construct rather than an expression.
pub open spec fn is_keyword(w: Seq<char>) -> bool {
    ||| w == "type"@
    ||| w == "port"@
    ||| w == "module"@
    ||| w == "import"@
    ||| w == "let"@
    ||| w == "in"@
    ||| w == "if"@
    ||| w == "then"@
    ||| w == "else"@
    ||| w == "case"@
    ||| w == "of"@
    ||| w == "where"@
    ||| w == "alias"@
    ||| w == "exposing"@
    ||| w == "as"@
    ||| w == "effect"@
    ||| w == "infix"@
}

/// Scanning `t` from `i` with `paren` open parentheses and `bracket` open
/// brackets: no closer goes below zero, and the line ends balanced and
/// outside literals.
pub open spec fn balanced_from(t: Seq<char>, i: int, l: Lexing, paren: nat, bracket: nat) -> bool
    decreases t.len() - i,
{
    if i < 0 || i >= t.len() {
        paren == 0 && bracket == 0 && !l.in_str && !l.in_char
    } else {
        let c = t[i];
        if in_literal(l) || c == '"' || c == '\'' {
            balanced_from(t, i + 1, lex_next(l, c), paren, bracket)
        } else if c == '(' {
            balanced_from(t, i + 1, l, paren + 1, bracket)
        } else if c == ')' {
            paren > 0 && balanced_from(t, i + 1, l, (paren - 1) as nat, bracket)
        } else if c == '[' {
            balanced_from(t, i + 1, l, paren, bracket + 1)
        } else if c == ']' {
            bracket > 0 && balanced_from(t, i + 1, l, paren, (bracket - 1) as nat)
        } else {
            balanced_from(t, i + 1, l, paren, bracket)
        }
    }
}

/// A simple standalone expression line: it starts like an expression (a
/// negative number or parenthesized negation allowed), not with a keyword,
/// its brackets and literals balance, and it does not end with an operator
/// that continues it on the next line.
pub open spec fn simple_expr_line(t: Seq<char>) -> bool {
    if t.len() == 0 {
        false
    } else {
        let first = t[0];
        let starts_ok = ('a' <= first && first <= 'z') || ('A' <= first && first <= 'Z') || ('0' <= first
            && first <= '9') || first == '_' || first == '(' || first == '[' || first == '\'' || first == '"'
            || first == '-';
        let neg_ok = first != '-' || (t.len() > 1 && (('0' <= t[1] && t[1] <= '9') || t[1] == '('));
        let e = trim_end(t);
        starts_ok && neg_ok && !is_keyword(t.take(word_len(t, 0))) && balanced_from(t, 0, plain(), 0, 0) && !(
        e.len() > 0 && one_of(e.last(), "+-*/|&<>=,:"@))
    }
}

/// A trimmed line that reads as an example: `expr == value`, `expr --
/// comment`, or a simple standalone expression; never a `--` comment line.
pub open spec fn assertion_line(t: Seq<char>) -> bool {
    if starts_with(t, "--"@) {
        false
    } else {
        match find_sub(t, " == "@, 0) {
            Some(eq) => {
                let left = t.take(eq);
                let right = t.skip(eq + 4);
                left.len() > 0 && right.len() > 0 && right[0] != '=' && !one_of(left.last(), "+-*/|&<>"@)
            },
            None => match find_sub(t, " -- "@, 0) {
                Some(d) => {
                    let left = t.take(d);
                    left.len() > 0 && !one_of(left.last(), "+-*/|&<>="@)
                },
                None => simple_expr_line(t),
            },
        }
    }
}

pub proof fn lemma_find_sub(t: Seq<char>, p: Seq<char>, k: int)
    requires
        0 <= k,
    ensures
        find_sub(t, p, k) matches Some(x) ==> k <= x && x + p.len() <= t.len() && t.subrange(x, x + p.len())
            == p,
    decreases t.len() + 1 - k,
{
    if k + p.len() <= t.len() && t.subrange(k, k + p.len()) != p {
        lemma_find_sub(t, p, k + 1);
    }
}

fn contains_char(set: &str, c: char) -> (r: bool)
    ensures
        r == one_of(c, set@),
{
    let v = crate::text::chars_of(set);
    let mut k: usize = 0;
    while k < v.len()
        invariant
            k <= v@.len(),
            v@ == set@,
            forall|q: int| 0 <= q < k ==> v@[q] != c,
        decreases v@.len() - k,
    {
        if v[k] == c {
            assert(set@[k as int] == c);
            return true;
        }
        k = k + 1;
    }
    assert(!set@.contains(c)) by {
        if set@.contains(c) {
            let q = choose|q: int| 0 <= q < set@.len() && set@[q] == c;
            assert(v@[q] == c);
        }
    }
    false
}

pub fn find_substring(t: &Vec<char>, p: &str) -> (r: Option<usize>)
    ensures
        match r {
            Some(k) => find_sub(t@, p@, 0) == Some(k as int),
            None => find_sub(t@, p@, 0) is None,
        },
{
    let pv = crate::text::chars_of(p);
    let n = t.len();
    let m = pv.len();
    if m > n {
        return None;
    }
    if m == 0 {
        assert(t@.subrange(0, 0) =~= p@);
        return Some(0);
    }
    let mut k: usize = 0;
    while k <= n - m
        invariant
            1 <= m <= n,
            n == t@.len(),
            m == pv@.len(),
            pv@ == p@,
            find_sub(t@, p@, 0) == find_sub(t@, p@, k as int),
        decreases n - k,
    {
        let piece = chars_range(t, k, k + m);
        if crate::text::chars_eq(&piece, &pv) {
            return Some(k);
        }
        k = k + 1;
    }
    None
}

fn is_word_or_dot(c: char) -> (r: bool)
    ensures
        r == word_or_dot(c),
{
    ('a' <= c && c <= 'z') || ('A' <= c && c <= 'Z') || ('0' <= c && c <= '9') || c == '_' || c == '.'
}

fn first_word_len(t: &Vec<char>) -> (r: usize)
    ensures
        r == word_len(t@, 0),
        r <= t@.len(),
{
    let mut k: usize = 0;
    while k < t.len() && is_word_or_dot(t[k])
        invariant
            k <= t@.len(),
            word_len(t@, 0) == word_len(t@, k as int),
        decreases t@.len() - k,
    {
        k = k + 1;
    }
    k
}

fn same_word(w: &Vec<char>, s: &str) -> (b: bool)
    ensures
        b == (w@ == s@),
{
    let v = crate::text::chars_of(s);
    crate::text::chars_eq(w, &v)
}

pub fn keyword_exec(w: &Vec<char>) -> (r: bool)
    ensures
        r == is_keyword(w@),
{
    same_word(w, "type") || same_word(w, "port") || same_word(w, "module") || same_word(w, "import")
        || same_word(w, "let") || same_word(w, "in") || same_word(w, "if") || same_word(w, "then")
        || same_word(w, "else") || same_word(w, "case") || same_word(w, "of") || same_word(w, "where")
        || same_word(w, "alias") || same_word(w, "exposing") || same_word(w, "as") || same_word(w, "effect")
        || same_word(w, "infix")
}

fn balanced(t: &Vec<char>) -> (r: bool)
    ensures
        r == balanced_from(t@, 0, plain(), 0, 0),
{
    let n = t.len();
    let mut l = Lexing { in_str: false, in_char: false, esc: false };
    let mut paren: usize = 0;
    let mut bracket: usize = 0;
    let mut i: usize = 0;
    while i < n
        invariant
            i <= n,
            n == t@.len(),
            paren <= i,
            bracket <= i,
            balanced_from(t@, 0, plain(), 0, 0) == balanced_from(t@, i as int, l, paren as nat, bracket as nat),
        decreases n - i,
    {
        let c = t[i];
        if l.esc || l.in_str || l.in_char || c == '"' || c == '\'' {
            l = super::spacing::lex_step(l, c);
        } else if c == '(' {
            paren = paren + 1;
        } else if c == ')' {
            if paren == 0 {
                return false;
            }
            paren = paren - 1;
        } else if c == '[' {
            bracket = bracket + 1;
        } else if c == ']' {
            if bracket == 0 {
                return false;
            }
            bracket = bracket - 1;
        }
        i = i + 1;
    }
    paren == 0 && bracket == 0 && !l.in_str && !l.in_char
}

/// Whether a trimmed line is a simple standalone expression.
pub fn looks_like_simple_expr_line(t: &Vec<char>) -> (r: bool)
    ensures
        r == simple_expr_line(t@),
{
    if t.len() == 0 {
        return false;
    }
    let first = t[0];
    if !(('a' <= first && first <= 'z') || ('A' <= first && first <= 'Z') || ('0' <= first && first <= '9')
        || first == '_' || first == '(' || first == '[' || first == '\'' || first == '"' || first == '-') {
        return false;
    }
    if first == '-' {
        if !(t.len() > 1 && (('0' <= t[1] && t[1] <= '9') || t[1] == '(')) {
            return false;
        }
    }
    let wl = first_word_len(t);
    let w = chars_range(t, 0, wl);
    assert(w@ =~= t@.take(word_len(t@, 0)));
    if keyword_exec(&w) {
        return false;
    }
    if !balanced(t) {
        return false;
    }
    let e = trimmed_end(t);
    if e.len() > 0 && contains_char("+-*/|&<>=,:", e[e.len() - 1]) {
        return false;
    }
    true
}

/// Whether a trimmed doc-code line reads as an example line.
pub fn looks_like_assertion(t: &Vec<char>) -> (r: bool)
    ensures
        r == assertion_line(t@),
{
    let n = t.len();
    if starts_with_str(t, "--") {
        return false;
    }
    match find_substring(t, " == ") {
        Some(eq) => {
            proof {
                reveal_strlit(" == ");
                lemma_find_sub(t@, " == "@, 0);
            }
            let left = chars_range(t, 0, eq);
            let right = chars_range(t, eq + 4, t.len());
            assert(left@ =~= t@.take(eq as int));
            assert(right@ =~= t@.skip(eq + 4));
            left.len() > 0 && right.len() > 0 && right[0] != '=' && !contains_char("+-*/|&<>", left[left.len() - 1])
        },
        None => match find_substring(t, " -- ") {
            Some(d) => {
                proof {
                    reveal_strlit(" -- ");
                    lemma_find_sub(t@, " -- "@, 0);
                }
                let left = chars_range(t, 0, d);
                assert(left@ =~= t@.take(d as int));
                left.len() > 0 && !contains_char("+-*/|&<>=", left[left.len() - 1])
            },
            None => looks_like_simple_expr_line(t),
        },
    }
}

} // verus!
