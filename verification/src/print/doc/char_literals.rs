//! Character and string literals in indented doc code blocks: elm-format
//! re-lexes and re-prints the code, so `'\"'` becomes `'"'` and a
//! `\u{XXXX}` escape of a printable character becomes the character itself.

use vstd::prelude::*;

use super::super::literals::{needs_unicode_escape, should_unicode_escape};
use super::lines::{join_to_string, starts_with, starts_with_str};
use crate::text::{chars_of, join_lines, lines_of, split_lines, string_of};

verus! {

/// The index of the first `c` at or after `i`, or the length.
pub open spec fn find_from(s: Seq<char>, i: int, c: char) -> int
    decreases s.len() - i,
{
    if i < 0 || i >= s.len() {
        s.len() as int
    } else if s[i] == c {
        i
    } else {
        find_from(s, i + 1, c)
    }
}

/// A hexadecimal digit, either case.
pub open spec fn is_hex_digit(c: char) -> bool {
    ('0' <= c && c <= '9') || ('a' <= c && c <= 'f') || ('A' <= c && c <= 'F')
}

/// The value of a hexadecimal digit.
pub open spec fn hex_digit_value(c: char) -> nat {
    if '0' <= c && c <= '9' {
        (c as u32 - '0' as u32) as nat
    } else if 'a' <= c && c <= 'f' {
        (c as u32 - 'a' as u32 + 10) as nat
    } else {
        (c as u32 - 'A' as u32 + 10) as nat
    }
}

/// The value of a run of hexadecimal digits.
pub open spec fn hex_value(s: Seq<char>) -> nat
    decreases s.len(),
{
    if s.len() == 0 {
        0
    } else {
        hex_value(s.drop_last()) * 16 + hex_digit_value(s.last())
    }
}

/// One or more hexadecimal digits whose value fits in 32 bits: that value.
pub open spec fn hex_number(d: Seq<char>) -> Option<nat> {
    if d.len() > 0 && (forall|k: int| 0 <= k < d.len() ==> is_hex_digit(#[trigger] d[k])) && hex_value(d)
        <= 0xFFFF_FFFF {
        Some(hex_value(d))
    } else {
        None
    }
}

/// The number that `u32::from_str_radix(s, 16)` reads: an optional `+`,
/// then one or more hexadecimal digits whose value fits in 32 bits.
pub open spec fn radix16(s: Seq<char>) -> Option<nat> {
    if s.len() > 0 && s[0] == '+' {
        hex_number(s.drop_first())
    } else {
        hex_number(s)
    }
}

/// The character that a `\u{...}` escape with these hex digits may be
/// replaced by: a Unicode scalar value that is printed as it is.
pub open spec fn unescaped_char(hex: Seq<char>) -> Option<char> {
    match radix16(hex) {
        Some(code) => if code <= 0x10FFFF && !(0xD800 <= code <= 0xDFFF) && !needs_unicode_escape(
            code as char,
        ) {
            Some(code as char)
        } else {
            None
        },
        None => None,
    }
}

/// The body of a string literal scanned from `j`: the text kept (a
/// `\u{...}` escape of a printable character other than `"` and `\` is
/// replaced by the character; other escapes are kept) and where the scan
/// stops, just past the closing quote or at the end of the line.
pub open spec fn string_body(s: Seq<char>, j: int) -> (Seq<char>, int)
    decreases s.len() - j,
{
    if j < 0 || j >= s.len() {
        (Seq::empty(), j)
    } else {
        let c = s[j];
        if c == '\\' && j + 1 < s.len() {
            let nx = s[j + 1];
            let kept = string_body(s, j + 2);
            let pair = (seq![c, nx] + kept.0, kept.1);
            if nx == 'u' && j + 2 < s.len() && s[j + 2] == '{' {
                let k = find_from(s, j + 3, '}');
                proof {
                    lemma_find_from(s, j + 3, '}');
                }
                let u = if k < s.len() {
                    unescaped_char(s.subrange(j + 3, k))
                } else {
                    None
                };
                match u {
                    Some(ch) => if ch != '"' && ch != '\\' {
                        let r = string_body(s, k + 1);
                        (seq![ch] + r.0, r.1)
                    } else {
                        pair
                    },
                    None => pair,
                }
            } else {
                pair
            }
        } else if c == '"' {
            (seq!['"'], j + 1)
        } else {
            let r = string_body(s, j + 1);
            (seq![c] + r.0, r.1)
        }
    }
}

/// One step of the rewrite of a code line at `i`: the output and where it
/// resumes.
pub open spec fn literal_step(s: Seq<char>, i: int) -> (Seq<char>, int) {
    let c = s[i];
    let n = s.len();
    let j = find_from(s, i + 4, '}');
    if c == '\'' && i + 3 < n && s[i + 1] == '\\' && s[i + 2] == '"' && s[i + 3] == '\'' {
        (seq!['\'', '"', '\''], i + 4)
    } else if c == '\'' && i + 3 < n && s[i + 1] == '\\' && s[i + 2] == 'u' && s[i + 3] == '{' && j + 1 < n
        && s[j + 1] == '\'' && unescaped_char(s.subrange(i + 4, j)) is Some {
        match unescaped_char(s.subrange(i + 4, j)) {
            Some(ch) => (seq!['\'', ch, '\''], j + 2),
            None => (seq![c], i + 1),
        }
    } else if c == '"' {
        let b = string_body(s, i + 1);
        if b.0.len() > 0 && b.0.last() == '"' {
            (seq!['"'] + b.0, b.1)
        } else {
            (seq!['"'], i + 1)
        }
    } else {
        (seq![c], i + 1)
    }
}

/// The code line from `i` with its literals rewritten.
pub open spec fn literals_from(s: Seq<char>, i: int) -> Seq<char>
    decreases s.len() - i,
{
    if i < 0 || i >= s.len() {
        Seq::empty()
    } else {
        proof {
            lemma_literal_step(s, i);
        }
        let r = literal_step(s, i);
        r.0 + literals_from(s, r.1)
    }
}

/// A doc line with its literals rewritten when it is indented by four
/// spaces.
pub open spec fn literal_line(l: Seq<char>) -> Seq<char> {
    if starts_with(l, "    "@) {
        literals_from(l, 0)
    } else {
        l
    }
}

/// The doc text with the literals of its indented code lines rewritten.
pub open spec fn char_literals_normalized(t: Seq<char>) -> Seq<char> {
    join_lines(lines_of(t).map_values(|l: Seq<char>| literal_line(l)))
}

pub proof fn lemma_find_from(s: Seq<char>, i: int, c: char)
    requires
        0 <= i,
    ensures
        i <= find_from(s, i, c) || i > s.len(),
        find_from(s, i, c) <= s.len(),
        find_from(s, i, c) < s.len() ==> s[find_from(s, i, c)] == c,
        forall|k: int| i <= k < find_from(s, i, c) ==> s[k] != c,
    decreases s.len() - i,
{
    if i < s.len() && s[i] != c {
        lemma_find_from(s, i + 1, c);
    }
}

pub proof fn lemma_string_body(s: Seq<char>, j: int)
    requires
        0 <= j <= s.len(),
    ensures
        j <= string_body(s, j).1 <= s.len(),
    decreases s.len() - j,
{
    if j < s.len() {
        let c = s[j];
        if c == '\\' && j + 1 < s.len() {
            lemma_string_body(s, j + 2);
            if s[j + 1] == 'u' && j + 2 < s.len() && s[j + 2] == '{' {
                lemma_find_from(s, j + 3, '}');
                let k = find_from(s, j + 3, '}');
                if k < s.len() {
                    lemma_string_body(s, k + 1);
                }
            }
        } else if c != '"' {
            lemma_string_body(s, j + 1);
        }
    }
}

pub proof fn lemma_literal_step(s: Seq<char>, i: int)
    requires
        0 <= i < s.len(),
    ensures
        i < literal_step(s, i).1 <= s.len(),
{
    lemma_find_from(s, i + 4, '}');
    if s[i] == '"' {
        lemma_string_body(s, i + 1);
    }
}

/// `char::from_u32`: the character with code point `code`, when `code` is
/// a Unicode scalar value (at most 0x10FFFF and not a surrogate).
#[verifier::external_body]
fn char_from_code(code: u32) -> (r: Option<char>)
    ensures
        r == (if code <= 0x10FFFF && !(0xD800 <= code <= 0xDFFF) {
            Some((code as nat) as char)
        } else {
            None
        }),
{
    char::from_u32(code)
}

proof fn lemma_hex_prefix(d: Seq<char>, m: int)
    requires
        0 <= m <= d.len(),
    ensures
        hex_value(d.take(m)) <= hex_value(d),
    decreases d.len() - m,
{
    if m < d.len() {
        lemma_hex_prefix(d, m + 1);
        assert(d.take(m + 1).drop_last() =~= d.take(m));
    } else {
        assert(d.take(m) =~= d);
    }
}

/// The number that `s[from..to]` spells in hexadecimal, as
/// `u32::from_str_radix` reads it.
fn parse_hex(s: &Vec<char>, from: usize, to: usize) -> (r: Option<u32>)
    requires
        from <= to <= s@.len(),
    ensures
        match r {
            Some(v) => radix16(s@.subrange(from as int, to as int)) == Some(v as nat),
            None => radix16(s@.subrange(from as int, to as int)) is None,
        },
{
    if from < to && s[from] == '+' {
        assert(s@.subrange(from as int, to as int).drop_first() =~= s@.subrange(from + 1, to as int));
        hex_digits_value(s, from + 1, to)
    } else {
        hex_digits_value(s, from, to)
    }
}

fn hex_digits_value(s: &Vec<char>, start: usize, to: usize) -> (r: Option<u32>)
    requires
        start <= to <= s@.len(),
    ensures
        match r {
            Some(v) => hex_number(s@.subrange(start as int, to as int)) == Some(v as nat),
            None => hex_number(s@.subrange(start as int, to as int)) is None,
        },
{
    let ghost d = s@.subrange(start as int, to as int);
    if start == to {
        return None;
    }
    let mut k = start;
    let mut acc: u64 = 0;
    while k < to
        invariant
            start <= k <= to,
            to <= s@.len(),
            d == s@.subrange(start as int, to as int),
            acc == hex_value(d.take(k - start)),
            acc <= 0xFFFF_FFFF,
            forall|q: int| 0 <= q < k - start ==> is_hex_digit(#[trigger] d[q]),
        decreases to - k,
    {
        let c = s[k];
        assert(d[k - start] == c);
        if !(('0' <= c && c <= '9') || ('a' <= c && c <= 'f') || ('A' <= c && c <= 'F')) {
            assert(!is_hex_digit(d[k - start]));
            return None;
        }
        let v: u64 = if '0' <= c && c <= '9' {
            (c as u64) - ('0' as u64)
        } else if 'a' <= c && c <= 'f' {
            (c as u64) - ('a' as u64) + 10
        } else {
            (c as u64) - ('A' as u64) + 10
        };
        assert(d.take(k - start + 1).drop_last() =~= d.take(k - start));
        acc = acc * 16 + v;
        assert(acc == hex_value(d.take(k - start + 1)));
        if acc > 0xFFFF_FFFF {
            proof {
                lemma_hex_prefix(d, k - start + 1);
            }
            return None;
        }
        k = k + 1;
    }
    assert(d.take(k - start) =~= d);
    Some(acc as u32)
}

/// The character that the escape with hex digits `s[from..to]` stands for,
/// when it may be written as it is.
fn unescape(s: &Vec<char>, from: usize, to: usize) -> (r: Option<char>)
    requires
        from <= to <= s@.len(),
    ensures
        r == unescaped_char(s@.subrange(from as int, to as int)),
{
    match parse_hex(s, from, to) {
        Some(code) => match char_from_code(code) {
            Some(ch) => {
                if should_unicode_escape(ch) {
                    None
                } else {
                    Some(ch)
                }
            },
            None => None,
        },
        None => None,
    }
}

fn find_char(s: &Vec<char>, i: usize, c: char) -> (r: usize)
    requires
        i <= s@.len(),
    ensures
        r == find_from(s@, i as int, c),
        i <= r <= s@.len(),
{
    let mut j = i;
    while j < s.len() && s[j] != c
        invariant
            i <= j <= s@.len(),
            find_from(s@, i as int, c) == find_from(s@, j as int, c),
        decreases s@.len() - j,
    {
        j = j + 1;
    }
    j
}

fn scan_string_body(s: &Vec<char>, j0: usize) -> (r: (Vec<char>, usize))
    requires
        j0 <= s@.len(),
    ensures
        r.0@ == string_body(s@, j0 as int).0,
        r.1 == string_body(s@, j0 as int).1,
{
    let n = s.len();
    let mut buf: Vec<char> = Vec::new();
    let mut j = j0;
    while j < n
        invariant
            j0 <= j <= n,
            n == s@.len(),
            buf@ + string_body(s@, j as int).0 == string_body(s@, j0 as int).0,
            string_body(s@, j as int).1 == string_body(s@, j0 as int).1,
        decreases n - j,
    {
        let ghost b0 = buf@;
        let c = s[j];
        if c == '\\' && j + 1 < n {
            let nx = s[j + 1];
            if nx == 'u' && j + 2 < n && s[j + 2] == '{' {
                let k = find_char(s, j + 3, '}');
                if k < n {
                    let u = unescape(s, j + 3, k);
                    if let Some(ch) = u {
                        if ch != '"' && ch != '\\' {
                            buf.push(ch);
                            assert(buf@ + string_body(s@, k + 1).0 =~= b0 + string_body(s@, j as int).0);
                            j = k + 1;
                            continue;
                        }
                    }
                }
            }
            buf.push(c);
            buf.push(nx);
            assert(buf@ + string_body(s@, j + 2).0 =~= b0 + string_body(s@, j as int).0);
            j = j + 2;
            continue;
        }
        buf.push(c);
        if c == '"' {
            assert(buf@ =~= b0 + string_body(s@, j as int).0);
            return (buf, j + 1);
        }
        assert(buf@ + string_body(s@, j + 1).0 =~= b0 + string_body(s@, j as int).0);
        j = j + 1;
    }
    (buf, j)
}

/// Rewrite the literals of one indented doc code line: `'\"'` becomes
/// `'"'`, and a `\u{XXXX}` escape of a printable character in a char
/// literal (or, other than `"` and `\`, in a string literal) becomes the
/// character.
pub fn normalize_char_literals_in_code_line(line: &str) -> (r: String)
    ensures
        r@ == literals_from(line@, 0),
{
    let s = chars_of(line);
    let out = rewrite_literals(&s);
    string_of(&out)
}

fn rewrite_literals(s: &Vec<char>) -> (r: Vec<char>)
    ensures
        r@ == literals_from(s@, 0),
{
    let n = s.len();
    let mut out: Vec<char> = Vec::new();
    let mut i: usize = 0;
    while i < n
        invariant
            i <= n,
            n == s@.len(),
            out@ + literals_from(s@, i as int) == literals_from(s@, 0),
        decreases n - i,
    {
        let ghost o0 = out@;
        let ghost i0 = i as int;
        let ghost step = literal_step(s@, i as int);
        proof {
            lemma_literal_step(s@, i as int);
        }
        let c = s[i];
        let mut done = false;
        if c == '\'' && n - i > 3 && s[i + 1] == '\\' {
            if s[i + 2] == '"' && s[i + 3] == '\'' {
                out.push('\'');
                out.push('"');
                out.push('\'');
                i = i + 4;
                done = true;
            } else if s[i + 2] == 'u' && s[i + 3] == '{' {
                let j = find_char(s, i + 4, '}');
                if j < n && j + 1 < n && s[j + 1] == '\'' {
                    if let Some(ch) = unescape(s, i + 4, j) {
                        out.push('\'');
                        out.push(ch);
                        out.push('\'');
                        i = j + 2;
                        done = true;
                    }
                }
            }
        }
        if !done {
            if c == '"' {
                let (body, j) = scan_string_body(s, i + 1);
                proof {
                    lemma_string_body(s@, i + 1);
                }
                if body.len() > 0 && body[body.len() - 1] == '"' {
                    out.push('"');
                    let mut t: usize = 0;
                    while t < body.len()
                        invariant
                            t <= body@.len(),
                            out@ == o0 + seq!['"'] + body@.take(t as int),
                        decreases body@.len() - t,
                    {
                        out.push(body[t]);
                        t = t + 1;
                        assert(out@ =~= o0 + seq!['"'] + body@.take(t as int));
                    }
                    assert(body@.take(t as int) =~= body@);
                    i = j;
                } else {
                    out.push('"');
                    i = i + 1;
                }
            } else {
                out.push(c);
                i = i + 1;
            }
        }
        proof {
            assert(out@ =~= o0 + step.0);
            assert(i == step.1);
            assert(literals_from(s@, i0) == step.0 + literals_from(s@, step.1));
            assert(out@ + literals_from(s@, i as int) =~= o0 + literals_from(s@, i0));
        }
    }
    out
}

/// Rewrite character and string literal escapes in the indented (four
/// spaces) lines of a doc comment, as elm-format does when it re-prints
/// code examples.
pub fn normalize_doc_char_literals(text: &str) -> (r: String)
    ensures
        r@ == char_literals_normalized(text@),
{
    let lines = split_lines(&chars_of(text));
    let ghost ls = lines_of(text@);
    assert(lines@.map_values(|l: Vec<char>| l@) =~= ls);
    let mut out: Vec<Vec<char>> = Vec::new();
    let mut k: usize = 0;
    while k < lines.len()
        invariant
            k <= lines@.len(),
            lines@.map_values(|l: Vec<char>| l@) == ls,
            out@.map_values(|l: Vec<char>| l@) == ls.take(k as int).map_values(|l: Seq<char>| literal_line(l)),
        decreases lines@.len() - k,
    {
        let line = &lines[k];
        assert(ls[k as int] == line@);
        let nl = if starts_with_str(line, "    ") {
            rewrite_literals(line)
        } else {
            crate::text::chars_range(line, 0, line.len())
        };
        assert(line@.subrange(0, line@.len() as int) =~= line@);
        let ghost before = out@.map_values(|l: Vec<char>| l@);
        assert(literal_line(ls[k as int]) == nl@);
        out.push(nl);
        assert(ls.take(k + 1) =~= ls.take(k as int).push(ls[k as int]));
        assert(out@.map_values(|l: Vec<char>| l@) =~= before.push(nl@));
        k = k + 1;
        assert(out@.map_values(|l: Vec<char>| l@) =~= ls.take(k as int).map_values(|l: Seq<char>| literal_line(l)));
    }
    assert(ls.take(k as int) =~= ls);
    join_to_string(&out)
}

} // verus!
