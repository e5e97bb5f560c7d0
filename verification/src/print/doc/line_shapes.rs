//! Shapes of single lines of Elm code in doc examples that elm-format
//! would print differently: inline `if`-`then`-`else`, redundant outer
//! parentheses, unpadded hex literals, compact tuples, scientific floats
//! without a dot, tight `^` and `/`, unsorted import lists and one-line
//! value declarations.

use vstd::prelude::*;

use super::assertions::{find_sub, is_keyword, lemma_find_sub};
use super::lines::{starts_with, starts_with_str};
use super::spacing::{in_literal, is_word_char, lex_next, lex_step, plain, word_char, Lexing};
use crate::sorting::{char_seq_lt, chars_less};
use crate::text::{chars_range, pieces, split_on, trim, trimmed};

verus! {

/// `p` occurs in `s` at `i`.
pub open spec fn at(s: Seq<char>, i: int, p: Seq<char>) -> bool {
    0 <= i && i + p.len() <= s.len() && s.subrange(i, i + p.len()) == p
}

fn at_exec(s: &Vec<char>, i: usize, p: &str) -> (r: bool)
    requires
        i <= s@.len(),
    ensures
        r == at(s@, i as int, p@),
{
    let pv = crate::text::chars_of(p);
    if pv.len() > s.len() - i {
        return false;
    }
    let piece = chars_range(s, i, i + pv.len());
    crate::text::chars_eq(&piece, &pv)
}

// ---------------------------------------------------------------------
/// `"""` starts at `i`.
pub open spec fn triple_at(l: Seq<char>, i: int) -> bool {
    0 <= i && i + 2 < l.len() && l[i] == '"' && l[i + 1] == '"' && l[i + 2] == '"'
}

/// Scanning for ` then ` and ` else ` outside literals, triple-quoted
/// strings and a trailing comment: both occur.
pub open spec fn if_scan(
    l: Seq<char>,
    i: int,
    lx: Lexing,
    triple: bool,
    saw_then: bool,
    saw_else: bool,
) -> bool
    decreases l.len() - i,
{
    if i < 0 || i >= l.len() {
        saw_then && saw_else
    } else {
        let b = l[i];
        if lx.esc {
            if_scan(l, i + 1, lex_next(lx, b), triple, saw_then, saw_else)
        } else if triple {
            if triple_at(l, i) {
                if_scan(l, i + 3, lx, false, saw_then, saw_else)
            } else {
                if_scan(l, i + 1, lx, triple, saw_then, saw_else)
            }
        } else if lx.in_str || lx.in_char {
            if_scan(l, i + 1, lex_next(lx, b), triple, saw_then, saw_else)
        } else if b == '-' && i + 1 < l.len() && l[i + 1] == '-' {
            saw_then && saw_else
        } else if triple_at(l, i) {
            if_scan(l, i + 3, lx, true, saw_then, saw_else)
        } else if b == '"' || b == '\'' {
            if_scan(l, i + 1, lex_next(lx, b), triple, saw_then, saw_else)
        } else {
            if_scan(l, i + 1, lx, triple, saw_then || at(l, i, " then "@), saw_else || at(l, i, " else "@))
        }
    }
}

/// A line with both ` then ` and ` else ` outside literals and comments:
/// an inline `if` that elm-format breaks across lines.
pub fn line_has_single_line_if_then_else(l: &Vec<char>) -> (r: bool)
    ensures
        r == if_scan(l@, 0, plain(), false, false, false),
{
    let n = l.len();
    let mut lx = Lexing { in_str: false, in_char: false, esc: false };
    let mut triple = false;
    let mut saw_then = false;
    let mut saw_else = false;
    let mut i: usize = 0;
    while i < n
        invariant
            i <= n,
            n == l@.len(),
            if_scan(l@, 0, plain(), false, false, false) == if_scan(l@, i as int, lx, triple, saw_then, saw_else),
        decreases n - i,
    {
        let b = l[i];
        if lx.esc {
            lx = lex_step(lx, b);
            i = i + 1;
        } else if triple {
            if n - i > 2 && l[i] == '"' && l[i + 1] == '"' && l[i + 2] == '"' {
                triple = false;
                i = i + 3;
            } else {
                i = i + 1;
            }
        } else if lx.in_str || lx.in_char {
            lx = lex_step(lx, b);
            i = i + 1;
        } else if b == '-' && i + 1 < n && l[i + 1] == '-' {
            return saw_then && saw_else;
        } else if n - i > 2 && l[i] == '"' && l[i + 1] == '"' && l[i + 2] == '"' {
            triple = true;
            i = i + 3;
        } else if b == '"' || b == '\'' {
            lx = lex_step(lx, b);
            i = i + 1;
        } else {
            saw_then = saw_then || at_exec(l, i, " then ");
            saw_else = saw_else || at_exec(l, i, " else ");
            i = i + 1;
        }
    }
    saw_then && saw_else
}

// ---------------------------------------------------------------------
/// An operator character that shows an outer operator inside parentheses.
pub open spec fn paren_op_char(b: char) -> bool {
    b == '|' || b == '&' || b == '+' || b == '*' || b == '/' || b == '<' || b == '>' || b == '='
}

/// Scanning the inside of `( ... )` from `i` at `depth`: no parenthesis
/// closes before the end, no comma at the outer level, and an operator
/// shows at the outer level.
pub open spec fn paren_scan(t: Seq<char>, i: int, lx: Lexing, depth: int, saw: bool) -> bool
    decreases t.len() - i,
{
    if i < 0 || i >= t.len() {
        depth == 0 && saw
    } else {
        let b = t[i];
        if in_literal(lx) || b == '"' || b == '\'' {
            paren_scan(t, i + 1, lex_next(lx, b), depth, saw)
        } else if b == '(' {
            paren_scan(t, i + 1, lx, depth + 1, saw)
        } else if b == ')' {
            if depth - 1 == 0 && i != t.len() - 1 {
                false
            } else {
                paren_scan(t, i + 1, lx, depth - 1, saw)
            }
        } else if b == ',' && depth == 1 {
            false
        } else if paren_op_char(b) && depth == 1 {
            paren_scan(t, i + 1, lx, depth, true)
        } else if b == '-' && depth == 1 && i > 1 {
            paren_scan(t, i + 1, lx, depth, saw || t[i - 1] == ' ')
        } else {
            paren_scan(t, i + 1, lx, depth, saw)
        }
    }
}

/// A line that is one parenthesized operator expression, like
/// `(a + b)`: its outer parentheses are redundant.
pub open spec fn redundant_parens(t: Seq<char>) -> bool {
    t.len() >= 4 && t[0] == '(' && t.last() == ')' && paren_scan(t, 0, plain(), 0, false)
}

/// Whether a trimmed line is a single parenthesized operator expression.
pub fn is_redundant_paren_expr(t: &Vec<char>) -> (r: bool)
    ensures
        r == redundant_parens(t@),
{
    let n = t.len();
    if n < 4 || t[0] != '(' || t[n - 1] != ')' {
        return false;
    }
    let mut lx = Lexing { in_str: false, in_char: false, esc: false };
    let mut depth: i128 = 0;
    let mut saw = false;
    let mut i: usize = 0;
    while i < n
        invariant
            i <= n,
            n == t@.len(),
            -(i as int) <= depth <= i,
            paren_scan(t@, 0, plain(), 0, false) == paren_scan(t@, i as int, lx, depth as int, saw),
        decreases n - i,
    {
        let b = t[i];
        if lx.esc || lx.in_str || lx.in_char || b == '"' || b == '\'' {
            lx = lex_step(lx, b);
        } else if b == '(' {
            depth = depth + 1;
        } else if b == ')' {
            depth = depth - 1;
            if depth == 0 && i != n - 1 {
                return false;
            }
        } else if b == ',' && depth == 1 {
            return false;
        } else if (b == '|' || b == '&' || b == '+' || b == '*' || b == '/' || b == '<' || b == '>' || b == '=')
            && depth == 1 {
            saw = true;
        } else if b == '-' && depth == 1 && i > 1 {
            if t[i - 1] == ' ' {
                saw = true;
            }
        }
        i = i + 1;
    }
    depth == 0 && saw
}

// ---------------------------------------------------------------------
/// A hexadecimal digit, either case.
pub open spec fn hex_char(c: char) -> bool {
    ('0' <= c && c <= '9') || ('a' <= c && c <= 'f') || ('A' <= c && c <= 'F')
}

fn is_hex_char(c: char) -> (r: bool)
    ensures
        r == hex_char(c),
{
    ('0' <= c && c <= '9') || ('a' <= c && c <= 'f') || ('A' <= c && c <= 'F')
}

/// The index of the first character from `j` that is not a hex digit.
pub open spec fn hex_end(l: Seq<char>, j: int) -> int
    decreases l.len() - j,
{
    if 0 <= j < l.len() && hex_char(l[j]) {
        hex_end(l, j + 1)
    } else {
        j
    }
}

/// Scanning for a hex literal `0x...` (not inside a word or literal) whose
/// digit count is not 2, 4, 8 or 16.
pub open spec fn hex_scan(l: Seq<char>, i: int, lx: Lexing) -> bool
    decreases l.len() - i,
{
    if i < 0 || i >= l.len() {
        false
    } else {
        let b = l[i];
        if in_literal(lx) || b == '"' || b == '\'' {
            hex_scan(l, i + 1, lex_next(lx, b))
        } else if b == '0' && i + 1 < l.len() && (l[i + 1] == 'x' || l[i + 1] == 'X') && (i == 0 || !word_char(
            l[i - 1],
        )) {
            let j = hex_end(l, i + 2);
            let width = j - (i + 2);
            proof {
                lemma_hex_end(l, i + 2);
            }
            if width > 0 && width != 2 && width != 4 && width != 8 && width != 16 {
                true
            } else {
                hex_scan(l, j, lx)
            }
        } else {
            hex_scan(l, i + 1, lx)
        }
    }
}

pub proof fn lemma_hex_end(l: Seq<char>, j: int)
    requires
        0 <= j,
    ensures
        j <= hex_end(l, j),
        j <= l.len() ==> hex_end(l, j) <= l.len(),
    decreases l.len() - j,
{
    if j < l.len() && hex_char(l[j]) {
        lemma_hex_end(l, j + 1);
    }
}

/// Whether a line holds a hex literal of a width elm-format would pad.
pub fn line_has_unpadded_hex(l: &Vec<char>) -> (r: bool)
    ensures
        r == hex_scan(l@, 0, plain()),
{
    let n = l.len();
    let mut lx = Lexing { in_str: false, in_char: false, esc: false };
    let mut i: usize = 0;
    while i < n
        invariant
            i <= n,
            n == l@.len(),
            hex_scan(l@, 0, plain()) == hex_scan(l@, i as int, lx),
        decreases n - i,
    {
        let b = l[i];
        if lx.esc || lx.in_str || lx.in_char || b == '"' || b == '\'' {
            lx = lex_step(lx, b);
            i = i + 1;
        } else if b == '0' && i + 1 < n && (l[i + 1] == 'x' || l[i + 1] == 'X') && (i == 0 || !is_word_char(
            l[i - 1],
        )) {
            let mut j = i + 2;
            while j < n && is_hex_char(l[j])
                invariant
                    i + 2 <= j <= n,
                    n == l@.len(),
                    hex_end(l@, i + 2) == hex_end(l@, j as int),
                decreases n - j,
            {
                j = j + 1;
            }
            let width = j - (i + 2);
            if width > 0 && width != 2 && width != 4 && width != 8 && width != 16 {
                return true;
            }
            i = j;
        } else {
            i = i + 1;
        }
    }
    false
}

// ---------------------------------------------------------------------
/// Scanning a bracketed group from `j` at `depth`: where the scan stops
/// (just past the bracket that closes the group, or at the end) and
/// whether a comma stood at the group's own level.
pub open spec fn group_scan(l: Seq<char>, j: int, lx: Lexing, depth: int, comma: bool) -> (int, bool)
    decreases l.len() - j,
{
    if j < 0 || j >= l.len() || depth <= 0 {
        (j, comma)
    } else {
        let c = l[j];
        if in_literal(lx) || c == '"' || c == '\'' {
            group_scan(l, j + 1, lex_next(lx, c), depth, comma)
        } else if c == '(' || c == '[' || c == '{' {
            group_scan(l, j + 1, lx, depth + 1, comma)
        } else if c == ')' || c == ']' || c == '}' {
            group_scan(l, j + 1, lx, depth - 1, comma)
        } else if c == ',' && depth == 1 {
            group_scan(l, j + 1, lx, depth, true)
        } else {
            group_scan(l, j + 1, lx, depth, comma)
        }
    }
}

/// Scanning for a compact tuple: `(` followed directly by its content, a
/// comma at its level, and `)` right after the last element.
pub open spec fn tuple_scan(l: Seq<char>, i: int, lx: Lexing) -> bool
    decreases l.len() - i,
{
    if i < 0 || i >= l.len() {
        false
    } else {
        let b = l[i];
        if in_literal(lx) || b == '"' || b == '\'' {
            tuple_scan(l, i + 1, lex_next(lx, b))
        } else if b == '(' && i + 1 < l.len() {
            if l[i + 1] == ' ' || l[i + 1] == ')' {
                tuple_scan(l, i + 1, lx)
            } else {
                let g = group_scan(l, i + 1, plain(), 1, false);
                let j = g.0;
                proof {
                    lemma_group_scan(l, i + 1, plain(), 1, false);
                }
                let before_close = if j >= 2 {
                    l[j - 2]
                } else {
                    ' '
                };
                if g.1 && j > 0 && l[j - 1] == ')' && before_close != ' ' {
                    true
                } else {
                    tuple_scan(l, j, lx)
                }
            }
        } else {
            tuple_scan(l, i + 1, lx)
        }
    }
}

pub proof fn lemma_group_scan(l: Seq<char>, j: int, lx: Lexing, depth: int, comma: bool)
    requires
        0 <= j <= l.len(),
    ensures
        j <= group_scan(l, j, lx, depth, comma).0 <= l.len(),
    decreases l.len() - j,
{
    if j < l.len() && depth > 0 {
        let c = l[j];
        if in_literal(lx) || c == '"' || c == '\'' {
            lemma_group_scan(l, j + 1, lex_next(lx, c), depth, comma);
        } else if c == '(' || c == '[' || c == '{' {
            lemma_group_scan(l, j + 1, lx, depth + 1, comma);
        } else if c == ')' || c == ']' || c == '}' {
            lemma_group_scan(l, j + 1, lx, depth - 1, comma);
        } else if c == ',' && depth == 1 {
            lemma_group_scan(l, j + 1, lx, depth, true);
        } else {
            lemma_group_scan(l, j + 1, lx, depth, comma);
        }
    }
}

fn scan_group(l: &Vec<char>, j0: usize) -> (r: (usize, bool))
    requires
        j0 <= l@.len(),
    ensures
        r.0 as int == group_scan(l@, j0 as int, plain(), 1, false).0,
        r.1 == group_scan(l@, j0 as int, plain(), 1, false).1,
{
    let n = l.len();
    let mut lx = Lexing { in_str: false, in_char: false, esc: false };
    let mut depth: i128 = 1;
    let mut comma = false;
    let mut j = j0;
    while j < n && depth > 0
        invariant
            j0 <= j <= n,
            n == l@.len(),
            -(j as int) <= depth <= j + 1,
            group_scan(l@, j0 as int, plain(), 1, false) == group_scan(l@, j as int, lx, depth as int, comma),
        decreases n - j,
    {
        let c = l[j];
        if lx.esc || lx.in_str || lx.in_char || c == '"' || c == '\'' {
            lx = lex_step(lx, c);
        } else if c == '(' || c == '[' || c == '{' {
            depth = depth + 1;
        } else if c == ')' || c == ']' || c == '}' {
            depth = depth - 1;
        } else if c == ',' && depth == 1 {
            comma = true;
        }
        j = j + 1;
    }
    (j, comma)
}

/// Whether a line holds a compact tuple such as `(1,2)`, which elm-format
/// spaces out.
pub fn has_compact_tuple(l: &Vec<char>) -> (r: bool)
    ensures
        r == tuple_scan(l@, 0, plain()),
{
    let n = l.len();
    let mut lx = Lexing { in_str: false, in_char: false, esc: false };
    let mut i: usize = 0;
    while i < n
        invariant
            i <= n,
            n == l@.len(),
            tuple_scan(l@, 0, plain()) == tuple_scan(l@, i as int, lx),
        decreases n - i,
    {
        let b = l[i];
        if lx.esc || lx.in_str || lx.in_char || b == '"' || b == '\'' {
            lx = lex_step(lx, b);
            i = i + 1;
        } else if b == '(' && i + 1 < n {
            if l[i + 1] == ' ' || l[i + 1] == ')' {
                i = i + 1;
            } else {
                let (j, comma) = scan_group(l, i + 1);
                proof {
                    lemma_group_scan(l@, i + 1, plain(), 1, false);
                }
                let before_close = if j >= 2 {
                    l[j - 2]
                } else {
                    ' '
                };
                if comma && j > 0 && l[j - 1] == ')' && before_close != ' ' {
                    return true;
                }
                i = j;
            }
        } else {
            i = i + 1;
        }
    }
    false
}

// ---------------------------------------------------------------------
/// An ASCII digit.
pub open spec fn digit(c: char) -> bool {
    '0' <= c && c <= '9'
}

/// The index of the first non-digit from `j`.
pub open spec fn digits_end(l: Seq<char>, j: int) -> int
    decreases l.len() - j,
{
    if 0 <= j < l.len() && digit(l[j]) {
        digits_end(l, j + 1)
    } else {
        j
    }
}

pub proof fn lemma_digits_end(l: Seq<char>, j: int)
    requires
        0 <= j <= l.len(),
    ensures
        j <= digits_end(l, j) <= l.len(),
        j < l.len() && digit(l[j]) ==> j < digits_end(l, j),
    decreases l.len() - j,
{
    if j < l.len() && digit(l[j]) {
        lemma_digits_end(l, j + 1);
    }
}

/// Scanning for a number in scientific form without a decimal point, such
/// as `1e-42`.
pub open spec fn sci_scan(l: Seq<char>, i: int, lx: Lexing) -> bool
    decreases l.len() - i,
{
    if i < 0 || i >= l.len() {
        false
    } else {
        let b = l[i];
        if in_literal(lx) || b == '"' || b == '\'' {
            sci_scan(l, i + 1, lex_next(lx, b))
        } else if digit(b) && (i == 0 || !(word_char(l[i - 1]) || l[i - 1] == '.')) {
            let j0 = digits_end(l, i);
            proof {
                lemma_digits_end(l, i);
                if j0 < l.len() {
                    lemma_digits_end(l, j0 + 1);
                }
            }
            let has_dot = j0 < l.len() && l[j0] == '.';
            let j = if has_dot {
                digits_end(l, j0 + 1)
            } else {
                j0
            };
            let has_exp = j < l.len() && (l[j] == 'e' || l[j] == 'E');
            let k = if j + 1 < l.len() && (l[j + 1] == '+' || l[j + 1] == '-') {
                j + 2
            } else {
                j + 1
            };
            if has_exp && !has_dot && k < l.len() && digit(l[k]) {
                true
            } else {
                sci_scan(l, j, lx)
            }
        } else {
            sci_scan(l, i + 1, lx)
        }
    }
}

fn skip_digits(l: &Vec<char>, j0: usize) -> (r: usize)
    requires
        j0 <= l@.len(),
    ensures
        r as int == digits_end(l@, j0 as int),
        j0 <= r <= l@.len(),
{
    let mut j = j0;
    while j < l.len() && '0' <= l[j] && l[j] <= '9'
        invariant
            j0 <= j <= l@.len(),
            digits_end(l@, j0 as int) == digits_end(l@, j as int),
        decreases l@.len() - j,
    {
        j = j + 1;
    }
    j
}

/// Whether a line holds a float in scientific form without a decimal
/// point, which elm-format writes with `.0`.
pub fn line_has_sci_float_without_dot(l: &Vec<char>) -> (r: bool)
    ensures
        r == sci_scan(l@, 0, plain()),
{
    let n = l.len();
    let mut lx = Lexing { in_str: false, in_char: false, esc: false };
    let mut i: usize = 0;
    while i < n
        invariant
            i <= n,
            n == l@.len(),
            sci_scan(l@, 0, plain()) == sci_scan(l@, i as int, lx),
        decreases n - i,
    {
        let b = l[i];
        if lx.esc || lx.in_str || lx.in_char || b == '"' || b == '\'' {
            lx = lex_step(lx, b);
            i = i + 1;
        } else if '0' <= b && b <= '9' && (i == 0 || !(is_word_char(l[i - 1]) || l[i - 1] == '.')) {
            let j0 = skip_digits(l, i);
            proof {
                lemma_digits_end(l@, i as int);
            }
            let has_dot = j0 < n && l[j0] == '.';
            let j = if has_dot {
                skip_digits(l, j0 + 1)
            } else {
                j0
            };
            let has_exp = j < n && (l[j] == 'e' || l[j] == 'E');
            if has_exp && !has_dot {
                let k = if j + 1 < n && (l[j + 1] == '+' || l[j + 1] == '-') {
                    j + 2
                } else {
                    j + 1
                };
                if k < n && '0' <= l[k] && l[k] <= '9' {
                    return true;
                }
            }
            i = j;
        } else {
            i = i + 1;
        }
    }
    false
}

// ---------------------------------------------------------------------
/// Scanning for a tight `^`, `/` or `//` between word characters outside
/// strings.
pub open spec fn tight_scan(l: Seq<char>, i: int, in_str: bool, esc: bool) -> bool
    decreases l.len() - i,
{
    if i < 0 || i >= l.len() {
        false
    } else {
        let b = l[i];
        if esc {
            tight_scan(l, i + 1, in_str, false)
        } else if in_str {
            tight_scan(l, i + 1, b != '"', b == '\\')
        } else if b == '"' {
            tight_scan(l, i + 1, true, false)
        } else if b == '^' && i > 0 && i + 1 < l.len() && word_char(l[i - 1]) && word_char(l[i + 1]) {
            true
        } else if b == '/' && i > 0 && i + 1 < l.len() {
            if l[i + 1] == '/' {
                if i + 2 < l.len() && word_char(l[i - 1]) && word_char(l[i + 2]) {
                    true
                } else {
                    tight_scan(l, i + 2, in_str, esc)
                }
            } else if word_char(l[i - 1]) && word_char(l[i + 1]) {
                true
            } else {
                tight_scan(l, i + 1, in_str, esc)
            }
        } else {
            tight_scan(l, i + 1, in_str, esc)
        }
    }
}

/// Whether a line has a tight `^`, `/` or `//` that elm-format would space.
pub fn has_tight_binary_op(l: &Vec<char>) -> (r: bool)
    ensures
        r == tight_scan(l@, 0, false, false),
{
    let n = l.len();
    let mut in_str = false;
    let mut esc = false;
    let mut i: usize = 0;
    while i < n
        invariant
            i <= n + 1,
            n == l@.len(),
            tight_scan(l@, 0, false, false) == tight_scan(l@, i as int, in_str, esc),
        decreases n + 1 - i,
    {
        let b = l[i];
        if esc {
            esc = false;
            i = i + 1;
        } else if in_str {
            esc = b == '\\';
            in_str = b != '"';
            i = i + 1;
        } else if b == '"' {
            in_str = true;
            i = i + 1;
        } else if b == '^' && i > 0 && i + 1 < n && is_word_char(l[i - 1]) && is_word_char(l[i + 1]) {
            return true;
        } else if b == '/' && i > 0 && i + 1 < n {
            if l[i + 1] == '/' {
                if i + 2 < n && is_word_char(l[i - 1]) && is_word_char(l[i + 2]) {
                    return true;
                }
                i = i + 2;
            } else if is_word_char(l[i - 1]) && is_word_char(l[i + 1]) {
                return true;
            } else {
                i = i + 1;
            }
        } else {
            i = i + 1;
        }
    }
    false
}

// ---------------------------------------------------------------------
/// The length of the run of letters, digits and `_` from `k`.
pub open spec fn word_end(t: Seq<char>, k: int) -> int
    decreases t.len() - k,
{
    if 0 <= k < t.len() && word_char(t[k]) {
        word_end(t, k + 1)
    } else {
        k
    }
}

/// A lower-case letter or `_`, which starts a value name.
pub open spec fn value_start(c: char) -> bool {
    ('a' <= c && c <= 'z') || c == '_'
}

/// Scanning from `i` for the ` = ` of a one-line value declaration
/// `name args = expr`.
pub open spec fn decl_eq_scan(t: Seq<char>, i: int) -> bool
    decreases t.len() - i,
{
    if i < 0 || i + 2 >= t.len() {
        false
    } else if t[i] == ' ' && t[i + 1] == '=' && t[i + 2] == ' ' {
        if i > 0 && (t[i - 1] == '=' || t[i - 1] == '/' || t[i - 1] == '<' || t[i - 1] == '>' || t[i - 1] == '!'
            || t[i - 1] == ':') {
            decl_eq_scan(t, i + 1)
        } else if i + 3 < t.len() && t[i + 3] == '=' {
            decl_eq_scan(t, i + 1)
        } else {
            let left = trim(t.take(i));
            let right = trim(t.skip(i + 3));
            left.len() > 0 && value_start(left[0]) && right.len() > 0
        }
    } else {
        decl_eq_scan(t, i + 1)
    }
}

/// A one-line value declaration `name args = expr`.
pub open spec fn single_value_decl(t: Seq<char>) -> bool {
    t.len() > 0 && value_start(t[0]) && !is_keyword(t.take(word_end(t, 0))) && decl_eq_scan(t, 0)
}

/// Whether a trimmed line is a one-line value declaration, which
/// elm-format always splits after the `=`.
pub fn is_single_line_value_decl(t: &Vec<char>) -> (r: bool)
    ensures
        r == single_value_decl(t@),
{
    let n = t.len();
    if n == 0 {
        return false;
    }
    let first = t[0];
    if !(('a' <= first && first <= 'z') || first == '_') {
        return false;
    }
    let mut we: usize = 0;
    while we < n && is_word_char(t[we])
        invariant
            we <= n,
            n == t@.len(),
            word_end(t@, 0) == word_end(t@, we as int),
        decreases n - we,
    {
        we = we + 1;
    }
    let w = chars_range(t, 0, we);
    assert(w@ =~= t@.take(word_end(t@, 0)));
    if super::assertions::keyword_exec(&w) {
        return false;
    }
    let mut i: usize = 0;
    while n - i > 2
        invariant
            i <= n,
            n == t@.len(),
            t@.len() > 0 && value_start(t@[0]) && !is_keyword(t@.take(word_end(t@, 0))),
            decl_eq_scan(t@, 0) == decl_eq_scan(t@, i as int),
        decreases n - i,
    {
        if t[i] == ' ' && t[i + 1] == '=' && t[i + 2] == ' ' {
            if i > 0 && (t[i - 1] == '=' || t[i - 1] == '/' || t[i - 1] == '<' || t[i - 1] == '>' || t[i - 1] == '!'
                || t[i - 1] == ':') {
                i = i + 1;
                continue;
            }
            if n - i > 3 && t[i + 3] == '=' {
                i = i + 1;
                continue;
            }
            let left_part = chars_range(t, 0, i);
            let left = trimmed(&left_part);
            assert(left_part@ =~= t@.take(i as int));
            if left.len() == 0 {
                return false;
            }
            if !(('a' <= left[0] && left[0] <= 'z') || left[0] == '_') {
                return false;
            }
            let right_part = chars_range(t, i + 3, n);
            assert(right_part@ =~= t@.skip(i + 3));
            let right = trimmed(&right_part);
            assert(decl_eq_scan(t@, i as int) == (left@.len() > 0 && value_start(left@[0]) && right@.len() > 0));
            return right.len() > 0;
        }
        i = i + 1;
    }
    false
}

// ---------------------------------------------------------------------
/// What `str::to_lowercase` gives for a text.
pub uninterp spec fn lowercase(s: Seq<char>) -> Seq<char>;

/// `str::to_lowercase`: each character replaced by its lower-case mapping.
/// The result is named by `lowercase` and not described further.
#[verifier::external_body]
fn to_lowercase(s: &Vec<char>) -> (r: Vec<char>)
    ensures
        r@ == lowercase(s@),
{
    let text: String = s.iter().collect();
    text.to_lowercase().chars().collect()
}

/// The last index below `k` at which `c` stands in `s`.
pub open spec fn last_index(s: Seq<char>, c: char, k: int) -> Option<int>
    decreases k,
{
    if k <= 0 {
        None
    } else if s[k - 1] == c {
        Some(k - 1)
    } else {
        last_index(s, c, k - 1)
    }
}

/// The name an exposing item is ordered by: its text before any `(`,
/// trimmed.
pub open spec fn item_head(p: Seq<char>) -> Seq<char> {
    trim(pieces(trim(p), '(')[0])
}

/// The non-empty heads of the first `k` items.
pub open spec fn item_heads(ps: Seq<Seq<char>>, k: int) -> Seq<Seq<char>>
    decreases k,
{
    if k <= 0 {
        Seq::empty()
    } else {
        item_heads(ps, k - 1) + (if item_head(ps[k - 1]).len() > 0 {
            seq![item_head(ps[k - 1])]
        } else {
            Seq::empty()
        })
    }
}

/// For `import ... exposing (items)` (other than `(..)`), the heads of the
/// items.
pub open spec fn import_exposing_heads(line: Seq<char>) -> Option<Seq<Seq<char>>> {
    let t = trim(line);
    if !starts_with(t, "import "@) {
        None
    } else {
        match find_sub(t, " exposing ("@, 0) {
            None => None,
            Some(e) => {
                let rest = t.skip(e + " exposing ("@.len());
                match last_index(rest, ')', rest.len() as int) {
                    None => None,
                    Some(c) => {
                        let inner = rest.take(c);
                        if trim(inner) == ".."@ {
                            None
                        } else {
                            let ps = pieces(inner, ',');
                            Some(item_heads(ps, ps.len() as int))
                        }
                    },
                }
            },
        }
    }
}

/// Some key sorts strictly before the key in front of it.
pub open spec fn keys_out_of_order(keys: Seq<Seq<char>>) -> bool {
    exists|k: int| 0 <= k && k + 1 < keys.len() && #[trigger] char_seq_lt(keys[k + 1], keys[k])
}

/// An import whose exposing list (two or more items) is not in
/// case-insensitive order.
pub open spec fn import_unsorted(line: Seq<char>) -> bool {
    match import_exposing_heads(line) {
        None => false,
        Some(items) => items.len() >= 2 && keys_out_of_order(items.map_values(|h: Seq<char>| lowercase(h))),
    }
}

/// Whether some key sorts strictly before the key in front of it, so that
/// sorting would reorder the list.
pub fn keys_out_of_order_exec(keys: &Vec<Vec<char>>) -> (r: bool)
    ensures
        r == keys_out_of_order(keys@.map_values(|v: Vec<char>| v@)),
{
    let ghost kv = keys@.map_values(|v: Vec<char>| v@);
    let mut k: usize = 0;
    while keys.len() > 1 && k < keys.len() - 1
        invariant
            kv == keys@.map_values(|v: Vec<char>| v@),
            k <= keys@.len(),
            forall|q: int| 0 <= q < k && q + 1 < kv.len() ==> !#[trigger] char_seq_lt(kv[q + 1], kv[q]),
        decreases keys@.len() - k,
    {
        if chars_less(&keys[k + 1], &keys[k]) {
            assert(char_seq_lt(kv[k + 1], kv[k as int]));
            return true;
        }
        k = k + 1;
    }
    false
}

/// Whether an import line's exposing list is out of order, which
/// elm-format would sort.
pub fn import_has_unsorted_exposing(line: &Vec<char>) -> (r: bool)
    ensures
        r == import_unsorted(line@),
{
    let t = trimmed(line);
    if !starts_with_str(&t, "import ") {
        return false;
    }
    let pat = crate::text::chars_of(" exposing (");
    let e = match super::assertions::find_substring(&t, " exposing (") {
        None => {
            return false;
        },
        Some(e) => e,
    };
    proof {
        lemma_find_sub(t@, " exposing ("@, 0);
    }
    let tn = t.len();
    assert(e + pat@.len() <= tn);
    let rest = chars_range(&t, e + pat.len(), tn);
    assert(rest@ =~= t@.skip(e + " exposing ("@.len()));
    let mut c = rest.len();
    while c > 0 && rest[c - 1] != ')'
        invariant
            c <= rest@.len(),
            last_index(rest@, ')', rest@.len() as int) == last_index(rest@, ')', c as int),
        decreases c,
    {
        c = c - 1;
    }
    if c == 0 {
        return false;
    }
    let inner = chars_range(&rest, 0, c - 1);
    assert(inner@ =~= rest@.take(c - 1));
    let ti = trimmed(&inner);
    let dots = crate::text::chars_of("..");
    if crate::text::chars_eq(&ti, &dots) {
        return false;
    }
    let ps = split_on(&inner, ',');
    let ghost pv = pieces(inner@, ',');
    let mut items: Vec<Vec<char>> = Vec::new();
    let mut k: usize = 0;
    while k < ps.len()
        invariant
            k <= ps@.len(),
            ps@.len() == pv.len(),
            forall|q: int| 0 <= q < ps@.len() ==> (#[trigger] ps@[q])@ == pv[q],
            items@.map_values(|v: Vec<char>| v@) == item_heads(pv, k as int),
        decreases ps@.len() - k,
    {
        let ghost before = items@.map_values(|v: Vec<char>| v@);
        let tp = trimmed(&ps[k]);
        let parts = split_on(&tp, '(');
        proof {
            crate::text::lemma_pieces_nonempty(tp@, '(');
        }
        let head = trimmed(&parts[0]);
        assert(head@ == item_head(pv[k as int]));
        if head.len() > 0 {
            items.push(head);
        }
        k = k + 1;
        assert(items@.map_values(|v: Vec<char>| v@) =~= item_heads(pv, k as int));
    }
    let ghost iv = items@.map_values(|v: Vec<char>| v@);
    if items.len() < 2 {
        return false;
    }
    let mut keys: Vec<Vec<char>> = Vec::new();
    let mut q: usize = 0;
    while q < items.len()
        invariant
            q <= items@.len(),
            iv == items@.map_values(|v: Vec<char>| v@),
            keys@.map_values(|v: Vec<char>| v@) == iv.take(q as int).map_values(|h: Seq<char>| lowercase(h)),
        decreases items@.len() - q,
    {
        let ghost before = keys@.map_values(|v: Vec<char>| v@);
        let key = to_lowercase(&items[q]);
        assert(iv[q as int] == items@[q as int]@);
        keys.push(key);
        assert(keys@.map_values(|v: Vec<char>| v@) =~= before.push(lowercase(iv[q as int])));
        assert(iv.take(q + 1) =~= iv.take(q as int).push(iv[q as int]));
        q = q + 1;
        assert(keys@.map_values(|v: Vec<char>| v@) =~= iv.take(q as int).map_values(|h: Seq<char>| lowercase(h)));
    }
    assert(iv.take(q as int) =~= iv);
    keys_out_of_order_exec(&keys)
}

} // verus!
