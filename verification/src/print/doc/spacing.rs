//! Spacing inside Elm expressions of doc code examples, as elm-format
//! re-prints them: tight `/`, `//` and `^` get spaces around them, compact
//! lists and tuples are spaced out (`[1,2]` becomes `[ 1, 2 ]`), runs of
//! spaces collapse, and a chain of `==` / `...` assertions is cut at its
//! operators. String and char literals and `--` comments are left alone.

use vstd::prelude::*;

use crate::text::{chars_range, is_whitespace_char, is_ws, trim, trimmed};

verus! {

/// Where a scan stands with respect to string and char literals.
#[derive(Clone, Copy)]
pub struct Lexing {
    pub in_str: bool,
    pub in_char: bool,
    pub esc: bool,
}

/// Outside any literal.
pub open spec fn plain() -> Lexing {
    Lexing { in_str: false, in_char: false, esc: false }
}

/// The scan is inside a literal (or just after a backslash in one).
pub open spec fn in_literal(l: Lexing) -> bool {
    l.esc || l.in_str || l.in_char
}

/// The literal state after the character `c`.
pub open spec fn lex_next(l: Lexing, c: char) -> Lexing {
    if l.esc {
        Lexing { in_str: l.in_str, in_char: l.in_char, esc: false }
    } else if l.in_str {
        if c == '\\' {
            Lexing { in_str: l.in_str, in_char: l.in_char, esc: true }
        } else if c == '"' {
            Lexing { in_str: false, in_char: l.in_char, esc: false }
        } else {
            l
        }
    } else if l.in_char {
        if c == '\\' {
            Lexing { in_str: l.in_str, in_char: l.in_char, esc: true }
        } else if c == '\'' {
            Lexing { in_str: l.in_str, in_char: false, esc: false }
        } else {
            l
        }
    } else if c == '"' {
        Lexing { in_str: true, in_char: l.in_char, esc: false }
    } else if c == '\'' {
        Lexing { in_str: l.in_str, in_char: true, esc: false }
    } else {
        l
    }
}

pub fn lex_step(l: Lexing, c: char) -> (r: Lexing)
    ensures
        r == lex_next(l, c),
{
    if l.esc {
        Lexing { in_str: l.in_str, in_char: l.in_char, esc: false }
    } else if l.in_str {
        if c == '\\' {
            Lexing { in_str: l.in_str, in_char: l.in_char, esc: true }
        } else if c == '"' {
            Lexing { in_str: false, in_char: l.in_char, esc: false }
        } else {
            l
        }
    } else if l.in_char {
        if c == '\\' {
            Lexing { in_str: l.in_str, in_char: l.in_char, esc: true }
        } else if c == '\'' {
            Lexing { in_str: l.in_str, in_char: false, esc: false }
        } else {
            l
        }
    } else if c == '"' {
        Lexing { in_str: true, in_char: l.in_char, esc: false }
    } else if c == '\'' {
        Lexing { in_str: l.in_str, in_char: true, esc: false }
    } else {
        l
    }
}

/// A character of an identifier or number.
pub open spec fn word_char(c: char) -> bool {
    ('a' <= c && c <= 'z') || ('A' <= c && c <= 'Z') || ('0' <= c && c <= '9') || c == '_'
}

pub fn is_word_char(c: char) -> (r: bool)
    ensures
        r == word_char(c),
{
    ('a' <= c && c <= 'z') || ('A' <= c && c <= 'Z') || ('0' <= c && c <= '9') || c == '_'
}

// ---------------------------------------------------------------------
// Tight binary operators.
/// The output of spacing tight `/`, `//` and `^` from `i`, in literal state
/// `l`, inside a comment or not.
pub open spec fn tight_ops_from(s: Seq<char>, i: int, l: Lexing, comment: bool) -> Seq<char>
    decreases s.len() - i,
{
    if i < 0 || i >= s.len() {
        Seq::empty()
    } else {
        let c = s[i];
        let n = s.len();
        if comment || in_literal(l) || c == '"' || c == '\'' {
            seq![c] + tight_ops_from(s, i + 1, if comment {
                l
            } else {
                lex_next(l, c)
            }, comment)
        } else if c == '-' && i + 1 < n && s[i + 1] == '-' {
            "--"@ + tight_ops_from(s, i + 2, l, true)
        } else if c == '/' && i + 1 < n && s[i + 1] == '/' && i > 0 && i + 2 < n && word_char(s[i - 1])
            && word_char(s[i + 2]) {
            " // "@ + tight_ops_from(s, i + 2, l, comment)
        } else if (c == '/' || c == '^') && i > 0 && i + 1 < n && word_char(s[i - 1]) && word_char(
            s[i + 1],
        ) {
            seq![' ', c, ' '] + tight_ops_from(s, i + 1, l, comment)
        } else {
            seq![c] + tight_ops_from(s, i + 1, l, comment)
        }
    }
}

/// Put spaces around `/`, `//` and `^` written between two word
/// characters (`1/2` becomes `1 / 2`), outside literals and comments.
pub fn space_tight_binary_ops(s: &Vec<char>) -> (r: Vec<char>)
    ensures
        r@ == tight_ops_from(s@, 0, plain(), false),
{
    let n = s.len();
    let mut out: Vec<char> = Vec::new();
    let mut l = Lexing { in_str: false, in_char: false, esc: false };
    let mut comment = false;
    let mut i: usize = 0;
    while i < n
        invariant
            i <= n,
            n == s@.len(),
            out@ + tight_ops_from(s@, i as int, l, comment) == tight_ops_from(s@, 0, plain(), false),
        decreases n - i,
    {
        let ghost o0 = out@;
        let ghost i0 = i as int;
        let ghost l0 = l;
        let ghost c0 = comment;
        let c = s[i];
        if comment || l.esc || l.in_str || l.in_char || c == '"' || c == '\'' {
            out.push(c);
            if !comment {
                l = lex_step(l, c);
            }
            i = i + 1;
        } else if c == '-' && i + 1 < n && s[i + 1] == '-' {
            out.push('-');
            out.push('-');
            comment = true;
            i = i + 2;
            proof {
                reveal_strlit("--");
            }
        } else if c == '/' && i + 1 < n && s[i + 1] == '/' && i > 0 && i + 2 < n && is_word_char(s[i - 1])
            && is_word_char(s[i + 2]) {
            out.push(' ');
            out.push('/');
            out.push('/');
            out.push(' ');
            i = i + 2;
            proof {
                reveal_strlit(" // ");
            }
        } else if (c == '/' || c == '^') && i > 0 && i + 1 < n && is_word_char(s[i - 1]) && is_word_char(
            s[i + 1],
        ) {
            out.push(' ');
            out.push(c);
            out.push(' ');
            i = i + 1;
        } else {
            out.push(c);
            i = i + 1;
        }
        proof {
            assert(out@ + tight_ops_from(s@, i as int, l, comment) =~= o0 + tight_ops_from(s@, i0, l0, c0));
        }
    }
    out
}

/// Only `/` and `^` between word characters get spaces: an expression
/// with neither is left as it is.
pub proof fn tight_ops_keep_text_without_slash_or_caret(s: Seq<char>)
    requires
        !s.contains('/'),
        !s.contains('^'),
    ensures
        tight_ops_from(s, 0, plain(), false) == s,
{
    lemma_tight_ops_plain(s, 0, plain(), false);
    assert(s.skip(0) =~= s);
}

proof fn lemma_tight_ops_plain(s: Seq<char>, i: int, l: Lexing, comment: bool)
    requires
        0 <= i <= s.len(),
        !s.contains('/'),
        !s.contains('^'),
    ensures
        tight_ops_from(s, i, l, comment) == s.skip(i),
    decreases s.len() - i,
{
    if i < s.len() {
        let c = s[i];
        assert(c != '/' && c != '^');
        if comment || in_literal(l) || c == '"' || c == '\'' {
            lemma_tight_ops_plain(s, i + 1, if comment {
                l
            } else {
                lex_next(l, c)
            }, comment);
            assert(s.skip(i) =~= seq![c] + s.skip(i + 1));
        } else if c == '-' && i + 1 < s.len() && s[i + 1] == '-' {
            lemma_tight_ops_plain(s, i + 2, l, true);
            reveal_strlit("--");
            assert(s.skip(i) =~= "--"@ + s.skip(i + 2));
        } else {
            lemma_tight_ops_plain(s, i + 1, l, comment);
            assert(s.skip(i) =~= seq![c] + s.skip(i + 1));
        }
    } else {
        assert(s.skip(i) =~= Seq::<char>::empty());
    }
}

// ---------------------------------------------------------------------
// Chain operators.
/// The positions of the spaces that open ` == ` and ` ... ` operators
/// outside literals, from `i` on.
pub open spec fn chain_positions(s: Seq<char>, i: int, l: Lexing) -> Seq<int>
    decreases s.len() - i,
{
    if i < 0 || i >= s.len() {
        Seq::empty()
    } else {
        let c = s[i];
        let n = s.len();
        if in_literal(l) || c == '"' || c == '\'' {
            chain_positions(s, i + 1, lex_next(l, c))
        } else if c == ' ' && i + 3 < n && s[i + 1] == '=' && s[i + 2] == '=' && s[i + 3] == ' ' {
            seq![i] + chain_positions(s, i + 4, l)
        } else if c == ' ' && i + 4 < n && s[i + 1] == '.' && s[i + 2] == '.' && s[i + 3] == '.' && s[i
            + 4] == ' ' {
            seq![i] + chain_positions(s, i + 5, l)
        } else {
            chain_positions(s, i + 1, l)
        }
    }
}

/// The trimmed pieces of `s` between the cut positions `ps`, starting at
/// `last`.
pub open spec fn chain_segments(s: Seq<char>, ps: Seq<int>, last: int) -> Seq<Seq<char>>
    decreases ps.len(),
{
    if ps.len() == 0 {
        seq![trim(s.subrange(last, s.len() as int))]
    } else {
        seq![trim(s.subrange(last, ps[0]))] + chain_segments(s, ps.drop_first(), ps[0] + 1)
    }
}

/// `s` cut at its chain operators.
pub open spec fn chain_split(s: Seq<char>) -> Seq<Seq<char>> {
    chain_segments(s, chain_positions(s, 0, plain()), 0)
}

/// Cut positions that are at least `lo`, leave room for the cut
/// character below `n`, and are increasing with a gap.
pub open spec fn cut_positions_ok(ps: Seq<int>, lo: int, n: int) -> bool {
    &&& forall|k: int| 0 <= k < ps.len() ==> lo <= #[trigger] ps[k] && ps[k] + 1 <= n
    &&& forall|a: int, b: int| 0 <= a < b < ps.len() ==> #[trigger] ps[a] + 1 <= #[trigger] ps[b]
}

proof fn lemma_cut_push(i: int, t: Seq<int>, lo: int, n: int)
    requires
        i + 1 <= lo,
        i + 1 <= n,
        cut_positions_ok(t, lo, n),
    ensures
        cut_positions_ok(seq![i] + t, i, n),
{
    let ps = seq![i] + t;
    assert forall|k: int| 0 <= k < ps.len() implies i <= #[trigger] ps[k] && ps[k] + 1 <= n by {
        if k > 0 {
            assert(ps[k] == t[k - 1]);
        }
    }
    assert forall|a: int, b: int| 0 <= a < b < ps.len() implies #[trigger] ps[a] + 1 <= #[trigger] ps[b] by {
        assert(ps[b] == t[b - 1]);
        if a > 0 {
            assert(ps[a] == t[a - 1]);
        }
    }
}

proof fn lemma_chain_positions(s: Seq<char>, i: int, l: Lexing)
    requires
        0 <= i,
    ensures
        cut_positions_ok(chain_positions(s, i, l), i, s.len() as int),
    decreases s.len() - i,
{
    if i < s.len() {
        let c = s[i];
        let n = s.len();
        if in_literal(l) || c == '"' || c == '\'' {
            lemma_chain_positions(s, i + 1, lex_next(l, c));
        } else if c == ' ' && i + 3 < n && s[i + 1] == '=' && s[i + 2] == '=' && s[i + 3] == ' ' {
            lemma_chain_positions(s, i + 4, l);
            lemma_cut_push(i, chain_positions(s, i + 4, l), i + 4, n as int);
        } else if c == ' ' && i + 4 < n && s[i + 1] == '.' && s[i + 2] == '.' && s[i + 3] == '.' && s[i
            + 4] == ' ' {
            lemma_chain_positions(s, i + 5, l);
            lemma_cut_push(i, chain_positions(s, i + 5, l), i + 5, n as int);
        } else {
            lemma_chain_positions(s, i + 1, l);
        }
    }
}

fn find_chain_positions(s: &Vec<char>) -> (r: Vec<usize>)
    ensures
        r@.map_values(|p: usize| p as int) == chain_positions(s@, 0, plain()),
{
    let n = s.len();
    let mut ps: Vec<usize> = Vec::new();
    let mut l = Lexing { in_str: false, in_char: false, esc: false };
    let mut i: usize = 0;
    while i < n
        invariant
            i <= n,
            n == s@.len(),
            ps@.map_values(|p: usize| p as int) + chain_positions(s@, i as int, l) == chain_positions(
                s@,
                0,
                plain(),
            ),
        decreases n - i,
    {
        let ghost p0 = ps@.map_values(|p: usize| p as int);
        let ghost i0 = i as int;
        let ghost l0 = l;
        let c = s[i];
        if l.esc || l.in_str || l.in_char || c == '"' || c == '\'' {
            l = lex_step(l, c);
            i = i + 1;
        } else if c == ' ' && n - i > 3 && s[i + 1] == '=' && s[i + 2] == '=' && s[i + 3] == ' ' {
            ps.push(i);
            i = i + 4;
        } else if c == ' ' && n - i > 4 && s[i + 1] == '.' && s[i + 2] == '.' && s[i + 3] == '.' && s[i + 4]
            == ' ' {
            ps.push(i);
            i = i + 5;
        } else {
            i = i + 1;
        }
        proof {
            assert(ps@.map_values(|p: usize| p as int) + chain_positions(s@, i as int, l) =~= p0
                + chain_positions(s@, i0, l0));
        }
    }
    ps
}

/// Cut an assertion chain at its ` == ` and ` ... ` operators (outside
/// literals); each piece is trimmed.
pub fn split_at_chain_operators(s: &Vec<char>) -> (r: Vec<Vec<char>>)
    ensures
        r@.map_values(|v: Vec<char>| v@) == chain_split(s@),
{
    let ps = find_chain_positions(s);
    let ghost all = chain_positions(s@, 0, plain());
    proof {
        lemma_chain_positions(s@, 0, plain());
    }
    let n = s.len();
    let mut segs: Vec<Vec<char>> = Vec::new();
    let mut last: usize = 0;
    let mut k: usize = 0;
    assert(all.skip(0) =~= all);
    assert(segs@.map_values(|v: Vec<char>| v@) =~= Seq::<Seq<char>>::empty());
    while k < ps.len()
        invariant
            n == s@.len(),
            k <= ps@.len(),
            ps@.map_values(|p: usize| p as int) == all,
            all == chain_positions(s@, 0, plain()),
            cut_positions_ok(all, 0, s@.len() as int),
            last <= s@.len(),
            k == 0 ==> last == 0,
            k > 0 ==> last == all[k - 1] + 1,
            segs@.map_values(|v: Vec<char>| v@) + chain_segments(s@, all.skip(k as int), last as int)
                == chain_split(s@),
        decreases ps@.len() - k,
    {
        let p = ps[k];
        assert(all[k as int] == p as int);
        let ghost rest = all.skip(k as int);
        assert(rest[0] == p);
        assert(rest.drop_first() =~= all.skip(k + 1));
        let piece = chars_range(s, last, p);
        let t = trimmed(&piece);
        let ghost before = segs@.map_values(|v: Vec<char>| v@);
        segs.push(t);
        assert(segs@.map_values(|v: Vec<char>| v@) =~= before.push(trim(s@.subrange(last as int, p as int))));
        assert(chain_segments(s@, rest, last as int) == seq![trim(s@.subrange(last as int, p as int))]
            + chain_segments(s@, all.skip(k + 1), p + 1));
        assert(segs@.map_values(|v: Vec<char>| v@) + chain_segments(s@, all.skip(k + 1), p + 1) =~= before
            + chain_segments(s@, rest, last as int));
        last = p + 1;
        k = k + 1;
    }
    let tail = chars_range(s, last, s.len());
    let t = trimmed(&tail);
    let ghost before = segs@.map_values(|v: Vec<char>| v@);
    assert(all.skip(k as int) =~= Seq::<int>::empty());
    segs.push(t);
    assert(segs@.map_values(|v: Vec<char>| v@) =~= before + chain_segments(s@, all.skip(k as int), last as int));
    segs
}

// ---------------------------------------------------------------------
// Collapsing runs of spaces.
/// The scan state of space collapsing: the output so far, inside a string,
/// after a backslash in one, after a space, inside a comment, and for each
/// open bracket whether it was written tight (not followed by a space).
pub open spec fn collapse_run(
    s: Seq<char>,
    i: int,
    out: Seq<char>,
    in_string: bool,
    escape: bool,
    prev_space: bool,
    comment: bool,
    tight: Seq<bool>,
) -> Seq<char>
    decreases s.len() - i,
{
    if i < 0 || i >= s.len() {
        out
    } else {
        let c = s[i];
        if comment {
            collapse_run(s, i + 1, out.push(c), in_string, escape, prev_space, comment, tight)
        } else if escape {
            collapse_run(s, i + 1, out.push(c), in_string, false, prev_space, comment, tight)
        } else if in_string {
            collapse_run(s, i + 1, out.push(c), c != '"', c == '\\', false, comment, tight)
        } else if c == '"' {
            collapse_run(s, i + 1, out.push(c), true, escape, false, comment, tight)
        } else if c == '-' && i + 1 < s.len() && s[i + 1] == '-' {
            collapse_run(s, i + 1, out.push(c), in_string, escape, false, true, tight)
        } else if c == ' ' {
            collapse_run(s, i + 1, if prev_space {
                out
            } else {
                out.push(c)
            }, in_string, escape, true, comment, tight)
        } else if c == '(' || c == '[' || c == '{' {
            let is_tight = !(i + 1 < s.len() && s[i + 1] == ' ');
            collapse_run(s, i + 1, out.push(c), in_string, escape, false, comment, tight.push(is_tight))
        } else if c == ')' || c == ']' || c == '}' {
            let was_tight = tight.len() > 0 && tight.last();
            let rest = if tight.len() > 0 {
                tight.drop_last()
            } else {
                tight
            };
            let o = if prev_space && was_tight && out.len() > 0 {
                out.drop_last()
            } else {
                out
            };
            collapse_run(s, i + 1, o.push(c), in_string, escape, false, comment, rest)
        } else {
            collapse_run(s, i + 1, out.push(c), in_string, escape, false, comment, tight)
        }
    }
}

/// `s` with runs of spaces collapsed to one outside strings and comments,
/// and a space before a closing bracket dropped when its opener was tight.
pub open spec fn spaces_collapsed(s: Seq<char>) -> Seq<char> {
    collapse_run(s, 0, Seq::empty(), false, false, false, false, Seq::empty())
}

/// Collapse runs of spaces outside string literals and comments; `(x  )`
/// becomes `(x)` while `[ 1, 2 ]` keeps its inner spaces.
pub fn collapse_spaces_outside_strings(s: &Vec<char>) -> (r: Vec<char>)
    ensures
        r@ == spaces_collapsed(s@),
{
    let n = s.len();
    let mut out: Vec<char> = Vec::new();
    let mut in_string = false;
    let mut escape = false;
    let mut prev_space = false;
    let mut comment = false;
    let mut tight: Vec<bool> = Vec::new();
    let mut i: usize = 0;
    while i < n
        invariant
            i <= n,
            n == s@.len(),
            collapse_run(s@, i as int, out@, in_string, escape, prev_space, comment, tight@) == spaces_collapsed(
                s@,
            ),
        decreases n - i,
    {
        let c = s[i];
        if comment {
            out.push(c);
        } else if escape {
            out.push(c);
            escape = false;
        } else if in_string {
            if c == '\\' {
                escape = true;
            } else if c == '"' {
                in_string = false;
            }
            out.push(c);
            prev_space = false;
        } else if c == '"' {
            in_string = true;
            out.push(c);
            prev_space = false;
        } else if c == '-' && i + 1 < n && s[i + 1] == '-' {
            comment = true;
            out.push(c);
            prev_space = false;
        } else if c == ' ' {
            if !prev_space {
                out.push(c);
            }
            prev_space = true;
        } else if c == '(' || c == '[' || c == '{' {
            let is_tight = !(i + 1 < n && s[i + 1] == ' ');
            tight.push(is_tight);
            out.push(c);
            prev_space = false;
        } else if c == ')' || c == ']' || c == '}' {
            let was_tight = match tight.pop() {
                Some(t) => t,
                None => false,
            };
            if prev_space && was_tight && out.len() > 0 {
                out.pop();
            }
            out.push(c);
            prev_space = false;
        } else {
            out.push(c);
            prev_space = false;
        }
        i = i + 1;
    }
    out
}

// ---------------------------------------------------------------------
// Tuples and lists.
/// An open `(` or `[` while spacing tuples and lists: where it stands in
/// the output, whether its content starts right after it (tight), and what
/// it has held so far.
#[derive(Clone, Copy)]
pub struct Frame {
    pub out_pos: usize,
    pub kind: char,
    pub tight: bool,
    pub has_content: bool,
    pub has_comma: bool,
    pub has_non_comma_content: bool,
}

/// `o` without its trailing spaces.
pub open spec fn without_trailing_spaces(o: Seq<char>) -> Seq<char>
    decreases o.len(),
{
    if o.len() > 0 && o.last() == ' ' {
        without_trailing_spaces(o.drop_last())
    } else {
        o
    }
}

/// The output when the bracket `c` closes the frame `f`: a tight list with
/// content, or a tight tuple with a comma and other content, gets a space
/// inside each bracket; a spaced parenthesized expression without a comma
/// loses those spaces.
pub open spec fn closed_frame_out(out: Seq<char>, f: Frame, c: char) -> Seq<char> {
    let expected = if c == ')' {
        '('
    } else {
        '['
    };
    if f.kind != expected {
        out
    } else {
        let expand = if c == ']' {
            f.tight && f.has_content
        } else {
            f.tight && f.has_comma && f.has_non_comma_content
        };
        let tighten = c == ')' && !f.tight && !f.has_comma && f.has_content;
        let p = f.out_pos + 1;
        if expand {
            out.insert(p, ' ').push(' ')
        } else if tighten {
            without_trailing_spaces(
                if p < out.len() && out[p] == ' ' {
                    out.remove(p)
                } else {
                    out
                },
            )
        } else {
            out
        }
    }
}

/// The frame `f` once it has seen a comma.
pub open spec fn with_comma(f: Frame) -> Frame {
    Frame {
        out_pos: f.out_pos,
        kind: f.kind,
        tight: f.tight,
        has_content: true,
        has_comma: true,
        has_non_comma_content: f.has_non_comma_content,
    }
}

/// The frame `f` once it has seen content other than a comma.
pub open spec fn with_content(f: Frame) -> Frame {
    Frame {
        out_pos: f.out_pos,
        kind: f.kind,
        tight: f.tight,
        has_content: true,
        has_comma: f.has_comma,
        has_non_comma_content: true,
    }
}

/// A character after a comma that gets a space before it.
pub open spec fn spaced_after_comma(n: char) -> bool {
    ('a' <= n && n <= 'z') || ('A' <= n && n <= 'Z') || ('0' <= n && n <= '9') || n == '_' || n == '('
        || n == '[' || n == '{' || n == '\'' || n == '"' || n == '-'
}

/// The output of spacing tuples and lists, scanning from `i` with the
/// output so far, the open frames, the literal state and whether the scan
/// is inside a comment (which ends at a newline).
pub open spec fn tuples_run(s: Seq<char>, i: int, out: Seq<char>, fr: Seq<Frame>, l: Lexing, comment: bool) -> Seq<
    char,
>
    decreases s.len() - i,
{
    if i < 0 || i >= s.len() {
        out
    } else {
        let c = s[i];
        let n = s.len();
        if comment {
            tuples_run(s, i + 1, out.push(c), fr, l, c != '\n')
        } else if in_literal(l) {
            tuples_run(s, i + 1, out.push(c), fr, lex_next(l, c), comment)
        } else if c == '-' && i + 1 < n && s[i + 1] == '-' {
            tuples_run(s, i + 2, out + "--"@, fr, l, true)
        } else if c == '"' || c == '\'' {
            tuples_run(s, i + 1, out.push(c), fr, lex_next(l, c), comment)
        } else if c == '(' || c == '[' {
            let tight = !(i + 1 < n && (s[i + 1] == ' ' || s[i + 1] == '\n' || s[i + 1] == '\t'));
            let f = Frame {
                out_pos: out.len() as usize,
                kind: c,
                tight: tight,
                has_content: false,
                has_comma: false,
                has_non_comma_content: false,
            };
            tuples_run(s, i + 1, out.push(c), fr.push(f), l, comment)
        } else if c == ')' || c == ']' {
            if fr.len() > 0 {
                tuples_run(s, i + 1, closed_frame_out(out, fr.last(), c).push(c), fr.drop_last(), l, comment)
            } else {
                tuples_run(s, i + 1, out.push(c), fr, l, comment)
            }
        } else if c == ',' {
            let fr2 = if fr.len() > 0 {
                fr.update(fr.len() - 1, with_comma(fr.last()))
            } else {
                fr
            };
            let o = if i + 1 < n && spaced_after_comma(s[i + 1]) {
                out.push(',').push(' ')
            } else {
                out.push(',')
            };
            tuples_run(s, i + 1, o, fr2, l, comment)
        } else {
            let fr2 = if !is_ws(c) && fr.len() > 0 {
                fr.update(fr.len() - 1, with_content(fr.last()))
            } else {
                fr
            };
            tuples_run(s, i + 1, out.push(c), fr2, l, comment)
        }
    }
}

/// `s` with its compact tuples and lists spaced out.
pub open spec fn tuples_spaced(s: Seq<char>) -> Seq<char> {
    tuples_run(s, 0, Seq::empty(), Seq::empty(), plain(), false)
}

/// The open frames point at their brackets in the output, in order.
pub open spec fn frames_ok(out: Seq<char>, fr: Seq<Frame>) -> bool {
    &&& forall|k: int|
        0 <= k < fr.len() ==> (#[trigger] fr[k]).out_pos < out.len() && out[fr[k].out_pos as int] == fr[k].kind
            && (fr[k].kind == '(' || fr[k].kind == '[')
    &&& forall|a: int, b: int| 0 <= a < b < fr.len() ==> (#[trigger] fr[a]).out_pos < (#[trigger] fr[b]).out_pos
}

proof fn lemma_frames_prefix(out: Seq<char>, o2: Seq<char>, fr: Seq<Frame>, m: int)
    requires
        frames_ok(out, fr),
        forall|k: int| 0 <= k < fr.len() ==> (#[trigger] fr[k]).out_pos < m,
        m <= out.len(),
        m <= o2.len(),
        forall|q: int| 0 <= q < m ==> o2[q] == out[q],
    ensures
        frames_ok(o2, fr),
{
    assert forall|k: int| 0 <= k < fr.len() implies (#[trigger] fr[k]).out_pos < o2.len() && o2[fr[k].out_pos as int]
        == fr[k].kind && (fr[k].kind == '(' || fr[k].kind == '[') by {
        let q = fr[k].out_pos as int;
        assert(o2[q] == out[q]);
    }
}

proof fn lemma_strip_spaces(o: Seq<char>, q: int)
    requires
        0 <= q < o.len(),
        o[q] != ' ',
    ensures
        q < without_trailing_spaces(o).len() <= o.len(),
        without_trailing_spaces(o) == o.take(without_trailing_spaces(o).len() as int),
    decreases o.len(),
{
    if o.len() > 0 && o.last() == ' ' {
        lemma_strip_spaces(o.drop_last(), q);
        let w = without_trailing_spaces(o.drop_last());
        assert(o.drop_last().take(w.len() as int) =~= o.take(w.len() as int));
    } else {
        assert(o.take(o.len() as int) =~= o);
    }
}

fn update_top(frames: &mut Vec<Frame>, comma: bool)
    ensures
        final(frames)@ == (if old(frames)@.len() > 0 {
            old(frames)@.update(
                old(frames)@.len() - 1,
                if comma {
                    with_comma(old(frames)@.last())
                } else {
                    with_content(old(frames)@.last())
                },
            )
        } else {
            old(frames)@
        }),
{
    if let Some(mut top) = frames.pop() {
        top.has_content = true;
        if comma {
            top.has_comma = true;
        } else {
            top.has_non_comma_content = true;
        }
        frames.push(top);
        assert(frames@ =~= old(frames)@.update(old(frames)@.len() - 1, top));
    }
}

/// Space out compact tuples and lists as elm-format prints them:
/// `[1,2]` becomes `[ 1, 2 ]`, `(0,"a")` becomes `( 0, "a" )`, a space goes
/// after a comma, and `( x )` becomes `(x)`. Literals and comments are left
/// alone.
pub fn space_tight_tuples_lists(s: &Vec<char>) -> (r: Vec<char>)
    ensures
        r@ == tuples_spaced(s@),
{
    let n = s.len();
    let mut out: Vec<char> = Vec::new();
    let mut frames: Vec<Frame> = Vec::new();
    let mut l = Lexing { in_str: false, in_char: false, esc: false };
    let mut comment = false;
    let mut i: usize = 0;
    while i < n
        invariant
            i <= n,
            n == s@.len(),
            frames_ok(out@, frames@),
            tuples_run(s@, i as int, out@, frames@, l, comment) == tuples_spaced(s@),
        decreases n - i,
    {
        let ghost o0 = out@;
        let ghost f0 = frames@;
        let c = s[i];
        if comment {
            out.push(c);
            comment = c != '\n';
            i = i + 1;
            proof {
                lemma_frames_prefix(o0, out@, f0, o0.len() as int);
            }
        } else if l.esc || l.in_str || l.in_char {
            out.push(c);
            l = lex_step(l, c);
            i = i + 1;
            proof {
                lemma_frames_prefix(o0, out@, f0, o0.len() as int);
            }
        } else if c == '-' && i + 1 < n && s[i + 1] == '-' {
            out.push('-');
            out.push('-');
            comment = true;
            i = i + 2;
            proof {
                reveal_strlit("--");
                assert(out@ =~= o0 + "--"@);
                lemma_frames_prefix(o0, out@, f0, o0.len() as int);
            }
        } else if c == '"' || c == '\'' {
            out.push(c);
            l = lex_step(l, c);
            i = i + 1;
            proof {
                lemma_frames_prefix(o0, out@, f0, o0.len() as int);
            }
        } else if c == '(' || c == '[' {
            let tight = !(i + 1 < n && (s[i + 1] == ' ' || s[i + 1] == '\n' || s[i + 1] == '\t'));
            let f = Frame {
                out_pos: out.len(),
                kind: c,
                tight: tight,
                has_content: false,
                has_comma: false,
                has_non_comma_content: false,
            };
            frames.push(f);
            out.push(c);
            i = i + 1;
            proof {
                lemma_frames_prefix(o0, out@, f0, o0.len() as int);
                assert forall|k: int| 0 <= k < frames@.len() implies (#[trigger] frames@[k]).out_pos < out@.len()
                    && out@[frames@[k].out_pos as int] == frames@[k].kind && (frames@[k].kind == '('
                    || frames@[k].kind == '[') by {
                    if k < f0.len() {
                        assert(frames@[k] == f0[k]);
                    }
                }
                assert forall|a: int, b: int| 0 <= a < b < frames@.len() implies (#[trigger] frames@[a]).out_pos
                    < (#[trigger] frames@[b]).out_pos by {
                    assert(frames@[a] == f0[a]);
                    if b < f0.len() {
                        assert(frames@[b] == f0[b]);
                    }
                }
            }
        } else if c == ')' || c == ']' {
            let olen = out.len();
            if let Some(f) = frames.pop() {
                let ghost rest = frames@;
                assert(f == f0.last());
                assert(rest == f0.drop_last());
                assert(f.out_pos < olen);
                let p = f.out_pos + 1;
                assert forall|k: int| 0 <= k < rest.len() implies (#[trigger] rest[k]).out_pos < f.out_pos by {
                    assert(rest[k] == f0[k]);
                    assert(f0[f0.len() - 1] == f);
                }
                assert forall|k: int| 0 <= k < rest.len() implies (#[trigger] rest[k]).out_pos < o0.len() && o0[rest[k].out_pos as int] == rest[k].kind && (rest[k].kind == '(' || rest[k].kind == '[') by {
                    assert(rest[k] == f0[k]);
                }
                assert forall|a: int, b: int| 0 <= a < b < rest.len() implies (#[trigger] rest[a]).out_pos < (#[trigger] rest[b]).out_pos by {
                    assert(rest[a] == f0[a]);
                    assert(rest[b] == f0[b]);
                }
                assert(frames_ok(o0, rest));
                let expected = if c == ')' {
                    '('
                } else {
                    '['
                };
                if f.kind == expected {
                    let expand = if c == ']' {
                        f.tight && f.has_content
                    } else {
                        f.tight && f.has_comma && f.has_non_comma_content
                    };
                    let tighten = c == ')' && !f.tight && !f.has_comma && f.has_content;
                    if expand {
                        out.insert(p, ' ');
                        out.push(' ');
                        proof {
                            lemma_frames_prefix(o0, out@, rest, p as int);
                        }
                    } else if tighten {
                        if p < out.len() && out[p] == ' ' {
                            out.remove(p);
                        }
                        let ghost o1 = out@;
                        proof {
                            assert(forall|q: int| 0 <= q < p ==> o1[q] == o0[q]);
                            lemma_strip_spaces(o1, f.out_pos as int);
                        }
                        while out.len() > 0 && out[out.len() - 1] == ' '
                            invariant
                                without_trailing_spaces(out@) == without_trailing_spaces(o1),
                            decreases out@.len(),
                        {
                            out.pop();
                        }
                        proof {
                            let w = without_trailing_spaces(o1);
                            assert(out@ == w);
                            assert forall|q: int| 0 <= q < p implies out@[q] == o0[q] by {
                                assert(o1.take(w.len() as int)[q] == o1[q]);
                            }
                            lemma_frames_prefix(o0, out@, rest, p as int);
                        }
                    } else {
                        proof {
                            lemma_frames_prefix(o0, out@, rest, o0.len() as int);
                        }
                    }
                } else {
                    proof {
                        lemma_frames_prefix(o0, out@, rest, o0.len() as int);
                    }
                }
                let ghost o2 = out@;
                assert(o2 == closed_frame_out(o0, f, c));
                out.push(c);
                proof {
                    assert(frames_ok(o2, rest));
                    lemma_frames_prefix(o2, out@, rest, o2.len() as int);
                }
            } else {
                out.push(c);
                proof {
                    lemma_frames_prefix(o0, out@, f0, o0.len() as int);
                }
            }
            i = i + 1;
        } else if c == ',' {
            update_top(&mut frames, true);
            out.push(',');
            let next_spaced = i + 1 < n && {
                let nc = s[i + 1];
                ('a' <= nc && nc <= 'z') || ('A' <= nc && nc <= 'Z') || ('0' <= nc && nc <= '9') || nc == '_'
                    || nc == '(' || nc == '[' || nc == '{' || nc == '\'' || nc == '"' || nc == '-'
            };
            if next_spaced {
                out.push(' ');
            }
            i = i + 1;
            proof {
                lemma_frames_prefix(o0, out@, f0, o0.len() as int);
                assert forall|k: int| 0 <= k < frames@.len() implies (#[trigger] frames@[k]).out_pos < out@.len()
                    && out@[frames@[k].out_pos as int] == frames@[k].kind && (frames@[k].kind == '('
                    || frames@[k].kind == '[') by {
                    assert(frames@[k].out_pos == f0[k].out_pos && frames@[k].kind == f0[k].kind);
                }
                assert forall|a: int, b: int| 0 <= a < b < frames@.len() implies (#[trigger] frames@[a]).out_pos
                    < (#[trigger] frames@[b]).out_pos by {
                    assert(frames@[a].out_pos == f0[a].out_pos);
                    assert(frames@[b].out_pos == f0[b].out_pos);
                }
            }
        } else {
            if !is_whitespace_char(c) {
                update_top(&mut frames, false);
            }
            out.push(c);
            i = i + 1;
            proof {
                lemma_frames_prefix(o0, out@, f0, o0.len() as int);
                assert forall|k: int| 0 <= k < frames@.len() implies (#[trigger] frames@[k]).out_pos < out@.len()
                    && out@[frames@[k].out_pos as int] == frames@[k].kind && (frames@[k].kind == '('
                    || frames@[k].kind == '[') by {
                    assert(frames@[k].out_pos == f0[k].out_pos && frames@[k].kind == f0[k].kind);
                }
                assert forall|a: int, b: int| 0 <= a < b < frames@.len() implies (#[trigger] frames@[a]).out_pos
                    < (#[trigger] frames@[b]).out_pos by {
                    assert(frames@[a].out_pos == f0[a].out_pos);
                    assert(frames@[b].out_pos == f0[b].out_pos);
                }
            }
        }
    }
    out
}

} // verus!
