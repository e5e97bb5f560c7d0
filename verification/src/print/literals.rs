//! Printing of literals: escapes, decimal and hexadecimal integers, floats.

use vstd::prelude::*;

use super::Printer;
use crate::literal::{FloatText, Literal};
use crate::text::chars_of;

verus! {

/// The digit for `d` (`0`-`9`, then upper-case `A`-`F`).
pub open spec fn digit_char(d: nat) -> char {
    if d < 10 {
        (d + 48) as char
    } else {
        (d - 10 + 65) as char
    }
}

/// `v` in base `radix` without leading zeros (`0` is `"0"`).
pub open spec fn digits(v: nat, radix: nat) -> Seq<char>
    recommends
        2 <= radix <= 16,
    decreases v,
{
    if radix < 2 || v < radix {
        seq![digit_char(v % 16)]
    } else {
        proof {
            assert(v / radix < v) by (nonlinear_arith)
                requires
                    radix >= 2,
                    v >= radix,
            ;
        }
        digits(v / radix, radix) + seq![digit_char(v % radix)]
    }
}

/// `n` zero characters.
pub open spec fn zeros(n: nat) -> Seq<char> {
    Seq::new(n, |i: int| '0')
}

/// `v` in base `radix`, left-padded with zeros to at least `width` digits.
pub open spec fn padded_digits(v: nat, radix: nat, width: nat) -> Seq<char> {
    let d = digits(v, radix);
    if d.len() < width {
        zeros((width - d.len()) as nat) + d
    } else {
        d
    }
}

/// The decimal text of an integer, with a leading `-` when negative.
pub open spec fn int_text(n: int) -> Seq<char> {
    if n < 0 {
        seq!['-'] + digits((-n) as nat, 10)
    } else {
        digits(n as nat, 10)
    }
}

/// Upper-case hexadecimal digits of `v`, padded to at least `width` digits.
pub open spec fn hex_digits(v: nat, width: nat) -> Seq<char> {
    padded_digits(v, 16, width)
}

/// Characters that elm-format writes as `\u{XXXX}` escapes: control
/// characters (Unicode category Cc), non-ASCII spaces, invisible format
/// characters, the byte-order mark and an unassigned punctuation range.
pub open spec fn needs_unicode_escape(c: char) -> bool {
    let cp = c as u32;
    ||| cp <= 0x1F
    ||| 0x7F <= cp <= 0x9F
    ||| cp == 0xA0
    ||| cp == 0x1680
    ||| 0x2000 <= cp <= 0x200F
    ||| 0x2028 <= cp <= 0x202F
    ||| 0x205F <= cp <= 0x206F
    ||| 0x2E5E <= cp <= 0x2E7F
    ||| cp == 0x3000
    ||| cp == 0xFEFF
}

/// The escaped text of a character inside a string or char literal.
pub open spec fn escaped_char(c: char) -> Seq<char> {
    if c == '\n' {
        "\\n"@
    } else if c == '\t' {
        "\\t"@
    } else if c == '\\' {
        "\\\\"@
    } else if c == '\'' {
        "\\'"@
    } else if c == '"' {
        "\\\""@
    } else if needs_unicode_escape(c) {
        "\\u{"@ + hex_digits(c as nat, 4) + "}"@
    } else {
        seq![c]
    }
}

/// The escaped content of a double-quoted string literal (single quotes are
/// left as they are).
pub open spec fn escaped_string(s: Seq<char>) -> Seq<char>
    decreases s.len(),
{
    if s.len() == 0 {
        Seq::empty()
    } else {
        let c = s.last();
        escaped_string(s.drop_last()) + if c == '\'' {
            seq!['\'']
        } else {
            escaped_char(c)
        }
    }
}

/// `s` with every `from` replaced by `to`.
pub open spec fn replace_char(s: Seq<char>, from: char, to: char) -> Seq<char> {
    s.map_values(|c: char| if c == from { to } else { c })
}

/// The index of the first `e` or `E` in `s`, if any.
pub open spec fn exponent_index(s: Seq<char>) -> Option<int> {
    if exists|i: int| 0 <= i < s.len() && (s[i] == 'e' || s[i] == 'E') {
        Some(
            choose|i: int|
                0 <= i < s.len() && (s[i] == 'e' || s[i] == 'E') && forall|j: int|
                    0 <= j < i ==> s[j] != 'e' && s[j] != 'E',
        )
    } else {
        None
    }
}

/// The 18 characters of `s` from `i` on are all `0`.
pub open spec fn zero_run_at(s: Seq<char>, i: int) -> bool {
    0 <= i && i + 18 <= s.len() && forall|j: int| i <= j < i + 18 ==> s[j] == '0'
}

/// `s` holds a run of at least 18 consecutive `0` characters.
pub open spec fn has_long_zero_run(s: Seq<char>) -> bool {
    exists|i: int| #[trigger] zero_run_at(s, i)
}

/// A float's text with `.0` supplied where it has no fractional part:
/// `s` if it has a `.`, else `.0` inserted before its exponent, else `.0`
/// appended.
pub open spec fn with_fraction(s: Seq<char>) -> Seq<char> {
    if s.contains('.') {
        s
    } else {
        match exponent_index(s) {
            Some(e) => s.take(e) + ".0"@ + s.skip(e),
            None => s + ".0"@,
        }
    }
}

/// The text of a float literal. In elm-format layout a source lexeme in
/// scientific notation is kept (lower-cased `e`, `.0` added to a mantissa
/// without a point). Otherwise the shortest decimal rendering is used, or the
/// scientific one when the decimal has a run of 18 or more zeros, with `.0`
/// supplied where needed.
pub open spec fn float_text(f: FloatText, lexeme: Option<String>, pretty: bool) -> Seq<char> {
    if pretty && lexeme is Some && (lexeme->0@.contains('e') || lexeme->0@.contains('E')) {
        let lower = replace_char(lexeme->0@, 'E', 'e');
        with_fraction(lower)
    } else {
        let s = if has_long_zero_run(f.display@) {
            f.scientific@
        } else {
            f.display@
        };
        with_fraction(s)
    }
}

/// The text of a hexadecimal literal: elm-format layout pads the magnitude
/// to 2, 4, 8 or 16 digits with a `-` sign when negative; compact layout
/// writes the 64-bit two's complement value with at least 2 digits.
pub open spec fn hex_literal_text(n: i64, pretty: bool) -> Seq<char> {
    if pretty {
        let abs: nat = if n < 0 {
            (-n) as nat
        } else {
            n as nat
        };
        let prefix = if n < 0 {
            "-0x"@
        } else {
            "0x"@
        };
        let width: nat = if abs <= 0xFF {
            2
        } else if abs <= 0xFFFF {
            4
        } else if abs <= 0xFFFF_FFFF {
            8
        } else {
            16
        };
        prefix + hex_digits(abs, width)
    } else {
        "0x"@ + hex_digits(
            if n < 0 {
                (n + 0x1_0000_0000_0000_0000int) as nat
            } else {
                n as nat
            },
            2,
        )
    }
}

/// The text of a literal.
pub open spec fn literal_text(lit: Literal, pretty: bool) -> Seq<char> {
    match lit {
        Literal::Char(c) => seq!['\''] + (if c == '"' {
            seq!['"']
        } else {
            escaped_char(c)
        }) + seq!['\''],
        Literal::String(s) => seq!['"'] + escaped_string(s@) + seq!['"'],
        Literal::MultilineString(s) => "\"\"\""@ + s@ + "\"\"\""@,
        Literal::Int(n) => int_text(n as int),
        Literal::Hex(n) => hex_literal_text(n, pretty),
        Literal::Float(f, lexeme) => float_text(f, lexeme, pretty),
    }
}

/// Whether `c` occurs in `v`.
pub fn contains_char(v: &Vec<char>, c: char) -> (r: bool)
    ensures
        r == v@.contains(c),
{
    let mut i: usize = 0;
    while i < v.len()
        invariant
            i <= v@.len(),
            forall|j: int| 0 <= j < i ==> v@[j] != c,
        decreases v@.len() - i,
    {
        if v[i] == c {
            assert(v@[i as int] == c);
            return true;
        }
        i = i + 1;
    }
    false
}

/// The index of the first `e` or `E` in `v`.
fn find_exponent(v: &Vec<char>) -> (r: Option<usize>)
    ensures
        match r {
            Some(i) => i < v@.len() && exponent_index(v@) == Some(i as int),
            None => exponent_index(v@) is None,
        },
{
    let mut i: usize = 0;
    while i < v.len()
        invariant
            i <= v@.len(),
            forall|j: int| 0 <= j < i ==> v@[j] != 'e' && v@[j] != 'E',
        decreases v@.len() - i,
    {
        if v[i] == 'e' || v[i] == 'E' {
            let ghost k = choose|k: int|
                0 <= k < v@.len() && (v@[k] == 'e' || v@[k] == 'E') && forall|j: int|
                    0 <= j < k ==> v@[j] != 'e' && v@[j] != 'E';
            assert(0 <= i < v@.len() && (v@[i as int] == 'e' || v@[i as int] == 'E') && forall|j: int|
                0 <= j < i ==> v@[j] != 'e' && v@[j] != 'E');
            assert(k == i as int) by {
                if k < i {
                } else if k > i {
                    assert(v@[i as int] != 'e' && v@[i as int] != 'E');
                }
            }
            return Some(i);
        }
        i = i + 1;
    }
    None
}

/// `v` with every `from` replaced by `to`.
fn replaced(v: &Vec<char>, from: char, to: char) -> (r: Vec<char>)
    ensures
        r@ == replace_char(v@, from, to),
{
    let mut r: Vec<char> = Vec::new();
    let mut i: usize = 0;
    while i < v.len()
        invariant
            i <= v@.len(),
            r@ == replace_char(v@.take(i as int), from, to),
        decreases v@.len() - i,
    {
        if v[i] == from {
            r.push(to);
        } else {
            r.push(v[i]);
        }
        assert(replace_char(v@.take(i + 1), from, to) =~= replace_char(v@.take(i as int), from, to).push(
            if v@[i as int] == from { to } else { v@[i as int] },
        ));
        i = i + 1;
    }
    assert(v@.take(i as int) =~= v@);
    r
}

/// Whether `v` holds 18 consecutive `0` characters.
fn zero_run(v: &Vec<char>) -> (r: bool)
    ensures
        r == has_long_zero_run(v@),
{
    let mut i: usize = 0;
    while i < v.len() && v.len() - i >= 18
        invariant
            i <= v@.len(),
            forall|k: int| 0 <= k < i ==> !zero_run_at(v@, k),
        decreases v@.len() - i,
    {
        let mut j: usize = 0;
        while j < 18 && v[i + j] == '0'
            invariant
                i + 18 <= v@.len(),
                i + 18 <= usize::MAX,
                j <= 18,
                forall|m: int| i <= m < i + j ==> v@[m] == '0',
            decreases 18 - j,
        {
            j = j + 1;
        }
        if j == 18 {
            assert(zero_run_at(v@, i as int));
            return true;
        }
        assert(!zero_run_at(v@, i as int)) by {
            assert(v@[(i + j) as int] != '0');
        }
        i = i + 1;
    }
    assert forall|k: int| !zero_run_at(v@, k) by {
        if 0 <= k && k + 18 <= v@.len() {
            assert(k < i);
        }
    }
    false
}

/// The digit character for `d < 16`.
fn digit_of(d: u64) -> (c: char)
    requires
        d < 16,
    ensures
        c == digit_char(d as nat),
{
    let b: u8 = d as u8;
    if b < 10 {
        (b + 48) as char
    } else {
        (b - 10 + 65) as char
    }
}

/// The digits of `v` in base `radix`.
fn digits_vec(v: u64, radix: u64) -> (r: Vec<char>)
    requires
        2 <= radix <= 16,
    ensures
        r@ == digits(v as nat, radix as nat),
    decreases v,
{
    let mut r: Vec<char> = if v >= radix {
        assert(v / radix < v) by (nonlinear_arith)
            requires
                radix >= 2,
                v >= radix,
        ;
        digits_vec(v / radix, radix)
    } else {
        Vec::new()
    };
    r.push(digit_of(v % radix));
    proof {
        if v < radix {
            vstd::arithmetic::div_mod::lemma_small_mod(v as nat, radix as nat);
            vstd::arithmetic::div_mod::lemma_small_mod(v as nat, 16);
        }
    }
    assert(r@ =~= digits(v as nat, radix as nat));
    r
}

impl Printer {
    /// Write `v` in base `radix` without leading zeros.
    fn write_digits(&mut self, v: u64, radix: u64)
        requires
            2 <= radix <= 16,
        ensures
            old(self).appended(&*final(self), digits(v as nat, radix as nat)),
        decreases v,
    {
        if v >= radix {
            assert(v / radix < v) by (nonlinear_arith)
                requires
                    radix >= 2,
                    v >= radix,
            ;
            self.write_digits(v / radix, radix);
        }
        let d = digit_of(v % radix);
        self.write_char(d);
        proof {
            if v < radix {
                vstd::arithmetic::div_mod::lemma_small_mod(v as nat, radix as nat);
                vstd::arithmetic::div_mod::lemma_small_mod(v as nat, 16);
            }
        }
        assert(self.text() =~= old(self).text() + digits(v as nat, radix as nat));
    }

    /// Write `v` in base `radix`, left-padded with zeros to `width` digits.
    pub(super) fn write_padded(&mut self, v: u64, radix: u64, width: usize)
        requires
            2 <= radix <= 16,
        ensures
            old(self).appended(&*final(self), padded_digits(v as nat, radix as nat, width as nat)),
    {
        let ds = digits_vec(v, radix);
        let n = ds.len();
        if n < width {
            let mut k: usize = 0;
            while k < width - n
                invariant
                    n < width,
                    k <= width - n,
                    old(self).appended(&*self, zeros(k as nat)),
                decreases width - n - k,
            {
                self.write_char('0');
                assert(zeros((k + 1) as nat) =~= zeros(k as nat) + seq!['0']);
                assert(self.text() =~= old(self).text() + zeros((k + 1) as nat));
                k = k + 1;
            }
        }
        self.write_chars(&ds);
        assert(self.text() =~= old(self).text() + padded_digits(v as nat, radix as nat, width as nat));
    }

    /// Write a decimal integer.
    pub(super) fn write_int(&mut self, n: i64)
        ensures
            old(self).appended(&*final(self), int_text(n as int)),
    {
        if n < 0 {
            self.write_char('-');
            let m: u64 = ((-(n + 1)) as u64) + 1;
            self.write_digits(m, 10);
        } else {
            self.write_digits(n as u64, 10);
        }
        assert(self.text() =~= old(self).text() + int_text(n as int));
    }

    /// Write a hexadecimal literal.
    fn write_hex_literal(&mut self, n: i64)
        ensures
            old(self).appended(&*final(self), hex_literal_text(n, old(self).pretty())),
    {
        let ghost pretty = self.pretty();
        if self.is_pretty() {
            let abs: u64 = if n < 0 {
                ((-(n + 1)) as u64) + 1
            } else {
                n as u64
            };
            if n < 0 {
                self.write("-0x");
            } else {
                self.write("0x");
            }
            let width: usize = if abs <= 0xFF {
                2
            } else if abs <= 0xFFFF {
                4
            } else if abs <= 0xFFFF_FFFF {
                8
            } else {
                16
            };
            self.write_padded(abs, 16, width);
        } else {
            self.write("0x");
            let bits: u64 = if n < 0 {
                (n + 1 + 0x7FFF_FFFF_FFFF_FFFF) as u64 + 0x8000_0000_0000_0000u64
            } else {
                n as u64
            };
            self.write_padded(bits, 16, 2);
        }
        assert(self.text() =~= old(self).text() + hex_literal_text(n, pretty));
    }

    /// Write a character as it appears inside a literal.
    fn write_escaped_char(&mut self, c: char)
        ensures
            old(self).appended(&*final(self), escaped_char(c)),
    {
        if c == '\n' {
            self.write("\\n");
        } else if c == '\t' {
            self.write("\\t");
        } else if c == '\\' {
            self.write("\\\\");
        } else if c == '\'' {
            self.write("\\'");
        } else if c == '"' {
            self.write("\\\"");
        } else if should_unicode_escape(c) {
            self.write("\\u{");
            self.write_padded(c as u32 as u64, 16, 4);
            self.write("}");
            assert(self.text() =~= old(self).text() + escaped_char(c));
        } else {
            self.write_char(c);
        }
    }

    /// Write the escaped content of a double-quoted string literal.
    fn write_escaped_string(&mut self, s: &str)
        ensures
            old(self).appended(&*final(self), escaped_string(s@)),
    {
        let cs = chars_of(s);
        let mut i: usize = 0;
        while i < cs.len()
            invariant
                i <= cs@.len(),
                cs@ == s@,
                old(self).appended(&*self, escaped_string(cs@.take(i as int))),
            decreases cs@.len() - i,
        {
            let c = cs[i];
            if c == '\'' {
                self.write_char('\'');
            } else {
                self.write_escaped_char(c);
            }
            proof {
                let t = cs@.take(i + 1);
                assert(t.drop_last() =~= cs@.take(i as int));
                assert(self.text() =~= old(self).text() + escaped_string(t));
            }
            i = i + 1;
        }
        assert(cs@.take(i as int) =~= cs@);
    }

    /// Write a float's text, supplying `.0` where it has no fractional part.
    fn write_with_fraction(&mut self, v: &Vec<char>)
        ensures
            old(self).appended(&*final(self), with_fraction(v@)),
    {
        if contains_char(v, '.') {
            self.write_chars(v);
        } else {
            match find_exponent(v) {
                Some(e) => {
                    self.write_chars_range(v, 0, e);
                    self.write(".0");
                    self.write_chars_range(v, e, v.len());
                    assert(v@.subrange(0, e as int) =~= v@.take(e as int));
                    assert(v@.subrange(e as int, v@.len() as int) =~= v@.skip(e as int));
                },
                None => {
                    self.write_chars(v);
                    self.write(".0");
                },
            }
        }
        assert(self.text() =~= old(self).text() + with_fraction(v@));
    }

    /// Write a float literal.
    fn write_float(&mut self, f: &FloatText, lexeme: &Option<String>)
        ensures
            old(self).appended(&*final(self), float_text(*f, *lexeme, old(self).pretty())),
    {
        if self.is_pretty() {
            if let Some(lex) = lexeme {
                let lv = chars_of(lex.as_str());
                if contains_char(&lv, 'e') || contains_char(&lv, 'E') {
                    let lower = replaced(&lv, 'E', 'e');
                    self.write_with_fraction(&lower);
                    return;
                }
            }
        }
        let decimal = chars_of(f.display.as_str());
        if zero_run(&decimal) {
            let sci = chars_of(f.scientific.as_str());
            self.write_with_fraction(&sci);
        } else {
            self.write_with_fraction(&decimal);
        }
    }

    /// Write a literal.
    pub(super) fn write_literal(&mut self, lit: &Literal)
        ensures
            old(self).appended(&*final(self), literal_text(*lit, old(self).pretty())),
    {
        let ghost pretty = self.pretty();
        match lit {
            Literal::Char(c) => {
                self.write_char('\'');
                if *c == '"' {
                    self.write_char('"');
                } else {
                    self.write_escaped_char(*c);
                }
                self.write_char('\'');
            },
            Literal::String(s) => {
                self.write_char('"');
                self.write_escaped_string(s.as_str());
                self.write_char('"');
            },
            Literal::MultilineString(s) => {
                self.write("\"\"\"");
                self.write(s.as_str());
                self.write("\"\"\"");
            },
            Literal::Int(n) => self.write_int(*n),
            Literal::Hex(n) => self.write_hex_literal(*n),
            Literal::Float(f, lexeme) => self.write_float(f, lexeme),
        }
        assert(self.text() =~= old(self).text() + literal_text(*lit, pretty));
    }
}

/// Whether a character is written as a `\u{XXXX}` escape in literals.
pub fn should_unicode_escape(c: char) -> (r: bool)
    ensures
        r == needs_unicode_escape(c),
{
    let cp = c as u32;
    cp <= 0x1F || (0x7F <= cp && cp <= 0x9F) || cp == 0xA0 || cp == 0x1680 || (0x2000 <= cp && cp
        <= 0x200F) || (0x2028 <= cp && cp <= 0x202F) || (0x205F <= cp && cp <= 0x206F) || (0x2E5E
        <= cp && cp <= 0x2E7F) || cp == 0x3000 || cp == 0xFEFF
}

/// Whether `c` is a hexadecimal digit, in either case.
pub open spec fn is_hex_digit(c: char) -> bool {
    let n = c as nat;
    (48 <= n <= 57) || (65 <= n <= 70) || (97 <= n <= 102)
}

/// The value of a hexadecimal digit.
pub open spec fn hex_digit_value(c: char) -> nat {
    let n = c as nat;
    if n <= 57 {
        (n - 48) as nat
    } else if n <= 70 {
        (n - 55) as nat
    } else {
        (n - 87) as nat
    }
}

/// The value of a run of hexadecimal digits, most significant first.
pub open spec fn hex_value(h: Seq<char>) -> nat
    decreases h.len(),
{
    if h.len() == 0 {
        0
    } else {
        hex_value(h.drop_last()) * 16 + hex_digit_value(h.last())
    }
}

/// How many hexadecimal digits `t` starts with.
pub open spec fn hex_run(t: Seq<char>) -> nat
    decreases t.len(),
{
    if t.len() > 0 && is_hex_digit(t[0]) {
        1 + hex_run(t.drop_first())
    } else {
        0
    }
}

/// `v` in front of the code points `r`, if there are any.
pub open spec fn cons_code(v: nat, r: Option<Seq<nat>>) -> Option<Seq<nat>> {
    match r {
        Some(x) => Some(seq![v] + x),
        None => None,
    }
}

/// How Elm reads the text between the quotes of a string literal: the code
/// points it stands for, or `None` where the text is no valid literal body
/// (a bare `"`, a backslash that starts no escape). The escapes are `\n`,
/// `\r`, `\t`, `\"`, `\'`, `\\` and `\u{H}` with four to six hexadecimal
/// digits `H`.
pub open spec fn elm_string_body_value(t: Seq<char>) -> Option<Seq<nat>>
    decreases t.len(),
{
    if t.len() == 0 {
        Some(Seq::empty())
    } else if t[0] == '"' {
        None
    } else if t[0] != '\\' {
        cons_code(t[0] as nat, elm_string_body_value(t.drop_first()))
    } else if t.len() < 2 {
        None
    } else {
        let e = t[1];
        let simple: Option<nat> = if e == 'n' {
            Some(10)
        } else if e == 'r' {
            Some(13)
        } else if e == 't' {
            Some(9)
        } else if e == '"' {
            Some(34)
        } else if e == '\'' {
            Some(39)
        } else if e == '\\' {
            Some(92)
        } else {
            None
        };
        match simple {
            Some(v) => cons_code(v, elm_string_body_value(t.subrange(2, t.len() as int))),
            None => if e == 'u' && t.len() >= 3 && t[2] == '{' {
                let k = hex_run(t.subrange(3, t.len() as int)) as int;
                if 4 <= k <= 6 && 3 + k < t.len() && t[3 + k] == '}' {
                    cons_code(
                        hex_value(t.subrange(3, 3 + k)),
                        elm_string_body_value(t.subrange(4 + k, t.len() as int)),
                    )
                } else {
                    None
                }
            } else {
                None
            },
        }
    }
}

/// `16` to the power `n`.
pub open spec fn pow16(n: nat) -> nat
    decreases n,
{
    if n == 0 {
        1
    } else {
        16 * pow16((n - 1) as nat)
    }
}

proof fn lemma_digit_char_hex(d: nat)
    requires
        d < 16,
    ensures
        is_hex_digit(digit_char(d)),
        hex_digit_value(digit_char(d)) == d,
{
}

proof fn lemma_hex_digits_value(v: nat)
    ensures
        hex_value(digits(v, 16)) == v,
        forall|i: int| 0 <= i < digits(v, 16).len() ==> is_hex_digit(#[trigger] digits(v, 16)[i]),
    decreases v,
{
    let d = digits(v, 16);
    if v < 16 {
        lemma_digit_char_hex(v);
        assert(v % 16 == v);
        assert(d == seq![digit_char(v)]);
        assert(d.drop_last() =~= Seq::<char>::empty());
        assert(hex_value(d) == hex_value(d.drop_last()) * 16 + hex_digit_value(d.last()));
    } else {
        assert(v / 16 < v);
        lemma_hex_digits_value(v / 16);
        lemma_digit_char_hex(v % 16);
        let p = digits(v / 16, 16);
        assert(d == p + seq![digit_char(v % 16)]);
        assert(d.drop_last() =~= p);
        assert(v == (v / 16) * 16 + v % 16);
        assert(hex_value(d) == hex_value(d.drop_last()) * 16 + hex_digit_value(d.last()));
        assert forall|i: int| 0 <= i < d.len() implies is_hex_digit(#[trigger] d[i]) by {
            if i < p.len() {
                assert(d[i] == p[i]);
            }
        }
    }
}

proof fn lemma_digits_len(v: nat, n: nat)
    requires
        n >= 1,
        v < pow16(n),
    ensures
        digits(v, 16).len() <= n,
    decreases n,
{
    if v >= 16 {
        let m = (n - 1) as nat;
        if n == 1 {
            assert(pow16(1) == 16 * pow16(0));
        } else {
            assert(pow16(n) == 16 * pow16(m));
            let p = pow16(m);
            assert(v / 16 < p) by (nonlinear_arith)
                requires
                    v < 16 * p,
            ;
            lemma_digits_len(v / 16, m);
        }
    }
}

proof fn lemma_hex_value_zeros(n: nat, d: Seq<char>)
    ensures
        hex_value(zeros(n) + d) == hex_value(d),
    decreases d.len(), n,
{
    if d.len() == 0 {
        assert(zeros(n) + d =~= zeros(n));
        if n > 0 {
            assert(zeros(n).drop_last() =~= zeros((n - 1) as nat));
            lemma_hex_value_zeros((n - 1) as nat, d);
            assert(zeros((n - 1) as nat) + d =~= zeros((n - 1) as nat));
            assert(hex_digit_value('0') == 0);
        }
    } else {
        assert((zeros(n) + d).drop_last() =~= zeros(n) + d.drop_last());
        lemma_hex_value_zeros(n, d.drop_last());
    }
}

/// The four-digit hexadecimal text of a code point below `0x10000` reads
/// back as that code point.
proof fn lemma_hex4(v: nat)
    requires
        v < 65536,
    ensures
        hex_digits(v, 4).len() == 4,
        hex_value(hex_digits(v, 4)) == v,
        forall|i: int| 0 <= i < 4 ==> is_hex_digit(#[trigger] hex_digits(v, 4)[i]),
{
    reveal_with_fuel(pow16, 5);
    lemma_digits_len(v, 4);
    lemma_hex_digits_value(v);
    let d = digits(v, 16);
    let z = zeros((4 - d.len()) as nat);
    assert(d.len() >= 1);
    assert(hex_digits(v, 4) == if d.len() < 4 { z + d } else { d });
    if d.len() < 4 {
        lemma_hex_value_zeros((4 - d.len()) as nat, d);
        assert forall|i: int| 0 <= i < 4 implies is_hex_digit(#[trigger] hex_digits(v, 4)[i]) by {
            if i < z.len() {
                assert((z + d)[i] == '0');
            } else {
                assert((z + d)[i] == d[i - z.len()]);
            }
        }
    }
}

proof fn lemma_hex_run(h: Seq<char>, x: char, rest: Seq<char>)
    requires
        forall|i: int| 0 <= i < h.len() ==> is_hex_digit(#[trigger] h[i]),
        !is_hex_digit(x),
    ensures
        hex_run(h + seq![x] + rest) == h.len(),
    decreases h.len(),
{
    if h.len() > 0 {
        assert((h + seq![x] + rest).drop_first() =~= h.drop_first() + seq![x] + rest);
        assert(forall|i: int| 0 <= i < h.drop_first().len() ==> h.drop_first()[i] == h[i + 1]);
        lemma_hex_run(h.drop_first(), x, rest);
        assert((h + seq![x] + rest)[0] == h[0]);
    } else {
        assert((h + seq![x] + rest)[0] == x);
    }
}

/// A string literal's text splits at any point of its content.
proof fn lemma_escaped_string_concat(a: Seq<char>, b: Seq<char>)
    ensures
        escaped_string(a + b) == escaped_string(a) + escaped_string(b),
    decreases b.len(),
{
    if b.len() == 0 {
        assert(a + b =~= a);
        assert(escaped_string(a) + escaped_string(b) =~= escaped_string(a));
    } else {
        assert((a + b).drop_last() =~= a + b.drop_last());
        assert((a + b).last() == b.last());
        lemma_escaped_string_concat(a, b.drop_last());
        let c = b.last();
        let u = if c == '\'' {
            seq!['\'']
        } else {
            escaped_char(c)
        };
        assert(escaped_string(a) + escaped_string(b.drop_last()) + u =~= escaped_string(a) + (escaped_string(
            b.drop_last(),
        ) + u));
    }
}

/// The escaped text of one character reads back as that character.
proof fn lemma_escaped_unit(c: char, rest: Seq<char>)
    ensures
        elm_string_body_value(
            (if c == '\'' {
                seq!['\'']
            } else {
                escaped_char(c)
            }) + rest,
        ) == cons_code(c as nat, elm_string_body_value(rest)),
{
    let u = if c == '\'' {
        seq!['\'']
    } else {
        escaped_char(c)
    };
    let t = u + rest;
    reveal_strlit("\\n");
    reveal_strlit("\\t");
    reveal_strlit("\\\\");
    reveal_strlit("\\\"");
    reveal_strlit("\\u{");
    reveal_strlit("}");
    if c == '\'' || !(c == '\n' || c == '\t' || c == '\\' || c == '"' || needs_unicode_escape(c)) {
        assert(u == seq![c]);
        assert(t.drop_first() =~= rest);
    } else if c == '\n' || c == '\t' || c == '\\' || c == '"' {
        assert(u.len() == 2);
        assert(t.subrange(2, t.len() as int) =~= rest);
    } else {
        let v = c as nat;
        assert(v < 65536);
        lemma_hex4(v);
        let h = hex_digits(v, 4);
        assert(u == seq!['\\', 'u', '{'] + h + seq!['}']);
        let tail = t.subrange(3, t.len() as int);
        assert(tail =~= h + seq!['}'] + rest);
        lemma_hex_run(h, '}', rest);
        assert(t[7] == '}');
        assert(t.subrange(3, 7) =~= h);
        assert(t.subrange(8, t.len() as int) =~= rest);
    }
}

/// Law: the text that a string literal is printed with reads back, by
/// Elm's escape rules, as exactly the original text; so a backslash is
/// printed as two, and no two strings print alike.
pub proof fn law_escaped_string_reads_back(s: Seq<char>)
    ensures
        elm_string_body_value(escaped_string(s)) == Some(s.map_values(|c: char| c as nat)),
    decreases s.len(),
{
    if s.len() > 0 {
        let c = s[0];
        let r = s.drop_first();
        assert(s =~= seq![c] + r);
        lemma_escaped_string_concat(seq![c], r);
        assert(seq![c].drop_last() =~= Seq::<char>::empty());
        assert(escaped_string(Seq::<char>::empty()) == Seq::<char>::empty());
        assert(seq![c].last() == c);
        law_escaped_string_reads_back(r);
        lemma_escaped_unit(c, escaped_string(r));
        assert(escaped_string(seq![c]) =~= (if c == '\'' {
            seq!['\'']
        } else {
            escaped_char(c)
        }));
        assert(s.map_values(|c: char| c as nat) =~= seq![c as nat] + r.map_values(|c: char| c as nat));
    } else {
        assert(s.map_values(|c: char| c as nat) =~= Seq::<nat>::empty());
    }
}

/// Law: two texts print as the same string literal only when they are
/// the same text.
pub proof fn law_escaped_string_injective(s1: Seq<char>, s2: Seq<char>)
    ensures
        escaped_string(s1) == escaped_string(s2) ==> s1 == s2,
{
    if escaped_string(s1) == escaped_string(s2) {
        law_escaped_string_reads_back(s1);
        law_escaped_string_reads_back(s2);
        let m1 = s1.map_values(|c: char| c as nat);
        let m2 = s2.map_values(|c: char| c as nat);
        assert(m1 == m2);
        assert forall|i: int| 0 <= i < s1.len() implies s1[i] == s2[i] by {
            assert(m1[i] == s1[i] as nat);
            assert(m2[i] == s2[i] as nat);
            assert(m1[i] == m2[i]);
            let u1 = s1[i] as u32;
            let u2 = s2[i] as u32;
            vstd::utf8::char_u32_cast(s1[i], u1);
            vstd::utf8::char_u32_cast(s2[i], u2);
            assert(u1 == u2);
        }
        assert(s1 =~= s2);
    }
}

/// How Elm reads the text between the quotes of a char literal: the one
/// code point it stands for, written as inside a string literal, except
/// that a bare `"` is allowed and a bare `'` is not; `None` where the text
/// is no valid char literal body.
pub open spec fn elm_char_body_value(t: Seq<char>) -> Option<nat> {
    if t == seq!['"'] {
        Some(34)
    } else if t.len() > 0 && t[0] == '\'' {
        None
    } else {
        match elm_string_body_value(t) {
            Some(v) => if v.len() == 1 {
                Some(v[0])
            } else {
                None
            },
            None => None,
        }
    }
}

/// Law: a char literal is printed between single quotes, and what stands
/// between them reads back, by Elm's rules, as exactly that character.
pub proof fn law_char_literal_reads_back(c: char, pretty: bool)
    ensures
        ({
            let t = literal_text(Literal::Char(c), pretty);
            &&& t.len() >= 2
            &&& t[0] == '\''
            &&& t[t.len() - 1] == '\''
            &&& elm_char_body_value(t.subrange(1, t.len() - 1)) == Some(c as nat)
        }),
{
    let body = if c == '"' {
        seq!['"']
    } else {
        escaped_char(c)
    };
    let t = literal_text(Literal::Char(c), pretty);
    assert(t == seq!['\''] + body + seq!['\'']);
    assert(t.subrange(1, t.len() - 1) =~= body);
    reveal_strlit("\\n");
    reveal_strlit("\\t");
    reveal_strlit("\\\\");
    reveal_strlit("\\'");
    reveal_strlit("\\\"");
    reveal_strlit("\\u{");
    if c == '"' {
    } else if c == '\'' {
        assert(body =~= seq!['\\', '\'']);
        assert(body.subrange(2, 2) =~= Seq::<char>::empty());
        assert(elm_string_body_value(body) == Some(seq![39nat]));
    } else {
        lemma_escaped_unit(c, Seq::empty());
        assert(body + Seq::<char>::empty() =~= body);
        assert(body.len() > 0 && body[0] != '\'');
        assert(elm_string_body_value(Seq::<char>::empty()) == Some(Seq::<nat>::empty()));
        assert(seq![c as nat] + Seq::<nat>::empty() =~= seq![c as nat]);
    }
}

} // verus!
