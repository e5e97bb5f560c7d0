//! Elm pretty-printer.
//!
//! The layout follows elm-format's "box" model: an expression that is
//! multi-line (block expressions, or containers with a multi-line child)
//! switches its container to vertical layout, and block expressions in
//! atomic position are parenthesized.
//!
//! The printer keeps its output as a character buffer. Every `write_*`
//! method only appends to that buffer and leaves the indentation state as
//! it found it.

mod block_comment;
mod comment_slots;
mod comments;
mod decl_emission;
pub mod doc;
mod doc_groups;
mod exposing_layout;
mod exprs;
pub mod fixity;
mod pipeline;
mod import_layout;
mod literals;
mod module_writer;
mod multiline;
mod patterns;
mod type_layout;
mod types;

use vstd::prelude::*;

use crate::span::Span;
use crate::text::{chars_of, string_of};

pub use types::{type_text, type_non_arrow_text, type_atomic_text, record_fields_text, dotted, qualified_name};
pub use module_writer::{header_prefix, pretty_print, print};
pub use module_writer::{law_pretty_import_drops_same_alias, law_pretty_import_keeps_distinct_alias};
pub use types::{law_applied_type_argument_parenthesized, law_function_argument_type_parenthesized};
pub use literals::{law_char_literal_reads_back, law_escaped_string_injective, law_escaped_string_reads_back};

verus! {

/// Controls how aggressively the printer breaks lines.
///
/// - `Compact` (default): only break lines for structurally multi-line
///   sub-expressions (case/if/let/lambda); round-trip safe.
/// - `ElmFormat`: break lines where elm-format does (pipelines vertical,
///   multi-line source layout preserved, doc comments normalized).
#[derive(Clone, Copy, Debug, PartialEq, Eq, Structural)]
pub enum PrintStyle {
    /// Round-trip-safe minimal line breaking.
    Compact,
    /// elm-format-style pretty printing.
    ElmFormat,
}

impl Default for PrintStyle {
    fn default() -> (s: Self)
        ensures
            s == PrintStyle::Compact,
    {
        PrintStyle::Compact
    }
}

/// Configuration for the Elm printer.
#[derive(Clone, Debug)]
pub struct PrintConfig {
    /// Number of spaces per indentation level.
    pub indent_width: usize,
    /// Line-breaking strategy.
    pub style: PrintStyle,
}

impl Default for PrintConfig {
    fn default() -> (c: Self)
        ensures
            c.indent_width == 4,
            c.style == PrintStyle::Compact,
    {
        PrintConfig { indent_width: 4, style: PrintStyle::Compact }
    }
}

/// Pretty-printer for Elm syntax trees.
pub struct Printer {
    config: PrintConfig,
    buf: Vec<char>,
    indent: usize,
    /// Extra columns added to the indentation at the current level only
    /// (used to align continuation lines with an opening bracket).
    indent_extra: u32,
    /// Saved `indent_extra` values, pushed by `indent` and popped by
    /// `dedent`, each with whether `indent` raised the level.
    indent_extra_stack: Vec<(u32, bool)>,
    /// True while writing the operands of a vertical operator chain whose
    /// operators already sit one level in.
    in_vertical_chain: bool,
    /// Groups of names from the `@docs` lines of the module documentation.
    doc_groups: Vec<Vec<String>>,
    /// Source spans of the expressions being written, innermost last.
    expr_span_stack: Vec<Span>,
}

/// The indentation state of a printer: level, extra columns and the stack of
/// saved extra columns.
pub struct IndentState {
    pub level: usize,
    pub extra: u32,
    pub saved: Seq<(u32, bool)>,
}

/// `n` space characters.
pub open spec fn spaces(n: nat) -> Seq<char> {
    Seq::new(n, |i: int| ' ')
}

/// The column after the last character of `s`: the number of characters
/// after its last newline.
pub open spec fn column_of(s: Seq<char>) -> nat
    decreases s.len(),
{
    if s.len() == 0 || s.last() == '\n' {
        0
    } else {
        column_of(s.drop_last()) + 1
    }
}

/// The first multiple of `width` past column `col` (where the level of
/// `col` can still grow), capped at the largest `usize`.
pub open spec fn next_stop(col: nat, width: nat) -> nat {
    let level: int = if col / width < usize::MAX {
        (col / width + 1) as int
    } else {
        (col / width) as int
    };
    let n = level * width;
    if n > usize::MAX {
        usize::MAX as nat
    } else {
        n as nat
    }
}

/// The next indentation level, unless `level` is at its maximum.
pub open spec fn bump_level(level: nat) -> nat {
    if level < usize::MAX {
        level + 1
    } else {
        level
    }
}

/// The columns of indentation `level` at `width` columns a level, capped at
/// the largest `usize`.
pub open spec fn stop_columns(level: nat, width: nat) -> nat {
    if level * width > usize::MAX {
        usize::MAX as nat
    } else {
        level * width
    }
}

/// The indentation columns that setting the indentation to column `col`
/// gives: whole levels and the rest as extra columns (the rest held in 32
/// bits).
pub open spec fn aligned_columns(col: nat, width: nat) -> nat {
    let n = (col / width) * width + ((col % width) as u32) as nat;
    if n > usize::MAX {
        usize::MAX as nat
    } else {
        n
    }
}

/// After a line break and `n` spaces the column is `n`.
pub proof fn lemma_column_after_nl(x: Seq<char>, n: nat)
    ensures
        column_of(x + seq!['\n'] + spaces(n)) == n,
    decreases n,
{
    let s = x + seq!['\n'] + spaces(n);
    if n == 0 {
        assert(s.last() == '\n');
    } else {
        lemma_column_after_nl(x, (n - 1) as nat);
        assert(s.drop_last() =~= x + seq!['\n'] + spaces((n - 1) as nat));
        assert(s.last() == ' ');
    }
}

/// Growing a text is transitive.
pub broadcast proof fn lemma_prefix_trans(a: Seq<char>, b: Seq<char>, c: Seq<char>)
    requires
        #[trigger] a.is_prefix_of(b),
        #[trigger] b.is_prefix_of(c),
    ensures
        a.is_prefix_of(c),
{
    assert(a =~= c.subrange(0, a.len() as int));
}

/// A text is a prefix of itself followed by more.
pub broadcast proof fn lemma_prefix_concat(a: Seq<char>, s: Seq<char>)
    ensures
        a.is_prefix_of(#[trigger] (a + s)),
{
    assert(a =~= (a + s).subrange(0, a.len() as int));
}

pub broadcast group group_text_growth {
    lemma_prefix_trans,
    lemma_prefix_concat,
}

impl Printer {
    /// The text written so far.
    pub closed spec fn text(&self) -> Seq<char> {
        self.buf@
    }

    /// The printer is inside a vertical operator chain, whose steps the
    /// current one continues at the same column.
    pub closed spec fn continues_chain(&self) -> bool {
        self.in_vertical_chain
    }

    /// Whether the printer uses elm-format layout.
    pub closed spec fn pretty(&self) -> bool {
        self.config.style == PrintStyle::ElmFormat
    }

    /// The names of the `@docs` groups that lay out a module's exposing
    /// list.
    pub closed spec fn doc_names(&self) -> Seq<Seq<Seq<char>>> {
        doc_groups::groups_view(self.doc_groups@)
    }

    /// The configured indentation width.
    pub closed spec fn width(&self) -> usize {
        self.config.indent_width
    }

    /// The current indentation state.
    pub closed spec fn indentation(&self) -> IndentState {
        IndentState {
            level: self.indent,
            extra: self.indent_extra,
            saved: self.indent_extra_stack@,
        }
    }

    /// Everything but the text is the same in `self` and `other`:
    /// configuration, indentation state, chain flag, `@docs` groups and the
    /// stack of expression spans.
    pub closed spec fn same_state(&self, other: &Printer) -> bool {
        &&& self.config == other.config
        &&& self.indent == other.indent
        &&& self.indent_extra == other.indent_extra
        &&& self.indent_extra_stack@ == other.indent_extra_stack@
        &&& self.in_vertical_chain == other.in_vertical_chain
        &&& self.doc_groups == other.doc_groups
        &&& self.expr_span_stack@ == other.expr_span_stack@
    }

    /// The configuration and indentation are the same in `self` and `other`.
    pub open spec fn same_layout(&self, other: &Printer) -> bool {
        &&& self.pretty() == other.pretty()
        &&& self.width() == other.width()
        &&& self.indentation() == other.indentation()
    }

    /// `other` holds the text of `self` followed by `suffix`, and nothing
    /// else changed.
    pub open spec fn appended(&self, other: &Printer, suffix: Seq<char>) -> bool {
        &&& other.text() == self.text() + suffix
        &&& self.same_state(other)
    }

    /// `other` holds the text of `self` followed by more text, and nothing
    /// else changed.
    pub open spec fn extended(&self, other: &Printer) -> bool {
        &&& self.text().is_prefix_of(other.text())
        &&& self.same_state(other)
    }

    /// `other`'s text extends that of `self`, possibly after a trailing
    /// space of `self`'s text was taken back, and nothing else changed.
    pub open spec fn extended_after_space(&self, other: &Printer) -> bool {
        &&& self.same_state(other)
        &&& (self.text().is_prefix_of(other.text()) || (self.text().len() > 0 && self.text().last() == ' '
            && self.text().drop_last().is_prefix_of(other.text())))
    }

    /// Printers in the same state have the same configuration and
    /// indentation.
    pub proof fn same_state_keeps_layout(&self, other: &Printer)
        requires
            self.same_state(other),
        ensures
            self.same_layout(other),
            self.indent_columns() == other.indent_columns(),
            self.inner_columns() == other.inner_columns(),
            self.inner2_columns() == other.inner2_columns(),
    {
    }

    /// Printers in the same state have the same `@docs` groups.
    proof fn same_state_keeps_docs(&self, other: &Printer)
        requires
            self.same_state(other),
        ensures
            self.doc_groups == other.doc_groups,
    {
    }

    /// The `@docs` names are those of the printer's groups.
    proof fn doc_names_of_groups(&self)
        ensures
            self.doc_names() == doc_groups::groups_view(self.doc_groups@),
    {
    }

    /// A printer is usable when elm-format layout has a nonzero indentation
    /// width. That layout aligns `if`, `case`, `let`, pipelines and
    /// multi-line applications and blocks to the column where they start by
    /// dividing the column by the width; with width 0 that division has no
    /// result. The requirement is made of every printer in that layout, as
    /// the writers cannot tell in advance whether such a form will come.
    pub open spec fn wf(&self) -> bool {
        self.pretty() ==> self.width() > 0
    }

    /// Create a printer with an empty buffer at indentation level zero.
    pub fn new(config: PrintConfig) -> (p: Self)
        ensures
            p.text() == Seq::<char>::empty(),
            p.pretty() == (config.style == PrintStyle::ElmFormat),
            p.inner2_columns() == stop_columns(2, config.indent_width as nat),
            p.width() == config.indent_width,
            p.indentation() == (IndentState { level: 0, extra: 0, saved: Seq::<(u32, bool)>::empty() }),
            p.inner_columns() == config.indent_width,
            p.doc_names() == Seq::<Seq<Seq<char>>>::empty(),
    {
        let p = Printer {
            config,
            buf: Vec::new(),
            indent: 0,
            indent_extra: 0,
            indent_extra_stack: Vec::new(),
            in_vertical_chain: false,
            doc_groups: Vec::new(),
            expr_span_stack: Vec::new(),
        };
        proof {
            let w = p.config.indent_width as int;
            assert(1 * w == w);
            assert(doc_groups::groups_view(p.doc_groups@) =~= Seq::<Seq<Seq<char>>>::empty());
        }
        p
    }

    /// Lay out exposing lists after the given `@docs` groups.
    fn set_doc_groups(&mut self, groups: Vec<Vec<String>>)
        ensures
            final(self).text() == old(self).text(),
            final(self).same_layout(&*old(self)),
            final(self).inner_columns() == old(self).inner_columns(),
            final(self).doc_names() == doc_groups::groups_view(groups@),
    {
        self.doc_groups = groups;
    }

    /// The text written so far, as a string.
    pub fn finish(self) -> (s: String)
        ensures
            s@ == self.text(),
    {
        string_of(&self.buf)
    }

    fn is_pretty(&self) -> (r: bool)
        ensures
            r == self.pretty(),
    {
        match self.config.style {
            PrintStyle::ElmFormat => true,
            PrintStyle::Compact => false,
        }
    }

    // Output helpers

    fn write(&mut self, s: &str)
        ensures
            old(self).appended(&*final(self), s@),
    {
        let mut cs = chars_of(s);
        self.buf.append(&mut cs);
    }

    /// The number of spaces at the start of a new line: `indent` levels of
    /// the configured width plus the extra columns (saturating).
    pub closed spec fn indent_columns(&self) -> nat {
        let n = self.indent as nat * self.config.indent_width as nat + self.indent_extra as nat;
        if n > usize::MAX {
            usize::MAX as nat
        } else {
            n
        }
    }

    /// The indentation columns one level in, as `indent` leaves them.
    pub closed spec fn inner_columns(&self) -> nat {
        let level: int = if self.indent < usize::MAX {
            self.indent + 1
        } else {
            self.indent as int
        };
        let n = level * self.config.indent_width;
        if n > usize::MAX {
            usize::MAX as nat
        } else {
            n as nat
        }
    }

    /// The indentation columns two levels in.
    pub closed spec fn inner2_columns(&self) -> nat {
        stop_columns(bump_level(bump_level(self.indent as nat)), self.config.indent_width as nat)
    }

    fn indent_cols(&self) -> (n: usize)
        ensures
            n == self.indent_columns(),
    {
        match self.indent.checked_mul(self.config.indent_width) {
            Some(m) => match m.checked_add(self.indent_extra as usize) {
                Some(k) => k,
                None => usize::MAX,
            },
            None => {
                proof {
                    assert(self.indent as nat * self.config.indent_width as nat + self.indent_extra as nat
                        > usize::MAX);
                }
                usize::MAX
            },
        }
    }

    fn write_spaces(&mut self, n: usize)
        ensures
            old(self).appended(&*final(self), spaces(n as nat)),
    {
        let mut k: usize = 0;
        while k < n
            invariant
                k <= n,
                old(self).appended(&*self, spaces(k as nat)),
            decreases n - k,
        {
            self.buf.push(' ');
            assert(self.buf@ =~= old(self).buf@ + spaces((k + 1) as nat));
            k = k + 1;
        }
    }

    fn newline(&mut self)
        ensures
            old(self).appended(&*final(self), seq!['\n']),
    {
        self.write_char('\n');
    }

    fn write_indent(&mut self)
        ensures
            old(self).appended(&*final(self), spaces(old(self).indent_columns())),
    {
        let n = self.indent_cols();
        self.write_spaces(n);
    }

    fn newline_indent(&mut self)
        ensures
            old(self).appended(&*final(self), seq!['\n'] + spaces(old(self).indent_columns())),
    {
        self.newline();
        self.write_indent();
        assert(self.text() =~= old(self).text() + (seq!['\n'] + spaces(old(self).indent_columns())));
    }

    /// Everything but the indentation state is the same in `self` and
    /// `other`, whose text extends that of `self`.
    spec fn same_but_indent(&self, other: &Printer) -> bool {
        &&& self.text().is_prefix_of(other.text())
        &&& self.config == other.config
        &&& self.in_vertical_chain == other.in_vertical_chain
        &&& self.doc_groups == other.doc_groups
        &&& self.expr_span_stack@ == other.expr_span_stack@
    }

    /// Set the indentation so that a new line starts at column `col`.
    fn align_to(&mut self, col: usize)
        requires
            old(self).width() > 0,
        ensures
            old(self).same_but_indent(&*final(self)),
            final(self).buf@ == old(self).buf@,
            final(self).text() == old(self).text(),
            final(self).indent_extra_stack@ == old(self).indent_extra_stack@,
            final(self).indent == col / old(self).width(),
            final(self).indent_extra == (col % old(self).width()) as u32,
            final(self).inner_columns() == next_stop(col as nat, old(self).width() as nat),
            final(self).inner2_columns() == stop_columns(
                bump_level(bump_level(col as nat / old(self).width() as nat)),
                old(self).width() as nat,
            ),
            final(self).indent_columns() == aligned_columns(col as nat, old(self).width() as nat),
    {
        let w = self.config.indent_width;
        self.indent = col / w;
        self.indent_extra = (col % w) as u32;
    }

    /// `self` is `outer` gone one indentation level in: the extra columns
    /// of `outer` saved on the stack and cleared, the level raised unless it
    /// was at its maximum, the text extended and all else unchanged.
    spec fn indented_from(&self, outer: &Printer) -> bool {
        &&& outer.text().is_prefix_of(self.text())
        &&& self.config == outer.config
        &&& self.in_vertical_chain == outer.in_vertical_chain
        &&& self.doc_groups == outer.doc_groups
        &&& self.expr_span_stack@ == outer.expr_span_stack@
        &&& self.indent_extra == 0
        &&& self.indent_extra_stack@.len() > 0
        &&& self.indent_extra_stack@.drop_last() == outer.indent_extra_stack@
        &&& self.indent_extra_stack@.last() == (outer.indent_extra, outer.indent < usize::MAX)
        &&& self.indent == if outer.indent < usize::MAX {
            outer.indent + 1
        } else {
            outer.indent as int
        }
    }

    /// Go one indentation level in: save the extra columns and clear them.
    fn indent(&mut self)
        ensures
            final(self).indented_from(&*old(self)),
            final(self).buf@ == old(self).buf@,
            final(self).text() == old(self).text(),
            final(self).indent_columns() == old(self).inner_columns(),
            final(self).inner_columns() == old(self).inner2_columns(),
    {
        let bump = self.indent < usize::MAX;
        if bump {
            self.indent = self.indent + 1;
        }
        self.indent_extra_stack.push((self.indent_extra, bump));
        self.indent_extra = 0;
        assert(self.indent_extra_stack@.drop_last() =~= old(self).indent_extra_stack@);
    }

    /// Go one indentation level out, restoring the saved extra columns.
    fn dedent(&mut self)
        ensures
            final(self).buf@ == old(self).buf@,
            final(self).text() == old(self).text(),
            final(self).config == old(self).config,
            final(self).in_vertical_chain == old(self).in_vertical_chain,
            final(self).doc_groups == old(self).doc_groups,
            final(self).expr_span_stack@ == old(self).expr_span_stack@,
            old(self).indent_extra_stack@.len() > 0 ==> {
                let top = old(self).indent_extra_stack@.last();
                &&& final(self).indent_extra_stack@ == old(self).indent_extra_stack@.drop_last()
                &&& final(self).indent_extra == top.0
                &&& final(self).indent == if top.1 && old(self).indent > 0 {
                    old(self).indent - 1
                } else {
                    old(self).indent as int
                }
            },
            old(self).indent_extra_stack@.len() == 0 ==> {
                &&& final(self).indent_extra_stack@ == old(self).indent_extra_stack@
                &&& final(self).indent_extra == 0
                &&& final(self).indent == if old(self).indent > 0 {
                    old(self).indent - 1
                } else {
                    0
                }
            },
    {
        match self.indent_extra_stack.pop() {
            Some((extra, bumped)) => {
                if bumped && self.indent > 0 {
                    self.indent = self.indent - 1;
                }
                self.indent_extra = extra;
            },
            None => {
                if self.indent > 0 {
                    self.indent = self.indent - 1;
                }
                self.indent_extra = 0;
            },
        }
    }

    /// Take back a trailing space of the text, if there is one.
    fn take_back_space(&mut self)
        ensures
            final(self).text() == if old(self).text().len() > 0 && old(self).text().last() == ' ' {
                old(self).text().drop_last()
            } else {
                old(self).text()
            },
            old(self).same_state(&*final(self)),
    {
        let n = self.buf.len();
        if n > 0 && self.buf[n - 1] == ' ' {
            self.buf.pop();
        }
    }

    /// The column (0-based) of the cursor on the current line.
    fn current_column(&self) -> (c: usize)
        ensures
            c == column_of(self.text()),
    {
        let n = self.buf.len();
        let mut i = n;
        assert(self.buf@.take(n as int) =~= self.buf@);
        while i > 0 && self.buf[i - 1] != '\n'
            invariant
                i <= n,
                n == self.buf@.len(),
                column_of(self.buf@) == column_of(self.buf@.take(i as int)) + (n - i),
            decreases i,
        {
            assert(self.buf@.take(i as int).drop_last() =~= self.buf@.take(i - 1));
            i = i - 1;
        }
        n - i
    }

    fn write_chars(&mut self, v: &Vec<char>)
        ensures
            old(self).appended(&*final(self), v@),
    {
        let mut cs = v.clone();
        assert(cs@ =~= v@);
        self.buf.append(&mut cs);
    }

    fn write_chars_range(&mut self, v: &Vec<char>, from: usize, to: usize)
        requires
            from <= to <= v@.len(),
        ensures
            old(self).appended(&*final(self), v@.subrange(from as int, to as int)),
    {
        let mut i = from;
        while i < to
            invariant
                from <= i <= to,
                to <= v@.len(),
                old(self).appended(&*self, v@.subrange(from as int, i as int)),
            decreases to - i,
        {
            self.buf.push(v[i]);
            assert(self.buf@ =~= old(self).buf@ + v@.subrange(from as int, i + 1));
            i = i + 1;
        }
    }

    fn write_char(&mut self, c: char)
        ensures
            old(self).appended(&*final(self), seq![c]),
    {
        self.buf.push(c);
        assert(self.buf@ =~= old(self).buf@ + seq![c]);
    }
}

/// A copy of a stack of saved extra columns.
fn copy_stack(v: &Vec<(u32, bool)>) -> (r: Vec<(u32, bool)>)
    ensures
        r@ == v@,
{
    let mut r: Vec<(u32, bool)> = Vec::new();
    let mut i: usize = 0;
    while i < v.len()
        invariant
            i <= v@.len(),
            r@ == v@.take(i as int),
        decreases v@.len() - i,
    {
        r.push(v[i]);
        assert(r@ =~= v@.take(i + 1));
        i = i + 1;
    }
    assert(v@.take(i as int) =~= v@);
    r
}

} // verus!
