//! Printing of comments.

use vstd::prelude::*;

use super::block_comment::{reindent_block_comment, reindented_block};
use super::doc::char_literals::normalize_doc_char_literals;
use super::doc::cleanup::{
    ensure_blank_before_docs_after_prose, normalize_empty_link_refs, strip_trailing_whitespace_in_doc,
};
use super::doc::code_blocks::ensure_blank_before_code_block_with_trailing_comment;
use super::doc::code_examples::normalize_code_block_indent;
use super::doc::docs_lines::normalize_docs_lines;
use super::doc::doc_normalized;
use super::doc::emphasis::normalize_emphasis;
use super::doc::fences::normalize_fenced_code_blocks;
use super::doc::headings::normalize_doc_comment;
use super::doc::lists::normalize_markdown_lists;
use super::doc::paragraphs::{
    collapse_blank_lines_in_doc, collapse_prose_internal_spaces, strip_paragraph_leading_whitespace,
};
use super::literals::contains_char;
use super::{column_of, spaces, Printer};
use crate::comment::Comment;
use crate::node::Spanned;
use crate::text::chars_of;

verus! {

/// The text of a block comment between `{-` and `-}` when `{-` stands at
/// column `col`: in elm-format layout a multi-line comment has its
/// continuation lines re-indented (unless it starts with `-`, the
/// commented-out style), and a leading `- ` loses its space.
pub open spec fn block_comment_body(t: Seq<char>, pretty: bool, col: nat) -> Seq<char> {
    if pretty && t.contains('\n') {
        let r = if t.len() > 0 && t[0] == '-' {
            t
        } else if col + 3 + t.len() <= usize::MAX {
            reindented_block(t, col)
        } else {
            t
        };
        if r.len() >= 2 && r[0] == '-' && r[1] == ' ' {
            seq!['-'] + r.skip(2)
        } else {
            r
        }
    } else {
        t
    }
}

/// The printed form of a doc comment's text: in pretty mode its Markdown
/// is normalized as elm-format renders it.
pub open spec fn doc_comment_text(t: Seq<char>, pretty: bool) -> Seq<char> {
    seq!['{', '-', '|'] + (if pretty {
        doc_normalized(t)
    } else {
        t
    }) + seq!['-', '}']
}

/// Comments written one after another after `before`: each after `lead`,
/// at the column where it starts, and followed by `tail`.
pub open spec fn comment_run(
    before: Seq<char>,
    cs: Seq<Spanned<Comment>>,
    pretty: bool,
    lead: Seq<char>,
    tail: Seq<char>,
) -> Seq<char>
    decreases cs.len(),
{
    if cs.len() == 0 {
        Seq::empty()
    } else {
        let prev = comment_run(before, cs.drop_last(), pretty, lead, tail);
        prev + lead + comment_text(cs.last().value, pretty, column_of(before + prev + lead)) + tail
    }
}

/// The comments at positions `slot`.
pub open spec fn picked_comments(comments: Seq<Spanned<Comment>>, slot: Seq<usize>) -> Seq<Spanned<Comment>> {
    slot.map_values(|i: usize| comments[i as int])
}

/// Whether some comment is a line comment.
pub open spec fn has_line_comment_in(cs: Seq<Spanned<Comment>>) -> bool {
    exists|k: int| 0 <= k < cs.len() && (#[trigger] cs[k]).value is Line
}

/// The separator in front of a later field of a multi-line record type
/// written after `before` with the field's comments `cs` at indentation
/// `ic`: with a line comment among them, a blank line, each comment on a
/// line of its own, then `, ` on a new line; otherwise `, ` on a new line
/// and each comment followed by a new line two columns in.
pub open spec fn field_separator_text(before: Seq<char>, cs: Seq<Spanned<Comment>>, pretty: bool, ic: nat) -> Seq<
    char,
> {
    if has_line_comment_in(cs) {
        seq!['\n'] + comment_run(before + seq!['\n'], cs, pretty, seq!['\n'] + spaces(ic), Seq::empty()) + seq!['\n']
            + spaces(ic) + seq![',', ' ']
    } else {
        let head = seq!['\n'] + spaces(ic) + seq![',', ' '];
        head + comment_run(before + head, cs, pretty, Seq::empty(), seq!['\n'] + spaces(ic) + seq![' ', ' '])
    }
}

/// One more comment of a run.
pub proof fn lemma_comment_run_step(
    before: Seq<char>,
    cs: Seq<Spanned<Comment>>,
    pretty: bool,
    lead: Seq<char>,
    tail: Seq<char>,
    i: int,
)
    requires
        0 <= i < cs.len(),
    ensures
        comment_run(before, cs.take(i + 1), pretty, lead, tail) == comment_run(before, cs.take(i), pretty, lead, tail)
            + lead + comment_text(
            cs[i].value,
            pretty,
            column_of(before + comment_run(before, cs.take(i), pretty, lead, tail) + lead),
        ) + tail,
{
    let t = cs.take(i + 1);
    assert(t.drop_last() =~= cs.take(i));
    assert(t.last() == cs[i]);
}

/// The printed form of a comment written at column `col`.
pub open spec fn comment_text(c: Comment, pretty: bool, col: nat) -> Seq<char> {
    match c {
        Comment::Line(t) => seq!['-', '-'] + t@,
        Comment::Block(t) => seq!['{', '-'] + block_comment_body(t@, pretty, col) + seq!['-', '}'],
        Comment::Doc(t) => doc_comment_text(t@, pretty),
    }
}

impl Printer {
    /// Write a comment with its delimiters.
    pub(super) fn write_comment(&mut self, comment: &Comment)
        ensures
            old(self).appended(
                &*final(self),
                comment_text(*comment, old(self).pretty(), column_of(old(self).text())),
            ),
    {
        match comment {
            Comment::Line(text) => {
                self.write("--");
                self.write(text.as_str());
                proof {
                    reveal_strlit("--");
                    assert(self.text() =~= old(self).text() + comment_text(*comment, old(self).pretty(), column_of(old(self).text())));
                }
            },
            Comment::Block(text) => {
                let cs = chars_of(text.as_str());
                if self.is_pretty() && contains_char(&cs, '\n') {
                    let brace_col = self.current_column();
                    self.write("{-");
                    let is_double_dash = cs.len() > 0 && cs[0] == '-';
                    let fits = brace_col <= usize::MAX - 3 && cs.len() <= usize::MAX - 3 - brace_col;
                    let reindented = if is_double_dash || !fits {
                        cs
                    } else {
                        chars_of(reindent_block_comment(text.as_str(), brace_col).as_str())
                    };
                    let ghost r = reindented@;
                    if reindented.len() >= 2 && reindented[0] == '-' && reindented[1] == ' ' {
                        self.write_char('-');
                        self.write_chars_range(&reindented, 2, reindented.len());
                        proof {
                            assert(r.subrange(2, r.len() as int) =~= r.skip(2));
                        }
                    } else {
                        self.write_chars(&reindented);
                    }
                    self.write("-}");
                    proof {
                        reveal_strlit("{-");
                        reveal_strlit("-}");
                        assert(self.text() =~= old(self).text() + comment_text(*comment, old(self).pretty(), column_of(old(self).text())));
                    }
                } else {
                    self.write("{-");
                    self.write(text.as_str());
                    self.write("-}");
                    proof {
                        reveal_strlit("{-");
                        reveal_strlit("-}");
                        assert(self.text() =~= old(self).text() + comment_text(*comment, old(self).pretty(), column_of(old(self).text())));
                    }
                }
            },
            Comment::Doc(text) => {
                self.write_doc_comment_text(text.as_str());
            },
        }
    }

    /// Write a doc comment `{-| ... -}`.
    pub(super) fn write_doc_comment_text(&mut self, text: &str)
        ensures
            old(self).appended(&*final(self), doc_comment_text(text@, old(self).pretty())),
    {
        if self.is_pretty() {
            let normalized = normalize_doc_comment(text);
            let normalized = collapse_blank_lines_in_doc(normalized.as_str());
            let normalized = normalize_doc_char_literals(normalized.as_str());
            let normalized = normalize_emphasis(normalized.as_str());
            let normalized = normalize_empty_link_refs(normalized.as_str());
            let normalized = normalize_markdown_lists(normalized.as_str());
            let normalized = normalize_fenced_code_blocks(normalized.as_str());
            let normalized = normalize_code_block_indent(normalized.as_str());
            let normalized = ensure_blank_before_code_block_with_trailing_comment(normalized.as_str());
            let normalized = ensure_blank_before_docs_after_prose(normalized.as_str());
            let normalized = normalize_docs_lines(normalized.as_str());
            let normalized = strip_paragraph_leading_whitespace(normalized.as_str());
            let normalized = collapse_prose_internal_spaces(normalized.as_str());
            let normalized = strip_trailing_whitespace_in_doc(normalized.as_str());
            self.write("{-|");
            self.write(normalized.as_str());
            self.write("-}");
        } else {
            self.write("{-|");
            self.write(text);
            self.write("-}");
        }
        proof {
            reveal(doc_normalized);
            reveal_strlit("{-|");
            reveal_strlit("-}");
            assert(self.text() =~= old(self).text() + doc_comment_text(text@, old(self).pretty()));
        }
    }

    /// Write the comments attached in front of a node, each on its own line
    /// at the current indentation.
    pub(super) fn write_leading_comments(&mut self, comments: &Vec<Spanned<Comment>>)
        ensures
            old(self).appended(
                &*final(self),
                comment_run(
                    old(self).text(),
                    comments@,
                    old(self).pretty(),
                    Seq::empty(),
                    seq!['\n'] + spaces(old(self).indent_columns()),
                ),
            ),
            comments@.len() == 0 ==> final(self).text() == old(self).text(),
    {
        let ghost pretty = self.pretty();
        let ghost tail = seq!['\n'] + spaces(self.indent_columns());
        let mut i: usize = 0;
        while i < comments.len()
            invariant
                i <= comments@.len(),
                pretty == old(self).pretty(),
                tail == seq!['\n'] + spaces(old(self).indent_columns()),
                old(self).appended(
                    &*self,
                    comment_run(old(self).text(), comments@.take(i as int), pretty, Seq::empty(), tail),
                ),
            decreases comments@.len() - i,
        {
            proof {
                lemma_comment_run_step(old(self).text(), comments@, pretty, Seq::empty(), tail, i as int);
                old(self).same_state_keeps_layout(&*self);
                let prev = comment_run(old(self).text(), comments@.take(i as int), pretty, Seq::empty(), tail);
                assert(old(self).text() + prev + Seq::<char>::empty() =~= self.text());
            }
            self.write_comment(&comments[i].value);
            self.newline();
            self.write_indent();
            proof {
                assert(self.text() =~= old(self).text() + comment_run(
                    old(self).text(),
                    comments@.take(i + 1),
                    pretty,
                    Seq::empty(),
                    tail,
                ));
            }
            i = i + 1;
        }
        assert(comments@.take(i as int) =~= comments@);
    }

    /// The comments in front of the first field of a multi-line record
    /// type: each is followed by a new line at the field's column.
    pub(super) fn write_record_field_leading_comments_inline(&mut self, comments: &Vec<Spanned<Comment>>)
        ensures
            old(self).appended(
                &*final(self),
                comment_run(
                    old(self).text(),
                    comments@,
                    old(self).pretty(),
                    Seq::empty(),
                    seq!['\n'] + spaces(old(self).indent_columns()) + seq![' ', ' '],
                ),
            ),
    {
        self.write_comment_lines_indented(comments);
    }

    /// Comments each followed by a new line at the current indentation and
    /// two spaces.
    pub(super) fn write_comment_lines_indented(&mut self, comments: &Vec<Spanned<Comment>>)
        ensures
            old(self).appended(
                &*final(self),
                comment_run(
                    old(self).text(),
                    comments@,
                    old(self).pretty(),
                    Seq::empty(),
                    seq!['\n'] + spaces(old(self).indent_columns()) + seq![' ', ' '],
                ),
            ),
    {
        let ghost pretty = self.pretty();
        let ghost tail = seq!['\n'] + spaces(self.indent_columns()) + seq![' ', ' '];
        let mut i: usize = 0;
        while i < comments.len()
            invariant
                i <= comments@.len(),
                pretty == old(self).pretty(),
                tail == seq!['\n'] + spaces(old(self).indent_columns()) + seq![' ', ' '],
                old(self).appended(
                    &*self,
                    comment_run(old(self).text(), comments@.take(i as int), pretty, Seq::empty(), tail),
                ),
            decreases comments@.len() - i,
        {
            proof {
                lemma_comment_run_step(old(self).text(), comments@, pretty, Seq::empty(), tail, i as int);
                old(self).same_state_keeps_layout(&*self);
                let prev = comment_run(old(self).text(), comments@.take(i as int), pretty, Seq::empty(), tail);
                assert(old(self).text() + prev + Seq::<char>::empty() =~= self.text());
            }
            self.write_comment(&comments[i].value);
            self.newline();
            self.write_indent();
            self.write("  ");
            proof {
                reveal_strlit("  ");
                assert(self.text() =~= old(self).text() + comment_run(
                    old(self).text(),
                    comments@.take(i + 1),
                    pretty,
                    Seq::empty(),
                    tail,
                ));
            }
            i = i + 1;
        }
        assert(comments@.take(i as int) =~= comments@);
    }

    /// The separator in front of a later field of a multi-line record type,
    /// with the field's comments: line comments go on their own lines after
    /// a blank line, block comments stay after the comma.
    pub(super) fn write_record_field_separator_with_comments(&mut self, comments: &Vec<Spanned<Comment>>)
        ensures
            old(self).appended(
                &*final(self),
                field_separator_text(old(self).text(), comments@, old(self).pretty(), old(self).indent_columns()),
            ),
    {
        let ghost pretty = self.pretty();
        let ghost ic = self.indent_columns();
        let mut has_line_comment = false;
        let mut k: usize = 0;
        while k < comments.len()
            invariant
                k <= comments@.len(),
                has_line_comment == exists|q: int| 0 <= q < k && (#[trigger] comments@[q]).value is Line,
            decreases comments@.len() - k,
        {
            if let Comment::Line(_) = comments[k].value {
                has_line_comment = true;
            }
            k = k + 1;
        }
        if has_line_comment {
            self.newline();
            let ghost start = self.text();
            let ghost lead = seq!['\n'] + spaces(ic);
            let mut i: usize = 0;
            while i < comments.len()
                invariant
                    i <= comments@.len(),
                    pretty == old(self).pretty(),
                    ic == old(self).indent_columns(),
                    lead == seq!['\n'] + spaces(ic),
                    start == old(self).text() + seq!['\n'],
                    start.is_prefix_of(self.text()),
                    old(self).same_state(&*self),
                    self.text() == start + comment_run(start, comments@.take(i as int), pretty, lead, Seq::empty()),
                decreases comments@.len() - i,
            {
                proof {
                    lemma_comment_run_step(start, comments@, pretty, lead, Seq::empty(), i as int);
                    old(self).same_state_keeps_layout(&*self);
                }
                let ghost pre = self.text();
                self.newline();
                self.write_indent();
                proof {
                    let prev = comment_run(start, comments@.take(i as int), pretty, lead, Seq::empty());
                    assert(self.text() =~= start + prev + lead);
                }
                self.write_comment(&comments[i].value);
                proof {
                    assert(self.text() =~= start + comment_run(
                        start,
                        comments@.take(i + 1),
                        pretty,
                        lead,
                        Seq::empty(),
                    ));
                }
                i = i + 1;
            }
            assert(comments@.take(i as int) =~= comments@);
            proof {
                old(self).same_state_keeps_layout(&*self);
            }
            self.newline_indent();
            self.write(", ");
            proof {
                reveal_strlit(", ");
                assert(self.text() =~= old(self).text() + field_separator_text(old(self).text(), comments@, pretty, ic));
            }
        } else {
            self.newline_indent();
            self.write(", ");
            let ghost mid = self.text();
            proof {
                reveal_strlit(", ");
                old(self).same_state_keeps_layout(&*self);
            }
            self.write_comment_lines_indented(comments);
            proof {
                assert(mid =~= old(self).text() + (seq!['\n'] + spaces(ic) + seq![',', ' ']));
                assert(self.text() =~= old(self).text() + field_separator_text(old(self).text(), comments@, pretty, ic));
            }
        }
    }
}

} // verus!
