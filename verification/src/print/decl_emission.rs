//! Top-level declarations with the comments between them.
//!
//! In elm-format layout a leading line comment is a "section header" with
//! three blank lines before it and two after; a lone empty block comment
//! (`{--}`) attaches directly to the following declaration; other block
//! comments keep the blank lines they had in the source (at least the usual
//! spacing); a line comment on the line where the previous declaration
//! ended stays at the end of that line. Consecutive `infix` declarations
//! have no blank lines between them.

use vstd::prelude::*;

use super::comment_slots::CommentSlots;
use super::comments::{comment_run, comment_text, lemma_comment_run_step, picked_comments};
use super::module_writer::{decl_shape, declaration_text};
use super::{column_of, Printer};
use crate::comment::Comment;
use crate::declaration::Declaration;
use crate::file::ElmModule;
use crate::node::Spanned;
use crate::text::{chars_of, trim, trimmed};

verus! {

broadcast use super::group_text_growth;

/// Whether a block comment's text is blank or only dashes (`{--}`,
/// `{-- -}`).
fn is_marker_text(text: &str) -> (r: bool)
    ensures
        r == forall|k: int| 0 <= k < trim(text@).len() ==> #[trigger] trim(text@)[k] == '-',
{
    let t = trimmed(&chars_of(text));
    let mut i: usize = 0;
    while i < t.len()
        invariant
            t@ == trim(text@),
            i <= t@.len(),
            forall|k: int| 0 <= k < i ==> #[trigger] t@[k] == '-',
        decreases t@.len() - i,
    {
        if t[i] != '-' {
            return false;
        }
        i = i + 1;
    }
    true
}

/// The slots fit the module: one per import and declaration and a trailing
/// one, each entry the index of a comment of the module.
pub open spec fn slots_fit(slots: CommentSlots, module: ElmModule) -> bool {
    &&& slots.num_imports == module.imports@.len()
    &&& slots.num_decls == module.declarations@.len()
    &&& slots.slots@.len() == slots.num_imports + slots.num_decls + 1
    &&& slots.valid(module.comments@.len())
}

/// The line breaks before declaration `i` when no comments stand between
/// declarations: two (a blank line), in elm-format layout three after the
/// first declaration but one between consecutive `infix` declarations.
pub open spec fn decl_separator(decls: Seq<Spanned<Declaration>>, i: int, pretty: bool) -> Seq<char> {
    if pretty && i > 0 && decls[i].value is InfixDeclaration && decls[i - 1].value is InfixDeclaration {
        seq!['\n']
    } else if pretty && i > 0 {
        seq!['\n', '\n', '\n']
    } else {
        seq!['\n', '\n']
    }
}

/// A block comment's text that is blank or only dashes (`{--}`).
pub open spec fn marker_text(t: Seq<char>) -> bool {
    forall|k: int| 0 <= k < trim(t).len() ==> #[trigger] trim(t)[k] == '-'
}

/// In elm-format layout, the first comment in front of declaration `i` is
/// a line comment on the line where declaration `i - 1` ends: it stays at
/// the end of that line.
pub open spec fn lead_inline(module: ElmModule, slot: Seq<usize>, i: int, pretty: bool) -> bool {
    pretty && i > 0 && slot.len() > 0 && module.comments@[slot[0] as int].value is Line
        && module.comments@[slot[0] as int].span.start.line == module.declarations@[i - 1].span.end.line
}

/// How many comments of the slot stay at the end of the line before.
pub open spec fn lead_skip(module: ElmModule, slot: Seq<usize>, i: int, pretty: bool) -> int {
    if lead_inline(module, slot, i, pretty) {
        1
    } else {
        0
    }
}

/// A space and the comment that stays at the end of the line before.
pub open spec fn lead_head(module: ElmModule, slot: Seq<usize>, i: int, pretty: bool, before: Seq<char>) -> Seq<char> {
    if lead_inline(module, slot, i, pretty) {
        seq![' '] + comment_text(module.comments@[slot[0] as int].value, pretty, column_of(before + seq![' ']))
    } else {
        Seq::empty()
    }
}

/// The one remaining comment is a blank block comment, which in
/// elm-format layout attaches to the declaration.
pub open spec fn lead_marker(module: ElmModule, slot: Seq<usize>, i: int, pretty: bool) -> bool {
    let skip = lead_skip(module, slot, i, pretty);
    slot.len() - skip == 1 && (module.comments@[slot[skip] as int].value matches Comment::Block(t) && marker_text(t@))
}

/// `a + b` and `a - b` in 32 bits, stopping at the ends of the range.
pub open spec fn sat_add_u32(a: int, b: int) -> int {
    if a + b > u32::MAX {
        u32::MAX as int
    } else {
        a + b
    }
}

/// `a - b`, stopping at 0.
pub open spec fn sat_sub(a: int, b: int) -> int {
    if a > b {
        a - b
    } else {
        0
    }
}

/// The line where what precedes declaration `i` ends.
pub open spec fn prev_end_line(module: ElmModule, num_imports: int, i: int) -> int {
    if i > 0 {
        module.declarations@[i - 1].span.end.line as int
    } else if num_imports > 0 {
        module.imports@[num_imports - 1].span.end.line as int
    } else {
        match module.module_documentation {
            Some(doc) => doc.span.end.line as int,
            None => module.header.span.end.line as int,
        }
    }
}

/// The line breaks before the comments in front of declaration `i`: in
/// elm-format layout four before a section comment (three right after the
/// imports, one at the top), three before a blank block comment (two after
/// the imports, one at the top), otherwise the blank lines of the source
/// but at least the usual spacing; two in the compact layout.
pub open spec fn lead_break_count(module: ElmModule, slot: Seq<usize>, num_imports: int, i: int, pretty: bool) -> int {
    let first = module.comments@[slot[lead_skip(module, slot, i, pretty)] as int];
    if !pretty {
        2
    } else if first.value is Line {
        if i > 0 {
            4
        } else if num_imports > 0 {
            3
        } else {
            1
        }
    } else if lead_marker(module, slot, i, pretty) {
        if i > 0 {
            3
        } else if num_imports > 0 {
            2
        } else {
            1
        }
    } else {
        let source_blanks = sat_sub(first.span.start.line as int, sat_add_u32(prev_end_line(module, num_imports, i), 1));
        let min_blanks: int = if i == 0 && num_imports == 0 {
            1
        } else if i > 0 {
            3
        } else {
            2
        };
        let blanks = if source_blanks > min_blanks {
            source_blanks
        } else {
            min_blanks
        };
        if i > 0 {
            sat_add_u32(blanks, 1)
        } else {
            blanks
        }
    }
}

/// What goes before declaration `i` after the text `before`: a comment
/// that stays at the end of the line before, then, when comments remain,
/// the line breaks before them (`lead_break_count`), each comment on a
/// line of its own and a blank line (none after a blank block comment in
/// elm-format layout); with no comments left, the usual separator.
pub open spec fn decl_lead_text(
    module: ElmModule,
    slot: Seq<usize>,
    num_imports: int,
    i: int,
    pretty: bool,
    before: Seq<char>,
) -> Seq<char> {
    let decls = module.declarations@;
    let head = lead_head(module, slot, i, pretty, before);
    let skip = lead_skip(module, slot, i, pretty);
    if slot.len() - skip > 0 {
        head + lead_comments_text(module, slot, num_imports, i, pretty, before + head)
    } else if pretty && i > 0 && decls[i].value is InfixDeclaration && decls[i - 1].value is InfixDeclaration {
        head + seq!['\n']
    } else if pretty && i > 0 {
        head + seq!['\n', '\n', '\n']
    } else {
        head + seq!['\n', '\n']
    }
}

/// The comments in front of declaration `i` that go on lines of their own,
/// after the text `before`: the line breaks before them, each comment
/// followed by a line break, then a blank line (none after a blank block
/// comment in elm-format layout).
pub open spec fn lead_comments_text(
    module: ElmModule,
    slot: Seq<usize>,
    num_imports: int,
    i: int,
    pretty: bool,
    before: Seq<char>,
) -> Seq<char> {
    let skip = lead_skip(module, slot, i, pretty);
    let breaks = Seq::new(lead_break_count(module, slot, num_imports, i, pretty) as nat, |k: int| '\n');
    breaks + comment_run(
        before + breaks,
        picked_comments(module.comments@, slot.skip(skip)),
        pretty,
        Seq::empty(),
        seq!['\n'],
    ) + if pretty && lead_marker(module, slot, i, pretty) {
        Seq::empty()
    } else {
        seq!['\n', '\n']
    }
}

/// The comment positions of each slot.
pub open spec fn slot_views(slots: CommentSlots) -> Seq<Seq<usize>> {
    slots.slots@.map_values(|v: Vec<usize>| v@)
}

/// The first `n` declarations of a module, each after what goes before it
/// (`decl_lead_text`), when each has a text (`declaration_text`) at `cols`
/// columns; `before` is the text written before them.
pub open spec fn commented_decls_text(
    module: ElmModule,
    slots: Seq<Seq<usize>>,
    num_imports: int,
    pretty: bool,
    cols: nat,
    before: Seq<char>,
    n: nat,
) -> Option<Seq<char>>
    decreases n,
{
    if n == 0 {
        Some(Seq::empty())
    } else {
        match commented_decls_text(module, slots, num_imports, pretty, cols, before, (n - 1) as nat) {
            Some(a) => match declaration_text(module.declarations@[n - 1].value, pretty, cols) {
                Some(d) => Some(a + decl_lead_text(
                    module,
                    slots[num_imports + n - 1],
                    num_imports,
                    n - 1,
                    pretty,
                    before + a,
                ) + d),
                None => None,
            },
            None => None,
        }
    }
}

/// The line breaks before the comments in front of declaration `i`, as
/// `lead_break_count` states.
fn lead_breaks(
    module: &ElmModule,
    comments: &Vec<usize>,
    num_imports: usize,
    i: usize,
    pretty: bool,
    skip_first: usize,
    is_attached_marker: bool,
) -> (count: u32)
    requires
        num_imports == module.imports@.len(),
        i < module.declarations@.len(),
        skip_first == lead_skip(*module, comments@, i as int, pretty),
        skip_first < comments@.len(),
        comments@[skip_first as int] < module.comments@.len(),
        is_attached_marker == lead_marker(*module, comments@, i as int, pretty),
    ensures
        count == lead_break_count(*module, comments@, num_imports as int, i as int, pretty),
{
    let first = &module.comments[comments[skip_first]];
    let is_section = match first.value {
        Comment::Line(_) => true,
        _ => false,
    };
    let count: u32 = if pretty {
        if is_section {
            if i > 0 {
                4
            } else if num_imports > 0 {
                3
            } else {
                1
            }
        } else if is_attached_marker {
            if i > 0 {
                3
            } else if num_imports > 0 {
                2
            } else {
                1
            }
        } else {
            let first_comment_line = first.span.start.line;
            let prev_end_line: u32 = if i > 0 {
                module.declarations[i - 1].span.end.line
            } else if num_imports > 0 {
                module.imports[num_imports - 1].span.end.line
            } else {
                match &module.module_documentation {
                    Some(doc) => doc.span.end.line,
                    None => module.header.span.end.line,
                }
            };
            let source_blanks = first_comment_line.saturating_sub(prev_end_line.saturating_add(1));
            let min_blanks: u32 = if i == 0 && num_imports == 0 {
                1
            } else if i > 0 {
                3
            } else {
                2
            };
            let blanks = if source_blanks > min_blanks {
                source_blanks
            } else {
                min_blanks
            };
            if i > 0 {
                blanks.saturating_add(1)
            } else {
                blanks
            }
        }
    } else {
        2
    };
    count
}

/// The declarations of a module after `before`, each after what goes
/// before it (`decl_lead_text`), the `k`-th written as `ds[k]`.
pub open spec fn decls_with(
    module: ElmModule,
    slots: Seq<Seq<usize>>,
    num_imports: int,
    pretty: bool,
    before: Seq<char>,
    ds: Seq<Seq<char>>,
) -> Seq<char>
    decreases ds.len(),
{
    if ds.len() == 0 {
        Seq::empty()
    } else {
        let a = decls_with(module, slots, num_imports, pretty, before, ds.drop_last());
        a + decl_lead_text(
            module,
            slots[num_imports + ds.len() - 1],
            num_imports,
            ds.len() - 1,
            pretty,
            before + a,
        ) + ds.last()
    }
}

/// Where each declaration has a text, `ds` holds those texts, and the
/// declarations with their comments are `commented_decls_text`.
pub proof fn lemma_commented_is_decls_with(
    module: ElmModule,
    slots: Seq<Seq<usize>>,
    num_imports: int,
    pretty: bool,
    cols: nat,
    before: Seq<char>,
    ds: Seq<Seq<char>>,
)
    requires
        ds.len() <= module.declarations@.len(),
        forall|k: int|
            0 <= k < ds.len() ==> (declaration_text(module.declarations@[k].value, pretty, cols) matches Some(t)
                ==> #[trigger] ds[k] == t),
    ensures
        commented_decls_text(module, slots, num_imports, pretty, cols, before, ds.len()) matches Some(t) ==> t
            == decls_with(module, slots, num_imports, pretty, before, ds),
    decreases ds.len(),
{
    if ds.len() > 0 {
        let dl = ds.drop_last();
        assert forall|k: int|
            0 <= k < dl.len() implies (declaration_text(module.declarations@[k].value, pretty, cols) matches Some(t)
                ==> #[trigger] dl[k] == t) by {
            assert(dl[k] == ds[k]);
        }
        lemma_commented_is_decls_with(module, slots, num_imports, pretty, cols, before, dl);
        assert(dl.len() == (ds.len() - 1) as nat);
    }
}

/// When the first `n` declarations have a text, so do the first `k`.
pub proof fn lemma_commented_prefix(
    module: ElmModule,
    slots: Seq<Seq<usize>>,
    num_imports: int,
    pretty: bool,
    cols: nat,
    before: Seq<char>,
    n: nat,
    k: nat,
)
    requires
        commented_decls_text(module, slots, num_imports, pretty, cols, before, n) is Some,
        k <= n,
    ensures
        commented_decls_text(module, slots, num_imports, pretty, cols, before, k) is Some,
    decreases n - k,
{
    if k < n {
        lemma_commented_prefix(module, slots, num_imports, pretty, cols, before, (n - 1) as nat, k);
    }
}

/// The declarations of a module with no comments, each after its
/// separator, when each has a text (`declaration_text`) at `cols` columns.
pub open spec fn plain_decls_text(decls: Seq<Spanned<Declaration>>, pretty: bool, cols: nat) -> Option<Seq<char>>
    decreases decls.len(),
{
    if decls.len() == 0 {
        Some(Seq::empty())
    } else {
        match (
            plain_decls_text(decls.drop_last(), pretty, cols),
            declaration_text(decls.last().value, pretty, cols),
        ) {
            (Some(a), Some(b)) => Some(a + decl_separator(decls, decls.len() - 1, pretty) + b),
            _ => None,
        }
    }
}

proof fn lemma_plain_decls_prefix(decls: Seq<Spanned<Declaration>>, pretty: bool, cols: nat, i: int)
    requires
        plain_decls_text(decls, pretty, cols) is Some,
        0 <= i <= decls.len(),
    ensures
        plain_decls_text(decls.take(i), pretty, cols) is Some,
    decreases decls.len(),
{
    if i == decls.len() {
        assert(decls.take(i) =~= decls);
    } else {
        lemma_plain_decls_prefix(decls.drop_last(), pretty, cols, i);
        assert(decls.drop_last().take(i) =~= decls.take(i));
    }
}

/// One more declaration: its separator and its text follow those before
/// it.
proof fn lemma_plain_decls_step(decls: Seq<Spanned<Declaration>>, pretty: bool, cols: nat, i: int)
    requires
        plain_decls_text(decls, pretty, cols) is Some,
        0 <= i < decls.len(),
    ensures
        plain_decls_text(decls.take(i), pretty, cols) is Some,
        declaration_text(decls[i].value, pretty, cols) is Some,
        plain_decls_text(decls.take(i + 1), pretty, cols) == Some(
            plain_decls_text(decls.take(i), pretty, cols)->0 + decl_separator(decls, i, pretty) + declaration_text(
                decls[i].value,
                pretty,
                cols,
            )->0,
        ),
{
    lemma_plain_decls_prefix(decls, pretty, cols, i + 1);
    let t = decls.take(i + 1);
    assert(t.drop_last() =~= decls.take(i));
    assert(t.last() == decls[i]);
    assert(decl_separator(t, i, pretty) == decl_separator(decls, i, pretty));
}

/// With no comments in the module, no slot holds one.
pub(super) proof fn lemma_no_comments_empty_slots(slots: CommentSlots, module: ElmModule, s: int)
    requires
        slots_fit(slots, module),
        module.comments@.len() == 0,
        0 <= s < slots.slots@.len(),
    ensures
        slots.slots@[s]@.len() == 0,
{
    if slots.slots@[s]@.len() > 0 {
        assert(slots.slots@[s]@[0] < 0);
    }
}

/// The comments after the last declaration (positions `slot`) written
/// after `before`: in elm-format layout a line comment on the line where the
/// last declaration ends stays at its end after a space; the others follow
/// after two line breaks (four in elm-format layout), separated by line
/// breaks.
pub open spec fn trailing_comments_text(before: Seq<char>, module: ElmModule, slot: Seq<usize>, pretty: bool) -> Seq<
    char,
> {
    let cs = picked_comments(module.comments@, slot);
    if cs.len() == 0 {
        Seq::empty()
    } else {
        let decls = module.declarations@;
        let inline = pretty && decls.len() > 0 && cs[0].value is Line && cs[0].span.start.line
            == decls.last().span.end.line;
        let part1 = if inline {
            seq![' '] + comment_text(cs[0].value, pretty, column_of(before + seq![' ']))
        } else {
            Seq::empty()
        };
        let rest = if inline {
            cs.skip(1)
        } else {
            cs
        };
        if rest.len() == 0 {
            part1
        } else {
            let breaks = if pretty {
                seq!['\n', '\n', '\n', '\n']
            } else {
                seq!['\n', '\n']
            };
            let b1 = before + part1 + breaks;
            let first = comment_text(rest[0].value, pretty, column_of(b1));
            part1 + breaks + first + comment_run(b1 + first, rest.skip(1), pretty, seq!['\n'], Seq::empty())
        }
    }
}

impl Printer {
    /// Write `n` newlines.
    fn newlines(&mut self, n: u32)
        ensures
            old(self).appended(&*final(self), Seq::new(n as nat, |i: int| '\n')),
    {
        let mut k: u32 = 0;
        while k < n
            invariant
                k <= n,
                old(self).appended(&*self, Seq::new(k as nat, |i: int| '\n')),
            decreases n - k,
        {
            self.newline();
            assert(self.text() =~= old(self).text() + Seq::new((k + 1) as nat, |i: int| '\n'));
            k = k + 1;
        }
    }

    /// The declarations of a module, each after its leading comments and
    /// the blank lines that separate it from what comes before.
    #[verifier::spinoff_prover]
    #[verifier::rlimit(100)]
    pub(super) fn write_declarations_with_comments(
        &mut self,
        module: &ElmModule,
        slots: &CommentSlots,
        num_imports: usize,
    ) -> (ds: Ghost<Seq<Seq<char>>>)
        requires
            old(self).wf(),
            slots_fit(*slots, *module),
            num_imports == module.imports@.len(),
        ensures
            old(self).extended(&*final(self)),
            module.comments@.len() == 0 ==> (plain_decls_text(
                module.declarations@,
                old(self).pretty(),
                old(self).inner_columns(),
            ) matches Some(t) ==> final(self).text() == old(self).text() + t),
            commented_decls_text(
                *module,
                slot_views(*slots),
                num_imports as int,
                old(self).pretty(),
                old(self).inner_columns(),
                old(self).text(),
                module.declarations@.len(),
            ) matches Some(t) ==> final(self).text() == old(self).text() + t,
            ds@.len() == module.declarations@.len(),
            forall|k: int|
                0 <= k < ds@.len() ==> (declaration_text(
                    module.declarations@[k].value,
                    old(self).pretty(),
                    old(self).inner_columns(),
                ) matches Some(t) ==> #[trigger] ds@[k] == t),
            forall|k: int|
                0 <= k < ds@.len() ==> decl_shape(
                    module.declarations@[k].value,
                    #[trigger] ds@[k],
                    old(self).pretty(),
                    old(self).inner_columns(),
                ),
            final(self).text() == old(self).text() + decls_with(
                *module,
                slot_views(*slots),
                num_imports as int,
                old(self).pretty(),
                old(self).text(),
                ds@,
            ),
    {
        let pretty = self.is_pretty();
        let ghost mut ds: Seq<Seq<char>> = Seq::empty();
        let ghost cols = self.inner_columns();
        let ghost decls = module.declarations@;
        let ghost whole = plain_decls_text(decls, pretty, cols);
        let n_slots = slots.slots.len();
        let mut i: usize = 0;
        while i < module.declarations.len()
            invariant
                n_slots == slots.slots@.len(),
                i <= module.declarations@.len(),
                old(self).wf(),
                old(self).extended(&*self),
                pretty == old(self).pretty(),
                cols == old(self).inner_columns(),
                decls == module.declarations@,
                whole == plain_decls_text(decls, pretty, cols),
                slots_fit(*slots, *module),
                num_imports == module.imports@.len(),
                module.comments@.len() == 0 && whole is Some ==> (plain_decls_text(decls.take(i as int), pretty, cols)
                    matches Some(t) && self.text() == old(self).text() + t),
                ds.len() == i,
                forall|k: int|
                    0 <= k < ds.len() ==> (declaration_text(decls[k].value, pretty, cols) matches Some(t)
                        ==> #[trigger] ds[k] == t),
                forall|k: int| 0 <= k < ds.len() ==> decl_shape(decls[k].value, #[trigger] ds[k], pretty, cols),
                self.text() == old(self).text() + decls_with(
                    *module,
                    slot_views(*slots),
                    num_imports as int,
                    pretty,
                    old(self).text(),
                    ds,
                ),
            decreases module.declarations@.len() - i,
        {
            let ghost before = self.text();
            proof {
                if module.comments@.len() == 0 && whole is Some {
                    lemma_plain_decls_step(decls, pretty, cols, i as int);
                }
            }
            self.write_declaration_lead(module, slots, num_imports, i);
            let ghost sep_end = self.text();
            proof {
                old(self).same_state_keeps_layout(&*self);
            }
            self.write_declaration(&module.declarations[i].value);
            proof {
                if module.comments@.len() == 0 && whole is Some {
                    let a = plain_decls_text(decls.take(i as int), pretty, cols)->0;
                    let sep = decl_separator(decls, i as int, pretty);
                    let b = declaration_text(decls[i as int].value, pretty, cols)->0;
                    assert(self.text() == old(self).text() + a + sep + b);
                    assert(self.text() =~= old(self).text() + (a + sep + b));
                }
            }
            proof {
                let d = self.text().subrange(sep_end.len() as int, self.text().len() as int);
                assert(self.text() =~= sep_end + d);
                if let Some(t) = declaration_text(decls[i as int].value, pretty, cols) {
                    assert(d =~= t);
                }
                assert(decl_shape(decls[i as int].value, d, pretty, cols));
                let nds = ds.push(d);
                assert(nds.drop_last() =~= ds);
                assert(slot_views(*slots)[num_imports + i] == slots.slots@[num_imports + i]@);
                assert(self.text() =~= old(self).text() + decls_with(
                    *module,
                    slot_views(*slots),
                    num_imports as int,
                    pretty,
                    old(self).text(),
                    nds,
                ));
                ds = nds;
            }
            i = i + 1;
        }
        assert(decls.take(i as int) =~= decls);
        proof {
            lemma_commented_is_decls_with(*module, slot_views(*slots), num_imports as int, pretty, cols, old(self).text(), ds);
        }
        Ghost(ds)
    }

    /// The comments at positions `slot` from the `skip`-th on, each
    /// followed by a line break.
    #[verifier::spinoff_prover]
    #[verifier::rlimit(100)]
    fn write_comment_lines_from(&mut self, module: &ElmModule, slot: &Vec<usize>, skip: usize)
        requires
            skip <= slot@.len(),
            forall|q: int| 0 <= q < slot@.len() ==> slot@[q] < module.comments@.len(),
        ensures
            old(self).extended(&*final(self)),
            final(self).text() == old(self).text() + comment_run(
                old(self).text(),
                picked_comments(module.comments@, slot@.skip(skip as int)),
                old(self).pretty(),
                Seq::empty(),
                seq!['\n'],
            ),
    {
        let ghost pretty = self.pretty();
        let ghost cs = picked_comments(module.comments@, slot@.skip(skip as int));
        let ghost tail = seq!['\n'];
        proof {
            assert(cs.take(0) =~= Seq::<Spanned<Comment>>::empty());
        }
        let mut k: usize = skip;
        while k < slot.len()
            invariant
                skip <= k <= slot@.len(),
                forall|q: int| 0 <= q < slot@.len() ==> slot@[q] < module.comments@.len(),
                pretty == old(self).pretty(),
                tail == seq!['\n'],
                cs == picked_comments(module.comments@, slot@.skip(skip as int)),
                old(self).appended(
                    &*self,
                    comment_run(old(self).text(), cs.take(k - skip), pretty, Seq::empty(), tail),
                ),
            decreases slot@.len() - k,
        {
            let c = &module.comments[slot[k]];
            let ghost prev = comment_run(old(self).text(), cs.take(k - skip), pretty, Seq::empty(), tail);
            proof {
                lemma_comment_run_step(old(self).text(), cs, pretty, Seq::empty(), tail, k - skip);
                assert(old(self).text() + prev + Seq::<char>::empty() =~= self.text());
                assert(cs[k - skip] == *c);
            }
            let ghost col = column_of(self.text());
            self.write_comment(&c.value);
            self.newline();
            proof {
                let ct = comment_text(c.value, pretty, col);
                assert(self.text() == old(self).text() + prev + ct + tail);
                assert(comment_run(old(self).text(), cs.take(k + 1 - skip), pretty, Seq::empty(), tail) == prev
                    + Seq::<char>::empty() + ct + tail);
                assert(self.text() =~= old(self).text() + comment_run(
                    old(self).text(),
                    cs.take(k + 1 - skip),
                    pretty,
                    Seq::empty(),
                    tail,
                ));
            }
            k = k + 1;
        }
        proof {
            assert(cs.take(k - skip) =~= cs);
        }
    }

    /// What goes before declaration `i`: the comments of its slot and the
    /// blank lines around them, or just the blank lines that separate it
    /// from what comes before.
    #[verifier::spinoff_prover]
    #[verifier::rlimit(100)]
    fn write_declaration_lead(&mut self, module: &ElmModule, slots: &CommentSlots, num_imports: usize, i: usize)
        requires
            slots_fit(*slots, *module),
            num_imports == module.imports@.len(),
            i < module.declarations@.len(),
        ensures
            old(self).extended(&*final(self)),
            final(self).text() == old(self).text() + decl_lead_text(
                *module,
                slots.slots@[num_imports + i]@,
                num_imports as int,
                i as int,
                old(self).pretty(),
                old(self).text(),
            ),
            module.comments@.len() == 0 ==> final(self).text() == old(self).text() + decl_separator(
                module.declarations@,
                i as int,
                old(self).pretty(),
            ),
    {
        let pretty = self.is_pretty();
        let ghost cs = module.comments@;
        let ghost decls = module.declarations@;
        proof {
            if module.comments@.len() == 0 {
                lemma_no_comments_empty_slots(*slots, *module, num_imports + i);
            }
        }
        let n_slots = slots.slots.len();
        assert(num_imports + i < n_slots);
        let slot = num_imports + i;
        let comments = &slots.slots[slot];
        let ghost sv = comments@;
        proof {
            assert(forall|k: int| 0 <= k < sv.len() ==> sv[k] < cs.len());
        }
        let is_infix = match module.declarations[i].value {
            Declaration::InfixDeclaration(_) => true,
            _ => false,
        };
        let prev_is_infix = i > 0 && match module.declarations[i - 1].value {
            Declaration::InfixDeclaration(_) => true,
            _ => false,
        };
        let infix_group = pretty && is_infix && prev_is_infix;
        let inline_trailing = pretty && i > 0 && comments.len() > 0 && match module.comments[comments[0]].value {
            Comment::Line(_) => module.comments[comments[0]].span.start.line
                == module.declarations[i - 1].span.end.line,
            _ => false,
        };
        assert(inline_trailing == lead_inline(*module, sv, i as int, pretty));
        if inline_trailing {
            self.write_char(' ');
            self.write_comment(&module.comments[comments[0]].value);
        }
        let ghost after_head = self.text();
        proof {
            assert(after_head =~= old(self).text() + lead_head(*module, sv, i as int, pretty, old(self).text()));
        }
        let skip_first: usize = if inline_trailing {
            1
        } else {
            0
        };
        let remaining_len = comments.len() - skip_first;
        if remaining_len > 0 {
            self.write_lead_comments(module, comments, num_imports, i, skip_first);
        } else if infix_group {
            self.newline();
        } else {
            self.newline();
            self.newline();
            if pretty && i > 0 {
                self.newline();
            }
        }
        proof {
            if module.comments@.len() == 0 {
                let sep = decl_separator(module.declarations@, i as int, pretty);
                assert(self.text() =~= old(self).text() + sep);
            }
            assert(self.text() =~= old(self).text() + decl_lead_text(
                *module,
                sv,
                num_imports as int,
                i as int,
                pretty,
                old(self).text(),
            ));
        }
    }

    /// The comments in front of declaration `i` that go on lines of their
    /// own, with the line breaks around them.
    #[verifier::spinoff_prover]
    fn write_lead_comments(
        &mut self,
        module: &ElmModule,
        comments: &Vec<usize>,
        num_imports: usize,
        i: usize,
        skip_first: usize,
    )
        requires
            num_imports == module.imports@.len(),
            i < module.declarations@.len(),
            skip_first == lead_skip(*module, comments@, i as int, old(self).pretty()),
            skip_first < comments@.len(),
            forall|q: int| 0 <= q < comments@.len() ==> comments@[q] < module.comments@.len(),
        ensures
            old(self).extended(&*final(self)),
            final(self).text() == old(self).text() + lead_comments_text(
                *module,
                comments@,
                num_imports as int,
                i as int,
                old(self).pretty(),
                old(self).text(),
            ),
    {
        let pretty = self.is_pretty();
        let remaining_len = comments.len() - skip_first;
        let first = &module.comments[comments[skip_first]];
        let is_attached_marker = remaining_len == 1 && match &first.value {
            Comment::Block(text) => is_marker_text(text.as_str()),
            _ => false,
        };
        assert(is_attached_marker == lead_marker(*module, comments@, i as int, pretty));
        let count = lead_breaks(module, comments, num_imports, i, pretty, skip_first, is_attached_marker);
        self.newlines(count);
        let ghost after_breaks = self.text();
        self.write_comment_lines_from(module, comments, skip_first);
        let ghost after_lines = self.text();
        if !(pretty && is_attached_marker) {
            self.newline();
            self.newline();
        }
        proof {
            let breaks = Seq::new(count as nat, |k: int| '\n');
            assert(after_breaks == old(self).text() + breaks);
            assert(self.text() =~= old(self).text() + lead_comments_text(
                *module,
                comments@,
                num_imports as int,
                i as int,
                pretty,
                old(self).text(),
            ));
        }
    }

    /// The comments after the last declaration: a line comment on the last
    /// declaration's line stays at its end, the others follow after blank
    /// lines (three in elm-format layout, two otherwise).
    #[verifier::spinoff_prover]
    #[verifier::rlimit(60)]
    pub(super) fn write_trailing_orphan_comments(
        &mut self,
        module: &ElmModule,
        slots: &CommentSlots,
        total_anchors: usize,
    )
        requires
            slots_fit(*slots, *module),
            total_anchors == slots.num_imports + slots.num_decls,
        ensures
            old(self).appended(
                &*final(self),
                trailing_comments_text(
                    old(self).text(),
                    *module,
                    slots.slots@[total_anchors as int]@,
                    old(self).pretty(),
                ),
            ),
            module.comments@.len() == 0 ==> final(self).text() == old(self).text(),
    {
        proof {
            if module.comments@.len() == 0 {
                lemma_no_comments_empty_slots(*slots, *module, total_anchors as int);
            }
        }
        let ghost pretty = self.pretty();
        let ghost cs = picked_comments(module.comments@, slots.slots@[total_anchors as int]@);
        let comments = &slots.slots[total_anchors];
        if comments.len() == 0 {
            return;
        }
        let pretty = self.is_pretty();
        let n_decls = module.declarations.len();
        let inline_trailing_orphan = pretty && n_decls > 0 && match module.comments[comments[0]].value {
            Comment::Line(_) => module.comments[comments[0]].span.start.line
                == module.declarations[n_decls - 1].span.end.line,
            _ => false,
        };
        assert(cs[0] == module.comments@[comments@[0] as int]);
        let skip_first: usize = if inline_trailing_orphan {
            1
        } else {
            0
        };
        if inline_trailing_orphan {
            self.write_char(' ');
            self.write_comment(&module.comments[comments[0]].value);
        }
        let ghost b0 = self.text();
        let ghost part1 = if inline_trailing_orphan {
            seq![' '] + comment_text(cs[0].value, pretty, column_of(old(self).text() + seq![' ']))
        } else {
            Seq::empty()
        };
        proof {
            assert(b0 =~= old(self).text() + part1);
            if !inline_trailing_orphan {
                assert(cs.skip(0) =~= cs);
            }
        }
        if comments.len() - skip_first == 0 {
            assert(self.text() =~= old(self).text() + trailing_comments_text(old(self).text(), *module, comments@, pretty));
            return;
        }
        self.newline();
        self.newline();
        if pretty {
            self.newline();
            self.newline();
        }
        let ghost b1 = self.text();
        let ghost rest = cs.skip(skip_first as int);
        self.write_comment(&module.comments[comments[skip_first]].value);
        proof {
            assert(rest[0] == module.comments@[comments@[skip_first as int] as int]);
            assert(rest.skip(1).take(0) =~= Seq::<Spanned<Comment>>::empty());
        }
        let ghost b2 = self.text();
        let mut k = skip_first + 1;
        while k < comments.len()
            invariant
                skip_first + 1 <= k <= comments@.len(),
                forall|q: int| 0 <= q < comments@.len() ==> comments@[q] < module.comments@.len(),
                pretty == old(self).pretty(),
                cs == picked_comments(module.comments@, comments@),
                rest == cs.skip(skip_first as int),
                self.text() == b2 + comment_run(
                    b2,
                    rest.skip(1).take(k - skip_first - 1),
                    pretty,
                    seq!['\n'],
                    Seq::empty(),
                ),
                old(self).same_state(&*self),
            decreases comments@.len() - k,
        {
            let ghost j: int = k - skip_first - 1;
            proof {
                lemma_comment_run_step(b2, rest.skip(1), pretty, seq!['\n'], Seq::empty(), j);
                assert(rest.skip(1)[j] == module.comments@[comments@[k as int] as int]);
            }
            let ghost prev = comment_run(b2, rest.skip(1).take(j), pretty, seq!['\n'], Seq::empty());
            self.newline();
            let ghost col = column_of(self.text());
            assert(self.text() =~= b2 + prev + seq!['\n']);
            self.write_comment(&module.comments[comments[k]].value);
            proof {
                assert(self.text() =~= b2 + comment_run(
                    b2,
                    rest.skip(1).take(j + 1),
                    pretty,
                    seq!['\n'],
                    Seq::empty(),
                ));
            }
            k = k + 1;
        }
        proof {
            assert(rest.skip(1).take(k - skip_first - 1) =~= rest.skip(1));
            let breaks = if pretty {
                seq!['\n', '\n', '\n', '\n']
            } else {
                seq!['\n', '\n']
            };
            assert(b1 =~= old(self).text() + part1 + breaks);
            let first = comment_text(rest[0].value, pretty, column_of(b1));
            assert(b2 == b1 + first);
            assert(self.text() =~= old(self).text() + trailing_comments_text(old(self).text(), *module, comments@, pretty));
        }
    }
}

} // verus!
