//! Printing of exposing lists.

use vstd::prelude::*;

use super::doc_groups::{groups_view, strings_view};
use super::multiline::{seq_spans_multi, spans_multi_lines};
use super::{spaces, Printer};
use crate::exposing::{ExposedItem, Exposing};
use crate::node::Spanned;
use crate::sorting::{char_seq_lt, is_stable_sort, sort_indices, SortKey};
use crate::text::{chars_eq, chars_of};

verus! {

broadcast use super::group_text_growth;

/// The name of an exposed item as `@docs` lines write it: an operator in
/// parentheses.
pub open spec fn exposed_name(item: ExposedItem) -> Seq<char> {
    match item {
        ExposedItem::Function(n) => n@,
        ExposedItem::TypeOrAlias(n) => n@,
        ExposedItem::TypeExpose { name, .. } => name@,
        ExposedItem::Infix(op) => seq!['('] + op@ + seq![')'],
    }
}

/// The printed form of an exposed item.
pub open spec fn exposed_text(item: ExposedItem) -> Seq<char> {
    match item {
        ExposedItem::Function(n) => n@,
        ExposedItem::TypeOrAlias(n) => n@,
        ExposedItem::TypeExpose { name, open } => name@ + if open is Some {
            seq!['(', '.', '.', ')']
        } else {
            Seq::empty()
        },
        ExposedItem::Infix(op) => seq!['('] + op@ + seq![')'],
    }
}

/// The number of bytes of the UTF-8 encoding of a character.
pub open spec fn utf8_width(c: char) -> nat {
    if (c as u32) < 0x80 {
        1
    } else if (c as u32) < 0x800 {
        2
    } else if (c as u32) < 0x10000 {
        3
    } else {
        4
    }
}

/// The number of bytes of the UTF-8 encoding of a text.
pub open spec fn utf8_len(s: Seq<char>) -> nat
    decreases s.len(),
{
    if s.len() == 0 {
        0
    } else {
        utf8_len(s.drop_last()) + utf8_width(s.last())
    }
}

/// The name of an exposed item for matching against `@docs` lines.
pub fn exposed_item_name(item: &ExposedItem) -> (r: Vec<char>)
    ensures
        r@ == exposed_name(*item),
{
    match item {
        ExposedItem::Function(name) => chars_of(name.as_str()),
        ExposedItem::TypeOrAlias(name) => chars_of(name.as_str()),
        ExposedItem::TypeExpose { name, .. } => chars_of(name.as_str()),
        ExposedItem::Infix(op) => {
            let mut r: Vec<char> = Vec::new();
            r.push('(');
            let mut cs = chars_of(op.as_str());
            r.append(&mut cs);
            r.push(')');
            assert(r@ =~= exposed_name(*item));
            r
        },
    }
}

/// The key exposed items are sorted by: their printed name, so that
/// operators in parentheses come before names.
pub fn exposed_item_sort_key(item: &ExposedItem) -> (r: Vec<char>)
    ensures
        r@ == exposed_name(*item),
{
    exposed_item_name(item)
}

/// The printed form of an exposed item.
pub fn exposed_item_to_string(item: &ExposedItem) -> (r: Vec<char>)
    ensures
        r@ == exposed_text(*item),
{
    match item {
        ExposedItem::TypeExpose { name, open } => {
            let mut r = chars_of(name.as_str());
            if open.is_some() {
                r.push('(');
                r.push('.');
                r.push('.');
                r.push(')');
            }
            assert(r@ =~= exposed_text(*item));
            r
        },
        _ => exposed_item_name(item),
    }
}

/// The UTF-8 length of a text.
fn utf8_length(v: &Vec<char>) -> (n: usize)
    requires
        v@.len() <= usize::MAX / 4,
    ensures
        n == utf8_len(v@),
{
    let mut n: usize = 0;
    let mut i: usize = 0;
    while i < v.len()
        invariant
            i <= v@.len(),
            v@.len() <= usize::MAX / 4,
            n == utf8_len(v@.take(i as int)),
            n <= 4 * i,
        decreases v@.len() - i,
    {
        let c = v[i];
        let w: usize = if (c as u32) < 0x80 {
            1
        } else if (c as u32) < 0x800 {
            2
        } else if (c as u32) < 0x10000 {
            3
        } else {
            4
        };
        assert(v@.take(i + 1).drop_last() =~= v@.take(i as int));
        n = n + w;
        i = i + 1;
    }
    assert(v@.take(i as int) =~= v@);
    n
}

/// The index of the last item with the given name, if any.
fn find_item(items: &Vec<Spanned<ExposedItem>>, name: &Vec<char>) -> (r: Option<usize>)
    ensures
        match r {
            Some(k) => k < items@.len() && exposed_name(items@[k as int].value) == name@ && forall|j: int|
                k < j < items@.len() ==> exposed_name(#[trigger] items@[j].value) != name@,
            None => forall|j: int| 0 <= j < items@.len() ==> exposed_name(#[trigger] items@[j].value) != name@,
        },
{
    let mut k = items.len();
    while k > 0
        invariant
            k <= items@.len(),
            forall|j: int| k <= j < items@.len() ==> exposed_name(#[trigger] items@[j].value) != name@,
        decreases k,
    {
        let nm = exposed_item_name(&items[k - 1].value);
        if chars_eq(&nm, name) {
            return Some(k - 1);
        }
        k = k - 1;
    }
    None
}

/// Whether a list of names holds `name`.
fn has_name(names: &Vec<Vec<char>>, name: &Vec<char>) -> (r: bool)
    ensures
        r == exists|j: int| 0 <= j < names@.len() && (#[trigger] names@[j])@ == name@,
{
    let mut j: usize = 0;
    while j < names.len()
        invariant
            j <= names@.len(),
            forall|q: int| 0 <= q < j ==> (#[trigger] names@[q])@ != name@,
        decreases names@.len() - j,
    {
        if chars_eq(&names[j], name) {
            return true;
        }
        j = j + 1;
    }
    false
}

/// `ord` lists each position of `which` once, ordering the items they
/// point at by name; items of the same name keep their order in `which`.
pub open spec fn sorted_by_name(items: Seq<Spanned<ExposedItem>>, which: Seq<usize>, ord: Seq<usize>) -> bool {
    &&& ord.len() == which.len()
    &&& forall|i: int| 0 <= i < ord.len() ==> ord[i] < which.len()
    &&& forall|i: int, j: int| 0 <= i < j < ord.len() ==> ord[i] != ord[j]
    &&& forall|i: int, j: int|
        0 <= i < j < ord.len() ==> !char_seq_lt(
            exposed_name(items[which[ord[j] as int] as int].value),
            exposed_name(items[which[ord[i] as int] as int].value),
        )
    &&& forall|i: int, j: int|
        0 <= i < j < ord.len() && !char_seq_lt(
            exposed_name(items[which[ord[i] as int] as int].value),
            exposed_name(items[which[ord[j] as int] as int].value),
        ) ==> ord[i] < ord[j]
}

/// The given items' indices sorted by their names (stably).
pub(super) fn sorted_items(items: &Vec<Spanned<ExposedItem>>, which: &Vec<usize>) -> (r: (Vec<usize>, Ghost<Seq<usize>>))
    requires
        forall|k: int| 0 <= k < which@.len() ==> which@[k] < items@.len(),
    ensures
        sorted_by_name(items@, which@, r.1@),
        r.0@ == r.1@.map_values(|p: usize| which@[p as int]),
        forall|k: int| 0 <= k < r.0@.len() ==> r.0@[k] < items@.len(),
{
    let mut keys: Vec<Vec<char>> = Vec::new();
    let mut i: usize = 0;
    while i < which.len()
        invariant
            i <= which@.len(),
            keys@.len() == i,
            forall|k: int| 0 <= k < which@.len() ==> which@[k] < items@.len(),
            forall|k: int| 0 <= k < i ==> (#[trigger] keys@[k])@ == exposed_name(items@[which@[k] as int].value),
        decreases which@.len() - i,
    {
        keys.push(exposed_item_sort_key(&items[which[i]].value));
        i = i + 1;
    }
    let ord = sort_indices(&keys);
    let mut r: Vec<usize> = Vec::new();
    let mut p: usize = 0;
    while p < ord.len()
        invariant
            p <= ord@.len(),
            is_stable_sort(keys@, ord@),
            keys@.len() == which@.len(),
            forall|k: int| 0 <= k < which@.len() ==> which@[k] < items@.len(),
            r@ == ord@.take(p as int).map_values(|q: usize| which@[q as int]),
        decreases ord@.len() - p,
    {
        r.push(which[ord[p]]);
        assert(r@ =~= ord@.take(p + 1).map_values(|q: usize| which@[q as int]));
        p = p + 1;
    }
    assert(ord@.take(p as int) =~= ord@);
    proof {
        assert forall|a: int, b: int| 0 <= a < b < ord@.len() implies !char_seq_lt(
            exposed_name(items@[which@[ord@[b] as int] as int].value),
            exposed_name(items@[which@[ord@[a] as int] as int].value),
        ) by {
            assert(!keys@[ord@[b] as int].key_lt(keys@[ord@[a] as int]));
        }
        assert forall|a: int, b: int|
            0 <= a < b < ord@.len() && !char_seq_lt(
                exposed_name(items@[which@[ord@[a] as int] as int].value),
                exposed_name(items@[which@[ord@[b] as int] as int].value),
            ) implies ord@[a] < ord@[b] by {
            assert(!keys@[ord@[a] as int].key_lt(keys@[ord@[b] as int]));
        }
    }
    (r, Ghost(ord@))
}

/// The items at positions `which`, printed and separated by `, `.
pub open spec fn item_list_text(items: Seq<Spanned<ExposedItem>>, which: Seq<usize>) -> Seq<char>
    decreases which.len(),
{
    if which.len() == 0 {
        Seq::empty()
    } else if which.len() == 1 {
        exposed_text(items[which[0] as int].value)
    } else {
        item_list_text(items, which.drop_last()) + seq![',', ' '] + exposed_text(items[which.last() as int].value)
    }
}

/// One group per line at `cols` columns: `( a, b` for the first, `, c`
/// for the others.
pub open spec fn groups_text(items: Seq<Spanned<ExposedItem>>, groups: Seq<Seq<usize>>, cols: nat) -> Seq<char>
    decreases groups.len(),
{
    if groups.len() == 0 {
        Seq::empty()
    } else {
        groups_text(items, groups.drop_last(), cols) + seq!['\n'] + spaces(cols) + (if groups.len() == 1 {
            seq!['(', ' ']
        } else {
            seq![',', ' ']
        }) + item_list_text(items, groups.last())
    }
}

/// Each position as a group of its own.
pub open spec fn singletons(which: Seq<usize>) -> Seq<Seq<usize>> {
    which.map_values(|i: usize| seq![i])
}

/// The text without its trailing space, if it has one.
pub open spec fn without_trailing_space(t: Seq<char>) -> Seq<char> {
    if t.len() > 0 && t.last() == ' ' {
        t.drop_last()
    } else {
        t
    }
}

/// The position of the last item named `name` among the first `k`.
pub open spec fn last_named(items: Seq<Spanned<ExposedItem>>, name: Seq<char>, k: int) -> Option<usize>
    decreases k,
{
    if k <= 0 || k > items.len() {
        None
    } else if exposed_name(items[k - 1].value) == name {
        Some((k - 1) as usize)
    } else {
        last_named(items, name, k - 1)
    }
}

/// An operator of three or more bytes, which `@docs` lines never match.
pub open spec fn long_operator(item: ExposedItem) -> bool {
    match item {
        ExposedItem::Infix(op) => utf8_len(op@) >= 3,
        _ => false,
    }
}

/// The items that the first `n` names of an `@docs` group bring in: for
/// each name not already `emitted`, the last item of that name (unless it
/// is a long operator).
pub open spec fn group_items(
    items: Seq<Spanned<ExposedItem>>,
    names: Seq<Seq<char>>,
    emitted: Seq<Seq<char>>,
    n: int,
) -> Seq<usize>
    decreases n,
{
    if n <= 0 {
        Seq::empty()
    } else {
        let before = group_items(items, names, emitted, n - 1);
        let name = names[n - 1];
        if !emitted.contains(name) && last_named(items, name, items.len() as int) is Some && !long_operator(
            items[last_named(items, name, items.len() as int)->0 as int].value,
        ) {
            before.push(last_named(items, name, items.len() as int)->0)
        } else {
            before
        }
    }
}

/// The names of the items at positions `which`.
pub open spec fn names_of(items: Seq<Spanned<ExposedItem>>, which: Seq<usize>) -> Seq<Seq<char>> {
    which.map_values(|i: usize| exposed_name(items[i as int].value))
}

/// The non-empty groups that the first `g` `@docs` groups bring in, and the
/// names emitted so far.
pub open spec fn doc_resolution(items: Seq<Spanned<ExposedItem>>, docs: Seq<Seq<Seq<char>>>, g: int) -> (
    Seq<Seq<usize>>,
    Seq<Seq<char>>,
)
    decreases g,
{
    if g <= 0 {
        (Seq::empty(), Seq::empty())
    } else {
        let r = doc_resolution(items, docs, g - 1);
        let gi = group_items(items, docs[g - 1], r.1, docs[g - 1].len() as int);
        if gi.len() > 0 {
            (r.0.push(gi), r.1 + names_of(items, gi))
        } else {
            r
        }
    }
}

/// The positions among the first `k` items whose names were not emitted.
pub open spec fn leftover_items(items: Seq<Spanned<ExposedItem>>, emitted: Seq<Seq<char>>, k: int) -> Seq<usize>
    decreases k,
{
    if k <= 0 {
        Seq::empty()
    } else {
        let before = leftover_items(items, emitted, k - 1);
        if emitted.contains(exposed_name(items[k - 1].value)) {
            before
        } else {
            before.push((k - 1) as usize)
        }
    }
}

/// The layout of a module's exposing list with `@docs` groups: one group
/// on one line; several groups one per line at `cols` columns.
pub open spec fn doc_layout_text(
    old_text: Seq<char>,
    items: Seq<Spanned<ExposedItem>>,
    groups: Seq<Seq<usize>>,
    leftovers: Seq<usize>,
    cols: nat,
) -> Seq<char> {
    let all = if leftovers.len() > 0 {
        groups.push(leftovers)
    } else {
        groups
    };
    if all.len() <= 1 {
        old_text + seq!['('] + (if all.len() == 1 {
            item_list_text(items, all[0])
        } else {
            Seq::empty()
        }) + seq![')']
    } else {
        without_trailing_space(old_text) + groups_text(items, all, cols) + seq!['\n'] + spaces(cols) + seq![')']
    }
}

/// The layout of sorted items: on one line, or one per line at `cols`
/// columns when they spanned several source lines.
pub open spec fn sorted_layout_text(
    old_text: Seq<char>,
    items: Seq<Spanned<ExposedItem>>,
    sorted: Seq<usize>,
    multi: bool,
    cols: nat,
) -> Seq<char> {
    if !multi {
        old_text + seq!['('] + item_list_text(items, sorted) + seq![')']
    } else {
        without_trailing_space(old_text) + groups_text(items, singletons(sorted), cols) + seq!['\n'] + spaces(cols)
            + seq![')']
    }
}

/// The text after an exposing list is written after `old_text`: `(..)`
/// for all items; in elm-format layout as `exposing_pretty_written` says;
/// otherwise the items on one line in source order.
pub open spec fn exposing_written(
    old_text: Seq<char>,
    new_text: Seq<char>,
    exposing: Exposing,
    is_module_header: bool,
    pretty: bool,
    docs: Seq<Seq<Seq<char>>>,
    cols: nat,
) -> bool {
    match exposing {
        Exposing::Explicit(items) => if pretty {
            exposing_pretty_written(old_text, new_text, items@, is_module_header, docs, cols)
        } else {
            new_text == old_text + compact_exposing_text(exposing)
        },
        Exposing::All(_) => new_text == old_text + compact_exposing_text(exposing),
    }
}

/// An exposing list in the compact layout: `(..)`, or the items in source
/// order on one line.
pub open spec fn compact_exposing_text(exposing: Exposing) -> Seq<char> {
    match exposing {
        Exposing::All(_) => seq!['(', '.', '.', ')'],
        Exposing::Explicit(items) => seq!['('] + item_list_text(items@, identity(items@.len())) + seq![')'],
    }
}

/// The text after an exposing list in elm-format layout is written after
/// `old_text`, with `docs` the `@docs` groups and `cols` the columns one
/// indentation level in.
#[verifier::opaque]
pub open spec fn exposing_pretty_written(
    old_text: Seq<char>,
    new_text: Seq<char>,
    items: Seq<Spanned<ExposedItem>>,
    is_module_header: bool,
    docs: Seq<Seq<Seq<char>>>,
    cols: nat,
) -> bool {
    if is_module_header && docs.len() > 0 {
        let r = doc_resolution(items, docs, docs.len() as int);
        let rest = leftover_items(items, r.1, items.len() as int);
        exists|ord: Seq<usize>|
            #[trigger] sorted_by_name(items, rest, ord) && new_text == doc_layout_text(
                old_text,
                items,
                r.0,
                ord.map_values(|p: usize| rest[p as int]),
                cols,
            )
    } else if !is_module_header {
        new_text == old_text + seq!['('] + item_list_text(items, identity(items.len())) + seq![')']
    } else {
        exists|ord: Seq<usize>|
            #[trigger] sorted_by_name(items, identity(items.len()), ord) && new_text == sorted_layout_text(
                old_text,
                items,
                ord,
                seq_spans_multi(items),
                cols,
            )
    }
}

/// The positions of each group.
pub open spec fn positions_view(v: Seq<Vec<usize>>) -> Seq<Seq<usize>> {
    v.map_values(|g: Vec<usize>| g@)
}

/// The characters of each name.
pub open spec fn names_view(v: Seq<Vec<char>>) -> Seq<Seq<char>> {
    v.map_values(|n: Vec<char>| n@)
}

proof fn lemma_names_contains(names: Seq<Vec<char>>, name: Seq<char>)
    ensures
        names_view(names).contains(name) == exists|j: int| 0 <= j < names.len() && (#[trigger] names[j])@ == name,
{
    let view = names_view(names);
    if view.contains(name) {
        let j = choose|j: int| 0 <= j < view.len() && view[j] == name;
        assert(names[j]@ == name);
    }
    if exists|j: int| 0 <= j < names.len() && (#[trigger] names[j])@ == name {
        let j = choose|j: int| 0 <= j < names.len() && (#[trigger] names[j])@ == name;
        assert(view[j] == name);
    }
}

proof fn lemma_last_named(items: Seq<Spanned<ExposedItem>>, name: Seq<char>, m: int, k: int)
    requires
        0 <= m <= items.len(),
    ensures
        (forall|j: int| 0 <= j < m ==> exposed_name(#[trigger] items[j].value) != name) ==> last_named(
            items,
            name,
            m,
        ) is None,
        (0 <= k < m && exposed_name(items[k].value) == name && forall|j: int|
            k < j < m ==> exposed_name(#[trigger] items[j].value) != name) ==> last_named(items, name, m) == Some(
            k as usize,
        ),
    decreases m,
{
    if m > 0 {
        lemma_last_named(items, name, m - 1, k);
    }
}

proof fn lemma_leftovers_below(items: Seq<Spanned<ExposedItem>>, emitted: Seq<Seq<char>>, k: int)
    ensures
        forall|q: int|
            0 <= q < leftover_items(items, emitted, k).len() ==> #[trigger] leftover_items(items, emitted, k)[q] < k,
    decreases k,
{
    if k > 0 {
        lemma_leftovers_below(items, emitted, k - 1);
        let before = leftover_items(items, emitted, k - 1);
        assert forall|q: int| 0 <= q < leftover_items(items, emitted, k).len() implies #[trigger] leftover_items(
            items,
            emitted,
            k,
        )[q] < k by {
            if q < before.len() {
                assert(before[q] < k - 1);
            }
        }
    }
}

/// The positions of the items whose names were not emitted, in order.
fn leftover_positions(items: &Vec<Spanned<ExposedItem>>, emitted: &Vec<Vec<char>>) -> (r: Vec<usize>)
    ensures
        r@ == leftover_items(items@, names_view(emitted@), items@.len() as int),
        forall|q: int| 0 <= q < r@.len() ==> #[trigger] r@[q] < items@.len(),
{
    let ghost ev = names_view(emitted@);
    let mut rest: Vec<usize> = Vec::new();
    let mut k: usize = 0;
    while k < items.len()
        invariant
            k <= items@.len(),
            ev == names_view(emitted@),
            rest@ == leftover_items(items@, ev, k as int),
        decreases items@.len() - k,
    {
        let nm = exposed_item_name(&items[k].value);
        proof {
            lemma_names_contains(emitted@, nm@);
        }
        if !has_name(&emitted, &nm) {
            rest.push(k);
        }
        k = k + 1;
    }
    proof {
        lemma_leftovers_below(items@, ev, k as int);
    }
    rest
}

proof fn lemma_utf8_len_ge(s: Seq<char>)
    ensures
        utf8_len(s) >= s.len(),
    decreases s.len(),
{
    if s.len() > 0 {
        lemma_utf8_len_ge(s.drop_last());
    }
}

impl Printer {
    /// Write an exposed item.
    pub(super) fn write_exposed_item(&mut self, item: &ExposedItem)
        ensures
            old(self).appended(&*final(self), exposed_text(*item)),
    {
        let cs = exposed_item_to_string(item);
        self.write_chars(&cs);
    }

    /// The items at the given indices, separated by `, `.
    pub(super) fn write_item_list(&mut self, items: &Vec<Spanned<ExposedItem>>, which: &Vec<usize>)
        requires
            forall|k: int| 0 <= k < which@.len() ==> which@[k] < items@.len(),
        ensures
            old(self).appended(&*final(self), item_list_text(items@, which@)),
    {
        let mut j: usize = 0;
        while j < which.len()
            invariant
                j <= which@.len(),
                forall|k: int| 0 <= k < which@.len() ==> which@[k] < items@.len(),
                old(self).appended(&*self, item_list_text(items@, which@.take(j as int))),
            decreases which@.len() - j,
        {
            let ghost before = self.text();
            if j > 0 {
                self.write(", ");
            }
            self.write_exposed_item(&items[which[j]].value);
            proof {
                reveal_strlit(", ");
                let t = which@.take(j + 1);
                assert(t.drop_last() =~= which@.take(j as int));
                assert(t.last() == which@[j as int]);
                if j == 0 {
                    assert(t.len() == 1 && t[0] == which@[0]);
                }
                assert(self.text() =~= old(self).text() + item_list_text(items@, t));
            }
            j = j + 1;
        }
        assert(which@.take(j as int) =~= which@);
    }

    /// Write an exposing list: `(..)`, or the items in parentheses; in
    /// elm-format layout see `write_exposing_pretty`.
    pub(super) fn write_exposing(&mut self, exposing: &Exposing, is_module_header: bool)
        requires
            old(self).wf(),
        ensures
            old(self).extended_after_space(&*final(self)),
            exposing_written(
                old(self).text(),
                final(self).text(),
                *exposing,
                is_module_header,
                old(self).pretty(),
                groups_view(old(self).doc_groups@),
                old(self).inner_columns(),
            ),
    {
        match exposing {
            Exposing::All(_) => {
                self.write("(..)");
                proof {
                    reveal_strlit("(..)");
                    assert("(..)"@ =~= compact_exposing_text(*exposing));
                }
            },
            Exposing::Explicit(items) => {
                if self.is_pretty() {
                    self.write_exposing_pretty(items, is_module_header);
                } else {
                    let ghost old_text = self.text();
                    self.write_char('(');
                    let all = all_indices(items.len());
                    assert(all@ =~= identity(items@.len()));
                    self.write_item_list(items, &all);
                    self.write_char(')');
                    assert(self.text() =~= old_text + compact_exposing_text(*exposing));
                }
            },
        }
    }

    /// An exposing list in elm-format layout. In a module header with
    /// `@docs` groups in the module documentation, the items follow the
    /// groups (each item in the first group that names it; operators of
    /// three or more bytes never match), then the remaining items sorted by
    /// name; one group stays on one line, several go one group per line. In
    /// an import the items stay on one line in source order. In a module
    /// header without `@docs` groups the items are sorted by name, on one
    /// line unless they spanned several source lines.
    #[verifier::spinoff_prover]
    pub(super) fn write_exposing_pretty(&mut self, items: &Vec<Spanned<ExposedItem>>, is_module_header: bool)
        requires
            old(self).wf(),
        ensures
            old(self).extended_after_space(&*final(self)),
            exposing_pretty_written(
                old(self).text(),
                final(self).text(),
                items@,
                is_module_header,
                groups_view(old(self).doc_groups@),
                old(self).inner_columns(),
            ),
    {
        let ghost docs = groups_view(self.doc_groups@);
        let ghost old_text = self.text();
        let ghost cols = self.inner_columns();
        proof {
            reveal(exposing_pretty_written);
        }
        if is_module_header && self.doc_groups.len() > 0 {
            let (mut resolved, emitted) = self.resolve_doc_groups(items);
            let rest = leftover_positions(items, &emitted);
            let (leftovers, ord) = sorted_items(items, &rest);
            let ghost groups = positions_view(resolved@);
            if leftovers.len() > 0 {
                resolved.push(leftovers);
            }
            let ghost all = if leftovers@.len() > 0 {
                groups.push(leftovers@)
            } else {
                groups
            };
            assert(positions_view(resolved@) =~= all);
            if resolved.len() <= 1 {
                self.write_char('(');
                if resolved.len() == 1 {
                    self.write_item_list(items, &resolved[0]);
                }
                self.write_char(')');
                let ghost inner = if all.len() == 1 {
                    item_list_text(items@, all[0])
                } else {
                    Seq::empty()
                };
                assert(self.text() =~= old_text + seq!['('] + inner + seq![')']);
            } else {
                self.write_boxed_groups(items, &resolved);
            }
            proof {
                let r = doc_resolution(items@, docs, docs.len() as int);
                let rest_s = leftover_items(items@, r.1, items@.len() as int);
                assert(rest@ == rest_s);
                let lo = ord@.map_values(|p: usize| rest_s[p as int]);
                assert(leftovers@ =~= lo);
                assert(self.text() == doc_layout_text(old_text, items@, r.0, lo, cols));
                assert(sorted_by_name(items@, rest_s, ord@));
                assert(exposing_pretty_written(old_text, self.text(), items@, is_module_header, docs, cols));
            }
        } else if !is_module_header {
            self.write_char('(');
            let all = all_indices(items.len());
            assert(all@ =~= identity(items@.len()));
            self.write_item_list(items, &all);
            self.write_char(')');
            assert(self.text() =~= old_text + seq!['('] + item_list_text(items@, identity(items@.len())) + seq![')']);
            assert(exposing_pretty_written(old_text, self.text(), items@, is_module_header, docs, cols));
        } else {
            let all = all_indices(items.len());
            assert(all@ =~= identity(items@.len()));
            let (sorted, ord) = sorted_items(items, &all);
            assert(sorted@ =~= ord@);
            let source_was_multiline = spans_multi_lines(items);
            if !source_was_multiline {
                self.write_char('(');
                self.write_item_list(items, &sorted);
                self.write_char(')');
                assert(self.text() =~= old_text + seq!['('] + item_list_text(items@, sorted@) + seq![')']);
            } else {
                self.write_boxed_lines(items, &sorted);
            }
            assert(self.text() == sorted_layout_text(old_text, items@, ord@, seq_spans_multi(items@), cols));
            assert(sorted_by_name(items@, identity(items@.len()), ord@));
            assert(exposing_pretty_written(old_text, self.text(), items@, is_module_header, docs, cols));
        }
    }

    /// The groups of items that the `@docs` groups bring in, and the names
    /// of all the items in them.
    #[verifier::spinoff_prover]
    fn resolve_doc_groups(&self, items: &Vec<Spanned<ExposedItem>>) -> (r: (Vec<Vec<usize>>, Vec<Vec<char>>))
        ensures
            (positions_view(r.0@), names_view(r.1@)) == doc_resolution(
                items@,
                groups_view(self.doc_groups@),
                self.doc_groups@.len() as int,
            ),
            forall|a: int, k: int|
                0 <= a < r.0@.len() && 0 <= k < r.0@[a]@.len() ==> #[trigger] r.0@[a]@[k] < items@.len(),
    {
        let ghost docs = groups_view(self.doc_groups@);
        let mut emitted: Vec<Vec<char>> = Vec::new();
        let mut resolved: Vec<Vec<usize>> = Vec::new();
        let mut g: usize = 0;
        assert(positions_view(resolved@) =~= Seq::<Seq<usize>>::empty());
        assert(names_view(emitted@) =~= Seq::<Seq<char>>::empty());
        while g < self.doc_groups.len()
            invariant
                g <= self.doc_groups@.len(),
                docs == groups_view(self.doc_groups@),
                (positions_view(resolved@), names_view(emitted@)) == doc_resolution(items@, docs, g as int),
                forall|a: int, k: int|
                    0 <= a < resolved@.len() && 0 <= k < resolved@[a]@.len() ==> #[trigger] resolved@[a]@[k]
                        < items@.len(),
            decreases self.doc_groups@.len() - g,
        {
            let group = &self.doc_groups[g];
            let ghost names = docs[g as int];
            let ghost seen = names_view(emitted@);
            assert(names == strings_view(group@));
            let mut gi: Vec<usize> = Vec::new();
            let mut n: usize = 0;
            while n < group.len()
                invariant
                    n <= group@.len(),
                    names == strings_view(group@),
                    seen == names_view(emitted@),
                    gi@ == group_items(items@, names, seen, n as int),
                    forall|k: int| 0 <= k < gi@.len() ==> #[trigger] gi@[k] < items@.len(),
                decreases group@.len() - n,
            {
                let name = chars_of(group[n].as_str());
                assert(name@ == names[n as int]);
                proof {
                    lemma_names_contains(emitted@, name@);
                }
                if !has_name(&emitted, &name) {
                    let found = find_item(items, &name);
                    proof {
                        let k: int = match found {
                            Some(k) => k as int,
                            None => 0,
                        };
                        lemma_last_named(items@, name@, items@.len() as int, k);
                    }
                    match found {
                        Some(idx) => {
                            let too_long = match &items[idx].value {
                                ExposedItem::Infix(op) => {
                                    let cs = chars_of(op.as_str());
                                    proof {
                                        lemma_utf8_len_ge(cs@);
                                    }
                                    cs.len() > usize::MAX / 4 || utf8_length(&cs) >= 3
                                },
                                _ => false,
                            };
                            if !too_long {
                                gi.push(idx);
                            }
                        },
                        None => {},
                    }
                }
                n = n + 1;
            }
            if gi.len() > 0 {
                let mut k: usize = 0;
                assert(gi@.take(0) =~= Seq::<usize>::empty());
                assert(seen + names_of(items@, gi@.take(0)) =~= seen);
                while k < gi.len()
                    invariant
                        k <= gi@.len(),
                        forall|q: int| 0 <= q < gi@.len() ==> #[trigger] gi@[q] < items@.len(),
                        names_view(emitted@) == seen + names_of(items@, gi@.take(k as int)),
                    decreases gi@.len() - k,
                {
                    let ghost pre = emitted@;
                    let nm = exposed_item_name(&items[gi[k]].value);
                    emitted.push(nm);
                    proof {
                        let t = gi@.take(k as int);
                        assert(gi@.take(k + 1) =~= t.push(gi@[k as int]));
                        assert(names_of(items@, t.push(gi@[k as int])) =~= names_of(items@, t).push(nm@));
                        assert(names_view(emitted@) =~= names_view(pre).push(nm@));
                        assert(names_view(emitted@) =~= seen + names_of(items@, gi@.take(k + 1)));
                    }
                    k = k + 1;
                }
                assert(gi@.take(k as int) =~= gi@);
                let ghost before = positions_view(resolved@);
                resolved.push(gi);
                assert(positions_view(resolved@) =~= before.push(gi@));
            }
            g = g + 1;
        }
        (resolved, emitted)
    }

    /// The groups one per line, one level in, after taking back a trailing
    /// space, with the closing parenthesis on a line of its own.
    fn write_boxed_groups(&mut self, items: &Vec<Spanned<ExposedItem>>, groups: &Vec<Vec<usize>>)
        requires
            forall|a: int, k: int|
                0 <= a < groups@.len() && 0 <= k < groups@[a]@.len() ==> #[trigger] groups@[a]@[k] < items@.len(),
        ensures
            final(self).text() == without_trailing_space(old(self).text()) + groups_text(
                items@,
                positions_view(groups@),
                old(self).inner_columns(),
            ) + seq!['\n'] + spaces(old(self).inner_columns()) + seq![')'],
            old(self).same_state(&*final(self)),
    {
        self.take_back_space();
        proof {
            old(self).same_state_keeps_layout(&*self);
        }
        self.indent();
        self.write_exposing_groups(items, groups);
        self.newline_indent();
        self.write_char(')');
        self.dedent();
    }

    /// The items one per line, one level in, after taking back a trailing
    /// space, with the closing parenthesis on a line of its own.
    fn write_boxed_lines(&mut self, items: &Vec<Spanned<ExposedItem>>, which: &Vec<usize>)
        requires
            forall|k: int| 0 <= k < which@.len() ==> which@[k] < items@.len(),
        ensures
            final(self).text() == without_trailing_space(old(self).text()) + groups_text(
                items@,
                singletons(which@),
                old(self).inner_columns(),
            ) + seq!['\n'] + spaces(old(self).inner_columns()) + seq![')'],
            old(self).same_state(&*final(self)),
    {
        self.take_back_space();
        proof {
            old(self).same_state_keeps_layout(&*self);
        }
        self.indent();
        self.write_exposing_lines(items, which);
        self.newline_indent();
        self.write_char(')');
        self.dedent();
    }

    /// One group per line: `( a, b` then `, c, d` lines.
    fn write_exposing_groups(&mut self, items: &Vec<Spanned<ExposedItem>>, groups: &Vec<Vec<usize>>)
        requires
            forall|a: int, k: int|
                0 <= a < groups@.len() && 0 <= k < groups@[a]@.len() ==> #[trigger] groups@[a]@[k] < items@.len(),
        ensures
            old(self).appended(
                &*final(self),
                groups_text(items@, positions_view(groups@), old(self).indent_columns()),
            ),
    {
        let ghost gv = positions_view(groups@);
        let mut a: usize = 0;
        while a < groups.len()
            invariant
                a <= groups@.len(),
                gv == positions_view(groups@),
                forall|b: int, k: int|
                    0 <= b < groups@.len() && 0 <= k < groups@[b]@.len() ==> #[trigger] groups@[b]@[k] < items@.len(),
                old(self).appended(&*self, groups_text(items@, gv.take(a as int), old(self).indent_columns())),
            decreases groups@.len() - a,
        {
            self.newline_indent();
            if a == 0 {
                self.write("( ");
            } else {
                self.write(", ");
            }
            self.write_item_list(items, &groups[a]);
            proof {
                reveal_strlit("( ");
                reveal_strlit(", ");
                let t = gv.take(a + 1);
                assert(t.drop_last() =~= gv.take(a as int));
                assert(t.last() == groups@[a as int]@);
                assert(self.text() =~= old(self).text() + groups_text(items@, t, old(self).indent_columns()));
            }
            a = a + 1;
        }
        assert(gv.take(a as int) =~= gv);
    }

    /// One item per line: `( a` then `, b` lines.
    fn write_exposing_lines(&mut self, items: &Vec<Spanned<ExposedItem>>, which: &Vec<usize>)
        requires
            forall|k: int| 0 <= k < which@.len() ==> which@[k] < items@.len(),
        ensures
            old(self).appended(&*final(self), groups_text(items@, singletons(which@), old(self).indent_columns())),
    {
        let ghost sv = singletons(which@);
        let mut i: usize = 0;
        while i < which.len()
            invariant
                i <= which@.len(),
                sv == singletons(which@),
                forall|k: int| 0 <= k < which@.len() ==> which@[k] < items@.len(),
                old(self).appended(&*self, groups_text(items@, sv.take(i as int), old(self).indent_columns())),
            decreases which@.len() - i,
        {
            self.newline_indent();
            if i == 0 {
                self.write("( ");
            } else {
                self.write(", ");
            }
            self.write_exposed_item(&items[which[i]].value);
            proof {
                reveal_strlit("( ");
                reveal_strlit(", ");
                let t = sv.take(i + 1);
                assert(t.drop_last() =~= sv.take(i as int));
                assert(t.last() == seq![which@[i as int]]);
                assert(item_list_text(items@, seq![which@[i as int]]) == exposed_text(items@[which@[i as int] as int].value));
                assert(self.text() =~= old(self).text() + groups_text(items@, t, old(self).indent_columns()));
            }
            i = i + 1;
        }
        assert(sv.take(i as int) =~= sv);
    }
}

/// The indices `0 .. n`.
pub open spec fn identity(n: nat) -> Seq<usize> {
    Seq::new(n, |k: int| k as usize)
}

/// The indices `0 .. n`.
pub(super) fn all_indices(n: usize) -> (r: Vec<usize>)
    ensures
        r@.len() == n,
        forall|k: int| 0 <= k < n ==> r@[k] == k,
{
    let mut r: Vec<usize> = Vec::new();
    let mut i: usize = 0;
    while i < n
        invariant
            i <= n,
            r@.len() == i,
            forall|k: int| 0 <= k < i ==> r@[k] == k,
        decreases n - i,
    {
        r.push(i);
        i = i + 1;
    }
    r
}

} // verus!
