//! Module-level comment slots.
//!
//! At module scope, comments are written in the gap before each "anchor"
//! (an import or a top-level declaration), with one trailing slot for the
//! comments after the last anchor. In elm-format layout a line comment at
//! the end of an import's line is moved onto that import, so the sorted
//! import block stays together.

use vstd::prelude::*;

use super::decl_emission::slot_views;
use super::import_layout::{import_keys, import_name};
use crate::comment::Comment;
use crate::file::ElmModule;
use crate::import::Import;
use crate::node::Spanned;
use crate::sorting::{is_index_perm, is_stable_sort, name_seq_lt, name_view, sort_indices, SortKey};

verus! {

/// The comments of a module bucketed by the gap they stand in; slots hold
/// indices into the module's comment list.
pub struct CommentSlots {
    /// The comments' indices sorted by source offset.
    pub order: Vec<usize>,
    /// `slots[i]`: the comments in the gap before anchor `i`; the last slot
    /// holds the comments after the last anchor.
    pub slots: Vec<Vec<usize>>,
    pub num_imports: usize,
    pub num_decls: usize,
}

/// The start offsets of the anchors: the imports, then the declarations.
pub open spec fn anchor_starts(m: ElmModule) -> Seq<usize> {
    m.imports@.map_values(|i: Spanned<crate::import::Import>| i.span.start.offset) + m.declarations@.map_values(
        |d: Spanned<crate::declaration::Declaration>| d.span.start.offset,
    )
}

/// The end offsets of the anchors.
pub open spec fn anchor_ends(m: ElmModule) -> Seq<usize> {
    m.imports@.map_values(|i: Spanned<crate::import::Import>| i.span.end.offset) + m.declarations@.map_values(
        |d: Spanned<crate::declaration::Declaration>| d.span.end.offset,
    )
}

/// An offset inside the span of an anchor.
pub open spec fn inside_anchor(m: ElmModule, off: usize) -> bool {
    exists|a: int| 0 <= a < anchor_starts(m).len() && #[trigger] anchor_starts(m)[a] <= off < anchor_ends(m)[a]
}

/// The first anchor from `a` on that starts after `off` (the number of
/// anchors when none does).
pub open spec fn slot_from(starts: Seq<usize>, off: usize, a: int) -> int
    decreases starts.len() - a,
{
    if a >= starts.len() {
        starts.len() as int
    } else if starts[a] > off {
        a
    } else {
        slot_from(starts, off, a + 1)
    }
}

/// The gap a comment at `off` belongs to: before the first anchor that
/// starts after it.
pub open spec fn slot_of(m: ElmModule, off: usize) -> int {
    slot_from(anchor_starts(m), off, 0)
}

/// Whether a comment at `off` is written in a gap (comments inside an
/// anchor belong to it when `skip_internal`).
pub open spec fn kept(m: ElmModule, skip_internal: bool, off: usize) -> bool {
    !(skip_internal && inside_anchor(m, off))
}

/// The start offset of comment `i`.
pub open spec fn comment_offset(m: ElmModule, i: usize) -> usize {
    m.comments@[i as int].span.start.offset
}

/// The comment indices of `order` that go to slot `s`.
pub open spec fn slot_members(m: ElmModule, skip_internal: bool, order: Seq<usize>, s: int) -> Seq<usize> {
    order.filter(
        |i: usize| kept(m, skip_internal, comment_offset(m, i)) && slot_of(m, comment_offset(m, i)) == s,
    )
}

/// Whether comment `i` is kept and falls into slot `s`.
pub open spec fn in_slot(m: ElmModule, skip_internal: bool, s: int) -> spec_fn(usize) -> bool {
    |i: usize| kept(m, skip_internal, comment_offset(m, i)) && slot_of(m, comment_offset(m, i)) == s
}

/// The slots that `build` makes from comments in the order `order`, when
/// no comment comes twice in it, hold no comment twice, in one slot or in
/// two.
pub proof fn lemma_slot_members_distinct(m: ElmModule, skip_internal: bool, order: Seq<usize>, n: nat)
    requires
        order.no_duplicates(),
    ensures
        slots_distinct(Seq::new(n, |s: int| slot_members(m, skip_internal, order, s))),
{
    let ss = Seq::new(n, |s: int| slot_members(m, skip_internal, order, s));
    assert forall|s: int| 0 <= s < n implies ss[s] == order.filter(in_slot(m, skip_internal, s)) by {
        assert(slot_members(m, skip_internal, order, s) =~= order.filter(in_slot(m, skip_internal, s)));
    }
    assert forall|s: int| 0 <= s < ss.len() implies (#[trigger] ss[s]).no_duplicates() by {
        lemma_filter_no_dup(order, in_slot(m, skip_internal, s));
    }
    assert forall|s1: int, s2: int, x: usize|
        0 <= s1 < s2 < ss.len() && #[trigger] ss[s1].contains(x) implies !#[trigger] ss[s2].contains(x) by {
        lemma_filter_has(order, in_slot(m, skip_internal, s1), x);
        lemma_filter_has(order, in_slot(m, skip_internal, s2), x);
    }
}

fn anchor_bounds(module: &ElmModule) -> (r: (Vec<usize>, Vec<usize>))
    ensures
        r.0@ == anchor_starts(*module),
        r.1@ == anchor_ends(*module),
{
    let mut starts: Vec<usize> = Vec::new();
    let mut ends: Vec<usize> = Vec::new();
    let mut i: usize = 0;
    while i < module.imports.len()
        invariant
            i <= module.imports@.len(),
            starts@ == module.imports@.take(i as int).map_values(
                |x: Spanned<crate::import::Import>| x.span.start.offset,
            ),
            ends@ == module.imports@.take(i as int).map_values(
                |x: Spanned<crate::import::Import>| x.span.end.offset,
            ),
        decreases module.imports@.len() - i,
    {
        starts.push(module.imports[i].span.start.offset);
        ends.push(module.imports[i].span.end.offset);
        proof {
            assert(starts@ =~= module.imports@.take(i + 1).map_values(
                |x: Spanned<crate::import::Import>| x.span.start.offset,
            ));
            assert(ends@ =~= module.imports@.take(i + 1).map_values(
                |x: Spanned<crate::import::Import>| x.span.end.offset,
            ));
        }
        i = i + 1;
    }
    assert(module.imports@.take(i as int) =~= module.imports@);
    let ghost si = starts@;
    let ghost ei = ends@;
    let mut k: usize = 0;
    while k < module.declarations.len()
        invariant
            k <= module.declarations@.len(),
            starts@ == si + module.declarations@.take(k as int).map_values(
                |d: Spanned<crate::declaration::Declaration>| d.span.start.offset,
            ),
            ends@ == ei + module.declarations@.take(k as int).map_values(
                |d: Spanned<crate::declaration::Declaration>| d.span.end.offset,
            ),
        decreases module.declarations@.len() - k,
    {
        starts.push(module.declarations[k].span.start.offset);
        ends.push(module.declarations[k].span.end.offset);
        proof {
            assert(starts@ =~= si + module.declarations@.take(k + 1).map_values(
                |d: Spanned<crate::declaration::Declaration>| d.span.start.offset,
            ));
            assert(ends@ =~= ei + module.declarations@.take(k + 1).map_values(
                |d: Spanned<crate::declaration::Declaration>| d.span.end.offset,
            ));
        }
        k = k + 1;
    }
    assert(module.declarations@.take(k as int) =~= module.declarations@);
    (starts, ends)
}

/// The gap of a comment at `off`: the first anchor starting after it.
fn find_slot(starts: &Vec<usize>, off: usize) -> (r: usize)
    ensures
        r == slot_from(starts@, off, 0),
{
    let mut a: usize = 0;
    while a < starts.len()
        invariant
            a <= starts@.len(),
            slot_from(starts@, off, 0) == slot_from(starts@, off, a as int),
        decreases starts@.len() - a,
    {
        if starts[a] > off {
            return a;
        }
        a = a + 1;
    }
    a
}

/// Whether `off` lies inside an anchor.
fn in_some_anchor(starts: &Vec<usize>, ends: &Vec<usize>, off: usize) -> (r: bool)
    requires
        starts@.len() == ends@.len(),
    ensures
        r == exists|a: int| 0 <= a < starts@.len() && #[trigger] starts@[a] <= off < ends@[a],
{
    let mut a: usize = 0;
    while a < starts.len()
        invariant
            a <= starts@.len(),
            starts@.len() == ends@.len(),
            forall|b: int| 0 <= b < a ==> !(#[trigger] starts@[b] <= off < ends@[b]),
        decreases starts@.len() - a,
    {
        if starts[a] <= off && off < ends[a] {
            return true;
        }
        a = a + 1;
    }
    false
}

/// A line comment that starts on the line where import `j` ends.
pub open spec fn trails_import(module: ElmModule, j: int, c: usize) -> bool {
    module.comments@[c as int].value is Line && module.comments@[c as int].span.start.line
        == module.imports@[j].span.end.line
}

/// No import sorts after import `j` when the imports are stably sorted by
/// module name: none has a greater name, and none with the same name comes
/// later.
pub open spec fn last_import(module: ElmModule, j: int) -> bool {
    let names = module.imports@.map_values(|im: Spanned<Import>| import_name(im.value));
    forall|q: int|
        0 <= q < names.len() && q != j ==> !name_seq_lt(names[j], #[trigger] names[q]) && (name_seq_lt(
            names[q],
            names[j],
        ) || q < j)
}

/// A comment of slot `s` that the hoist moves up one slot: a line comment
/// on the line where import `s - 1` ends, that import not sorting last.
pub open spec fn moves_up(module: ElmModule, s: int, x: usize) -> bool {
    1 <= s && trails_import(module, s - 1, x) && !last_import(module, s - 1)
}

/// Whether a comment is a line comment on the line where import `j` ends.
pub open spec fn trails_at(module: ElmModule, j: int) -> spec_fn(usize) -> bool {
    |x: usize| trails_import(module, j, x)
}

/// Whether a comment is not a line comment on the line where import `j`
/// ends.
pub open spec fn stays_at(module: ElmModule, j: int) -> spec_fn(usize) -> bool {
    |x: usize| !trails_import(module, j, x)
}

/// Slot `s` receives comments from the slot after it: that slot belongs
/// to an import and holds a comment that moves up.
pub open spec fn receives(module: ElmModule, slots: Seq<Seq<usize>>, s: int) -> bool {
    0 <= s && s + 1 <= module.imports@.len() && exists|x: usize|
        #[trigger] slots[s + 1].contains(x) && moves_up(module, s + 1, x)
}

/// No comment is in two slots.
pub open spec fn slots_disjoint(slots: Seq<Seq<usize>>) -> bool {
    forall|s1: int, s2: int, x: usize|
        0 <= s1 < s2 < slots.len() && #[trigger] slots[s1].contains(x) ==> !#[trigger] slots[s2].contains(x)
}

/// No comment is in two slots or twice in one.
pub open spec fn slots_distinct(slots: Seq<Seq<usize>>) -> bool {
    slots_disjoint(slots) && forall|s: int| 0 <= s < slots.len() ==> (#[trigger] slots[s]).no_duplicates()
}

/// Filtering keeps a sequence free of repetitions.
proof fn lemma_filter_no_dup(xs: Seq<usize>, p: spec_fn(usize) -> bool)
    requires
        xs.no_duplicates(),
    ensures
        xs.filter(p).no_duplicates(),
    decreases xs.len(),
{
    reveal(Seq::filter);
    if xs.len() > 0 {
        let d = xs.drop_last();
        assert(d.no_duplicates());
        lemma_filter_no_dup(d, p);
        if p(xs.last()) {
            if d.filter(p).contains(xs.last()) {
                d.lemma_filter_contains_rev(p, xs.last());
                let k = choose|k: int| 0 <= k < d.len() && d[k] == xs.last();
                assert(xs[k] == xs[xs.len() - 1]);
            }
        }
    }
}

/// What the hoist leaves in a slot that receives nothing has no
/// repetitions when the slot had none.
proof fn lemma_hoisted_no_dup(module: ElmModule, slot: Seq<usize>, s: int)
    requires
        slot.no_duplicates(),
        0 <= s,
    ensures
        hoisted_slot(module, slot, s).no_duplicates(),
{
    if s > 0 && module.imports@.len() >= 2 {
        let a = slot.filter(stays_at(module, s - 1));
        let b = if last_import(module, s - 1) {
            slot.filter(trails_at(module, s - 1))
        } else {
            Seq::empty()
        };
        lemma_filter_no_dup(slot, stays_at(module, s - 1));
        lemma_filter_no_dup(slot, trails_at(module, s - 1));
        assert forall|i: int, j: int| 0 <= i < a.len() && 0 <= j < b.len() implies a[i] != b[j] by {
            slot.lemma_filter_pred(stays_at(module, s - 1), i);
            if last_import(module, s - 1) {
                slot.lemma_filter_pred(trails_at(module, s - 1), j);
            }
        }
        vstd::seq_lib::lemma_no_dup_in_concat(a, b);
    }
}

/// Some slot holds the comment `x`.
pub open spec fn held(slots: Seq<Seq<usize>>, x: usize) -> bool {
    exists|s: int| 0 <= s < slots.len() && #[trigger] slots[s].contains(x)
}

/// What the hoist leaves in slot `s` (of an import, or the first) when it
/// receives nothing: with two or more imports, the comments that do not
/// trail import `s - 1`, followed, when that import sorts last, by those
/// that do; otherwise the slot as it was.
pub open spec fn hoisted_slot(module: ElmModule, slot: Seq<usize>, s: int) -> Seq<usize> {
    if s == 0 || module.imports@.len() < 2 {
        slot
    } else {
        slot.filter(stays_at(module, s - 1)) + if last_import(module, s - 1) {
            slot.filter(trails_at(module, s - 1))
        } else {
            Seq::empty()
        }
    }
}

/// Filtering one more element.
proof fn lemma_filter_take_step(xs: Seq<usize>, p: spec_fn(usize) -> bool, q: int)
    requires
        0 <= q < xs.len(),
    ensures
        xs.take(q + 1).filter(p) == if p(xs[q]) {
            xs.take(q).filter(p).push(xs[q])
        } else {
            xs.take(q).filter(p)
        },
{
    reveal(Seq::filter);
    assert(xs.take(q + 1).drop_last() =~= xs.take(q));
    assert(xs.take(q + 1).last() == xs[q]);
}

/// A filtered sequence holds exactly the elements that pass.
proof fn lemma_filter_has(xs: Seq<usize>, p: spec_fn(usize) -> bool, x: usize)
    ensures
        xs.filter(p).contains(x) == (xs.contains(x) && p(x)),
{
    if xs.filter(p).contains(x) {
        xs.lemma_filter_contains_rev(p, x);
        let k = choose|k: int| 0 <= k < xs.filter(p).len() && xs.filter(p)[k] == x;
        xs.lemma_filter_pred(p, k);
    }
    if xs.contains(x) && p(x) {
        let k = choose|k: int| 0 <= k < xs.len() && xs[k] == x;
        xs.lemma_filter_contains(p, k);
    }
}

/// What slot `s` holds after the hoist when it receives nothing.
proof fn lemma_hoisted_has(module: ElmModule, slot: Seq<usize>, s: int, x: usize)
    requires
        0 <= s,
    ensures
        hoisted_slot(module, slot, s).contains(x) == (slot.contains(x) && !moves_up(module, s, x))
            || (module.imports@.len() < 2 && slot.contains(x)),
{
    if s > 0 && module.imports@.len() >= 2 {
        lemma_filter_has(slot, stays_at(module, s - 1), x);
        lemma_filter_has(slot, trails_at(module, s - 1), x);
        let a = slot.filter(stays_at(module, s - 1));
        let b = if last_import(module, s - 1) {
            slot.filter(trails_at(module, s - 1))
        } else {
            Seq::empty()
        };
        lemma_contains_add(a, b, x);
    }
}

/// The comments at the positions `cs` come in order of their start offset.
pub open spec fn offset_sorted(module: ElmModule, cs: Seq<usize>) -> bool {
    forall|a: int, b: int|
        #![trigger cs[a], cs[b]]
        0 <= a < b < cs.len() ==> module.comments@[cs[a] as int].span.start.offset
            <= module.comments@[cs[b] as int].span.start.offset
}

/// An arrangement of the indices of `keys` lists every index.
proof fn lemma_index_perm_covers<K>(keys: Seq<K>, r: Seq<usize>, x: usize)
    requires
        is_index_perm(keys, r),
        x < keys.len(),
    ensures
        r.contains(x),
{
    let n = keys.len() as int;
    let ri = r.map_values(|v: usize| v as int);
    assert(ri.no_duplicates()) by {
        assert forall|i: int, j: int| 0 <= i < ri.len() && 0 <= j < ri.len() && i != j implies ri[i] != ri[j] by {
            if i < j {
                assert(r[i] != r[j]);
            } else {
                assert(r[j] != r[i]);
            }
        }
    }
    ri.unique_seq_to_set();
    vstd::set_lib::lemma_int_range(0, n);
    let range = vstd::set_lib::set_int_range(0, n);
    assert(ri.to_set().subset_of(range)) by {
        assert forall|v: int| ri.to_set().contains(v) implies range.contains(v) by {
            let i = choose|i: int| 0 <= i < ri.len() && ri[i] == v;
            assert(r[i] < n);
        }
    }
    vstd::set_lib::lemma_len_subset(ri.to_set(), range);
    vstd::set_lib::lemma_subset_equality(ri.to_set(), range);
    assert(range.contains(x as int));
    assert(ri.to_set().contains(x as int));
    let i = choose|i: int| 0 <= i < ri.len() && ri[i] == x as int;
    assert(r[i] == x);
}

impl CommentSlots {
    /// Every slot entry is the index of one of `n` comments.
    pub open spec fn valid(&self, n: nat) -> bool {
        forall|s: int, k: int|
            0 <= s < self.slots@.len() && 0 <= k < self.slots@[s]@.len() ==> #[trigger] self.slots@[s]@[k]
                < n
    }

    /// Bucket each comment into the gap before the first anchor that starts
    /// after it; with `skip_internal`, comments inside an anchor are left
    /// out.
    pub fn build(module: &ElmModule, skip_internal: bool) -> (r: Self)
        requires
            module.imports@.len() + module.declarations@.len() < usize::MAX,
        ensures
            r.num_imports == module.imports@.len(),
            r.num_decls == module.declarations@.len(),
            r.slots@.len() == r.num_imports + r.num_decls + 1,
            is_stable_sort(
                Seq::new(module.comments@.len(), |i: int| module.comments@[i].span.start.offset),
                r.order@,
            ),
            forall|s: int|
                0 <= s < r.slots@.len() ==> (#[trigger] r.slots@[s])@ == slot_members(
                    *module,
                    skip_internal,
                    r.order@,
                    s,
                ),
            r.valid(module.comments@.len()),
            slots_distinct(slot_views(r)),
    {
        let num_imports = module.imports.len();
        let num_decls = module.declarations.len();
        let total = num_imports + num_decls;
        let mut offsets: Vec<usize> = Vec::new();
        let mut i: usize = 0;
        while i < module.comments.len()
            invariant
                i <= module.comments@.len(),
                offsets@.len() == i,
                forall|k: int| 0 <= k < i ==> offsets@[k] == module.comments@[k].span.start.offset,
            decreases module.comments@.len() - i,
        {
            offsets.push(module.comments[i].span.start.offset);
            i = i + 1;
        }
        let ghost keys = Seq::new(module.comments@.len(), |i: int| module.comments@[i].span.start.offset);
        assert(offsets@ =~= keys);
        let order = sort_indices(&offsets);
        let (starts, ends) = anchor_bounds(module);
        // The slot of each comment in sorted order, or `total + 1` when it
        // is left out.
        let mut dest: Vec<usize> = Vec::new();
        let mut k: usize = 0;
        while k < order.len()
            invariant
                k <= order@.len(),
                dest@.len() == k,
                is_stable_sort(keys, order@),
                starts@ == anchor_starts(*module),
                ends@ == anchor_ends(*module),
                offsets@ == keys,
                keys.len() == module.comments@.len(),
                forall|i: int| 0 <= i < keys.len() ==> keys[i] == module.comments@[i].span.start.offset,
                total == starts@.len(),
                total < usize::MAX,
                forall|q: int|
                    0 <= q < k ==> (#[trigger] dest@[q]) == if kept(
                        *module,
                        skip_internal,
                        comment_offset(*module, order@[q]),
                    ) {
                        slot_of(*module, comment_offset(*module, order@[q])) as usize
                    } else {
                        (total + 1) as usize
                    },
            decreases order@.len() - k,
        {
            let off = offsets[order[k]];
            proof {
                lemma_slot_bounds(starts@, off, 0);
            }
            let ghost c = order@[k as int];
            assert(c < keys.len());
            assert(off == comment_offset(*module, c));
            let skip = skip_internal && in_some_anchor(&starts, &ends, off);
            assert(skip == !kept(*module, skip_internal, off));
            if skip {
                dest.push(total + 1);
            } else {
                let s = find_slot(&starts, off);
                assert(s as int == slot_of(*module, off));
                dest.push(s);
            }
            assert(dest@[k as int] == if kept(*module, skip_internal, comment_offset(*module, order@[k as int])) {
                slot_of(*module, comment_offset(*module, order@[k as int])) as usize
            } else {
                (total + 1) as usize
            });
            k = k + 1;
        }
        let mut slots: Vec<Vec<usize>> = Vec::new();
        let mut s: usize = 0;
        while s <= total
            invariant
                s <= total + 1,
                total < usize::MAX,
                total == starts@.len(),
                starts@ == anchor_starts(*module),
                dest@.len() == order@.len(),
                slots@.len() == s,
                forall|q: int|
                    0 <= q < dest@.len() ==> (#[trigger] dest@[q]) == if kept(
                        *module,
                        skip_internal,
                        comment_offset(*module, order@[q]),
                    ) {
                        slot_of(*module, comment_offset(*module, order@[q])) as usize
                    } else {
                        (total + 1) as usize
                    },
                forall|t: int|
                    0 <= t < s ==> (#[trigger] slots@[t])@ == slot_members(*module, skip_internal, order@, t),
                is_stable_sort(keys, order@),
                keys.len() == module.comments@.len(),
                forall|t: int, k: int|
                    0 <= t < slots@.len() && 0 <= k < slots@[t]@.len() ==> #[trigger] slots@[t]@[k]
                        < module.comments@.len(),
            decreases total + 1 - s,
        {
            let mut bucket: Vec<usize> = Vec::new();
            let mut q: usize = 0;
            while q < order.len()
                invariant
                    q <= order@.len(),
                    s <= total,
                    total < usize::MAX,
                    dest@.len() == order@.len(),
                    forall|p: int|
                        0 <= p < dest@.len() ==> (#[trigger] dest@[p]) == if kept(
                            *module,
                            skip_internal,
                            comment_offset(*module, order@[p]),
                        ) {
                            slot_of(*module, comment_offset(*module, order@[p])) as usize
                        } else {
                            (total + 1) as usize
                        },
                    starts@ == anchor_starts(*module),
                    total == starts@.len(),
                    bucket@ == slot_members(*module, skip_internal, order@.take(q as int), s as int),
                    is_stable_sort(keys, order@),
                    keys.len() == module.comments@.len(),
                    forall|k: int| 0 <= k < bucket@.len() ==> #[trigger] bucket@[k] < module.comments@.len(),
                decreases order@.len() - q,
            {
                proof {
                    reveal(Seq::filter);
                    let p = order@[q as int];
                    let t1 = order@.take(q + 1);
                    assert(t1.drop_last() =~= order@.take(q as int));
                    assert(t1.last() == p);
                    lemma_slot_bounds(anchor_starts(*module), comment_offset(*module, p), 0);
                    let pv = kept(*module, skip_internal, comment_offset(*module, p)) && slot_of(
                        *module,
                        comment_offset(*module, p),
                    ) == s as int;
                    assert(slot_members(*module, skip_internal, t1, s as int) == if pv {
                        slot_members(*module, skip_internal, order@.take(q as int), s as int).push(p)
                    } else {
                        slot_members(*module, skip_internal, order@.take(q as int), s as int)
                    });
                    let so = slot_of(*module, comment_offset(*module, p));
                    assert(0 <= so <= total);
                    assert((so as usize) as int == so);
                    assert((dest@[q as int] == s) == pv);
                }
                if dest[q] == s {
                    bucket.push(order[q]);
                }
                q = q + 1;
            }
            assert(order@.take(order@.len() as int) =~= order@);
            slots.push(bucket);
            s = s + 1;
        }
        let r = CommentSlots { order, slots, num_imports, num_decls };
        proof {
            let o = r.order@;
            assert(o.no_duplicates()) by {
                assert forall|i: int, j: int| 0 <= i < o.len() && 0 <= j < o.len() && i != j implies o[i] != o[j] by {
                    if i < j {
                    } else {
                    }
                }
            }
            lemma_slot_members_distinct(*module, skip_internal, o, r.slots@.len());
            assert(slot_views(r) =~= Seq::new(
                r.slots@.len(),
                |s: int| slot_members(*module, skip_internal, o, s),
            ));
        }
        r
    }

    /// Move each line comment that sits at the end of an import's line onto
    /// that import (from the slot after it to its own slot), as elm-format
    /// does, unless the import is the last one in sorted order; a slot that
    /// receives comments is re-sorted by offset.
    pub fn hoist_import_trailing_comments(&mut self, module: &ElmModule)
        requires
            old(self).num_imports == module.imports@.len(),
            old(self).slots@.len() > old(self).num_imports,
            old(self).valid(module.comments@.len()),
        ensures
            final(self).num_imports == old(self).num_imports,
            final(self).num_decls == old(self).num_decls,
            final(self).order@ == old(self).order@,
            final(self).slots@.len() == old(self).slots@.len(),
            final(self).valid(module.comments@.len()),
            forall|s: int, x: usize|
                0 <= s < final(self).slots@.len() && #[trigger] final(self).slots@[s]@.contains(x) ==> old(
                    self,
                ).slots@[s]@.contains(x) || (s + 1 < old(self).slots@.len() && old(self).slots@[s + 1]@.contains(x)),
            forall|i: int, x: usize|
                1 <= i <= old(self).num_imports && #[trigger] old(self).slots@[i]@.contains(x) && trails_import(
                    *module,
                    i - 1,
                    x,
                ) && !last_import(*module, i - 1) ==> final(self).slots@[i - 1]@.contains(x),
            forall|s: int, x: usize|
                0 <= s <= old(self).num_imports && #[trigger] old(self).slots@[s]@.contains(x) && !moves_up(*module, s, x)
                    ==> final(self).slots@[s]@.contains(x),
            forall|s: int|
                old(self).num_imports < s < old(self).slots@.len() ==> (#[trigger] final(self).slots@[s])@ == old(
                    self,
                ).slots@[s]@,
            old(self).num_imports < 2 ==> final(self).slots@ == old(self).slots@,
            forall|s: int, x: usize|
                0 <= s < old(self).num_imports && #[trigger] old(self).slots@[s + 1]@.contains(x) && moves_up(
                    *module,
                    s + 1,
                    x,
                ) ==> offset_sorted(*module, final(self).slots@[s]@),
            forall|s: int|
                0 <= s <= old(self).num_imports && !receives(*module, slot_views(*old(self)), s)
                    ==> (#[trigger] final(self).slots@[s])@ == hoisted_slot(*module, old(self).slots@[s]@, s),
            forall|s: int, x: usize|
                0 <= s < old(self).num_imports && receives(*module, slot_views(*old(self)), s)
                    ==> (#[trigger] final(self).slots@[s]@.contains(x) == ((old(self).slots@[s]@.contains(x)
                    && !moves_up(*module, s, x)) || (old(self).slots@[s + 1]@.contains(x) && moves_up(
                    *module,
                    s + 1,
                    x,
                )))),
            forall|s: int, x: usize|
                1 <= s <= old(self).num_imports && old(self).slots@[s]@.contains(x) && moves_up(*module, s, x) && !(s + 1
                    < old(self).slots@.len() && old(self).slots@[s + 1]@.contains(x))
                    ==> !(#[trigger] final(self).slots@[s]@.contains(x)),
            forall|x: usize| #[trigger] held(slot_views(*old(self)), x) == held(slot_views(*final(self)), x),
            slots_disjoint(slot_views(*old(self))) ==> slots_disjoint(slot_views(*final(self))),
            slots_distinct(slot_views(*old(self))) ==> slots_distinct(slot_views(*final(self))),
    {
        let n = self.num_imports;
        let ghost ov = slot_views(*self);
        if n < 2 {
            proof {
                if n == 1 {
                    assert(last_import(*module, 0));
                    assert(!receives(*module, ov, 0));
                }
            }
            return;
        }
        let keys = import_keys(&module.imports);
        let sorted = sort_indices(&keys);
        let mut sort_pos: Vec<usize> = Vec::new();
        let mut k: usize = 0;
        while k < n
            invariant
                k <= n,
                sort_pos@.len() == k,
                forall|j: int| 0 <= j < k ==> sort_pos@[j] == 0,
            decreases n - k,
        {
            sort_pos.push(0);
            k = k + 1;
        }
        let mut p: usize = 0;
        while p < sorted.len()
            invariant
                sort_pos@.len() == n,
                sorted@.len() == n,
                is_stable_sort(keys@, sorted@),
                keys@.len() == n,
                p <= n,
                forall|q: int| 0 <= q < p ==> sort_pos@[#[trigger] sorted@[q] as int] == q,
                forall|j: int|
                    0 <= j < n && (forall|q: int| 0 <= q < p ==> #[trigger] sorted@[q] != j) ==> sort_pos@[j] == 0,
                forall|j: int| 0 <= j < n ==> sort_pos@[j] < n,
            decreases sorted@.len() - p,
        {
            sort_pos.set(sorted[p], p);
            proof {
                assert forall|q: int| 0 <= q < p + 1 implies sort_pos@[#[trigger] sorted@[q] as int] == q by {
                    if q < p {
                        assert(sorted@[q] != sorted@[p as int]);
                    }
                }
            }
            p = p + 1;
        }
        proof {
            assert forall|j: int| 0 <= j < n && sort_pos@[j] == n - 1 implies last_import(*module, j) by {
                let names = module.imports@.map_values(|im: Spanned<Import>| import_name(im.value));
                if forall|q: int| 0 <= q < n ==> #[trigger] sorted@[q] != j {
                    assert(sort_pos@[j] == 0);
                }
                let pj = choose|q: int| 0 <= q < n && #[trigger] sorted@[q] == j;
                assert(sort_pos@[sorted@[pj] as int] == pj);
                assert(pj == n - 1);
                assert forall|q: int| 0 <= q < names.len() && q != j implies !name_seq_lt(names[j], #[trigger] names[q])
                    && (name_seq_lt(names[q], names[j]) || q < j) by {
                    lemma_index_perm_covers(keys@, sorted@, q as usize);
                    let pq = choose|t: int| 0 <= t < sorted@.len() && sorted@[t] == q as usize;
                    assert(pq != pj);
                    assert(pq < pj);
                    assert(name_view(keys@[q]@) == import_name(module.imports@[q].value));
                    assert(name_view(keys@[j]@) == import_name(module.imports@[j].value));
                    assert(names[q] == name_view(keys@[q]@));
                    assert(names[j] == name_view(keys@[j]@));
                    assert(sorted@[pq] == q && sorted@[pj] == j);
                    assert(!keys@[sorted@[pj] as int].key_lt(keys@[sorted@[pq] as int]));
                    assert(!keys@[sorted@[pq] as int].key_lt(keys@[sorted@[pj] as int]) ==> sorted@[pq] < sorted@[pj]);
                }
            }
            assert forall|j: int| 0 <= j < n && last_import(*module, j) implies sort_pos@[j] == n - 1 by {
                let names = module.imports@.map_values(|im: Spanned<Import>| import_name(im.value));
                lemma_index_perm_covers(keys@, sorted@, j as usize);
                let pj = choose|t: int| 0 <= t < sorted@.len() && sorted@[t] == j as usize;
                assert(sort_pos@[sorted@[pj] as int] == pj);
                if pj != n - 1 {
                    let q = sorted@[n - 1] as int;
                    assert(q != j);
                    assert(names[q] == name_view(keys@[q]@));
                    assert(names[j] == name_view(keys@[j]@));
                    assert(name_view(keys@[q]@) == import_name(module.imports@[q].value));
                    assert(name_view(keys@[j]@) == import_name(module.imports@[j].value));
                    assert(!keys@[sorted@[n - 1] as int].key_lt(keys@[sorted@[pj] as int]));
                    assert(!keys@[sorted@[pj] as int].key_lt(keys@[sorted@[n - 1] as int]) ==> sorted@[pj] < sorted@[n
                        - 1]);
                    assert(!name_seq_lt(names[j], names[q]) && (name_seq_lt(names[q], names[j]) || q < j));
                }
            }
        }
        let ghost orig = self.slots@;
        let total_slots = self.slots.len();
        let mut i: usize = 1;
        while i <= n
            invariant
                1 <= i <= n + 1,
                n < total_slots,
                n == self.num_imports,
                n == module.imports@.len(),
                n >= 2,
                sort_pos@.len() == n,
                self.num_imports == old(self).num_imports,
                self.num_decls == old(self).num_decls,
                self.order@ == old(self).order@,
                orig == old(self).slots@,
                self.slots@.len() == orig.len(),
                orig.len() > n,
                self.valid(module.comments@.len()),
                forall|s: int| i <= s < orig.len() ==> (#[trigger] self.slots@[s])@ == orig[s]@,
                forall|s: int, x: usize|
                    0 <= s < self.slots@.len() && #[trigger] self.slots@[s]@.contains(x) ==> orig[s]@.contains(x) || (
                    s + 1 < orig.len() && orig[s + 1]@.contains(x)),
                forall|j: int| 0 <= j < n && sort_pos@[j] == n - 1 ==> last_import(*module, j),
                forall|j: int| 0 <= j < n ==> sort_pos@[j] < n,
                forall|i2: int, x: usize|
                    1 <= i2 < i && #[trigger] orig[i2]@.contains(x) && trails_import(*module, i2 - 1, x)
                        && !last_import(*module, i2 - 1) ==> self.slots@[i2 - 1]@.contains(x),
                forall|j: int| 0 <= j < n && last_import(*module, j) ==> sort_pos@[j] == n - 1,
                forall|s: int, x: usize|
                    0 <= s < i && #[trigger] orig[s]@.contains(x) && !moves_up(*module, s, x) ==> self.slots@[s]@.contains(
                        x,
                    ),
                forall|s: int, x: usize|
                    0 <= s < i - 1 && #[trigger] orig[s + 1]@.contains(x) && moves_up(*module, s + 1, x)
                        ==> offset_sorted(*module, self.slots@[s]@),
                ov == slot_views(*old(self)),
                forall|s: int|
                    0 <= s < i && (s == i - 1 || !receives(*module, ov, s)) ==> (#[trigger] self.slots@[s])@
                        == hoisted_slot(*module, orig[s]@, s),
                forall|s: int, x: usize|
                    0 <= s < i - 1 && receives(*module, ov, s) ==> (#[trigger] self.slots@[s]@.contains(x) == ((
                    orig[s]@.contains(x) && !moves_up(*module, s, x)) || (orig[s + 1]@.contains(x) && moves_up(
                        *module,
                        s + 1,
                        x,
                    )))),
                slots_distinct(ov) ==> forall|s: int|
                    0 <= s < i - 1 && receives(*module, ov, s) ==> (#[trigger] self.slots@[s])@.no_duplicates(),
            decreases n + 1 - i,
        {
            let ghost start_slots = self.slots@;
            let ghost mut recv = false;
            proof {
                assert(ov[i as int] == orig[i as int]@);
                assert(ov[i - 1] == orig[i - 1]@);
            }
            if self.slots[i].len() > 0 {
                let prev_end_line = module.imports[i - 1].span.end.line;
                let mut trailing: Vec<usize> = Vec::new();
                let mut keep: Vec<usize> = Vec::new();
                let mut q: usize = 0;
                while q < self.slots[i].len()
                    invariant
                        i <= n,
                        self.slots@.len() == orig.len(),
                        orig.len() > n,
                        self.slots@[i as int]@ == orig[i as int]@,
                        self.valid(module.comments@.len()),
                        forall|k: int| 0 <= k < trailing@.len() ==> #[trigger] trailing@[k] < module.comments@.len(),
                        forall|k: int| 0 <= k < keep@.len() ==> #[trigger] keep@[k] < module.comments@.len(),
                        forall|x: usize| #[trigger] trailing@.contains(x) ==> orig[i as int]@.contains(x),
                        forall|x: usize| #[trigger] keep@.contains(x) ==> orig[i as int]@.contains(x),
                        1 <= i,
                        q <= self.slots@[i as int]@.len(),
                        n == module.imports@.len(),
                        prev_end_line == module.imports@[i - 1].span.end.line,
                        forall|q2: int|
                            0 <= q2 < q && trails_import(*module, i - 1, #[trigger] self.slots@[i as int]@[q2])
                                ==> trailing@.contains(self.slots@[i as int]@[q2]),
                        forall|q2: int|
                            0 <= q2 < q && !trails_import(*module, i - 1, #[trigger] self.slots@[i as int]@[q2])
                                ==> keep@.contains(self.slots@[i as int]@[q2]),
                        keep@ == orig[i as int]@.take(q as int).filter(stays_at(*module, i - 1)),
                        trailing@ == orig[i as int]@.take(q as int).filter(trails_at(*module, i - 1)),
                    decreases self.slots@[i as int]@.len() - q,
                {
                    let c = self.slots[i][q];
                    proof {
                        assert(self.slots@[i as int]@[q as int] == c);
                    }
                    let is_trailing = match module.comments[c].value {
                        Comment::Line(_) => module.comments[c].span.start.line == prev_end_line,
                        _ => false,
                    };
                    proof {
                        assert(orig[i as int]@.contains(c));
                    }
                    let ghost t0 = trailing@;
                    let ghost k0 = keep@;
                    if is_trailing {
                        trailing.push(c);
                    } else {
                        keep.push(c);
                    }
                    proof {
                        assert forall|x: usize| #[trigger] trailing@.contains(x) implies orig[i as int]@.contains(x) by {
                            lemma_contains_push(t0, c, x);
                        }
                        assert forall|x: usize| #[trigger] keep@.contains(x) implies orig[i as int]@.contains(x) by {
                            lemma_contains_push(k0, c, x);
                        }
                        assert(is_trailing == trails_import(*module, i - 1, c));
                        lemma_filter_take_step(orig[i as int]@, stays_at(*module, i - 1), q as int);
                        lemma_filter_take_step(orig[i as int]@, trails_at(*module, i - 1), q as int);
                        assert(orig[i as int]@[q as int] == c);
                        assert forall|q2: int|
                            0 <= q2 < q + 1 && trails_import(*module, i - 1, #[trigger] self.slots@[i as int]@[q2])
                                implies trailing@.contains(self.slots@[i as int]@[q2]) by {
                            let y = self.slots@[i as int]@[q2];
                            lemma_contains_push(t0, c, y);
                            if q2 < q {
                                assert(t0.contains(y));
                            } else {
                                assert(trailing@.last() == c);
                                assert(trailing@[trailing@.len() - 1] == y);
                            }
                        }
                        assert forall|q2: int|
                            0 <= q2 < q + 1 && !trails_import(*module, i - 1, #[trigger] self.slots@[i as int]@[q2])
                                implies keep@.contains(self.slots@[i as int]@[q2]) by {
                            let y = self.slots@[i as int]@[q2];
                            lemma_contains_push(k0, c, y);
                            if q2 < q {
                                assert(k0.contains(y));
                            } else {
                                assert(keep@.last() == c);
                                assert(keep@[keep@.len() - 1] == y);
                            }
                        }
                    }
                    q = q + 1;
                }
                proof {
                    assert(orig[i as int]@.take(q as int) =~= orig[i as int]@);
                    assert(keep@ == orig[i as int]@.filter(stays_at(*module, i - 1)));
                    assert(trailing@ == orig[i as int]@.filter(trails_at(*module, i - 1)));
                    assert forall|x: usize| #[trigger] orig[i as int]@.contains(x) && trails_import(*module, i - 1, x)
                        implies trailing@.contains(x) by {
                        let q2 = choose|q2: int| 0 <= q2 < orig[i as int]@.len() && orig[i as int]@[q2] == x;
                        assert(self.slots@[i as int]@[q2] == x);
                    }
                    assert forall|x: usize| #[trigger] orig[i as int]@.contains(x) && !trails_import(*module, i - 1, x)
                        implies keep@.contains(x) by {
                        let q2 = choose|q2: int| 0 <= q2 < orig[i as int]@.len() && orig[i as int]@[q2] == x;
                        assert(self.slots@[i as int]@[q2] == x);
                    }
                }
                if trailing.len() > 0 {
                    let followed_by_import = sort_pos[i - 1] < n - 1;
                    if !followed_by_import {
                        let ghost pre = self.slots@;
                        let ghost kv = keep@;
                        let ghost tv = trailing@;
                        let mut both = keep;
                        let mut t = trailing;
                        both.append(&mut t);
                        self.slots.set(i, both);
                        proof {
                            assert forall|s: int, x: usize|
                                0 <= s < self.slots@.len() && #[trigger] self.slots@[s]@.contains(x) implies orig[s]@.contains(x) || (
                                s + 1 < orig.len() && orig[s + 1]@.contains(x)) by {
                                if s == i {
                                    lemma_contains_add(kv, tv, x);
                                } else {
                                    assert(self.slots@[s] == pre[s]);
                                }
                            }
                            assert forall|x: usize| #[trigger] orig[i as int]@.contains(x) implies self.slots@[i as int]@.contains(
                                x,
                            ) by {
                                lemma_contains_add(kv, tv, x);
                                if trails_import(*module, i - 1, x) {
                                    assert(tv.contains(x));
                                } else {
                                    assert(kv.contains(x));
                                }
                            }
                            assert(self.slots@[i - 1] == start_slots[i - 1]);
                            assert(last_import(*module, i - 1));
                            assert(self.slots@[i as int]@ =~= hoisted_slot(*module, orig[i as int]@, i as int));
                            assert(!receives(*module, ov, i - 1));
                        }
                    } else {
                        let ghost pre0 = self.slots@;
                        let ghost trailing_view = trailing@;
                        self.slots.set(i, keep);
                        proof {
                            assert forall|s: int, x: usize|
                                0 <= s < self.slots@.len() && #[trigger] self.slots@[s]@.contains(x) implies orig[s]@.contains(x) || (
                                s + 1 < orig.len() && orig[s + 1]@.contains(x)) by {
                                if s != i {
                                    assert(self.slots@[s] == pre0[s]);
                                }
                            }
                        }
                        let mut merged = copy_indices(&self.slots[i - 1]);
                        let mut t = trailing;
                        merged.append(&mut t);
                        let mut offsets: Vec<usize> = Vec::new();
                        let mut r: usize = 0;
                        while r < merged.len()
                            invariant
                                r <= merged@.len(),
                                offsets@.len() == r,
                                forall|k: int| 0 <= k < merged@.len() ==> #[trigger] merged@[k] < module.comments@.len(),
                                forall|k: int|
                                    0 <= k < r ==> #[trigger] offsets@[k] == module.comments@[merged@[k] as int].span.start.offset,
                            decreases merged@.len() - r,
                        {
                            offsets.push(module.comments[merged[r]].span.start.offset);
                            r = r + 1;
                        }
                        let ord = sort_indices(&offsets);
                        let mut resorted: Vec<usize> = Vec::new();
                        let mut r2: usize = 0;
                        while r2 < ord.len()
                            invariant
                                r2 <= ord@.len(),
                                is_stable_sort(offsets@, ord@),
                                offsets@.len() == merged@.len(),
                                forall|k: int| 0 <= k < merged@.len() ==> #[trigger] merged@[k] < module.comments@.len(),
                                forall|k: int| 0 <= k < resorted@.len() ==> #[trigger] resorted@[k] < module.comments@.len(),
                                forall|x: usize| #[trigger] resorted@.contains(x) ==> merged@.contains(x),
                                resorted@.len() == r2,
                                r2 <= ord@.len(),
                                forall|k: int| 0 <= k < r2 ==> #[trigger] resorted@[k] == merged@[ord@[k] as int],
                                forall|k: int|
                                    0 <= k < merged@.len() ==> #[trigger] offsets@[k] == module.comments@[merged@[k] as int].span.start.offset,
                            decreases ord@.len() - r2,
                        {
                            let idx = merged[ord[r2]];
                            proof {
                                assert(merged@[ord@[r2 as int] as int] == idx);
                                assert(merged@.contains(idx));
                            }
                            let ghost r0 = resorted@;
                            resorted.push(idx);
                            proof {
                                assert forall|x: usize| #[trigger] resorted@.contains(x) implies merged@.contains(x) by {
                                    lemma_contains_push(r0, idx, x);
                                }
                            }
                            r2 = r2 + 1;
                        }
                        proof {
                            assert forall|x: usize| #[trigger] merged@.contains(x) implies resorted@.contains(x) by {
                                let m = choose|m: int| 0 <= m < merged@.len() && merged@[m] == x;
                                lemma_index_perm_covers(offsets@, ord@, m as usize);
                                let t = choose|t: int| 0 <= t < ord@.len() && ord@[t] == m as usize;
                                assert(resorted@[t] == x);
                            }
                            assert forall|x: usize| #[trigger] trailing_view.contains(x) implies resorted@.contains(x) by {
                                let m0 = choose|m: int| 0 <= m < trailing_view.len() && trailing_view[m] == x;
                                let m = pre0[i - 1]@.len() + m0;
                                assert(merged@[m] == x);
                                assert(merged@.contains(x));
                            }
                            let ghost prev_slot = pre0[i - 1]@;
                            assert forall|x: usize| #[trigger] prev_slot.contains(x) implies resorted@.contains(x) by {
                                let m = choose|m: int| 0 <= m < prev_slot.len() && prev_slot[m] == x;
                                assert(merged@[m] == x);
                                assert(merged@.contains(x));
                            }
                            assert forall|a: int, b: int|
                                #![trigger resorted@[a], resorted@[b]]
                                0 <= a < b < resorted@.len() implies module.comments@[resorted@[a] as int].span.start.offset
                                    <= module.comments@[resorted@[b] as int].span.start.offset by {
                                assert(!offsets@[ord@[b] as int].key_lt(offsets@[ord@[a] as int]));
                            }
                            assert(offset_sorted(*module, resorted@));
                        }
                        let ghost pre = self.slots@;
                        self.slots.set(i - 1, resorted);
                        proof {
                            assert forall|s: int, x: usize|
                                0 <= s < self.slots@.len() && #[trigger] self.slots@[s]@.contains(x) implies orig[s]@.contains(x) || (
                                s + 1 < orig.len() && orig[s + 1]@.contains(x)) by {
                                if s == i - 1 {
                                    lemma_contains_add(pre[s]@, trailing_view, x);
                                    assert(pre[s]@.contains(x) ==> orig[s]@.contains(x) || orig[s + 1]@.contains(x));
                                } else {
                                    assert(self.slots@[s] == pre[s]);
                                }
                            }
                            assert(pre0[i - 1] == start_slots[i - 1]);
                            assert forall|x: usize| #[trigger] start_slots[i - 1]@.contains(x) implies self.slots@[i
                                - 1]@.contains(x) by {
                                assert(pre0[i - 1]@.contains(x));
                            }
                            assert(!last_import(*module, i - 1));
                            assert forall|x: usize|
                                #[trigger] orig[i as int]@.contains(x) && !moves_up(*module, i as int, x) implies self.slots@[i
                                    as int]@.contains(x) by {
                                assert(!trails_import(*module, i - 1, x));
                            }
                            assert(self.slots@[i as int]@ =~= hoisted_slot(*module, orig[i as int]@, i as int));
                            let w = trailing_view[0];
                            assert(trailing_view.contains(w));
                            lemma_filter_has(orig[i as int]@, trails_at(*module, i - 1), w);
                            assert(moves_up(*module, i as int, w));
                            assert(ov[i as int].contains(w));
                            assert(ov[(i - 1) + 1].contains(w) && moves_up(*module, (i - 1) + 1, w));
                            assert(receives(*module, ov, i - 1));
                            assert(start_slots[i - 1]@ == hoisted_slot(*module, orig[i - 1]@, i - 1));
                            assert forall|x: usize|
                                #[trigger] self.slots@[i - 1]@.contains(x) == ((orig[i - 1]@.contains(x) && !moves_up(
                                    *module,
                                    i - 1,
                                    x,
                                )) || (orig[i as int]@.contains(x) && moves_up(*module, i as int, x))) by {
                                lemma_hoisted_has(*module, orig[i - 1]@, i - 1, x);
                                lemma_filter_has(orig[i as int]@, trails_at(*module, i - 1), x);
                                lemma_contains_add(pre0[i - 1]@, trailing_view, x);
                                assert(merged@ == pre0[i - 1]@ + trailing_view);
                                if merged@.contains(x) {
                                    assert(resorted@.contains(x));
                                }
                            }
                        }
                        proof {
                            if slots_distinct(ov) {
                                assert(ov[i - 1].no_duplicates());
                                assert(ov[i as int].no_duplicates());
                                lemma_hoisted_no_dup(*module, orig[i - 1]@, i - 1);
                                lemma_filter_no_dup(orig[i as int]@, trails_at(*module, i - 1));
                                let a = pre0[i - 1]@;
                                assert forall|p: int, q: int| 0 <= p < a.len() && 0 <= q < trailing_view.len() implies a[p]
                                    != trailing_view[q] by {
                                    let y = trailing_view[q];
                                    assert(trailing_view.contains(y));
                                    lemma_filter_has(orig[i as int]@, trails_at(*module, i - 1), y);
                                    if a[p] == y {
                                        assert(a.contains(y));
                                        lemma_hoisted_has(*module, orig[i - 1]@, i - 1, y);
                                        assert(ov[i - 1].contains(y));
                                        assert(ov[(i - 1) + 1].contains(y));
                                    }
                                }
                                vstd::seq_lib::lemma_no_dup_in_concat(a, trailing_view);
                                assert(merged@.no_duplicates());
                                assert forall|p: int, q: int| 0 <= p < q < resorted@.len() implies resorted@[p] != resorted@[q] by {
                                    assert(resorted@[p] == merged@[ord@[p] as int]);
                                    assert(resorted@[q] == merged@[ord@[q] as int]);
                                    assert(ord@[p] != ord@[q]);
                                }
                                assert(self.slots@[i - 1]@ == resorted@);
                                assert(self.slots@[i - 1]@.no_duplicates());
                            }
                            recv = true;
                        }
                    }
                } else {
                    let ghost pre = self.slots@;
                    let ghost tv = trailing@;
                    self.slots.set(i, keep);
                    proof {
                        assert forall|s: int, x: usize|
                            0 <= s < self.slots@.len() && #[trigger] self.slots@[s]@.contains(x) implies orig[s]@.contains(x) || (
                            s + 1 < orig.len() && orig[s + 1]@.contains(x)) by {
                            if s != i {
                                assert(self.slots@[s] == pre[s]);
                            }
                        }
                        assert(tv.len() == 0);
                        assert(self.slots@[i as int]@ =~= hoisted_slot(*module, orig[i as int]@, i as int));
                        assert forall|x: usize| #[trigger] ov[i as int].contains(x) implies !moves_up(*module, i as int, x) by {
                            lemma_filter_has(orig[i as int]@, trails_at(*module, i - 1), x);
                        }
                        assert(!receives(*module, ov, i - 1));
                        assert forall|x: usize| #[trigger] orig[i as int]@.contains(x) implies self.slots@[i as int]@.contains(
                            x,
                        ) by {
                            if trails_import(*module, i - 1, x) {
                                assert(tv.contains(x));
                            }
                        }
                        assert(self.slots@[i - 1] == start_slots[i - 1]);
                    }
                }
            }
            proof {
                if orig[i as int]@.len() == 0 {
                    reveal(Seq::filter);
                    assert(self.slots@[i as int]@ =~= hoisted_slot(*module, orig[i as int]@, i as int));
                    assert(!receives(*module, ov, i - 1));
                }
                assert(self.slots@[i as int]@ == hoisted_slot(*module, orig[i as int]@, i as int));
                assert(recv == receives(*module, ov, i - 1));
                assert(!recv ==> self.slots@[i - 1] == start_slots[i - 1]);
                assert forall|s: int|
                    0 <= s < i + 1 && (s == i || !receives(*module, ov, s)) implies (#[trigger] self.slots@[s])@
                        == hoisted_slot(*module, orig[s]@, s) by {
                    if s < i {
                        assert(self.slots@[s] == start_slots[s]);
                    }
                }
                assert forall|s: int, x: usize|
                    0 <= s < i && receives(*module, ov, s) implies (#[trigger] self.slots@[s]@.contains(x) == ((
                    orig[s]@.contains(x) && !moves_up(*module, s, x)) || (orig[s + 1]@.contains(x) && moves_up(
                        *module,
                        s + 1,
                        x,
                    )))) by {
                    if s < i - 1 {
                        assert(self.slots@[s] == start_slots[s]);
                    }
                }
                assert forall|s: int| 0 <= s < i - 1 implies self.slots@[s] == start_slots[s] by {}
                if slots_distinct(ov) {
                    assert forall|s: int|
                        0 <= s < i && receives(*module, ov, s) implies (#[trigger] self.slots@[s])@.no_duplicates() by {
                        if s < i - 1 {
                            assert(self.slots@[s] == start_slots[s]);
                        }
                    }
                }
                assert forall|i2: int, x: usize|
                    1 <= i2 < i + 1 && #[trigger] orig[i2]@.contains(x) && trails_import(*module, i2 - 1, x)
                        && !last_import(*module, i2 - 1) implies self.slots@[i2 - 1]@.contains(x) by {
                    if i2 < i {
                        assert(start_slots[i2 - 1]@.contains(x));
                    } else {
                        assert(start_slots[i as int]@ == orig[i as int]@);
                    }
                }
                assert forall|s: int, x: usize|
                    0 <= s < i + 1 && #[trigger] orig[s]@.contains(x) && !moves_up(*module, s, x) implies self.slots@[s]@.contains(
                        x,
                    ) by {
                    if s < i - 1 {
                        assert(start_slots[s]@.contains(x));
                    } else if s == i - 1 {
                        assert(start_slots[s]@.contains(x));
                    } else {
                        assert(start_slots[i as int]@ == orig[i as int]@);
                    }
                }
                assert forall|s: int, x: usize|
                    0 <= s < i && #[trigger] orig[s + 1]@.contains(x) && moves_up(*module, s + 1, x) implies offset_sorted(
                        *module,
                        self.slots@[s]@,
                    ) by {
                    if s < i - 1 {
                        assert(offset_sorted(*module, start_slots[s]@));
                    } else {
                        assert(start_slots[i as int]@ == orig[i as int]@);
                    }
                }
            }
            i = i + 1;
        }
        proof {
            assert forall|s: int, x: usize|
                1 <= s <= n && orig[s]@.contains(x) && moves_up(*module, s, x) && !(s + 1 < orig.len()
                    && orig[s + 1]@.contains(x)) implies !(#[trigger] self.slots@[s]@.contains(x)) by {
                if receives(*module, ov, s) {
                    assert(ov[s] == orig[s]@);
                    assert(ov[s + 1] == orig[s + 1]@);
                } else {
                    lemma_hoisted_has(*module, orig[s]@, s, x);
                }
            }
            let fv = slot_views(*self);
            assert forall|s: int, x: usize|
                0 <= s < fv.len() && #[trigger] fv[s].contains(x) implies (ov[s].contains(x) && !(1 <= s <= n
                    && moves_up(*module, s, x))) || (s + 1 < ov.len() && s < n && ov[s + 1].contains(x) && moves_up(
                    *module,
                    s + 1,
                    x,
                )) by {
                assert(fv[s] == self.slots@[s]@);
                assert(ov[s] == orig[s]@);
                if s + 1 < ov.len() {
                    assert(ov[s + 1] == orig[s + 1]@);
                }
                if s <= n {
                    if receives(*module, ov, s) {
                    } else {
                        lemma_hoisted_has(*module, orig[s]@, s, x);
                    }
                }
            }
            if slots_distinct(ov) {
                assert forall|s: int| 0 <= s < fv.len() implies (#[trigger] fv[s]).no_duplicates() by {
                    assert(fv[s] == self.slots@[s]@);
                    assert(ov[s] == orig[s]@);
                    assert(ov[s].no_duplicates());
                    if s <= n && !receives(*module, ov, s) {
                        lemma_hoisted_no_dup(*module, orig[s]@, s);
                    }
                }
            }
            if slots_disjoint(ov) {
                assert forall|s1: int, s2: int, x: usize|
                    0 <= s1 < s2 < fv.len() && #[trigger] fv[s1].contains(x) implies !#[trigger] fv[s2].contains(x) by {
                    if fv[s2].contains(x) {
                        if ov[s1].contains(x) && !(1 <= s1 <= n && moves_up(*module, s1, x)) {
                            if ov[s2].contains(x) {
                            } else {
                                assert(ov[s2 + 1].contains(x));
                            }
                        } else {
                            assert(ov[s1 + 1].contains(x));
                            if ov[s2].contains(x) && !(1 <= s2 <= n && moves_up(*module, s2, x)) {
                                assert(s1 + 1 == s2);
                            } else {
                                assert(ov[s2 + 1].contains(x));
                            }
                        }
                    }
                }
            }
            assert forall|x: usize| #[trigger] held(ov, x) == held(fv, x) by {
                if held(ov, x) {
                    let s = choose|s: int| 0 <= s < ov.len() && #[trigger] ov[s].contains(x);
                    assert(ov[s] == orig[s]@);
                    if s > n {
                        assert(self.slots@[s]@.contains(x));
                        assert(fv[s].contains(x));
                    } else if moves_up(*module, s, x) {
                        assert(self.slots@[s - 1]@.contains(x));
                        assert(fv[s - 1].contains(x));
                    } else {
                        assert(self.slots@[s]@.contains(x));
                        assert(fv[s].contains(x));
                    }
                }
                if held(fv, x) {
                    let s = choose|s: int| 0 <= s < fv.len() && #[trigger] fv[s].contains(x);
                    assert(fv[s] == self.slots@[s]@);
                    if orig[s]@.contains(x) {
                        assert(ov[s].contains(x));
                    } else {
                        assert(orig[s + 1]@.contains(x));
                        assert(ov[s + 1].contains(x));
                    }
                }
            }
        }
    }

    /// The index of the trailing slot.
    pub fn trailing_slot(&self) -> (r: usize)
        requires
            self.num_imports + self.num_decls <= usize::MAX,
        ensures
            r == self.num_imports + self.num_decls,
            self.slots@.len() == self.num_imports + self.num_decls + 1 ==> r == self.slots@.len() - 1,
    {
        self.num_imports + self.num_decls
    }
}

proof fn lemma_slot_bounds(starts: Seq<usize>, off: usize, a: int)
    requires
        0 <= a <= starts.len(),
    ensures
        a <= slot_from(starts, off, a) <= starts.len(),
    decreases starts.len() - a,
{
    if a < starts.len() && starts[a] <= off {
        lemma_slot_bounds(starts, off, a + 1);
    }
}

/// A copy of a list of indices.
fn copy_indices(v: &Vec<usize>) -> (r: Vec<usize>)
    ensures
        r@ == v@,
{
    let mut r: Vec<usize> = Vec::new();
    let mut i: usize = 0;
    while i < v.len()
        invariant
            i <= v@.len(),
            r@ == v@.take(i as int),
        decreases v@.len() - i,
    {
        r.push(v[i]);
        assert(r@ =~= v@.take(i + 1));
        i = i + 1;
    }
    assert(v@.take(i as int) =~= v@);
    r
}

proof fn lemma_contains_push(s: Seq<usize>, c: usize, x: usize)
    ensures
        s.push(c).contains(x) == (s.contains(x) || x == c),
{
    if s.push(c).contains(x) {
        let k = choose|k: int| 0 <= k < s.push(c).len() && s.push(c)[k] == x;
        if k < s.len() {
            assert(s[k] == x);
        }
    }
    if s.contains(x) {
        let k = choose|k: int| 0 <= k < s.len() && s[k] == x;
        assert(s.push(c)[k] == x);
    }
    if x == c {
        assert(s.push(c)[s.len() as int] == x);
    }
}

proof fn lemma_contains_add(a: Seq<usize>, b: Seq<usize>, x: usize)
    ensures
        (a + b).contains(x) == (a.contains(x) || b.contains(x)),
{
    if (a + b).contains(x) {
        let k = choose|k: int| 0 <= k < (a + b).len() && (a + b)[k] == x;
        if k < a.len() {
            assert(a[k] == x);
        } else {
            assert(b[k - a.len()] == x);
        }
    }
    if a.contains(x) {
        let k = choose|k: int| 0 <= k < a.len() && a[k] == x;
        assert((a + b)[k] == x);
    }
    if b.contains(x) {
        let k = choose|k: int| 0 <= k < b.len() && b[k] == x;
        assert((a + b)[a.len() + k] == x);
    }
}

} // verus!
