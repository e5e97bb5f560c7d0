//! The order and grouping of imports in elm-format layout: sorted by
//! module name, with consecutive imports of the same module merged.

use vstd::prelude::*;

use crate::import::Import;
use crate::node::Spanned;
use crate::sorting::{
    is_stable_sort, lemma_name_seq_lt_irrefl, lemma_name_seq_lt_total, name_seq_lt, name_view,
    names_less, sort_indices, SortKey,
};
use crate::text::chars_of;

verus! {

/// One group of the import plan: the indices of imports of one module, in
/// sorted order.
pub struct ImportGroup {
    pub src_indices: Vec<usize>,
}

/// The module name of each import, as character sequences.
pub open spec fn import_name(i: Import) -> Seq<Seq<char>> {
    i.module_name.value@.map_values(|s: String| s@)
}

/// `order` lists each import once, sorted by module name; imports of the
/// same module keep their source order.
pub open spec fn sorted_by_module_name(imports: Seq<Spanned<Import>>, order: Seq<usize>) -> bool {
    &&& order.len() == imports.len()
    &&& forall|i: int| 0 <= i < order.len() ==> order[i] < imports.len()
    &&& forall|i: int, j: int| 0 <= i < j < order.len() ==> order[i] != order[j]
    &&& forall|i: int, j: int|
        0 <= i < j < order.len() ==> !name_seq_lt(
            import_name(imports[order[j] as int].value),
            import_name(imports[order[i] as int].value),
        )
    &&& forall|i: int, j: int|
        0 <= i < j < order.len() && !name_seq_lt(
            import_name(imports[order[i] as int].value),
            import_name(imports[order[j] as int].value),
        ) ==> order[i] < order[j]
}

/// The groups' indices, one after another.
pub open spec fn flatten_groups(gs: Seq<Seq<usize>>) -> Seq<usize>
    decreases gs.len(),
{
    if gs.len() == 0 {
        Seq::empty()
    } else {
        flatten_groups(gs.drop_last()) + gs.last()
    }
}

/// The groups split `order` into maximal runs of imports of the same
/// module.
pub open spec fn is_grouping(imports: Seq<Spanned<Import>>, order: Seq<usize>, gs: Seq<Seq<usize>>) -> bool {
    &&& flatten_groups(gs) == order
    &&& forall|g: int| 0 <= g < gs.len() ==> #[trigger] gs[g].len() > 0
    &&& forall|g: int, k: int|
        0 <= g < gs.len() && 0 <= k < gs[g].len() ==> import_name(imports[#[trigger] gs[g][k] as int].value)
            == import_name(imports[gs[g][0] as int].value)
    &&& forall|g: int|
        0 <= g < gs.len() - 1 ==> import_name(imports[#[trigger] gs[g][0] as int].value) != import_name(
            imports[gs[g + 1][0] as int].value,
        )
}

/// No two imports name the same module.
pub open spec fn distinct_modules(imports: Seq<Spanned<Import>>) -> bool {
    forall|i: int, j: int|
        0 <= i < j < imports.len() ==> import_name(#[trigger] imports[i].value) != import_name(
            #[trigger] imports[j].value,
        )
}

/// Where group `g` starts in the flattened groups.
pub open spec fn group_offset(gs: Seq<Seq<usize>>, g: int) -> int {
    flatten_groups(gs.take(g)).len() as int
}

proof fn lemma_flatten_index(gs: Seq<Seq<usize>>, g: int, k: int)
    requires
        0 <= g < gs.len(),
        0 <= k < gs[g].len(),
    ensures
        group_offset(gs, g) + gs[g].len() <= flatten_groups(gs).len(),
        0 <= group_offset(gs, g),
        flatten_groups(gs)[group_offset(gs, g) + k] == gs[g][k],
    decreases gs.len(),
{
    let d = gs.drop_last();
    if g == gs.len() - 1 {
        assert(gs.take(g) =~= d);
    } else {
        assert(d.take(g) =~= gs.take(g));
        lemma_flatten_index(d, g, k);
    }
}

/// With no two imports of the same module, every group holds one import.
pub proof fn lemma_groups_single(imports: Seq<Spanned<Import>>, order: Seq<usize>, gs: Seq<Seq<usize>>, g: int)
    requires
        distinct_modules(imports),
        sorted_by_module_name(imports, order),
        is_grouping(imports, order, gs),
        0 <= g < gs.len(),
    ensures
        gs[g].len() == 1,
{
    assert(gs[g].len() > 0);
    if gs[g].len() > 1 {
        lemma_flatten_index(gs, g, 0);
        lemma_flatten_index(gs, g, 1);
        let o = group_offset(gs, g);
        assert(order[o] == gs[g][0]);
        assert(order[o + 1] == gs[g][1]);
        assert(order[o] != order[o + 1]);
        assert(import_name(imports[gs[g][1] as int].value) == import_name(imports[gs[g][0] as int].value));
        let a = gs[g][0] as int;
        let b = gs[g][1] as int;
        if a < b {
            assert(import_name(imports[a].value) != import_name(imports[b].value));
        } else {
            assert(import_name(imports[b].value) != import_name(imports[a].value));
        }
    }
}

/// Groups of one import each flatten to their single imports.
pub proof fn lemma_flatten_singletons(gs: Seq<Seq<usize>>)
    requires
        forall|g: int| 0 <= g < gs.len() ==> (#[trigger] gs[g]).len() == 1,
    ensures
        flatten_groups(gs).len() == gs.len(),
        forall|g: int| 0 <= g < gs.len() ==> flatten_groups(gs)[g] == (#[trigger] gs[g])[0],
    decreases gs.len(),
{
    if gs.len() > 0 {
        lemma_flatten_singletons(gs.drop_last());
        assert(gs.last().len() == 1);
        assert forall|g: int| 0 <= g < gs.len() implies flatten_groups(gs)[g] == (#[trigger] gs[g])[0] by {
            if g < gs.len() - 1 {
                assert(gs.drop_last()[g] == gs[g]);
            }
        }
    }
}

/// The module name of an import as a sort key.
pub(super) fn name_key(name: &Vec<String>) -> (r: Vec<Vec<char>>)
    ensures
        name_view(r@) == name@.map_values(|s: String| s@),
{
    let mut r: Vec<Vec<char>> = Vec::new();
    let mut i: usize = 0;
    while i < name.len()
        invariant
            i <= name@.len(),
            r@.len() == i,
            forall|k: int| 0 <= k < i ==> (#[trigger] r@[k])@ == name@[k]@,
        decreases name@.len() - i,
    {
        r.push(chars_of(name[i].as_str()));
        i = i + 1;
    }
    assert(name_view(r@) =~= name@.map_values(|s: String| s@));
    r
}

/// The module names of the imports as sort keys.
pub fn import_keys(imports: &Vec<Spanned<Import>>) -> (keys: Vec<Vec<Vec<char>>>)
    ensures
        keys@.len() == imports@.len(),
        forall|i: int| 0 <= i < keys@.len() ==> name_view(#[trigger] keys@[i]@) == import_name(imports@[i].value),
{
    let mut keys: Vec<Vec<Vec<char>>> = Vec::new();
    let mut i: usize = 0;
    while i < imports.len()
        invariant
            i <= imports@.len(),
            keys@.len() == i,
            forall|k: int| 0 <= k < i ==> name_view(#[trigger] keys@[k]@) == import_name(imports@[k].value),
        decreases imports@.len() - i,
    {
        keys.push(name_key(&imports[i].value.module_name.value));
        i = i + 1;
    }
    keys
}

/// Whether two module-name keys are the same name.
pub(super) fn same_name(a: &Vec<Vec<char>>, b: &Vec<Vec<char>>) -> (r: bool)
    ensures
        r == (name_view(a@) == name_view(b@)),
{
    proof {
        lemma_name_seq_lt_total(name_view(a@), name_view(b@));
        lemma_name_seq_lt_irrefl(name_view(a@));
    }
    !names_less(a, b) && !names_less(b, a)
}

/// The indices of the imports sorted by module name (stably), split into
/// groups of the same module.
pub fn build_import_plan(imports: &Vec<Spanned<Import>>) -> (groups: Vec<ImportGroup>)
    ensures
        ({
            let gs = groups@.map_values(|g: ImportGroup| g.src_indices@);
            &&& sorted_by_module_name(imports@, flatten_groups(gs))
            &&& is_grouping(imports@, flatten_groups(gs), gs)
        }),
        forall|g: int, k: int|
            0 <= g < groups@.len() && 0 <= k < groups@[g].src_indices@.len() ==> #[trigger] groups@[g].src_indices@[k]
                < imports@.len(),
{
    let keys = import_keys(imports);
    let sorted = sort_indices(&keys);
    let n = sorted.len();
    let mut groups: Vec<ImportGroup> = Vec::new();
    let mut i: usize = 0;
    while i < n
        invariant
            i <= n,
            n == sorted@.len(),
            is_stable_sort(keys@, sorted@),
            keys@.len() == imports@.len(),
            forall|k: int| 0 <= k < keys@.len() ==> name_view(#[trigger] keys@[k]@) == import_name(imports@[k].value),
            flatten_groups(groups@.map_values(|g: ImportGroup| g.src_indices@)) == sorted@.take(i as int),
            forall|g: int| 0 <= g < groups@.len() ==> #[trigger] groups@[g].src_indices@.len() > 0,
            forall|g: int, k: int|
                0 <= g < groups@.len() && 0 <= k < groups@[g].src_indices@.len() ==> import_name(
                    imports@[#[trigger] groups@[g].src_indices@[k] as int].value,
                ) == import_name(imports@[groups@[g].src_indices@[0] as int].value),
            forall|g: int|
                0 <= g < groups@.len() - 1 ==> import_name(imports@[#[trigger] groups@[g].src_indices@[0] as int].value)
                    != import_name(imports@[groups@[g + 1].src_indices@[0] as int].value),
            forall|g: int, k: int|
                0 <= g < groups@.len() && 0 <= k < groups@[g].src_indices@.len() ==> #[trigger] groups@[g].src_indices@[k]
                    < imports@.len(),
            groups@.len() > 0 && i < n ==> import_name(
                imports@[groups@[groups@.len() - 1].src_indices@[0] as int].value,
            ) != import_name(imports@[sorted@[i as int] as int].value),
        decreases n - i,
    {
        let first = sorted[i];
        let mut group: Vec<usize> = Vec::new();
        group.push(first);
        let mut group_end = i + 1;
        while group_end < n && same_name(&keys[sorted[group_end]], &keys[first])
            invariant
                i < group_end <= n,
                n == sorted@.len(),
                is_stable_sort(keys@, sorted@),
                keys@.len() == imports@.len(),
                first == sorted@[i as int],
                group@ == sorted@.subrange(i as int, group_end as int),
                forall|k: int| 0 <= k < group@.len() ==> #[trigger] group@[k] < imports@.len(),
                forall|k: int| 0 <= k < keys@.len() ==> name_view(#[trigger] keys@[k]@) == import_name(imports@[k].value),
                forall|k: int| 0 <= k < group@.len() ==> import_name(imports@[group@[k] as int].value) == import_name(
                    imports@[first as int].value,
                ),
            decreases n - group_end,
        {
            group.push(sorted[group_end]);
            assert(group@ =~= sorted@.subrange(i as int, group_end + 1));
            group_end = group_end + 1;
        }
        let ghost old_groups = groups@;
        groups.push(ImportGroup { src_indices: group });
        proof {
            let gs = groups@.map_values(|g: ImportGroup| g.src_indices@);
            assert(gs.drop_last() =~= old_groups.map_values(|g: ImportGroup| g.src_indices@));
            assert(sorted@.take(group_end as int) =~= sorted@.take(i as int) + sorted@.subrange(
                i as int,
                group_end as int,
            ));
            if group_end < n {
                assert(import_name(imports@[sorted@[group_end as int] as int].value) != import_name(
                    imports@[first as int].value,
                ));
            }
        }
        i = group_end;
    }
    proof {
        let gs = groups@.map_values(|g: ImportGroup| g.src_indices@);
        assert(sorted@.take(n as int) =~= sorted@);
        assert(flatten_groups(gs) == sorted@);
        assert forall|a: int, b: int| 0 <= a < b < sorted@.len() implies !name_seq_lt(
            import_name(imports@[sorted@[b] as int].value),
            import_name(imports@[sorted@[a] as int].value),
        ) by {
            assert(!keys@[sorted@[b] as int].key_lt(keys@[sorted@[a] as int]));
        }
        assert forall|a: int, b: int|
            0 <= a < b < sorted@.len() && !name_seq_lt(
                import_name(imports@[sorted@[a] as int].value),
                import_name(imports@[sorted@[b] as int].value),
            ) implies sorted@[a] < sorted@[b] by {
            assert(!keys@[sorted@[a] as int].key_lt(keys@[sorted@[b] as int]));
        }
    }
    groups
}

} // verus!
