//! Stable sorting of indices by keys, and the lexicographic orders on
//! strings and module names that the printer sorts by.

use vstd::prelude::*;

verus! {

/// Lexicographic order on character sequences by code point (the order of
/// `str` and `String`).
pub open spec fn char_seq_lt(a: Seq<char>, b: Seq<char>) -> bool
    decreases a.len(),
{
    if a.len() == 0 {
        b.len() > 0
    } else if b.len() == 0 {
        false
    } else if a[0] != b[0] {
        a[0] < b[0]
    } else {
        char_seq_lt(a.drop_first(), b.drop_first())
    }
}

pub proof fn lemma_char_seq_lt_irrefl(a: Seq<char>)
    ensures
        !char_seq_lt(a, a),
    decreases a.len(),
{
    if a.len() > 0 {
        lemma_char_seq_lt_irrefl(a.drop_first());
    }
}

pub proof fn lemma_char_seq_lt_trans(a: Seq<char>, b: Seq<char>, c: Seq<char>)
    requires
        char_seq_lt(a, b),
        char_seq_lt(b, c),
    ensures
        char_seq_lt(a, c),
    decreases a.len(),
{
    if a.len() > 0 && b.len() > 0 && c.len() > 0 && a[0] == b[0] && b[0] == c[0] {
        lemma_char_seq_lt_trans(a.drop_first(), b.drop_first(), c.drop_first());
    }
}

pub proof fn lemma_char_seq_lt_total(a: Seq<char>, b: Seq<char>)
    ensures
        char_seq_lt(a, b) || char_seq_lt(b, a) || a == b,
    decreases a.len(),
{
    if a.len() == 0 && b.len() == 0 {
        assert(a =~= b);
    } else if a.len() > 0 && b.len() > 0 && a[0] == b[0] {
        lemma_char_seq_lt_total(a.drop_first(), b.drop_first());
        if a.drop_first() == b.drop_first() {
            assert forall|i: int| 0 <= i < a.len() implies a[i] == b[i] by {
                if i > 0 {
                    assert(a[i] == a.drop_first()[i - 1]);
                    assert(b[i] == b.drop_first()[i - 1]);
                }
            }
            assert(a.drop_first().len() == a.len() - 1);
            assert(b.drop_first().len() == b.len() - 1);
            assert(a =~= b);
        }
    }
}

/// Lexicographic order on sequences of character sequences, each compared
/// by `char_seq_lt` (the order of `Vec<String>`).
pub open spec fn name_seq_lt(a: Seq<Seq<char>>, b: Seq<Seq<char>>) -> bool
    decreases a.len(),
{
    if a.len() == 0 {
        b.len() > 0
    } else if b.len() == 0 {
        false
    } else if a[0] != b[0] {
        char_seq_lt(a[0], b[0])
    } else {
        name_seq_lt(a.drop_first(), b.drop_first())
    }
}

pub proof fn lemma_name_seq_lt_irrefl(a: Seq<Seq<char>>)
    ensures
        !name_seq_lt(a, a),
    decreases a.len(),
{
    if a.len() > 0 {
        lemma_name_seq_lt_irrefl(a.drop_first());
    }
}

pub proof fn lemma_name_seq_lt_trans(a: Seq<Seq<char>>, b: Seq<Seq<char>>, c: Seq<Seq<char>>)
    requires
        name_seq_lt(a, b),
        name_seq_lt(b, c),
    ensures
        name_seq_lt(a, c),
    decreases a.len(),
{
    if a.len() > 0 && b.len() > 0 && c.len() > 0 {
        if a[0] == b[0] && b[0] == c[0] {
            lemma_name_seq_lt_trans(a.drop_first(), b.drop_first(), c.drop_first());
        } else if a[0] != b[0] && b[0] != c[0] {
            lemma_char_seq_lt_trans(a[0], b[0], c[0]);
            if a[0] == c[0] {
                lemma_char_seq_lt_irrefl(a[0]);
            }
        }
    }
}

pub proof fn lemma_name_seq_lt_total(a: Seq<Seq<char>>, b: Seq<Seq<char>>)
    ensures
        name_seq_lt(a, b) || name_seq_lt(b, a) || a == b,
    decreases a.len(),
{
    if a.len() == 0 && b.len() == 0 {
        assert(a =~= b);
    } else if a.len() > 0 && b.len() > 0 && a[0] == b[0] {
        lemma_name_seq_lt_total(a.drop_first(), b.drop_first());
        if a.drop_first() == b.drop_first() {
            assert forall|i: int| 0 <= i < a.len() implies a[i] == b[i] by {
                if i > 0 {
                    assert(a[i] == a.drop_first()[i - 1]);
                    assert(b[i] == b.drop_first()[i - 1]);
                }
            }
            assert(a.drop_first().len() == a.len() - 1);
            assert(b.drop_first().len() == b.len() - 1);
            assert(a =~= b);
        }
    } else if a.len() > 0 && b.len() > 0 {
        lemma_char_seq_lt_total(a[0], b[0]);
    }
}

/// Whether `a` sorts before `b` as a string.
pub fn chars_less(a: &Vec<char>, b: &Vec<char>) -> (r: bool)
    ensures
        r == char_seq_lt(a@, b@),
{
    let mut i: usize = 0;
    assert(a@.skip(0) =~= a@);
    assert(b@.skip(0) =~= b@);
    while i < a.len() && i < b.len() && a[i] == b[i]
        invariant
            i <= a@.len(),
            i <= b@.len(),
            char_seq_lt(a@, b@) == char_seq_lt(a@.skip(i as int), b@.skip(i as int)),
        decreases a@.len() - i,
    {
        proof {
            assert(a@.skip(i as int).drop_first() =~= a@.skip(i + 1));
            assert(b@.skip(i as int).drop_first() =~= b@.skip(i + 1));
        }
        i = i + 1;
    }
    if i == a.len() {
        i < b.len()
    } else if i == b.len() {
        false
    } else {
        a[i] < b[i]
    }
}

/// The characters of each string of a module name.
pub open spec fn name_view(v: Seq<Vec<char>>) -> Seq<Seq<char>> {
    v.map_values(|s: Vec<char>| s@)
}

/// Whether module name `a` sorts before module name `b`.
pub fn names_less(a: &Vec<Vec<char>>, b: &Vec<Vec<char>>) -> (r: bool)
    ensures
        r == name_seq_lt(name_view(a@), name_view(b@)),
{
    let ghost va = name_view(a@);
    let ghost vb = name_view(b@);
    let mut i: usize = 0;
    assert(va.skip(0) =~= va);
    assert(vb.skip(0) =~= vb);
    while i < a.len() && i < b.len() && crate::text::chars_eq(&a[i], &b[i])
        invariant
            i <= a@.len(),
            i <= b@.len(),
            va == name_view(a@),
            vb == name_view(b@),
            name_seq_lt(va, vb) == name_seq_lt(va.skip(i as int), vb.skip(i as int)),
        decreases a@.len() - i,
    {
        proof {
            assert(va.skip(i as int).drop_first() =~= va.skip(i + 1));
            assert(vb.skip(i as int).drop_first() =~= vb.skip(i + 1));
            assert(va.skip(i as int)[0] == va[i as int]);
        }
        i = i + 1;
    }
    if i == a.len() {
        i < b.len()
    } else if i == b.len() {
        false
    } else {
        proof {
            assert(va.skip(i as int)[0] == va[i as int]);
            assert(vb.skip(i as int)[0] == vb[i as int]);
        }
        chars_less(&a[i], &b[i])
    }
}

/// A key to sort by: a strict order that is total up to keys that neither
/// precedes.
pub trait SortKey: Sized {
    spec fn key_lt(self, other: Self) -> bool;

    proof fn lemma_key_asym(a: Self, b: Self)
        requires
            a.key_lt(b),
        ensures
            !b.key_lt(a),
    ;

    proof fn lemma_key_le_trans(a: Self, b: Self, c: Self)
        requires
            !b.key_lt(a),
            !c.key_lt(b),
        ensures
            !c.key_lt(a),
    ;

    fn is_less(&self, other: &Self) -> (r: bool)
        ensures
            r == self.key_lt(*other),
    ;
}

impl SortKey for usize {
    open spec fn key_lt(self, other: Self) -> bool {
        self < other
    }

    proof fn lemma_key_asym(a: Self, b: Self) {
    }

    proof fn lemma_key_le_trans(a: Self, b: Self, c: Self) {
    }

    fn is_less(&self, other: &Self) -> (r: bool) {
        *self < *other
    }
}

impl SortKey for Vec<char> {
    open spec fn key_lt(self, other: Self) -> bool {
        char_seq_lt(self@, other@)
    }

    proof fn lemma_key_asym(a: Self, b: Self) {
        if char_seq_lt(b@, a@) {
            lemma_char_seq_lt_trans(a@, b@, a@);
            lemma_char_seq_lt_irrefl(a@);
        }
    }

    proof fn lemma_key_le_trans(a: Self, b: Self, c: Self) {
        lemma_char_seq_lt_total(a@, b@);
        if char_seq_lt(c@, a@) && char_seq_lt(a@, b@) {
            lemma_char_seq_lt_trans(c@, a@, b@);
        }
    }

    fn is_less(&self, other: &Self) -> (r: bool) {
        chars_less(self, other)
    }
}

impl SortKey for Vec<Vec<char>> {
    open spec fn key_lt(self, other: Self) -> bool {
        name_seq_lt(name_view(self@), name_view(other@))
    }

    proof fn lemma_key_asym(a: Self, b: Self) {
        if name_seq_lt(name_view(b@), name_view(a@)) {
            lemma_name_seq_lt_trans(name_view(a@), name_view(b@), name_view(a@));
            lemma_name_seq_lt_irrefl(name_view(a@));
        }
    }

    proof fn lemma_key_le_trans(a: Self, b: Self, c: Self) {
        lemma_name_seq_lt_total(name_view(a@), name_view(b@));
        if name_seq_lt(name_view(c@), name_view(a@)) && name_seq_lt(name_view(a@), name_view(b@)) {
            lemma_name_seq_lt_trans(name_view(c@), name_view(a@), name_view(b@));
        }
    }

    fn is_less(&self, other: &Self) -> (r: bool) {
        names_less(self, other)
    }
}

/// `r` lists each index of `keys` once.
pub open spec fn is_index_perm<K>(keys: Seq<K>, r: Seq<usize>) -> bool {
    &&& r.len() == keys.len()
    &&& forall|i: int| 0 <= i < r.len() ==> r[i] < keys.len()
    &&& forall|i: int, j: int| 0 <= i < j < r.len() ==> r[i] != r[j]
}

/// `r` orders the keys so that no later key sorts before an earlier one.
pub open spec fn is_key_sorted<K: SortKey>(keys: Seq<K>, r: Seq<usize>) -> bool {
    forall|i: int, j: int| 0 <= i < j < r.len() ==> !keys[r[j] as int].key_lt(keys[r[i] as int])
}

/// Among keys where neither sorts before the other, `r` keeps the order of
/// the indices.
pub open spec fn is_key_stable<K: SortKey>(keys: Seq<K>, r: Seq<usize>) -> bool {
    forall|i: int, j: int|
        0 <= i < j < r.len() && !keys[r[i] as int].key_lt(keys[r[j] as int]) ==> r[i] < r[j]
}

/// `r` is the stable sort of the indices of `keys` by their keys.
pub open spec fn is_stable_sort<K: SortKey>(keys: Seq<K>, r: Seq<usize>) -> bool {
    &&& is_index_perm(keys, r)
    &&& is_key_sorted(keys, r)
    &&& is_key_stable(keys, r)
}

/// The indices of `keys`, stably sorted by key.
pub fn sort_indices<K: SortKey>(keys: &Vec<K>) -> (r: Vec<usize>)
    ensures
        is_stable_sort(keys@, r@),
{
    let n = keys.len();
    let mut r: Vec<usize> = Vec::new();
    let mut j: usize = 0;
    while j < n
        invariant
            j <= n,
            n == keys@.len(),
            r@.len() == j,
            forall|i: int| 0 <= i < r@.len() ==> r@[i] < j,
            forall|i: int, k: int| 0 <= i < k < r@.len() ==> r@[i] != r@[k],
            is_key_sorted(keys@, r@),
            is_key_stable(keys@, r@),
        decreases n - j,
    {
        let mut pos = r.len();
        while pos > 0 && keys[j].is_less(&keys[r[pos - 1]])
            invariant
                pos <= r@.len(),
                j < n,
                n == keys@.len(),
                forall|i: int| 0 <= i < r@.len() ==> r@[i] < j,
                forall|q: int| pos <= q < r@.len() ==> keys@[j as int].key_lt(keys@[r@[q] as int]),
            decreases pos,
        {
            pos = pos - 1;
        }
        let ghost old_r = r@;
        r.insert(pos, j);
        proof {
            let nr = r@;
            assert(nr == old_r.insert(pos as int, j));
            assert forall|a: int, b: int| 0 <= a < b < nr.len() implies !keys@[nr[b] as int].key_lt(
                keys@[nr[a] as int],
            ) by {
                if a == pos {
                    K::lemma_key_asym(keys@[j as int], keys@[old_r[b - 1] as int]);
                } else if b == pos {
                    let prev = old_r[pos - 1];
                    if a < pos - 1 {
                        K::lemma_key_le_trans(keys@[old_r[a] as int], keys@[prev as int], keys@[j as int]);
                    }
                } else {
                    let oa = if a < pos {
                        a
                    } else {
                        a - 1
                    };
                    let ob = if b < pos {
                        b
                    } else {
                        b - 1
                    };
                    assert(nr[a] == old_r[oa]);
                    assert(nr[b] == old_r[ob]);
                }
            }
            assert forall|a: int, b: int|
                0 <= a < b < nr.len() && !keys@[nr[a] as int].key_lt(keys@[nr[b] as int]) implies nr[a]
                < nr[b] by {
                if a != pos && b != pos {
                    let oa = if a < pos {
                        a
                    } else {
                        a - 1
                    };
                    let ob = if b < pos {
                        b
                    } else {
                        b - 1
                    };
                    assert(nr[a] == old_r[oa]);
                    assert(nr[b] == old_r[ob]);
                }
            }
            assert forall|a: int, b: int| 0 <= a < b < nr.len() implies nr[a] != nr[b] by {
                if a != pos && b != pos {
                    let oa = if a < pos {
                        a
                    } else {
                        a - 1
                    };
                    let ob = if b < pos {
                        b
                    } else {
                        b - 1
                    };
                    assert(nr[a] == old_r[oa]);
                    assert(nr[b] == old_r[ob]);
                } else if a == pos {
                    assert(nr[b] == old_r[b - 1]);
                } else {
                    assert(nr[a] == old_r[a]);
                }
            }
            assert forall|i: int| 0 <= i < nr.len() implies nr[i] < j + 1 by {
                if i < pos {
                    assert(nr[i] == old_r[i]);
                } else if i > pos {
                    assert(nr[i] == old_r[i - 1]);
                }
            }
        }
        j = j + 1;
    }
    r
}

} // verus!
