//! Stable sorting: the order in which the entries of a vector come when they
//! are sorted by a key and equal keys keep their places.

use crate::text;
use vstd::prelude::*;

verus! {

/// A key that entries are sorted by.
pub trait Rank: Sized {
    /// `self` comes strictly before `other`.
    spec fn under(&self, other: &Self) -> bool;

    /// Of two keys at most one comes first.
    proof fn asymmetric(a: &Self, b: &Self)
        ensures
            !(a.under(b) && b.under(a)),
    ;

    /// What lies between two keys comes after the first or before the second.
    proof fn between(a: &Self, b: &Self, c: &Self)
        ensures
            a.under(c) ==> a.under(b) || b.under(c),
    ;

    /// Whether `self` comes strictly before `other`.
    fn is_under(&self, other: &Self) -> (r: bool)
        ensures
            r == self.under(other),
    ;
}

/// The places `0..n`, each once.
pub open spec fn is_arrangement(places: Seq<usize>, n: int) -> bool {
    &&& places.len() == n
    &&& forall|p: int| 0 <= p < places.len() ==> #[trigger] places[p] < n
    &&& forall|p: int, q: int|
        0 <= p < q < places.len() ==> #[trigger] places[p] != #[trigger] places[q]
}

/// The entry at `i` comes before the one at `j`: by its key, or by its place
/// where neither key comes first.
pub open spec fn comes_first<K: Rank>(keys: Seq<K>, i: int, j: int) -> bool {
    keys[i].under(&keys[j]) || (!keys[j].under(&keys[i]) && i < j)
}

/// `places` lists the places of `keys` in sorted order, equal keys in the
/// order in which they stand.
pub open spec fn is_stable_order<K: Rank>(keys: Seq<K>, places: Seq<usize>) -> bool {
    &&& is_arrangement(places, keys.len() as int)
    &&& forall|p: int, q: int|
        0 <= p < q < places.len() ==> comes_first(
            keys,
            #[trigger] places[p] as int,
            #[trigger] places[q] as int,
        )
}

proof fn lemma_comes_first_trans<K: Rank>(keys: Seq<K>, i: int, j: int, k: int)
    requires
        comes_first(keys, i, j),
        comes_first(keys, j, k),
    ensures
        comes_first(keys, i, k),
{
    K::asymmetric(&keys[i], &keys[j]);
    K::asymmetric(&keys[j], &keys[k]);
    K::asymmetric(&keys[i], &keys[k]);
    K::between(&keys[i], &keys[k], &keys[j]);
    K::between(&keys[j], &keys[i], &keys[k]);
    K::between(&keys[k], &keys[j], &keys[i]);
    K::between(&keys[k], &keys[i], &keys[j]);
    K::between(&keys[j], &keys[k], &keys[i]);
    K::between(&keys[i], &keys[j], &keys[k]);
}

/// An arrangement names every place.
pub proof fn lemma_arrangement_full(places: Seq<usize>, n: int, i: usize)
    requires
        is_arrangement(places, n),
        i < n,
    ensures
        places.contains(i),
{
    let wanted = vstd::set_lib::set_int_range(0, n);
    vstd::set_lib::lemma_int_range(0, n);
    let named = places.map_values(|x: usize| x as int);
    assert(named.no_duplicates());
    named.unique_seq_to_set();
    let held = named.to_set();
    assert(held.subset_of(wanted)) by {
        assert forall|x: int| held.contains(x) implies wanted.contains(x) by {
            let p = choose|p: int| 0 <= p < named.len() && named[p] == x;
            assert(places[p] < n);
        }
    }
    vstd::set_lib::lemma_subset_equality(held, wanted);
    assert(held.contains(i as int));
    let p = choose|p: int| 0 <= p < named.len() && named[p] == i as int;
    assert(places[p] == i);
}

/// There is only one stable order of given keys.
pub proof fn law_stable_order_is_unique<K: Rank>(keys: Seq<K>, a: Seq<usize>, b: Seq<usize>)
    requires
        is_stable_order(keys, a),
        is_stable_order(keys, b),
    ensures
        a == b,
{
    assert forall|p: int| 0 <= p < a.len() implies a[p] == b[p] by {
        lemma_stable_order_agrees(keys, a, b, p);
    }
    assert(a =~= b);
}

proof fn lemma_stable_order_agrees<K: Rank>(
    keys: Seq<K>,
    a: Seq<usize>,
    b: Seq<usize>,
    p: int,
)
    requires
        is_stable_order(keys, a),
        is_stable_order(keys, b),
        0 <= p < a.len(),
    ensures
        a[p] == b[p],
    decreases p,
{
    assert forall|q: int| 0 <= q < p implies #[trigger] a[q] == b[q] by {
        lemma_stable_order_agrees(keys, a, b, q);
    }
    if a[p] != b[p] {
        lemma_arrangement_full(b, keys.len() as int, a[p]);
        lemma_arrangement_full(a, keys.len() as int, b[p]);
        let q = choose|q: int| 0 <= q < b.len() && b[q] == a[p];
        let r = choose|r: int| 0 <= r < a.len() && a[r] == b[p];
        if q < p {
            assert(a[q] == b[q]);
        }
        if r < p {
            assert(a[r] == b[r]);
        }
        assert(p < q && p < r);
        assert(comes_first(keys, a[p] as int, a[r] as int));
        assert(comes_first(keys, b[p] as int, b[q] as int));
        K::asymmetric(&keys[a[p] as int], &keys[b[p] as int]);
    }
}

/// The places of `keys` in sorted order, equal keys in the order in which they
/// stand.
pub fn order_of<K: Rank>(keys: &Vec<K>) -> (r: Vec<usize>)
    ensures
        is_stable_order(keys@, r@),
{
    let mut r: Vec<usize> = Vec::new();
    for i in 0..keys.len()
        invariant
            is_arrangement(r@, i as int),
            forall|p: int, q: int|
                0 <= p < q < r@.len() ==> comes_first(
                    keys@,
                    #[trigger] r@[p] as int,
                    #[trigger] r@[q] as int,
                ),
    {
        let mut at: usize = r.len();
        while at > 0 && keys[i].is_under(&keys[r[at - 1]])
            invariant
                at <= r@.len(),
                i < keys@.len(),
                is_arrangement(r@, i as int),
                forall|p: int|
                    at <= p < r@.len() ==> comes_first(keys@, i as int, #[trigger] r@[p] as int),
            decreases at,
        {
            at = at - 1;
        }
        let ghost before = r@;
        r.insert(at, i);
        proof {
            if at > 0 {
                assert(before[at - 1] < i);
                assert(comes_first(keys@, before[at - 1] as int, i as int));
            }
            assert forall|p: int| 0 <= p < at implies comes_first(
                keys@,
                #[trigger] before[p] as int,
                i as int,
            ) by {
                if p < at - 1 {
                    lemma_comes_first_trans(
                        keys@,
                        before[p] as int,
                        before[at - 1] as int,
                        i as int,
                    );
                }
            }
            assert forall|p: int, q: int| 0 <= p < q < r@.len() implies comes_first(
                keys@,
                #[trigger] r@[p] as int,
                #[trigger] r@[q] as int,
            ) by {
                let pp = if p < at { p } else { p - 1 };
                let qq = if q < at { q } else { q - 1 };
                if p == at {
                    assert(r@[q] == before[qq]);
                } else if q == at {
                    assert(r@[p] == before[pp]);
                } else {
                    assert(r@[p] == before[pp]);
                    assert(r@[q] == before[qq]);
                }
            }
            assert forall|p: int, q: int| 0 <= p < q < r@.len() implies #[trigger] r@[p]
                != #[trigger] r@[q] by {
                let pp = if p < at { p } else { p - 1 };
                let qq = if q < at { q } else { q - 1 };
                if p == at {
                    assert(r@[q] == before[qq]);
                } else if q == at {
                    assert(r@[p] == before[pp]);
                } else {
                    assert(r@[p] == before[pp]);
                    assert(r@[q] == before[qq]);
                }
            }
            assert forall|p: int| 0 <= p < r@.len() implies #[trigger] r@[p] < i + 1 by {
                let pp = if p < at { p } else { p - 1 };
                if p != at {
                    assert(r@[p] == before[pp]);
                }
            }
        }
    }
    r
}

/// Numbers, smallest first.
impl Rank for u64 {
    open spec fn under(&self, other: &Self) -> bool {
        *self < *other
    }

    proof fn asymmetric(a: &Self, b: &Self) {
    }

    proof fn between(a: &Self, b: &Self, c: &Self) {
    }

    fn is_under(&self, other: &Self) -> (r: bool) {
        *self < *other
    }
}

/// Texts in the order of their code points.
impl Rank for String {
    open spec fn under(&self, other: &Self) -> bool {
        text::precedes(self@, other@)
    }

    proof fn asymmetric(a: &Self, b: &Self) {
        text::lemma_precedes_total(a@, b@);
    }

    proof fn between(a: &Self, b: &Self, c: &Self) {
        text::lemma_precedes_total(a@, b@);
        text::lemma_precedes_total(b@, c@);
        if a.under(c) && !a.under(b) && !b.under(c) {
            if b@ != a@ && b@ != c@ {
                text::lemma_precedes_trans(c@, b@, a@);
                text::lemma_precedes_total(a@, c@);
            }
        }
    }

    fn is_under(&self, other: &Self) -> (r: bool) {
        text::comes_before(self.as_str(), other.as_str())
    }
}

/// The order of `K` turned round.
pub struct Descending<K>(pub K);

impl<K: Rank> Rank for Descending<K> {
    open spec fn under(&self, other: &Self) -> bool {
        other.0.under(&self.0)
    }

    proof fn asymmetric(a: &Self, b: &Self) {
        K::asymmetric(&a.0, &b.0);
    }

    proof fn between(a: &Self, b: &Self, c: &Self) {
        K::between(&c.0, &b.0, &a.0);
    }

    fn is_under(&self, other: &Self) -> (r: bool) {
        other.0.is_under(&self.0)
    }
}

/// Numbers in sorted order do not fall, and equal ones keep their places; every
/// place is named.
pub proof fn law_sorted_numbers_rise(keys: Seq<u64>, places: Seq<usize>, p: int, q: int)
    requires
        is_stable_order(keys, places),
        0 <= p < q < places.len(),
    ensures
        places.len() == keys.len(),
        keys[places[p] as int] <= keys[places[q] as int],
        keys[places[p] as int] == keys[places[q] as int] ==> places[p] < places[q],
        forall|i: usize| i < keys.len() ==> #[trigger] places.contains(i),
{
    assert(comes_first(keys, places[p] as int, places[q] as int));
    assert forall|i: usize| i < keys.len() implies #[trigger] places.contains(i) by {
        lemma_arrangement_full(places, keys.len() as int, i);
    }
}

/// Numbers in the order turned round do not rise, and equal ones keep their
/// places.
pub proof fn law_numbers_turned_round_fall(
    keys: Seq<Descending<u64>>,
    places: Seq<usize>,
    p: int,
    q: int,
)
    requires
        is_stable_order(keys, places),
        0 <= p < q < places.len(),
    ensures
        places.len() == keys.len(),
        keys[places[p] as int].0 >= keys[places[q] as int].0,
        keys[places[p] as int].0 == keys[places[q] as int].0 ==> places[p] < places[q],
{
    assert(comes_first(keys, places[p] as int, places[q] as int));
}

/// Texts in sorted order: none comes before one that stands earlier, and equal
/// ones keep their places.
pub proof fn law_sorted_texts_rise(keys: Seq<String>, places: Seq<usize>, p: int, q: int)
    requires
        is_stable_order(keys, places),
        0 <= p < q < places.len(),
    ensures
        places.len() == keys.len(),
        !text::precedes(keys[places[q] as int]@, keys[places[p] as int]@),
        keys[places[p] as int]@ == keys[places[q] as int]@ ==> places[p] < places[q],
{
    let a = keys[places[p] as int]@;
    let b = keys[places[q] as int]@;
    assert(comes_first(keys, places[p] as int, places[q] as int));
    text::lemma_precedes_total(a, b);
}

} // verus!
