//! Sorting by rank: the canonical order of fragments and of cell positions.
use vstd::prelude::*;
use vstd::relations::{sorted_by, total_ordering};
use vstd::seq_lib::lemma_sorted_unique;

verus! {

/// Values with a place in a total order, given as a number: different
/// values have different places.
pub trait Ranked: Sized {
    /// The place of the value in the order.
    spec fn place(&self) -> nat;

    /// The place of the value in the order.
    fn rank(&self) -> (r: u128)
        ensures
            r == self.place(),
    ;

    /// Different values have different places.
    proof fn lemma_place_injective(a: &Self, b: &Self)
        requires
            a.place() == b.place(),
        ensures
            a == b,
    ;
}

/// The order of ranked values: `a` does not come after `b`.
pub open spec fn by_place<T: Ranked>() -> spec_fn(T, T) -> bool {
    |a: T, b: T| a.place() <= b.place()
}

/// A sequence in canonical order: sorted by place.
pub open spec fn canonical<T: Ranked>(s: Seq<T>) -> Seq<T> {
    s.sort_by(by_place::<T>())
}

/// The order by place is total.
pub proof fn lemma_by_place_total<T: Ranked>()
    ensures
        total_ordering(by_place::<T>()),
{
    let r = by_place::<T>();
    assert forall|x: T, y: T| #[trigger] r(x, y) && #[trigger] r(y, x) implies x == y by {
        T::lemma_place_injective(&x, &y);
    }
}

/// The canonical order of a sequence is the one sorted sequence that holds
/// the same values as often.
pub proof fn lemma_canonical_unique<T: Ranked>(s: Seq<T>, sorted: Seq<T>)
    requires
        sorted_by(sorted, by_place::<T>()),
        sorted.to_multiset() == s.to_multiset(),
    ensures
        sorted == canonical(s),
{
    lemma_by_place_total::<T>();
    s.lemma_sort_by_ensures(by_place::<T>());
    lemma_sorted_unique(sorted, canonical(s), by_place::<T>());
}

/// Two sequences that hold the same values as often, in whatever order,
/// have the same canonical order.
pub proof fn lemma_canonical_ignores_order<T: Ranked>(a: Seq<T>, b: Seq<T>)
    requires
        a.to_multiset() == b.to_multiset(),
    ensures
        canonical(a) == canonical(b),
{
    lemma_by_place_total::<T>();
    a.lemma_sort_by_ensures(by_place::<T>());
    lemma_canonical_unique(b, canonical(a));
}

/// Two sorted rows as one sorted row.
fn merge<T: Ranked + Copy>(a: &Vec<T>, b: &Vec<T>) -> (merged: Vec<T>)
    requires
        sorted_by(a@, by_place::<T>()),
        sorted_by(b@, by_place::<T>()),
    ensures
        sorted_by(merged@, by_place::<T>()),
        merged@.to_multiset() == a@.to_multiset().add(b@.to_multiset()),
{
    broadcast use vstd::multiset::group_multiset_axioms;

    let mut merged: Vec<T> = Vec::new();
    let mut i: usize = 0;
    let mut j: usize = 0;
    proof {
        assert(a@.take(0) =~= Seq::<T>::empty());
        assert(b@.take(0) =~= Seq::<T>::empty());
        vstd::seq_lib::to_multiset_len(Seq::<T>::empty());
    }
    while i < a.len() || j < b.len()
        invariant
            i <= a@.len(),
            j <= b@.len(),
            sorted_by(a@, by_place::<T>()),
            sorted_by(b@, by_place::<T>()),
            sorted_by(merged@, by_place::<T>()),
            merged@.to_multiset() == a@.take(i as int).to_multiset().add(
                b@.take(j as int).to_multiset(),
            ),
            forall|k: int|
                0 <= k < merged@.len() && i < a@.len() ==> (#[trigger] merged@[k]).place()
                    <= a@[i as int].place(),
            forall|k: int|
                0 <= k < merged@.len() && j < b@.len() ==> (#[trigger] merged@[k]).place()
                    <= b@[j as int].place(),
        decreases a@.len() - i + b@.len() - j,
    {
        let from_a = if j >= b.len() {
            true
        } else if i >= a.len() {
            false
        } else {
            a[i].rank() <= b[j].rank()
        };
        let ghost before = merged@;
        if from_a {
            let x = a[i];
            merged.push(x);
            proof {
                vstd::seq_lib::to_multiset_build(before, x);
                assert(a@.take(i as int + 1) =~= a@.take(i as int).push(x));
                vstd::seq_lib::to_multiset_build(a@.take(i as int), x);
                if i + 1 < a@.len() {
                    assert(by_place::<T>()(a@[i as int], a@[i as int + 1]));
                }
            }
            i = i + 1;
        } else {
            let x = b[j];
            merged.push(x);
            proof {
                vstd::seq_lib::to_multiset_build(before, x);
                assert(b@.take(j as int + 1) =~= b@.take(j as int).push(x));
                vstd::seq_lib::to_multiset_build(b@.take(j as int), x);
                if j + 1 < b@.len() {
                    assert(by_place::<T>()(b@[j as int], b@[j as int + 1]));
                }
            }
            j = j + 1;
        }
    }
    assert(a@.take(i as int) =~= a@);
    assert(b@.take(j as int) =~= b@);
    merged
}

/// The values of `items` from `lo` up to `hi`, sorted.
fn sort_range<T: Ranked + Copy>(items: &Vec<T>, lo: usize, hi: usize) -> (sorted: Vec<T>)
    requires
        lo <= hi <= items@.len(),
    ensures
        sorted_by(sorted@, by_place::<T>()),
        sorted@.to_multiset() == items@.subrange(lo as int, hi as int).to_multiset(),
    decreases hi - lo,
{
    if hi - lo <= 1 {
        let mut sorted: Vec<T> = Vec::new();
        if hi > lo {
            sorted.push(items[lo]);
        }
        assert(sorted@ =~= items@.subrange(lo as int, hi as int));
        sorted
    } else {
        let mid = lo + (hi - lo) / 2;
        let left = sort_range(items, lo, mid);
        let right = sort_range(items, mid, hi);
        proof {
            let first = items@.subrange(lo as int, mid as int);
            let second = items@.subrange(mid as int, hi as int);
            assert(items@.subrange(lo as int, hi as int) =~= first + second);
            vstd::seq_lib::lemma_multiset_commutative(first, second);
        }
        merge(&left, &right)
    }
}

/// The values of `items` in canonical order.
pub fn sort<T: Ranked + Copy>(items: &Vec<T>) -> (sorted: Vec<T>)
    ensures
        sorted@ == canonical(items@),
{
    let sorted = sort_range(items, 0, items.len());
    proof {
        assert(items@.subrange(0, items@.len() as int) =~= items@);
        lemma_canonical_unique(items@, sorted@);
    }
    sorted
}

/// The elements of a finite set, put in a row, come once each.
pub proof fn lemma_to_seq_no_duplicates<A>(s: Set<A>)
    requires
        s.finite(),
    ensures
        s.to_seq().no_duplicates(),
        s.to_seq().to_set() == s,
    decreases s.len(),
{
    broadcast use vstd::set::group_set_axioms;

    s.lemma_to_seq_to_set_id();
    if s.len() != 0 {
        lemma_to_seq_no_duplicates(s.remove(s.choose()));
    }
}

/// Two rows that hold the same values, each once, hold the same values as
/// often.
pub proof fn lemma_same_values_once<A>(a: Seq<A>, b: Seq<A>)
    requires
        a.no_duplicates(),
        b.no_duplicates(),
        a.to_set() == b.to_set(),
    ensures
        a.to_multiset() == b.to_multiset(),
{
    broadcast use vstd::seq_lib::group_to_multiset_ensures;

    a.lemma_multiset_has_no_duplicates();
    b.lemma_multiset_has_no_duplicates();
    assert forall|x: A| a.to_multiset().count(x) == b.to_multiset().count(x) by {
        assert(a.contains(x) == a.to_set().contains(x));
    }
}

/// The canonical order of a row holds what the row holds.
pub proof fn lemma_canonical_contains<T: Ranked>(s: Seq<T>, x: T)
    ensures
        canonical(s).contains(x) == s.contains(x),
        canonical(s).len() == s.len(),
{
    lemma_by_place_total::<T>();
    s.lemma_sort_by_ensures(by_place::<T>());
    let c = canonical(s);
    vstd::seq_lib::to_multiset_len(c);
    vstd::seq_lib::to_multiset_len(s);
    vstd::seq_lib::to_multiset_contains(c, x);
    vstd::seq_lib::to_multiset_contains(s, x);
}

} // verus!
