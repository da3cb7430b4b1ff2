//! Sorting by a total order.

use vstd::prelude::*;
use vstd::relations::{sorted_by, total_ordering};
use vstd::seq_lib::*;

verus! {

/// Values with a total order.
pub trait Ranked: Sized + Copy {
    /// `self` comes before `other` or is the same.
    spec fn leq(self, other: Self) -> bool;

    /// The order is total.
    proof fn order_is_total()
        ensures
            total_ordering(|a: Self, b: Self| a.leq(b)),
    ;

    /// Whether `self` comes before `other` or is the same.
    fn comes_before(&self, other: &Self) -> (r: bool)
        ensures
            r == self.leq(*other),
    ;
}

/// The order of a ranked type as a function.
pub open spec fn rank_order<T: Ranked>() -> spec_fn(T, T) -> bool {
    |a: T, b: T| a.leq(b)
}

/// The values in their order.
pub open spec fn ranked<T: Ranked>(s: Seq<T>) -> Seq<T> {
    s.sort_by(rank_order::<T>())
}

/// What is sorted and holds the same values is the values in their order.
pub proof fn lemma_ranked_unique<T: Ranked>(s: Seq<T>, t: Seq<T>)
    requires
        sorted_by(t, rank_order::<T>()),
        t.to_multiset() == s.to_multiset(),
    ensures
        t == ranked(s),
{
    T::order_is_total();
    s.lemma_sort_by_ensures(rank_order::<T>());
    lemma_sorted_unique(t, ranked(s), rank_order::<T>());
}

/// The values in their order are the same values, and sorted.
pub proof fn lemma_ranked<T: Ranked>(s: Seq<T>)
    ensures
        ranked(s).to_multiset() == s.to_multiset(),
        ranked(s).len() == s.len(),
        sorted_by(ranked(s), rank_order::<T>()),
        forall|x: T| ranked(s).contains(x) <==> s.contains(x),
{
    broadcast use group_to_multiset_ensures;

    T::order_is_total();
    s.lemma_sort_by_ensures(rank_order::<T>());
    assert(ranked(s).len() == ranked(s).to_multiset().len());
    assert forall|x: T| ranked(s).contains(x) <==> s.contains(x) by {
        assert(s.contains(x) <==> s.to_multiset().count(x) > 0);
        assert(ranked(s).contains(x) <==> ranked(s).to_multiset().count(x) > 0);
    }
}

/// A sorted list stays sorted when a value that comes after its last is put behind it.
proof fn lemma_sorted_push<T: Ranked>(s: Seq<T>, value: T)
    requires
        sorted_by(s, rank_order::<T>()),
        s.len() > 0 ==> s.last().leq(value),
    ensures
        sorted_by(s.push(value), rank_order::<T>()),
        forall|k: int| 0 <= k < s.len() ==> (#[trigger] s[k]).leq(value),
{
    T::order_is_total();
    let order = rank_order::<T>();
    assert forall|k: int| 0 <= k < s.len() implies (#[trigger] s[k]).leq(value) by {
        if k < s.len() - 1 {
            assert(order(s[k], s[s.len() - 1]));
            assert(order(s[s.len() - 1], value));
            assert(order(s[k], value));
        }
    }
    let t = s.push(value);
    assert forall|i: int, j: int| 0 <= i < j < t.len() implies #[trigger] order(t[i], t[j]) by {
        if j < s.len() {
            assert(order(s[i], s[j]));
        } else {
            assert(s[i].leq(value));
        }
    }
}

/// Merges two sorted lists into one.
fn merge_ranked<T: Ranked>(a: &Vec<T>, b: &Vec<T>) -> (r: Vec<T>)
    requires
        sorted_by(a@, rank_order::<T>()),
        sorted_by(b@, rank_order::<T>()),
    ensures
        sorted_by(r@, rank_order::<T>()),
        r@.to_multiset() == a@.to_multiset().add(b@.to_multiset()),
{
    broadcast use group_to_multiset_ensures;

    proof {
        T::order_is_total();
        assert(a@.take(0) =~= Seq::<T>::empty());
        assert(b@.take(0) =~= Seq::<T>::empty());
    }
    let ghost order = rank_order::<T>();
    let mut out: Vec<T> = Vec::new();
    let mut i: usize = 0;
    let mut j: usize = 0;
    assert(out@.to_multiset() =~= a@.take(0).to_multiset().add(b@.take(0).to_multiset()));
    while i < a.len() || j < b.len()
        invariant
            i <= a.len(),
            j <= b.len(),
            order == rank_order::<T>(),
            total_ordering(order),
            sorted_by(a@, order),
            sorted_by(b@, order),
            sorted_by(out@, order),
            out@.to_multiset() == a@.take(i as int).to_multiset().add(
                b@.take(j as int).to_multiset(),
            ),
            out.len() > 0 && i < a.len() ==> out@.last().leq(a@[i as int]),
            out.len() > 0 && j < b.len() ==> out@.last().leq(b@[j as int]),
        decreases a.len() - i + b.len() - j,
    {
        let left: bool = if i == a.len() {
            false
        } else if j == b.len() {
            true
        } else {
            a[i].comes_before(&b[j])
        };
        let ghost before = out@;
        if left {
            let value: T = a[i];
            proof {
                lemma_sorted_push(before, value);
                to_multiset_build(before, value);
                to_multiset_build(a@.take(i as int), value);
                assert(a@.take(i + 1) =~= a@.take(i as int).push(value));
                assert(order(value, value));
                if i + 1 < a.len() {
                    assert(order(a@[i as int], a@[i + 1]));
                }
                assert(before.to_multiset().insert(value) =~= a@.take(i as int).to_multiset().insert(
                    value,
                ).add(b@.take(j as int).to_multiset()));
            }
            out.push(value);
            i = i + 1;
        } else {
            let value: T = b[j];
            proof {
                if i < a.len() {
                    assert(order(a@[i as int], value) || order(value, a@[i as int]));
                }
                lemma_sorted_push(before, value);
                to_multiset_build(before, value);
                to_multiset_build(b@.take(j as int), value);
                assert(b@.take(j + 1) =~= b@.take(j as int).push(value));
                assert(order(value, value));
                if j + 1 < b.len() {
                    assert(order(b@[j as int], b@[j + 1]));
                }
                assert(before.to_multiset().insert(value) =~= a@.take(i as int).to_multiset().add(
                    b@.take(j as int).to_multiset().insert(value),
                ));
            }
            out.push(value);
            j = j + 1;
        }
    }
    assert(a@.take(a.len() as int) =~= a@);
    assert(b@.take(b.len() as int) =~= b@);
    out
}

/// The values between two places, sorted.
fn sort_between<T: Ranked>(values: &Vec<T>, start: usize, end: usize) -> (r: Vec<T>)
    requires
        start <= end <= values.len(),
    ensures
        sorted_by(r@, rank_order::<T>()),
        r@.to_multiset() == values@.subrange(start as int, end as int).to_multiset(),
    decreases end - start,
{
    if end - start == 0 {
        let r: Vec<T> = Vec::new();
        assert(r@ =~= values@.subrange(start as int, end as int));
        r
    } else if end - start == 1 {
        let mut r: Vec<T> = Vec::new();
        r.push(values[start]);
        assert(r@ =~= values@.subrange(start as int, end as int));
        r
    } else {
        let middle: usize = start + (end - start) / 2;
        let a: Vec<T> = sort_between(values, start, middle);
        let b: Vec<T> = sort_between(values, middle, end);
        proof {
            let left = values@.subrange(start as int, middle as int);
            let right = values@.subrange(middle as int, end as int);
            assert(values@.subrange(start as int, end as int) =~= left + right);
            lemma_multiset_commutative(left, right);
        }
        merge_ranked(&a, &b)
    }
}

/// The values in their order.
pub fn sort_ranked<T: Ranked>(values: &Vec<T>) -> (r: Vec<T>)
    ensures
        r@ == ranked(values@),
{
    let out: Vec<T> = sort_between(values, 0, values.len());
    proof {
        assert(values@.subrange(0, values.len() as int) =~= values@);
        lemma_ranked_unique(values@, out@);
    }
    out
}

} // verus!
