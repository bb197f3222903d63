//! Sorting of integers.

use vstd::prelude::*;
use vstd::relations::sorted_by;
use vstd::seq_lib::{lemma_multiset_commutative, lemma_sorted_unique};

verus! {

/// Whether the values never decrease.
pub open spec fn ascending(s: Seq<i128>) -> bool {
    forall|i: int, j: int| 0 <= i <= j < s.len() ==> s[i] <= s[j]
}

/// The values of `s` in ascending order.
pub open spec fn sorted_copy(s: Seq<i128>) -> Seq<i128> {
    s.sort_by(|a: i128, b: i128| a <= b)
}

/// There is one ascending arrangement of the values of a sequence.
pub proof fn lemma_sorted_copy_is_the_one(s: Seq<i128>, t: Seq<i128>)
    requires
        ascending(t),
        t.to_multiset() == s.to_multiset(),
    ensures
        t == sorted_copy(s),
{
    let leq = |a: i128, b: i128| a <= b;
    s.lemma_sort_by_ensures(leq);
    assert(sorted_by(t, leq));
    lemma_sorted_unique(t, sorted_copy(s), leq);
}

/// The arrangement is ascending and keeps the values.
pub proof fn lemma_sorted_copy_ensures(s: Seq<i128>)
    ensures
        ascending(sorted_copy(s)),
        sorted_copy(s).to_multiset() == s.to_multiset(),
        sorted_copy(s).len() == s.len(),
{
    broadcast use vstd::seq_lib::group_to_multiset_ensures;

    let leq = |a: i128, b: i128| a <= b;
    s.lemma_sort_by_ensures(leq);
    let t = sorted_copy(s);
    assert forall|i: int, j: int| 0 <= i <= j < t.len() implies t[i] <= t[j] by {
        if i < j {
            assert(leq(t[i], t[j]));
        }
    }
    assert(t.len() == t.to_multiset().len());
    assert(s.len() == s.to_multiset().len());
}

/// The arrangement holds the values that the sequence holds.
pub proof fn lemma_sorted_copy_contains(s: Seq<i128>, x: i128)
    ensures
        sorted_copy(s).contains(x) == s.contains(x),
{
    broadcast use vstd::seq_lib::group_to_multiset_ensures;

    lemma_sorted_copy_ensures(s);
    assert(s.contains(x) <==> s.to_multiset().count(x) > 0);
    assert(sorted_copy(s).contains(x) <==> sorted_copy(s).to_multiset().count(x) > 0);
}

fn merge(a: &Vec<i128>, b: &Vec<i128>) -> (r: Vec<i128>)
    requires
        ascending(a@),
        ascending(b@),
        a.len() + b.len() <= usize::MAX,
    ensures
        ascending(r@),
        r@.to_multiset() == (a@ + b@).to_multiset(),
{
    let mut out: Vec<i128> = Vec::new();
    let mut i: usize = 0;
    let mut j: usize = 0;
    proof {
        broadcast use vstd::seq_lib::group_to_multiset_ensures;
        broadcast use vstd::multiset::group_multiset_axioms;

        assert(a@.take(0) =~= Seq::<i128>::empty());
        assert(b@.take(0) =~= Seq::<i128>::empty());
        assert(out@.to_multiset() =~= a@.take(0).to_multiset().add(b@.take(0).to_multiset()));
    }
    while i < a.len() || j < b.len()
        invariant
            0 <= i <= a.len(),
            0 <= j <= b.len(),
            a.len() + b.len() <= usize::MAX,
            ascending(a@),
            ascending(b@),
            ascending(out@),
            out@.to_multiset() == a@.take(i as int).to_multiset().add(
                b@.take(j as int).to_multiset(),
            ),
            forall|k: int, m: int| 0 <= k < out.len() && i <= m < a.len() ==> out@[k] <= a@[m],
            forall|k: int, m: int| 0 <= k < out.len() && j <= m < b.len() ==> out@[k] <= b@[m],
        decreases a.len() - i + b.len() - j,
    {
        let from_a = if i == a.len() {
            false
        } else if j == b.len() {
            true
        } else {
            a[i] <= b[j]
        };
        if from_a {
            let ghost before = out@;
            out.push(a[i]);
            proof {
                broadcast use vstd::seq_lib::group_to_multiset_ensures;
                broadcast use vstd::multiset::group_multiset_axioms;

                assert(out@ == before.push(a@[i as int]));
                assert(a@.take(i as int + 1) =~= a@.take(i as int).push(a@[i as int]));
                assert(out@.to_multiset() =~= a@.take(i as int + 1).to_multiset().add(
                    b@.take(j as int).to_multiset(),
                ));
            }
            i += 1;
        } else {
            let ghost before = out@;
            out.push(b[j]);
            proof {
                broadcast use vstd::seq_lib::group_to_multiset_ensures;
                broadcast use vstd::multiset::group_multiset_axioms;

                assert(out@ == before.push(b@[j as int]));
                assert(b@.take(j as int + 1) =~= b@.take(j as int).push(b@[j as int]));
                assert(out@.to_multiset() =~= a@.take(i as int).to_multiset().add(
                    b@.take(j as int + 1).to_multiset(),
                ));
            }
            j += 1;
        }
    }
    proof {
        assert(a@.take(i as int) =~= a@);
        assert(b@.take(j as int) =~= b@);
        lemma_multiset_commutative(a@, b@);
    }
    out
}

fn sort_range(v: &Vec<i128>, lo: usize, hi: usize) -> (r: Vec<i128>)
    requires
        lo <= hi <= v.len(),
    ensures
        ascending(r@),
        r@.to_multiset() == v@.subrange(lo as int, hi as int).to_multiset(),
    decreases hi - lo,
{
    if hi - lo <= 1 {
        let mut r: Vec<i128> = Vec::new();
        if hi - lo == 1 {
            r.push(v[lo]);
        }
        assert(r@ =~= v@.subrange(lo as int, hi as int));
        r
    } else {
        let mid: usize = lo + (hi - lo) / 2;
        let a = sort_range(v, lo, mid);
        let b = sort_range(v, mid, hi);
        proof {
            broadcast use vstd::seq_lib::group_to_multiset_ensures;

            let left = v@.subrange(lo as int, mid as int);
            let right = v@.subrange(mid as int, hi as int);
            assert(a@.len() == a@.to_multiset().len() && left.len() == left.to_multiset().len());
            assert(b@.len() == b@.to_multiset().len() && right.len() == right.to_multiset().len());
            assert(v@.subrange(lo as int, hi as int) =~= left + right);
            lemma_multiset_commutative(left, right);
            lemma_multiset_commutative(a@, b@);
        }
        merge(&a, &b)
    }
}

/// Returns the values of `v` in ascending order.
pub fn sort(v: &Vec<i128>) -> (r: Vec<i128>)
    ensures
        r@ == sorted_copy(v@),
        ascending(r@),
        r@.to_multiset() == v@.to_multiset(),
{
    let r = sort_range(v, 0, v.len());
    proof {
        assert(v@.subrange(0, v.len() as int) =~= v@);
        lemma_sorted_copy_is_the_one(v@, r@);
    }
    r
}

} // verus!
