//! Summation of a weight over a sequence, with the facts the aggregation and
//! the pipeline totals rest on: sums split over concatenation, grow one term
//! at a time over prefixes, bound every term, and do not depend on the order
//! of the elements — which is what makes an unordered, parallel reduction of
//! the same elements return the same value.

use vstd::prelude::*;

verus! {

/// The sum of `f` over all elements of `s`.
pub open spec fn sum_by<A>(s: Seq<A>, f: spec_fn(A) -> nat) -> nat
    decreases s.len(),
{
    if s.len() == 0 {
        0
    } else {
        sum_by(s.drop_last(), f) + f(s.last())
    }
}

/// A sum splits over concatenation.
pub proof fn lemma_sum_by_concat<A>(a: Seq<A>, b: Seq<A>, f: spec_fn(A) -> nat)
    ensures
        sum_by(a + b, f) == sum_by(a, f) + sum_by(b, f),
    decreases b.len(),
{
    if b.len() == 0 {
        assert(a + b =~= a);
    } else {
        lemma_sum_by_concat(a, b.drop_last(), f);
        assert((a + b).drop_last() =~= a + b.drop_last());
        assert((a + b).last() == b.last());
    }
}

/// A sum over a prefix grows by one term at a time.
pub proof fn lemma_sum_by_take_succ<A>(s: Seq<A>, f: spec_fn(A) -> nat, i: int)
    requires
        0 <= i < s.len(),
    ensures
        sum_by(s.take(i + 1), f) == sum_by(s.take(i), f) + f(s[i]),
{
    assert(s.take(i + 1).drop_last() =~= s.take(i));
    assert(s.take(i + 1).last() == s[i]);
}

/// Any prefix sum plus the next term is bounded by the whole sum.
pub proof fn lemma_sum_by_prefix_bound<A>(s: Seq<A>, f: spec_fn(A) -> nat, i: int)
    requires
        0 <= i < s.len(),
    ensures
        sum_by(s.take(i), f) + f(s[i]) <= sum_by(s, f),
{
    lemma_sum_by_take_succ(s, f, i);
    assert(s =~= s.take(i + 1) + s.skip(i + 1));
    lemma_sum_by_concat(s.take(i + 1), s.skip(i + 1), f);
}

/// Removing one element removes exactly its term from the sum.
pub proof fn lemma_sum_by_remove<A>(s: Seq<A>, f: spec_fn(A) -> nat, j: int)
    requires
        0 <= j < s.len(),
    ensures
        sum_by(s, f) == sum_by(s.remove(j), f) + f(s[j]),
{
    assert(s =~= s.take(j) + seq![s[j]] + s.skip(j + 1));
    assert(s.remove(j) =~= s.take(j) + s.skip(j + 1));
    lemma_sum_by_concat(s.take(j) + seq![s[j]], s.skip(j + 1), f);
    lemma_sum_by_concat(s.take(j), seq![s[j]], f);
    lemma_sum_by_concat(s.take(j), s.skip(j + 1), f);
    let single = seq![s[j]];
    assert(single.drop_last() =~= Seq::<A>::empty());
    assert(sum_by(Seq::<A>::empty(), f) == 0);
    assert(single.last() == s[j]);
    assert(sum_by(single, f) == f(s[j]));
}

/// Two equally long sequences whose weights agree position by position have
/// the same sum.
pub proof fn lemma_sum_by_pointwise<A, B>(
    a: Seq<A>,
    b: Seq<B>,
    f: spec_fn(A) -> nat,
    g: spec_fn(B) -> nat,
)
    requires
        a.len() == b.len(),
        forall|i: int| 0 <= i < a.len() ==> f(#[trigger] a[i]) == g(#[trigger] b[i]),
    ensures
        sum_by(a, f) == sum_by(b, g),
    decreases a.len(),
{
    if a.len() > 0 {
        lemma_sum_by_pointwise(a.drop_last(), b.drop_last(), f, g);
        assert(f(a[a.len() - 1]) == g(b[b.len() - 1]));
    }
}

/// Two sequences with the same elements (the same multiset, in any order) have
/// the same sum: the reduction is order-independent.
pub proof fn lemma_sum_by_permutation<A>(a: Seq<A>, b: Seq<A>, f: spec_fn(A) -> nat)
    requires
        a.to_multiset() == b.to_multiset(),
    ensures
        sum_by(a, f) == sum_by(b, f),
    decreases a.len(),
{
    broadcast use vstd::seq_lib::group_to_multiset_ensures;

    if a.len() == 0 {
        assert(b.to_multiset().len() == 0);
    } else {
        let x = a.last();
        assert(a =~= a.drop_last().push(x));
        assert(a.to_multiset() == a.drop_last().to_multiset().insert(x));
        assert(b.to_multiset().count(x) > 0);
        assert(b.contains(x));
        let j = choose|j: int| 0 <= j < b.len() && b[j] == x;
        assert(b.remove(j).to_multiset() == b.to_multiset().remove(x));
        assert(a.drop_last().to_multiset() == a.to_multiset().remove(x));
        lemma_sum_by_permutation(a.drop_last(), b.remove(j), f);
        lemma_sum_by_remove(b, f, j);
    }
}

} // verus!
