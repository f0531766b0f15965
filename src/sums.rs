use vstd::prelude::*;

verus! {

/// The sum of `f` over the elements of `s`.
pub open spec fn sum_of<A>(s: Seq<A>, f: spec_fn(A) -> nat) -> nat
    decreases s.len(),
{
    if s.len() == 0 {
        0
    } else {
        sum_of(s.drop_last(), f) + f(s.last())
    }
}

/// Replacing one element changes the sum by the difference of the two.
pub proof fn lemma_sum_update<A>(s: Seq<A>, f: spec_fn(A) -> nat, i: int, x: A)
    requires
        0 <= i < s.len(),
    ensures
        sum_of(s.update(i, x), f) + f(s[i]) == sum_of(s, f) + f(x),
    decreases s.len(),
{
    if i == s.len() - 1 {
        assert(s.update(i, x).drop_last() =~= s.drop_last());
    } else {
        assert(s.update(i, x).drop_last() =~= s.drop_last().update(i, x));
        lemma_sum_update(s.drop_last(), f, i, x);
    }
}

/// Removing one element takes it out of the sum.
pub proof fn lemma_sum_remove<A>(s: Seq<A>, f: spec_fn(A) -> nat, i: int)
    requires
        0 <= i < s.len(),
    ensures
        sum_of(s.remove(i), f) + f(s[i]) == sum_of(s, f),
    decreases s.len(),
{
    if i == s.len() - 1 {
        assert(s.remove(i) =~= s.drop_last());
    } else {
        assert(s.remove(i).drop_last() =~= s.drop_last().remove(i));
        lemma_sum_remove(s.drop_last(), f, i);
    }
}

/// Elements past `n` that count nothing leave the sum of the first `n`.
pub proof fn lemma_sum_zero_tail<A>(s: Seq<A>, f: spec_fn(A) -> nat, n: int)
    requires
        0 <= n <= s.len(),
        forall|j: int| n <= j < s.len() ==> f(#[trigger] s[j]) == 0,
    ensures
        sum_of(s, f) == sum_of(s.take(n), f),
    decreases s.len(),
{
    if s.len() == n {
        assert(s.take(n) =~= s);
    } else {
        assert(s.drop_last().take(n) =~= s.take(n));
        lemma_sum_zero_tail(s.drop_last(), f, n);
    }
}

/// A sum over a longer prefix is no smaller.
pub proof fn lemma_sum_prefix_monotone<A>(s: Seq<A>, f: spec_fn(A) -> nat, k: int)
    requires
        0 <= k < s.len(),
    ensures
        sum_of(s.take(k), f) + f(s[k]) == sum_of(s.take(k + 1), f),
{
    assert(s.take(k + 1).drop_last() =~= s.take(k));
}

/// A sum splits into the sum of a prefix and the sum of the rest.
pub proof fn lemma_sum_split<A>(s: Seq<A>, f: spec_fn(A) -> nat, c: int)
    requires
        0 <= c <= s.len(),
    ensures
        sum_of(s, f) == sum_of(s.take(c), f) + sum_of(s.skip(c), f),
    decreases s.len(),
{
    if c == s.len() {
        assert(s.take(c) =~= s);
        assert(s.skip(c) =~= Seq::<A>::empty());
    } else {
        lemma_sum_split(s.drop_last(), f, c);
        assert(s.drop_last().take(c) =~= s.take(c));
        assert(s.skip(c).drop_last() =~= s.drop_last().skip(c));
        assert(s.skip(c).last() == s.last());
    }
}

} // verus!
