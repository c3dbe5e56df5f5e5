//! The union of multisets over the items of a sequence.

use vstd::multiset::Multiset;
use vstd::prelude::*;

verus! {

/// The union of the multisets that `each` gives for the items of a
/// sequence, an item that occurs twice counted twice.
pub open spec fn gather<T, A>(items: Seq<T>, each: spec_fn(T) -> Multiset<A>) -> Multiset<A>
    decreases items.len(),
{
    if items.len() == 0 {
        Multiset::empty()
    } else {
        gather(items.drop_last(), each).add(each(items.last()))
    }
}

/// Gathering over the first `n + 1` items adds what the item at `n` gives
/// to what the first `n` items give.
pub proof fn lemma_gather_step<T, A>(items: Seq<T>, each: spec_fn(T) -> Multiset<A>, n: int)
    requires
        0 <= n < items.len(),
    ensures
        gather(items.take(n + 1), each) == gather(items.take(n), each).add(each(items[n])),
{
    assert(items.take(n + 1).drop_last() =~= items.take(n));
}

/// What a prefix gives is part of what the whole sequence gives.
pub proof fn lemma_gather_prefix<T, A>(items: Seq<T>, each: spec_fn(T) -> Multiset<A>, n: int)
    requires
        0 <= n <= items.len(),
    ensures
        gather(items.take(n), each).subset_of(gather(items, each)),
    decreases items.len() - n,
{
    if n == items.len() {
        assert(items.take(n) =~= items);
    } else {
        lemma_gather_step(items, each, n);
        lemma_gather_prefix(items, each, n + 1);
    }
}

/// Two sequences in a row give what the first gives and what the second
/// gives, together.
pub proof fn lemma_gather_concat<T, A>(
    first: Seq<T>,
    second: Seq<T>,
    each: spec_fn(T) -> Multiset<A>,
)
    ensures
        gather(first + second, each) =~= gather(first, each).add(gather(second, each)),
    decreases second.len(),
{
    if second.len() > 0 {
        lemma_gather_concat(first, second.drop_last(), each);
        assert((first + second).drop_last() =~= first + second.drop_last());
    }
}

/// Taking one item out of a sequence takes out what that item gives.
pub proof fn lemma_gather_remove<T, A>(items: Seq<T>, each: spec_fn(T) -> Multiset<A>, at: int)
    requires
        0 <= at < items.len(),
    ensures
        gather(items, each) =~= gather(items.remove(at), each).add(each(items[at])),
    decreases items.len(),
{
    if at < items.len() - 1 {
        lemma_gather_remove(items.drop_last(), each, at);
        assert(items.remove(at).drop_last() =~= items.drop_last().remove(at));
    }
}

/// Two sequences that hold the same items equally often give the same,
/// whatever the order of their items.
pub proof fn lemma_gather_permutation<T, A>(
    first: Seq<T>,
    second: Seq<T>,
    each: spec_fn(T) -> Multiset<A>,
)
    requires
        first.to_multiset() == second.to_multiset(),
    ensures
        gather(first, each) =~= gather(second, each),
    decreases first.len(),
{
    first.to_multiset_ensures();
    second.to_multiset_ensures();
    if first.len() > 0 {
        let item = first.last();
        assert(second.to_multiset().count(item) > 0);
        let at = choose|at: int| 0 <= at < second.len() && second[at] == item;
        assert(first.remove(first.len() - 1) =~= first.drop_last());
        lemma_gather_permutation(first.drop_last(), second.remove(at), each);
        lemma_gather_remove(second, each, at);
    }
}

} // verus!
