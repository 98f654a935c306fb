//! What the items of a list add up to, whatever their order.
use vstd::multiset::Multiset;
use vstd::prelude::*;

verus! {

/// All that the items of a list give.
pub open spec fn gathered<A, B>(items: Seq<A>, each: spec_fn(A) -> Multiset<B>) -> Multiset<B>
    decreases items.len(),
{
    if items.len() == 0 {
        Multiset::empty()
    } else {
        gathered(items.drop_last(), each).add(each(items.last()))
    }
}

proof fn lemma_gathered_without<A, B>(items: Seq<A>, each: spec_fn(A) -> Multiset<B>, i: int)
    requires
        0 <= i < items.len(),
    ensures
        gathered(items, each) == gathered(items.remove(i), each).add(each(items[i])),
    decreases items.len(),
{
    let last = items.len() - 1;
    if i == last {
        assert(items.remove(i) =~= items.drop_last());
    } else {
        lemma_gathered_without(items.drop_last(), each, i);
        let rest = items.remove(i);
        assert(rest.drop_last() =~= items.drop_last().remove(i));
        assert(rest.last() == items.last());
        assert(gathered(items, each) =~= gathered(rest, each).add(each(items[i])));
    }
}

/// A list and the same list in another order give the same.
pub proof fn lemma_gathered_in_any_order<A, B>(
    a: Seq<A>,
    b: Seq<A>,
    each: spec_fn(A) -> Multiset<B>,
)
    requires
        a.to_multiset() == b.to_multiset(),
    ensures
        gathered(a, each) == gathered(b, each),
    decreases a.len(),
{
    broadcast use vstd::seq_lib::group_to_multiset_ensures;

    vstd::seq_lib::to_multiset_len(a);
    vstd::seq_lib::to_multiset_len(b);
    if a.len() > 0 {
        lemma_same_items(a, b, a.last());
        let i = choose|i: int| 0 <= i < b.len() && b[i] == a.last();
        lemma_gathered_without(b, each, i);
        assert(a.drop_last() =~= a.remove(a.len() - 1));
        assert(a.drop_last().to_multiset() =~= b.remove(i).to_multiset());
        lemma_gathered_in_any_order(a.drop_last(), b.remove(i), each);
    }
}

/// Lists are alike where their items give the same.
pub proof fn lemma_gathered_alike<A, B>(
    items: Seq<A>,
    each: spec_fn(A) -> Multiset<B>,
    other: spec_fn(A) -> Multiset<B>,
)
    requires
        forall|i: int| 0 <= i < items.len() ==> each(#[trigger] items[i]) == other(items[i]),
    ensures
        gathered(items, each) == gathered(items, other),
    decreases items.len(),
{
    if items.len() > 0 {
        let rest = items.drop_last();
        assert forall|i: int| 0 <= i < rest.len() implies each(#[trigger] rest[i]) == other(
            rest[i],
        ) by {
            assert(rest[i] == items[i]);
        }
        lemma_gathered_alike(rest, each, other);
        assert(each(items[items.len() - 1]) == other(items[items.len() - 1]));
    }
}

/// One more item gives what it gives.
pub proof fn lemma_gathered_step<A, B>(items: Seq<A>, each: spec_fn(A) -> Multiset<B>, n: int)
    requires
        0 < n <= items.len(),
    ensures
        gathered(items.take(n), each) == gathered(items.take(n - 1), each).add(each(items[n - 1])),
{
    assert(items.take(n).drop_last() =~= items.take(n - 1));
}

/// What is in one list is in the same list in another order.
pub proof fn lemma_same_items<A>(a: Seq<A>, b: Seq<A>, item: A)
    requires
        a.to_multiset() == b.to_multiset(),
    ensures
        a.contains(item) <==> b.contains(item),
{
    vstd::seq_lib::to_multiset_contains(a, item);
    vstd::seq_lib::to_multiset_contains(b, item);
}

} // verus!
