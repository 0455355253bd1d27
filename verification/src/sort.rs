//! A stable sort.

use vstd::prelude::*;

verus! {

/// An order of items: whether the first comes before the second or ties with it.
pub type Rank<T> = spec_fn(T, T) -> bool;

/// Every two items are in order one way or the other, and the order is transitive.
pub open spec fn is_total_order<T>(rank: Rank<T>) -> bool {
    &&& forall|a: T, b: T| #[trigger] rank(a, b) || rank(b, a)
    &&& forall|a: T, b: T, c: T| #[trigger] rank(a, b) && #[trigger] rank(b, c) ==> rank(a, c)
}

/// `item` put into a sorted sequence, before the first item that it ranks before or ties with.
pub open spec fn put<T>(sorted: Seq<T>, item: T, rank: Rank<T>) -> Seq<T>
    decreases sorted.len(),
{
    if sorted.len() == 0 || rank(item, sorted[0]) {
        seq![item] + sorted
    } else {
        seq![sorted[0]] + put(sorted.skip(1), item, rank)
    }
}

/// The items in order, those that tie in the order in which they stand in `items`.
pub open spec fn stable_sort<T>(items: Seq<T>, rank: Rank<T>) -> Seq<T>
    decreases items.len(),
{
    if items.len() == 0 {
        items
    } else {
        put(stable_sort(items.skip(1), rank), items[0], rank)
    }
}

pub open spec fn is_sorted<T>(items: Seq<T>, rank: Rank<T>) -> bool {
    forall|i: int, j: int|
        0 <= i < j < items.len() ==> rank(#[trigger] items[i], #[trigger] items[j])
}

proof fn lemma_put_is_insert<T>(sorted: Seq<T>, item: T, rank: Rank<T>, at: int)
    requires
        0 <= at <= sorted.len(),
        forall|j: int| 0 <= j < at ==> !rank(item, #[trigger] sorted[j]),
        at < sorted.len() ==> rank(item, sorted[at]),
    ensures
        put(sorted, item, rank) == sorted.insert(at, item),
    decreases sorted.len(),
{
    if at == 0 {
        assert(seq![item] + sorted =~= sorted.insert(0, item));
    } else {
        assert(!rank(item, sorted[0]));
        let rest = sorted.skip(1);
        assert forall|j: int| 0 <= j < at - 1 implies !rank(item, #[trigger] rest[j]) by {
            assert(rest[j] == sorted[j + 1]);
        }
        lemma_put_is_insert(rest, item, rank, at - 1);
        assert(seq![sorted[0]] + rest.insert(at - 1, item) =~= sorted.insert(at, item));
    }
}

proof fn lemma_put<T>(sorted: Seq<T>, item: T, rank: Rank<T>)
    requires
        is_total_order(rank),
        is_sorted(sorted, rank),
    ensures
        is_sorted(put(sorted, item, rank), rank),
        put(sorted, item, rank).to_multiset() == sorted.to_multiset().insert(item),
        put(sorted, item, rank).len() == sorted.len() + 1,
        forall|x: T|
            #[trigger] put(sorted, item, rank).contains(x) ==> x == item || sorted.contains(x),
    decreases sorted.len(),
{
    broadcast use vstd::seq_lib::group_to_multiset_ensures;

    let result = put(sorted, item, rank);
    if sorted.len() == 0 || rank(item, sorted[0]) {
        assert(result =~= sorted.insert(0, item));
        vstd::seq_lib::to_multiset_insert(sorted, 0, item);
        assert forall|i: int, j: int| 0 <= i < j < result.len() implies rank(
            #[trigger] result[i],
            #[trigger] result[j],
        ) by {
            if i == 0 && j > 1 {
                assert(rank(sorted[0], sorted[j - 1]));
            } else if i > 0 {
                assert(rank(sorted[i - 1], sorted[j - 1]));
            }
        }
        assert forall|x: T| #[trigger] result.contains(x) implies x == item || sorted.contains(x) by {
            let k = choose|k: int| 0 <= k < result.len() && result[k] == x;
            if k > 0 {
                assert(sorted[k - 1] == x);
            }
        }
    } else {
        let rest = sorted.skip(1);
        assert forall|i: int, j: int| 0 <= i < j < rest.len() implies rank(
            #[trigger] rest[i],
            #[trigger] rest[j],
        ) by {
            assert(rank(sorted[i + 1], sorted[j + 1]));
        }
        lemma_put(rest, item, rank);
        let tail = put(rest, item, rank);
        assert forall|i: int, j: int| 0 <= i < j < result.len() implies rank(
            #[trigger] result[i],
            #[trigger] result[j],
        ) by {
            if i == 0 {
                assert(tail.contains(tail[j - 1]));
                if tail[j - 1] != item {
                    let k = choose|k: int| 0 <= k < rest.len() && rest[k] == tail[j - 1];
                    assert(rank(sorted[0], sorted[k + 1]));
                }
            } else {
                assert(rank(tail[i - 1], tail[j - 1]));
            }
        }
        assert(result =~= tail.insert(0, sorted[0]));
        vstd::seq_lib::to_multiset_insert(tail, 0, sorted[0]);
        assert(sorted =~= rest.insert(0, sorted[0]));
        vstd::seq_lib::to_multiset_insert(rest, 0, sorted[0]);
        assert(result.to_multiset() =~= sorted.to_multiset().insert(item));
        assert forall|x: T| #[trigger] result.contains(x) implies x == item || sorted.contains(x) by {
            let k = choose|k: int| 0 <= k < result.len() && result[k] == x;
            if k == 0 {
                assert(sorted[0] == x);
            } else {
                assert(tail.contains(tail[k - 1]));
                if x != item {
                    let m = choose|m: int| 0 <= m < rest.len() && rest[m] == x;
                    assert(sorted[m + 1] == x);
                }
            }
        }
    }
}

/// A sort puts the items in order, and loses and adds none.
pub proof fn lemma_stable_sort<T>(items: Seq<T>, rank: Rank<T>)
    requires
        is_total_order(rank),
    ensures
        is_sorted(stable_sort(items, rank), rank),
        stable_sort(items, rank).to_multiset() == items.to_multiset(),
        stable_sort(items, rank).len() == items.len(),
    decreases items.len(),
{
    if items.len() > 0 {
        let rest = items.skip(1);
        lemma_stable_sort(rest, rank);
        lemma_put(stable_sort(rest, rank), items[0], rank);
        assert(items =~= rest.insert(0, items[0]));
        vstd::seq_lib::to_multiset_insert(rest, 0, items[0]);
    }
}

/// A sort keeps the number of items, whatever the order.
pub proof fn lemma_sort_len<T>(items: Seq<T>, rank: Rank<T>)
    ensures
        stable_sort(items, rank).len() == items.len(),
    decreases items.len(),
{
    if items.len() > 0 {
        lemma_sort_len(items.skip(1), rank);
        lemma_put_len(stable_sort(items.skip(1), rank), items[0], rank);
    }
}

proof fn lemma_put_len<T>(sorted: Seq<T>, item: T, rank: Rank<T>)
    ensures
        put(sorted, item, rank).len() == sorted.len() + 1,
    decreases sorted.len(),
{
    if sorted.len() > 0 {
        lemma_put_len(sorted.skip(1), item, rank);
    }
}

/// The items that tie with `item`, in the order in which they stand.
pub open spec fn ties<T>(items: Seq<T>, item: T, rank: Rank<T>) -> Seq<T> {
    items.filter(|x: T| rank(x, item) && rank(item, x))
}

proof fn lemma_put_ties<T>(sorted: Seq<T>, new: T, rank: Rank<T>, item: T)
    requires
        is_total_order(rank),
    ensures
        ties(put(sorted, new, rank), item, rank) == ties(seq![new] + sorted, item, rank),
    decreases sorted.len(),
{
    let tied = |x: T| rank(x, item) && rank(item, x);
    if sorted.len() > 0 && !rank(new, sorted[0]) {
        let first = sorted[0];
        let rest = sorted.skip(1);
        lemma_put_ties(rest, new, rank, item);
        assert(sorted =~= seq![first] + rest);
        Seq::filter_distributes_over_add(seq![first], put(rest, new, rank), tied);
        Seq::filter_distributes_over_add(seq![new], rest, tied);
        Seq::filter_distributes_over_add(seq![first], rest, tied);
        Seq::filter_distributes_over_add(seq![new], sorted, tied);
        lemma_filter_one(first, tied);
        lemma_filter_one(new, tied);
        if tied(new) && tied(first) {
            assert(rank(new, item) && rank(item, first));
        }
        assert(ties(put(sorted, new, rank), item, rank) =~= ties(seq![new] + sorted, item, rank));
    }
}

proof fn lemma_filter_one<T>(item: T, keep: spec_fn(T) -> bool)
    ensures
        seq![item].filter(keep) == if keep(item) {
            seq![item]
        } else {
            Seq::empty()
        },
{
    reveal(Seq::filter);
    assert(seq![item].drop_last() =~= Seq::<T>::empty());
    assert(Seq::<T>::empty().filter(keep) =~= Seq::<T>::empty());
    assert(seq![item].filter(keep) =~= if keep(item) {
        seq![item]
    } else {
        Seq::empty()
    });
}

/// A sort leaves the items that tie in the order in which they stood.
pub proof fn lemma_stable_sort_is_stable<T>(items: Seq<T>, rank: Rank<T>, item: T)
    requires
        is_total_order(rank),
    ensures
        ties(stable_sort(items, rank), item, rank) == ties(items, item, rank),
    decreases items.len(),
{
    if items.len() > 0 {
        let tied = |x: T| rank(x, item) && rank(item, x);
        let rest = items.skip(1);
        lemma_stable_sort_is_stable(rest, rank, item);
        lemma_put_ties(stable_sort(rest, rank), items[0], rank, item);
        Seq::filter_distributes_over_add(seq![items[0]], stable_sort(rest, rank), tied);
        Seq::filter_distributes_over_add(seq![items[0]], rest, tied);
        assert(items =~= seq![items[0]] + rest);
    }
}

proof fn lemma_put_of_views<T, V>(
    sorted: Seq<T>,
    item: T,
    view: spec_fn(T) -> V,
    rank: Rank<T>,
    view_rank: Rank<V>,
)
    requires
        forall|a: T, b: T| #[trigger] rank(a, b) == view_rank(view(a), view(b)),
    ensures
        put(sorted, item, rank).map_values(view) == put(
            sorted.map_values(view),
            view(item),
            view_rank,
        ),
    decreases sorted.len(),
{
    if sorted.len() == 0 || rank(item, sorted[0]) {
        assert((seq![item] + sorted).map_values(view) =~= seq![view(item)] + sorted.map_values(
            view,
        ));
    } else {
        let rest = sorted.skip(1);
        lemma_put_of_views(rest, item, view, rank, view_rank);
        assert(sorted.map_values(view).skip(1) =~= rest.map_values(view));
        assert((seq![sorted[0]] + put(rest, item, rank)).map_values(view) =~= seq![view(sorted[0])]
            + put(rest, item, rank).map_values(view));
    }
}

/// To sort the items and then look at them is to look at them and then sort.
pub proof fn lemma_sort_of_views<T, V>(
    items: Seq<T>,
    view: spec_fn(T) -> V,
    rank: Rank<T>,
    view_rank: Rank<V>,
)
    requires
        forall|a: T, b: T| #[trigger] rank(a, b) == view_rank(view(a), view(b)),
    ensures
        stable_sort(items, rank).map_values(view) == stable_sort(
            items.map_values(view),
            view_rank,
        ),
    decreases items.len(),
{
    if items.len() == 0 {
        assert(items.map_values(view) =~= Seq::<V>::empty());
    } else {
        let rest = items.skip(1);
        lemma_sort_of_views(rest, view, rank, view_rank);
        lemma_put_of_views(stable_sort(rest, rank), items[0], view, rank, view_rank);
        assert(items.map_values(view).skip(1) =~= rest.map_values(view));
    }
}

/// What a sort needs of the items it sorts.
pub trait Ranked: Sized {
    /// Whether `self` comes before `other` or ties with it.
    spec fn ranks(self, other: Self) -> bool;

    fn ranks_before_or_with(&self, other: &Self) -> (yes: bool)
        ensures
            yes == self.ranks(*other),
    ;
}

/// The items in order, those that tie in the order in which they stood.
pub fn sort<T: Ranked>(items: Vec<T>) -> (sorted: Vec<T>)
    ensures
        sorted@ == stable_sort(items@, |a: T, b: T| a.ranks(b)),
{
    let ghost all = items@;
    let ghost rank = |a: T, b: T| a.ranks(b);
    let mut left = items;
    let mut sorted: Vec<T> = Vec::new();
    assert(all.skip(all.len() as int) =~= Seq::<T>::empty());
    while left.len() > 0
        invariant
            rank == (|a: T, b: T| a.ranks(b)),
            left@ == all.take(left@.len() as int),
            left@.len() <= all.len(),
            sorted@ == stable_sort(all.skip(left@.len() as int), rank),
        decreases left@.len(),
    {
        let ghost n = left@.len() as int;
        let item = match left.pop() {
            Some(item) => item,
            None => return sorted,
        };
        assert(item == all[n - 1]);
        let mut at: usize = 0;
        while at < sorted.len() && !item.ranks_before_or_with(&sorted[at])
            invariant
                at <= sorted@.len(),
                forall|j: int| 0 <= j < at ==> !item.ranks(#[trigger] sorted@[j]),
            decreases sorted@.len() - at,
        {
            at += 1;
        }
        proof {
            lemma_put_is_insert(sorted@, item, rank, at as int);
        }
        sorted.insert(at, item);
        assert(all.skip(n - 1).skip(1) =~= all.skip(n));
        assert(left@ =~= all.take(n - 1));
    }
    assert(all.skip(0) =~= all);
    sorted
}

} // verus!
