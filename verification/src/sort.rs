//! Stable sorting, and filtering, of lists.
use vstd::prelude::*;

verus! {

/// Values that have an order, in which different values may share a place.
pub trait Ranked: DeepView + Sized {
    /// Whether `first` comes strictly before `second`.
    spec fn ahead(first: Self::V, second: Self::V) -> bool;

    proof fn ahead_one_way(first: Self::V, second: Self::V)
        ensures
            !(Self::ahead(first, second) && Self::ahead(second, first)),
    ;

    proof fn ahead_through(first: Self::V, second: Self::V, third: Self::V)
        requires
            !Self::ahead(second, first),
            !Self::ahead(third, second),
        ensures
            !Self::ahead(third, first),
    ;

    /// Whether this comes strictly before `other`.
    fn is_ahead(&self, other: &Self) -> (found: bool)
        ensures
            found == Self::ahead(self.deep_view(), other.deep_view()),
    ;
}

/// Two sorted lists in one, with those of the first before those of the second that share their
/// place.
pub open spec fn merged<T: Ranked>(first: Seq<T::V>, second: Seq<T::V>) -> Seq<T::V>
    decreases first.len() + second.len(),
{
    if first.len() == 0 {
        second
    } else if second.len() == 0 {
        first
    } else if T::ahead(second.last(), first.last()) {
        merged::<T>(first.drop_last(), second).push(first.last())
    } else {
        merged::<T>(first, second.drop_last()).push(second.last())
    }
}

/// The items in order, with those that share a place as they were.
pub open spec fn sorted<T: Ranked>(items: Seq<T::V>) -> Seq<T::V>
    decreases items.len(),
{
    if items.len() <= 1 {
        items
    } else {
        let half = (items.len() / 2) as int;
        merged::<T>(sorted::<T>(items.take(half)), sorted::<T>(items.skip(half)))
    }
}

/// Whether no item comes strictly before one that stands before it.
pub open spec fn is_ordered<T: Ranked>(items: Seq<T::V>) -> bool {
    forall|i: int, j: int| 0 <= i < j < items.len() ==> !T::ahead(items[j], items[i])
}

/// The items that `keep` holds of, in their order.
pub open spec fn kept<V>(items: Seq<V>, keep: spec_fn(V) -> bool) -> Seq<V>
    decreases items.len(),
{
    if items.len() == 0 {
        Seq::empty()
    } else if keep(items.last()) {
        kept(items.drop_last(), keep).push(items.last())
    } else {
        kept(items.drop_last(), keep)
    }
}

pub proof fn lemma_kept_add<V>(first: Seq<V>, second: Seq<V>, keep: spec_fn(V) -> bool)
    ensures
        kept(first + second, keep) == kept(first, keep) + kept(second, keep),
    decreases second.len(),
{
    if second.len() == 0 {
        assert(first + second =~= first);
        assert(kept(first, keep) + kept(second, keep) =~= kept(first, keep));
    } else {
        assert((first + second).drop_last() =~= first + second.drop_last());
        lemma_kept_add(first, second.drop_last(), keep);
        assert(kept(first + second, keep) =~= kept(first, keep) + kept(second, keep));
    }
}

/// One item more.
pub proof fn lemma_kept_push<V>(items: Seq<V>, item: V, keep: spec_fn(V) -> bool)
    ensures
        kept(items.push(item), keep) == if keep(item) {
            kept(items, keep).push(item)
        } else {
            kept(items, keep)
        },
{
    assert(items.push(item).drop_last() =~= items);
}

/// Where `keep` holds of nothing, nothing is kept; where of everything, all.
pub proof fn lemma_kept_all<V>(items: Seq<V>, keep: spec_fn(V) -> bool)
    ensures
        (forall|i: int| 0 <= i < items.len() ==> !keep(#[trigger] items[i])) ==> kept(items, keep)
            == Seq::<V>::empty(),
        (forall|i: int| 0 <= i < items.len() ==> keep(#[trigger] items[i])) ==> kept(items, keep)
            == items,
    decreases items.len(),
{
    if items.len() > 0 {
        lemma_kept_all(items.drop_last(), keep);
        assert forall|i: int| 0 <= i < items.len() - 1 implies items.drop_last()[i]
            == #[trigger] items[i] by {}
        assert(items.drop_last().push(items.last()) =~= items);
        if forall|i: int| 0 <= i < items.len() ==> keep(#[trigger] items[i]) {
            assert(keep(items[items.len() - 1]));
            assert forall|i: int| 0 <= i < items.drop_last().len() implies keep(
                #[trigger] items.drop_last()[i],
            ) by {
                assert(keep(items[i]));
            }
        }
        if forall|i: int| 0 <= i < items.len() ==> !keep(#[trigger] items[i]) {
            assert(!keep(items[items.len() - 1]));
            assert forall|i: int| 0 <= i < items.drop_last().len() implies !keep(
                #[trigger] items.drop_last()[i],
            ) by {
                assert(!keep(items[i]));
            }
        }
    }
}

/// What holds of all items holds of those that are kept.
pub proof fn lemma_kept_from<V>(
    items: Seq<V>,
    keep: spec_fn(V) -> bool,
    holds: spec_fn(V) -> bool,
)
    requires
        forall|i: int| 0 <= i < items.len() ==> holds(#[trigger] items[i]),
    ensures
        forall|i: int| 0 <= i < kept(items, keep).len() ==> holds(#[trigger] kept(items, keep)[i]),
    decreases items.len(),
{
    if items.len() > 0 {
        assert forall|i: int| 0 <= i < items.drop_last().len() implies holds(
            #[trigger] items.drop_last()[i],
        ) by {
            assert(holds(items[i]));
        }
        lemma_kept_from(items.drop_last(), keep, holds);
        assert(holds(items[items.len() - 1]));
        let front = kept(items.drop_last(), keep);
        assert forall|i: int| 0 <= i < kept(items, keep).len() implies holds(
            #[trigger] kept(items, keep)[i],
        ) by {
            if i < front.len() {
                assert(holds(front[i]));
            }
        }
    }
}

/// What is kept of items in order is in order.
pub proof fn lemma_kept_ordered<T: Ranked>(items: Seq<T::V>, keep: spec_fn(T::V) -> bool)
    requires
        is_ordered::<T>(items),
    ensures
        is_ordered::<T>(kept(items, keep)),
    decreases items.len(),
{
    if items.len() > 0 {
        let top = items.last();
        lemma_kept_ordered::<T>(items.drop_last(), keep);
        let holds = |v: T::V| !T::ahead(top, v);
        assert forall|i: int| 0 <= i < items.drop_last().len() implies holds(
            #[trigger] items.drop_last()[i],
        ) by {
            assert(!T::ahead(items[items.len() - 1], items[i]));
        }
        lemma_kept_from(items.drop_last(), keep, holds);
        let front = kept(items.drop_last(), keep);
        assert forall|i: int, j: int| 0 <= i < j < kept(items, keep).len() implies !T::ahead(
            kept(items, keep)[j],
            kept(items, keep)[i],
        ) by {
            if j == front.len() {
                assert(holds(front[i]));
            }
        }
    }
}

proof fn lemma_merged_all<T: Ranked>(
    first: Seq<T::V>,
    second: Seq<T::V>,
    holds: spec_fn(T::V) -> bool,
)
    requires
        forall|i: int| 0 <= i < first.len() ==> holds(#[trigger] first[i]),
        forall|i: int| 0 <= i < second.len() ==> holds(#[trigger] second[i]),
    ensures
        forall|i: int|
            0 <= i < merged::<T>(first, second).len() ==> holds(
                #[trigger] merged::<T>(first, second)[i],
            ),
    decreases first.len() + second.len(),
{
    if first.len() > 0 && second.len() > 0 {
        let all = merged::<T>(first, second);
        if T::ahead(second.last(), first.last()) {
            let front = merged::<T>(first.drop_last(), second);
            assert forall|i: int| 0 <= i < first.drop_last().len() implies holds(
                #[trigger] first.drop_last()[i],
            ) by {
                assert(holds(first[i]));
            }
            lemma_merged_all::<T>(first.drop_last(), second, holds);
            assert forall|i: int| 0 <= i < all.len() implies holds(#[trigger] all[i]) by {
                if i < front.len() {
                    assert(holds(front[i]));
                } else {
                    assert(holds(first[first.len() - 1]));
                }
            }
        } else {
            let front = merged::<T>(first, second.drop_last());
            assert forall|i: int| 0 <= i < second.drop_last().len() implies holds(
                #[trigger] second.drop_last()[i],
            ) by {
                assert(holds(second[i]));
            }
            lemma_merged_all::<T>(first, second.drop_last(), holds);
            assert forall|i: int| 0 <= i < all.len() implies holds(#[trigger] all[i]) by {
                if i < front.len() {
                    assert(holds(front[i]));
                } else {
                    assert(holds(second[second.len() - 1]));
                }
            }
        }
    }
}

proof fn lemma_merged<T: Ranked>(first: Seq<T::V>, second: Seq<T::V>)
    requires
        is_ordered::<T>(first),
        is_ordered::<T>(second),
    ensures
        is_ordered::<T>(merged::<T>(first, second)),
        merged::<T>(first, second).to_multiset() == first.to_multiset().add(second.to_multiset()),
    decreases first.len() + second.len(),
{
    broadcast use vstd::seq_lib::group_to_multiset_ensures;

    if first.len() == 0 {
        assert(first.to_multiset() =~= vstd::multiset::Multiset::empty());
        assert(merged::<T>(first, second).to_multiset() =~= first.to_multiset().add(
            second.to_multiset(),
        ));
    } else if second.len() == 0 {
        assert(second.to_multiset() =~= vstd::multiset::Multiset::empty());
        assert(merged::<T>(first, second).to_multiset() =~= first.to_multiset().add(
            second.to_multiset(),
        ));
    } else if T::ahead(second.last(), first.last()) {
        let top = first.last();
        lemma_merged::<T>(first.drop_last(), second);
        assert forall|i: int| 0 <= i < second.len() implies !T::ahead(
            top,
            #[trigger] second[i],
        ) by {
            T::ahead_one_way(second.last(), top);
            if i < second.len() - 1 {
                T::ahead_through(second[i], second.last(), top);
            }
        }
        lemma_merged_all::<T>(first.drop_last(), second, |v: T::V| !T::ahead(top, v));
        assert(first =~= first.drop_last().push(top));
        assert(merged::<T>(first, second).to_multiset() =~= first.to_multiset().add(
            second.to_multiset(),
        ));
    } else {
        let top = second.last();
        lemma_merged::<T>(first, second.drop_last());
        assert forall|i: int| 0 <= i < first.len() implies !T::ahead(top, #[trigger] first[i]) by {
            if i < first.len() - 1 {
                T::ahead_through(first[i], first.last(), top);
            }
        }
        lemma_merged_all::<T>(first, second.drop_last(), |v: T::V| !T::ahead(top, v));
        assert(second =~= second.drop_last().push(top));
        assert(merged::<T>(first, second).to_multiset() =~= first.to_multiset().add(
            second.to_multiset(),
        ));
    }
}

/// A sorted list is in order and holds the same items.
pub proof fn sorting_orders<T: Ranked>(items: Seq<T::V>)
    ensures
        is_ordered::<T>(sorted::<T>(items)),
        sorted::<T>(items).to_multiset() == items.to_multiset(),
    decreases items.len(),
{
    if items.len() > 1 {
        let half = (items.len() / 2) as int;
        sorting_orders::<T>(items.take(half));
        sorting_orders::<T>(items.skip(half));
        lemma_merged::<T>(sorted::<T>(items.take(half)), sorted::<T>(items.skip(half)));
        assert(items =~= items.take(half) + items.skip(half));
        vstd::seq_lib::lemma_multiset_commutative(items.take(half), items.skip(half));
    }
}

proof fn lemma_merged_stable<T: Ranked>(
    first: Seq<T::V>,
    second: Seq<T::V>,
    class: spec_fn(T::V) -> bool,
)
    requires
        is_ordered::<T>(first),
        is_ordered::<T>(second),
        forall|a: T::V, b: T::V|
            #![trigger class(a), class(b)]
            class(a) && class(b) ==> !T::ahead(a, b),
    ensures
        kept(merged::<T>(first, second), class) == kept(first, class) + kept(second, class),
    decreases first.len() + second.len(),
{
    if first.len() == 0 {
        assert(kept(first, class) + kept(second, class) =~= kept(second, class));
    } else if second.len() == 0 {
        assert(kept(first, class) + kept(second, class) =~= kept(first, class));
    } else if T::ahead(second.last(), first.last()) {
        let top = first.last();
        lemma_merged_stable::<T>(first.drop_last(), second, class);
        lemma_kept_push(merged::<T>(first.drop_last(), second), top, class);
        if class(top) {
            assert forall|i: int| 0 <= i < second.len() implies !class(#[trigger] second[i]) by {
                if class(second[i]) {
                    assert(!T::ahead(second[i], top));
                    if i < second.len() - 1 {
                        T::ahead_through(top, second[i], second.last());
                    }
                }
            }
            lemma_kept_all(second, class);
        }
        assert(kept(merged::<T>(first, second), class) =~= kept(first, class) + kept(
            second,
            class,
        ));
    } else {
        lemma_merged_stable::<T>(first, second.drop_last(), class);
        lemma_kept_push(merged::<T>(first, second.drop_last()), second.last(), class);
        assert(kept(merged::<T>(first, second), class) =~= kept(first, class) + kept(
            second,
            class,
        ));
    }
}

/// Items none of which comes before another keep their order when they are sorted.
pub proof fn sorting_is_stable<T: Ranked>(items: Seq<T::V>, class: spec_fn(T::V) -> bool)
    requires
        forall|a: T::V, b: T::V|
            #![trigger class(a), class(b)]
            class(a) && class(b) ==> !T::ahead(a, b),
    ensures
        kept(sorted::<T>(items), class) == kept(items, class),
    decreases items.len(),
{
    if items.len() > 1 {
        let half = (items.len() / 2) as int;
        sorting_is_stable::<T>(items.take(half), class);
        sorting_is_stable::<T>(items.skip(half), class);
        sorting_orders::<T>(items.take(half));
        sorting_orders::<T>(items.skip(half));
        lemma_merged_stable::<T>(
            sorted::<T>(items.take(half)),
            sorted::<T>(items.skip(half)),
            class,
        );
        assert(items =~= items.take(half) + items.skip(half));
        lemma_kept_add(items.take(half), items.skip(half), class);
    }
}

/// The items in the opposite order.
fn turned<T: Ranked>(items: Vec<T>) -> (result: Vec<T>)
    ensures
        result.deep_view() == items.deep_view().reverse(),
{
    let ghost all = items.deep_view().reverse();
    let mut rest = items;
    let mut result: Vec<T> = Vec::new();
    assert(result.deep_view() + rest.deep_view().reverse() =~= all);
    loop
        invariant
            all == items.deep_view().reverse(),
            result.deep_view() + rest.deep_view().reverse() == all,
        decreases rest@.len(),
    {
        let ghost before = rest.deep_view();
        let ghost front = result.deep_view();
        match rest.pop() {
            None => {
                assert(result.deep_view() =~= all);
                return result;
            },
            Some(item) => {
                assert(rest.deep_view() =~= before.drop_last());
                assert(before.last() == item.deep_view());
                result.push(item);
                assert(result.deep_view() =~= front.push(before.last()));
                assert(result.deep_view() + rest.deep_view().reverse() =~= front
                    + before.reverse());
            },
        }
    }
}

/// Two sorted lists in one.
fn merge<T: Ranked>(first: Vec<T>, second: Vec<T>) -> (result: Vec<T>)
    ensures
        result.deep_view() == merged::<T>(first.deep_view(), second.deep_view()),
{
    let ghost all = merged::<T>(first.deep_view(), second.deep_view());
    let mut lower = first;
    let mut upper = second;
    let mut back: Vec<T> = Vec::new();
    assert(all + back.deep_view().reverse() =~= all);
    loop
        invariant
            all == merged::<T>(first.deep_view(), second.deep_view()),
            merged::<T>(lower.deep_view(), upper.deep_view()) + back.deep_view().reverse() == all,
        decreases lower@.len() + upper@.len(),
    {
        let ghost left = lower.deep_view();
        let ghost right = upper.deep_view();
        let ghost done = back.deep_view();
        let from_first: bool = if lower.len() == 0 {
            false
        } else if upper.len() == 0 {
            true
        } else {
            assert(left.last() == lower@.last().deep_view());
            assert(right.last() == upper@.last().deep_view());
            upper[upper.len() - 1].is_ahead(&lower[lower.len() - 1])
        };
        if from_first {
            if let Some(item) = lower.pop() {
                assert(lower.deep_view() =~= left.drop_last());
                back.push(item);
                assert(back.deep_view() =~= done.push(left.last()));
            }
            assert(merged::<T>(left, right) =~= merged::<T>(left.drop_last(), right).push(
                left.last(),
            ));
        } else {
            match upper.pop() {
                None => {
                    assert(left.len() == 0);
                    assert(all =~= done.reverse());
                    return turned(back);
                },
                Some(item) => {
                    assert(upper.deep_view() =~= right.drop_last());
                    back.push(item);
                    assert(back.deep_view() =~= done.push(right.last()));
                    assert(merged::<T>(left, right) =~= merged::<T>(left, right.drop_last()).push(
                        right.last(),
                    ));
                },
            }
        }
        assert(merged::<T>(lower.deep_view(), upper.deep_view()) + back.deep_view().reverse()
            =~= merged::<T>(left, right) + done.reverse());
    }
}

/// The items in order, with those that share a place as they were.
pub fn sort<T: Ranked>(items: Vec<T>) -> (result: Vec<T>)
    ensures
        result.deep_view() == sorted::<T>(items.deep_view()),
    decreases items@.len(),
{
    let count: usize = items.len();
    if count <= 1 {
        return items;
    }
    let ghost all = items.deep_view();
    let half: usize = count / 2;
    let mut first = items;
    let second = first.split_off(half);
    assert(first.deep_view() =~= all.take(half as int));
    assert(second.deep_view() =~= all.skip(half as int));
    merge(sort(first), sort(second))
}

} // verus!
