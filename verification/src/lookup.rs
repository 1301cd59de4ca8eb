//! Lists that are sorted by translation keys.
use crate::key::CanonicalKey;
use crate::sort;
use crate::sort::Ranked;
use crate::text;
use vstd::prelude::*;

verus! {

/// Values that are sorted by a key before anything else.
pub trait Keyed: Ranked {
    spec fn key_of(value: Self::V) -> Seq<char>;

    proof fn ahead_by_key(first: Self::V, second: Self::V)
        ensures
            text::precedes(Self::key_of(first), Self::key_of(second)) ==> Self::ahead(
                first,
                second,
            ),
    ;

    fn key(&self) -> (key: &CanonicalKey)
        ensures
            key@ == Self::key_of(self.deep_view()),
    ;
}

/// Whether an item has this key.
pub open spec fn of_key<T: Keyed>(key: Seq<char>) -> spec_fn(T::V) -> bool {
    |item: T::V| T::key_of(item) == key
}

/// The items with a key.
pub open spec fn with_key<T: Keyed>(items: Seq<T::V>, key: Seq<char>) -> Seq<T::V> {
    sort::kept(items, of_key::<T>(key))
}

/// The items that `keep` holds of, which `is_kept` decides.
pub(crate) fn select<'a, T: DeepView, F: Fn(&T) -> bool>(
    items: &'a [T],
    is_kept: F,
    Ghost(keep): Ghost<spec_fn(T::V) -> bool>,
) -> (found: Vec<&'a T>)
    requires
        forall|item: &T| #[trigger] call_requires(is_kept, (item,)),
        forall|item: &T, found: bool|
            call_ensures(is_kept, (item,), found) ==> found == keep(item.deep_view()),
    ensures
        found.deep_view() == sort::kept(items.deep_view(), keep),
{
    let ghost all = items.deep_view();
    let mut found: Vec<&'a T> = Vec::new();
    assert(found.deep_view() =~= Seq::<T::V>::empty());
    assert(all.take(0) =~= Seq::<T::V>::empty());
    let mut n: usize = 0;
    while n < items.len()
        invariant
            n <= items@.len(),
            all == items.deep_view(),
            forall|item: &T| #[trigger] call_requires(is_kept, (item,)),
            forall|item: &T, found: bool|
                call_ensures(is_kept, (item,), found) ==> found == keep(item.deep_view()),
            found.deep_view() == sort::kept(all.take(n as int), keep),
        decreases items@.len() - n,
    {
        let ghost before = found.deep_view();
        assert(all[n as int] == items@[n as int].deep_view());
        assert(all.take(n + 1) =~= all.take(n as int).push(all[n as int]));
        proof {
            sort::lemma_kept_push(all.take(n as int), all[n as int], keep);
        }
        if is_kept(&items[n]) {
            found.push(&items[n]);
            assert(found.deep_view() =~= before.push(all[n as int]));
        }
        n += 1;
    }
    assert(all.take(n as int) =~= all);
    found
}

/// A list as a slice.
pub(crate) fn slice_of<T: DeepView>(items: &Vec<T>) -> (slice: &[T])
    ensures
        slice.deep_view() == items.deep_view(),
{
    let slice = items.as_slice();
    assert(slice.deep_view() =~= items.deep_view());
    slice
}

/// All items.
pub(crate) fn all_of<'a, T: DeepView>(items: &'a [T]) -> (found: Vec<&'a T>)
    ensures
        found.deep_view() == items.deep_view(),
{
    let ghost all = items.deep_view();
    let mut found: Vec<&'a T> = Vec::new();
    assert(found.deep_view() =~= all.take(0));
    let mut n: usize = 0;
    while n < items.len()
        invariant
            n <= items@.len(),
            all == items.deep_view(),
            found.deep_view() == all.take(n as int),
        decreases items@.len() - n,
    {
        let ghost before = found.deep_view();
        found.push(&items[n]);
        assert(found.deep_view() =~= before.push(all[n as int]));
        assert(all.take(n + 1) =~= before.push(all[n as int]));
        n += 1;
    }
    assert(all.take(n as int) =~= all);
    found
}

/// What is left when two conditions are applied one after the other.
pub proof fn lemma_kept_both<V>(
    items: Seq<V>,
    first: spec_fn(V) -> bool,
    second: spec_fn(V) -> bool,
    both: spec_fn(V) -> bool,
)
    requires
        forall|item: V| #[trigger] both(item) == (first(item) && second(item)),
    ensures
        sort::kept(sort::kept(items, first), second) == sort::kept(items, both),
    decreases items.len(),
{
    if items.len() > 0 {
        lemma_kept_both(items.drop_last(), first, second, both);
        assert(both(items.last()) == (first(items.last()) && second(items.last())));
        if first(items.last()) {
            sort::lemma_kept_push(
                sort::kept(items.drop_last(), first),
                items.last(),
                second,
            );
        }
    }
}

/// Where the items with a key begin and end in a sorted list.
fn run_of<T: Keyed>(items: &[T], key: &str) -> (run: (usize, usize))
    requires
        sort::is_ordered::<T>(items.deep_view()),
    ensures
        run.0 <= run.1 <= items@.len(),
        items.deep_view().subrange(run.0 as int, run.1 as int) == with_key::<T>(
            items.deep_view(),
            key@,
        ),
{
    let ghost all = items.deep_view();
    let count: usize = items.len();
    let mut low: usize = 0;
    let mut high: usize = count;
    while low < high
        invariant
            low <= high <= count,
            count == items@.len(),
            all == items.deep_view(),
            sort::is_ordered::<T>(all),
            forall|i: int| 0 <= i < low ==> text::precedes(T::key_of(#[trigger] all[i]), key@),
            forall|i: int|
                high <= i < all.len() ==> !text::precedes(T::key_of(#[trigger] all[i]), key@),
        decreases high - low,
    {
        let middle: usize = low + (high - low) / 2;
        assert(all[middle as int] == items@[middle as int].deep_view());
        let ghost at = T::key_of(all[middle as int]);
        if text::less(items[middle].key().as_str(), key) {
            assert forall|i: int| 0 <= i < middle + 1 implies text::precedes(
                T::key_of(#[trigger] all[i]),
                key@,
            ) by {
                if i < middle {
                    T::ahead_by_key(all[middle as int], all[i]);
                    text::precedes_total(T::key_of(all[i]), at);
                    if text::precedes(T::key_of(all[i]), at) {
                        text::precedes_transitive(T::key_of(all[i]), at, key@);
                    }
                }
            }
            low = middle + 1;
        } else {
            assert forall|i: int| middle <= i < all.len() implies !text::precedes(
                T::key_of(#[trigger] all[i]),
                key@,
            ) by {
                if i > middle && text::precedes(T::key_of(all[i]), key@) {
                    T::ahead_by_key(all[i], all[middle as int]);
                    text::precedes_total(T::key_of(all[i]), at);
                    if text::precedes(at, T::key_of(all[i])) {
                        text::precedes_transitive(at, T::key_of(all[i]), key@);
                    }
                }
            }
            high = middle;
        }
    }
    let start: usize = low;
    let mut end: usize = low;
    while end < count && text::same(items[end].key().as_str(), key)
        invariant
            start <= end <= count,
            count == items@.len(),
            all == items.deep_view(),
            forall|i: int| start <= i < end ==> T::key_of(#[trigger] all[i]) == key@,
        decreases count - end,
    {
        assert(all[end as int] == items@[end as int].deep_view());
        end += 1;
    }
    proof {
        assert(end < count ==> all[end as int] == items@[end as int].deep_view());
        let keep = of_key::<T>(key@);
        let front = all.take(start as int);
        let run = all.subrange(start as int, end as int);
        let back = all.skip(end as int);
        assert forall|i: int| 0 <= i < front.len() implies !keep(#[trigger] front[i]) by {
            assert(text::precedes(T::key_of(all[i]), key@));
            text::precedes_irreflexive(key@);
        }
        assert forall|i: int| 0 <= i < back.len() implies !keep(#[trigger] back[i]) by {
            let j = i + end;
            if T::key_of(all[j]) == key@ && j > end {
                let stop = T::key_of(all[end as int]);
                assert(!text::precedes(stop, key@));
                text::precedes_total(stop, key@);
                T::ahead_by_key(all[j], all[end as int]);
            }
        }
        assert forall|i: int| 0 <= i < run.len() implies keep(#[trigger] run[i]) by {
            assert(T::key_of(all[i + start]) == key@);
        }
        sort::lemma_kept_all(front, keep);
        sort::lemma_kept_all(run, keep);
        sort::lemma_kept_all(back, keep);
        assert(all =~= front + run + back);
        sort::lemma_kept_add(front + run, back, keep);
        sort::lemma_kept_add(front, run, keep);
        assert(with_key::<T>(all, key@) =~= run);
    }
    (start, end)
}

/// The items with a key, in a sorted list.
pub fn find_key<'a, T: Keyed>(items: &'a [T], key: &str) -> (found: &'a [T])
    requires
        sort::is_ordered::<T>(items.deep_view()),
    ensures
        found.deep_view() == with_key::<T>(items.deep_view(), key@),
{
    let (start, end): (usize, usize) = run_of(items, key);
    let found = vstd::slice::slice_subrange(items, start, end);
    assert(found.deep_view() =~= items.deep_view().subrange(start as int, end as int));
    found
}

} // verus!
