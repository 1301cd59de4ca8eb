//! What the index holds: what its files hold, in any order.
use crate::dictionary;
use crate::index;
use crate::lookup;
use crate::sort;
use crate::source;
use vstd::prelude::*;

verus! {

/// Whether a file of the index has this occurrence.
pub open spec fn is_occurrence(
    snapshot: index::SnapshotView,
    occurrence: source::OccurrenceView,
) -> bool {
    exists|f: int|
        0 <= f < snapshot.files.len() && (#[trigger] snapshot.files[f]).occurrences.contains(
            occurrence,
        )
}

/// Whether a dictionary of the index has this entry.
pub open spec fn is_entry(snapshot: index::SnapshotView, entry: dictionary::EntryView) -> bool {
    exists|f: int|
        0 <= f < snapshot.files.len() && (#[trigger] snapshot.files[f]).dictionaries.contains(
            entry,
        )
}

/// What is kept of items is what of them is to be kept.
pub proof fn kept_members<V>(items: Seq<V>, keep: spec_fn(V) -> bool, item: V)
    ensures
        sort::kept(items, keep).contains(item) <==> items.contains(item) && keep(item),
    decreases items.len(),
{
    if items.contains(item) && keep(item) {
        crate::laws::lemma_kept_contains(items, keep, item);
    }
    let kept = sort::kept(items, keep);
    if kept.contains(item) {
        crate::laws::lemma_kept_holds(items, keep);
        let k = kept.index_of(item);
        assert(keep(kept[k]));
        let front = sort::kept(items.drop_last(), keep);
        if k < front.len() {
            assert(front.contains(item)) by {
                assert(front[k] == item);
            }
            kept_members(items.drop_last(), keep, item);
            let i = items.drop_last().index_of(item);
            assert(items[i] == item);
        } else {
            assert(items[items.len() - 1] == item);
        }
    }
}

/// A sorted list has the items that were sorted.
pub proof fn sorted_members<T: sort::Ranked>(items: Seq<T::V>, item: T::V)
    ensures
        sort::sorted::<T>(items).contains(item) <==> items.contains(item),
{
    broadcast use vstd::seq_lib::group_to_multiset_ensures;

    sort::sorting_orders::<T>(items);
    assert(items.to_multiset().contains(item) <==> items.contains(item));
    assert(sort::sorted::<T>(items).to_multiset().contains(item) <==> sort::sorted::<T>(
        items,
    ).contains(item));
}

pub(crate) proof fn lemma_added<V>(first: Seq<V>, second: Seq<V>, item: V)
    ensures
        (first + second).contains(item) <==> first.contains(item) || second.contains(item),
{
    let all = first + second;
    if all.contains(item) {
        let k = all.index_of(item);
        if k < first.len() {
            assert(first[k] == item);
        } else {
            assert(second[k - first.len()] == item);
        }
    }
    if first.contains(item) {
        assert(all[first.index_of(item)] == item);
    }
    if second.contains(item) {
        assert(all[first.len() + second.index_of(item)] == item);
    }
}

proof fn lemma_occurrences(files: Seq<index::FileView>, n: int, item: source::OccurrenceView)
    requires
        0 <= n <= files.len(),
    ensures
        index::occurrences_within(files, n).contains(item) <==> exists|f: int|
            0 <= f < n && (#[trigger] files[f]).occurrences.contains(item),
    decreases n,
{
    if n > 0 {
        lemma_occurrences(files, n - 1, item);
        lemma_added(index::occurrences_within(files, n - 1), files[n - 1].occurrences, item);
    }
}

proof fn lemma_entries(files: Seq<index::FileView>, n: int, item: dictionary::EntryView)
    requires
        0 <= n <= files.len(),
    ensures
        index::entries_within(files, n).contains(item) <==> exists|f: int|
            0 <= f < n && (#[trigger] files[f]).dictionaries.contains(item),
    decreases n,
{
    if n > 0 {
        lemma_entries(files, n - 1, item);
        lemma_added(index::entries_within(files, n - 1), files[n - 1].dictionaries, item);
    }
}

/// The occurrences of a namespace are those of all files with that namespace.
pub proof fn occurrences_come_from_files(
    snapshot: index::SnapshotView,
    namespace: Option<Seq<char>>,
    item: source::OccurrenceView,
)
    ensures
        snapshot.occurrences().contains(item) <==> is_occurrence(snapshot, item),
        snapshot.occurrences_in(namespace).contains(item) <==> is_occurrence(snapshot, item)
            && item.namespace == namespace,
{
    let all = index::occurrences_within(snapshot.files, snapshot.files.len() as int);
    lemma_occurrences(snapshot.files, snapshot.files.len() as int, item);
    sorted_members::<source::SourceOccurrence>(all, item);
    kept_members(
        snapshot.occurrences(),
        |occurrence: source::OccurrenceView| occurrence.namespace == namespace,
        item,
    );
}

/// The entries of a namespace are those of all dictionaries with that namespace.
pub proof fn entries_come_from_files(
    snapshot: index::SnapshotView,
    namespace: Option<Seq<char>>,
    item: dictionary::EntryView,
)
    ensures
        snapshot.entries().contains(item) <==> is_entry(snapshot, item),
        snapshot.entries_in(namespace).contains(item) <==> is_entry(snapshot, item)
            && item.namespace == namespace,
{
    let all = index::entries_within(snapshot.files, snapshot.files.len() as int);
    lemma_entries(snapshot.files, snapshot.files.len() as int, item);
    sorted_members::<dictionary::DictionaryEntry>(all, item);
    kept_members(
        snapshot.entries(),
        |entry: dictionary::EntryView| entry.namespace == namespace,
        item,
    );
}

/// What is looked up by namespace and key is all that has them.
pub proof fn lookups_are_exact(
    snapshot: index::SnapshotView,
    namespace: Option<Seq<char>>,
    key: Seq<char>,
    entry: dictionary::EntryView,
    occurrence: source::OccurrenceView,
)
    ensures
        snapshot.entries_of(namespace, key).contains(entry) <==> is_entry(snapshot, entry)
            && entry.namespace == namespace && entry.key == key,
        snapshot.occurrences_of(namespace, key).contains(occurrence) <==> is_occurrence(
            snapshot,
            occurrence,
        ) && occurrence.namespace == namespace && occurrence.key == key,
{
    entries_come_from_files(snapshot, namespace, entry);
    occurrences_come_from_files(snapshot, namespace, occurrence);
    kept_members(
        snapshot.entries_in(namespace),
        lookup::of_key::<dictionary::DictionaryEntry>(key),
        entry,
    );
    kept_members(
        snapshot.occurrences_in(namespace),
        lookup::of_key::<source::SourceOccurrence>(key),
        occurrence,
    );
}

} // verus!
