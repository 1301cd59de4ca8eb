//! Which translations count as used, and what is said of the others.
use crate::diagnostics;
use crate::dictionary;
use crate::dictionary::EntryKind;
use crate::index;
use crate::laws::members;
use crate::position;
use crate::source;
use crate::source::OccurrenceKind;
use crate::status;
use crate::workspace;
use vstd::prelude::*;

verus! {

/// Whether an occurrence names a key and does more than declare a scope, or is a dynamic scope with
/// the key in it.
pub open spec fn speaks_of(
    occurrence: source::OccurrenceView,
    key: Seq<char>,
    separator: Seq<char>,
) -> bool {
    ||| occurrence.key == key && (occurrence.kind == OccurrenceKind::FullKey || occurrence.kind
        == OccurrenceKind::ScopedKey || occurrence.kind == OccurrenceKind::DynamicScope
        || occurrence.kind == OccurrenceKind::NamespaceDeclaration)
    ||| occurrence.kind == OccurrenceKind::DynamicScope && (occurrence.key + separator).len()
        <= key.len() && key.take((occurrence.key + separator).len() as int) == occurrence.key
        + separator
}

/// A key is used exactly where an occurrence names it, in whatever way but by declaring a scope, or
/// where a dynamic scope has it in it.
pub proof fn naming_is_using(
    occurrences: Seq<source::OccurrenceView>,
    key: Seq<char>,
    separator: Seq<char>,
)
    ensures
        index::is_used(occurrences, key, separator) <==> exists|i: int|
            0 <= i < occurrences.len() && speaks_of(#[trigger] occurrences[i], key, separator),
{
    assert forall|i: int| 0 <= i < occurrences.len() implies speaks_of(
        #[trigger] occurrences[i],
        key,
        separator,
    ) == index::uses(occurrences[i], key, separator) by {
        let lead = occurrences[i].key + separator;
        assert(key.subrange(0, lead.len() as int) =~= key.take(lead.len() as int));
    }
    if index::is_used(occurrences, key, separator) {
        let i = choose|i: int|
            0 <= i < occurrences.len() && index::uses(#[trigger] occurrences[i], key, separator);
        assert(speaks_of(occurrences[i], key, separator));
    }
    if exists|i: int|
        0 <= i < occurrences.len() && speaks_of(#[trigger] occurrences[i], key, separator) {
        let i = choose|i: int|
            0 <= i < occurrences.len() && speaks_of(#[trigger] occurrences[i], key, separator);
        assert(index::uses(occurrences[i], key, separator));
    }
}

/// Whether an occurrence in some file uses a key of a namespace.
pub open spec fn is_spoken_of(
    held: workspace::WorkspaceView,
    namespace: Option<Seq<char>>,
    key: Seq<char>,
) -> bool {
    exists|occurrence: source::OccurrenceView| #[trigger]
        members::is_occurrence(held.snapshot, occurrence) && occurrence.namespace == namespace
            && speaks_of(occurrence, key, held.config.key_separator)
}

/// Whether an entry is a translation in the default locale, in some dictionary.
pub open spec fn is_default_leaf(
    held: workspace::WorkspaceView,
    entry: dictionary::EntryView,
) -> bool {
    members::is_entry(held.snapshot, entry) && entry.kind == EntryKind::Leaf && entry.locale
        == held.config.default_locale
}

proof fn lemma_use(held: workspace::WorkspaceView, namespace: Option<Seq<char>>, key: Seq<char>)
    ensures
        index::is_used(
            held.snapshot.occurrences_in(namespace),
            key,
            held.config.key_separator,
        ) <==> is_spoken_of(held, namespace, key),
{
    let separator = held.config.key_separator;
    let all = held.snapshot.occurrences_in(namespace);
    naming_is_using(all, key, separator);
    if index::is_used(all, key, separator) {
        let i = choose|i: int|
            0 <= i < all.len() && speaks_of(#[trigger] all[i], key, separator);
        assert(all.contains(all[i]));
        members::occurrences_come_from_files(held.snapshot, namespace, all[i]);
    }
    if is_spoken_of(held, namespace, key) {
        let occurrence = choose|occurrence: source::OccurrenceView| #[trigger]
            members::is_occurrence(held.snapshot, occurrence) && occurrence.namespace == namespace
                && speaks_of(occurrence, key, separator);
        members::occurrences_come_from_files(held.snapshot, namespace, occurrence);
        let i = all.index_of(occurrence);
        assert(speaks_of(all[i], key, separator));
    }
}

/// The translations that are looked at are all those in the default locale.
pub proof fn default_translations_are_looked_at(
    held: workspace::WorkspaceView,
    entry: dictionary::EntryView,
)
    ensures
        index::default_leaves(held.snapshot, held.config.default_locale).contains(entry)
            <==> is_default_leaf(held, entry),
{
    members::entries_come_from_files(held.snapshot, None, entry);
    members::kept_members(
        held.snapshot.entries(),
        |other: dictionary::EntryView|
            other.locale == held.config.default_locale && other.kind == EntryKind::Leaf,
        entry,
    );
}

/// Whether a finding says of an entry that its key seems unused.
pub open spec fn blames(
    held: workspace::WorkspaceView,
    finding: diagnostics::FindingView,
    entry: dictionary::EntryView,
) -> bool {
    &&& finding.uri == entry.uri
    &&& finding.diagnostic.message == "Translation key \""@ + entry.key + "\" seems unused"@
    &&& finding.diagnostic.severity == diagnostics::Severity::Warning
    &&& finding.diagnostic.code is None
    &&& finding.diagnostic.unnecessary
    &&& position::location_of(held.snapshot, entry.uri, entry.key_range) matches Some(place)
        && finding.diagnostic.range == place.range
}

proof fn lemma_unused(
    held: workspace::WorkspaceView,
    entries: Seq<dictionary::EntryView>,
    n: int,
)
    requires
        0 <= n <= entries.len(),
    ensures
        forall|i: int|
            0 <= i < diagnostics::unused_findings(held, entries, n).len() ==> exists|e: int|
                0 <= e < n && blames(
                    held,
                    #[trigger] diagnostics::unused_findings(held, entries, n)[i],
                    #[trigger] entries[e],
                ) && !is_spoken_of(held, entries[e].namespace, entries[e].key),
        forall|e: int|
            0 <= e < n && !is_spoken_of(held, (#[trigger] entries[e]).namespace, entries[e].key)
                && position::location_of(held.snapshot, entries[e].uri, entries[e].key_range) is Some
                ==> exists|i: int|
                0 <= i < diagnostics::unused_findings(held, entries, n).len() && blames(
                    held,
                    #[trigger] diagnostics::unused_findings(held, entries, n)[i],
                    entries[e],
                ),
    decreases n,
{
    if n > 0 {
        lemma_unused(held, entries, n - 1);
        let front = diagnostics::unused_findings(held, entries, n - 1);
        let all = diagnostics::unused_findings(held, entries, n);
        let entry = entries[n - 1];
        lemma_use(held, entry.namespace, entry.key);
        assert forall|i: int| 0 <= i < all.len() implies exists|e: int|
            0 <= e < n && blames(held, #[trigger] all[i], #[trigger] entries[e]) && !is_spoken_of(
                held,
                entries[e].namespace,
                entries[e].key,
            ) by {
            if i < front.len() {
                assert(all[i] == front[i]);
            } else {
                assert(blames(held, all[i], entries[n - 1]));
            }
        }
        assert forall|e: int|
            0 <= e < n && !is_spoken_of(held, (#[trigger] entries[e]).namespace, entries[e].key)
                && position::location_of(
                held.snapshot,
                entries[e].uri,
                entries[e].key_range,
            ) is Some implies exists|i: int|
            0 <= i < all.len() && blames(held, #[trigger] all[i], entries[e]) by {
            if e < n - 1 {
                let i = choose|i: int|
                    0 <= i < front.len() && blames(held, #[trigger] front[i], entries[e]);
                assert(blames(held, all[i], entries[e]));
            } else {
                assert(blames(held, all[front.len() as int], entries[e]));
            }
        }
    }
}

/// Where unused keys are to be shown, each translation in the default locale that nothing uses is
/// reported at its place.
pub proof fn unused_translations_are_reported(
    held: workspace::WorkspaceView,
    entry: dictionary::EntryView,
)
    requires
        held.preferences.show_unused_keys,
        is_default_leaf(held, entry),
        !is_spoken_of(held, entry.namespace, entry.key),
        position::location_of(held.snapshot, entry.uri, entry.key_range) is Some,
    ensures
        exists|i: int|
            0 <= i < diagnostics::findings(held).len() && blames(
                held,
                #[trigger] diagnostics::findings(held)[i],
                entry,
            ),
{
    let leaves = index::default_leaves(held.snapshot, held.config.default_locale);
    default_translations_are_looked_at(held, entry);
    lemma_unused(held, leaves, leaves.len() as int);
    let unused = diagnostics::unused_findings(held, leaves, leaves.len() as int);
    let e = leaves.index_of(entry);
    assert(!is_spoken_of(held, leaves[e].namespace, leaves[e].key));
    let i = choose|i: int| 0 <= i < unused.len() && blames(held, #[trigger] unused[i], entry);
    let all = diagnostics::findings(held);
    let ignored = held.snapshot.ignored();
    let first = diagnostics::ignored_findings(held, ignored, ignored.len() as int);
    assert(all[first.len() + i] == unused[i]);
}

/// A key is reported as unused only where unused keys are to be shown, and only where it has a
/// translation in the default locale that nothing uses.
pub proof fn used_translations_are_not_reported(held: workspace::WorkspaceView, i: int)
    requires
        0 <= i < diagnostics::findings(held).len(),
        diagnostics::findings(held)[i].diagnostic.unnecessary,
    ensures
        held.preferences.show_unused_keys,
        exists|entry: dictionary::EntryView| #[trigger]
            is_default_leaf(held, entry) && blames(held, diagnostics::findings(held)[i], entry)
                && !is_spoken_of(held, entry.namespace, entry.key),
{
    let leaves = index::default_leaves(held.snapshot, held.config.default_locale);
    let ignored = held.snapshot.ignored();
    let first = diagnostics::ignored_findings(held, ignored, ignored.len() as int);
    lemma_ignored(held, ignored, ignored.len() as int);
    let all = diagnostics::findings(held);
    if i < first.len() {
        assert(all[i] == first[i]);
    }
    lemma_unused(held, leaves, leaves.len() as int);
    let unused = diagnostics::unused_findings(held, leaves, leaves.len() as int);
    assert(all[i] == unused[i - first.len()]);
    let e = choose|e: int|
        0 <= e < leaves.len() && blames(held, unused[i - first.len()], #[trigger] leaves[e])
            && !is_spoken_of(held, leaves[e].namespace, leaves[e].key);
    assert(leaves.contains(leaves[e]));
    default_translations_are_looked_at(held, leaves[e]);
    assert(is_default_leaf(held, leaves[e]));
}

proof fn lemma_ignored(
    held: workspace::WorkspaceView,
    occurrences: Seq<source::OccurrenceView>,
    n: int,
)
    ensures
        forall|i: int|
            0 <= i < diagnostics::ignored_findings(held, occurrences, n).len()
                ==> !(#[trigger] diagnostics::ignored_findings(
                held,
                occurrences,
                n,
            )[i]).diagnostic.unnecessary,
    decreases n,
{
    if n > 0 {
        lemma_ignored(held, occurrences, n - 1);
        let front = diagnostics::ignored_findings(held, occurrences, n - 1);
        let all = diagnostics::ignored_findings(held, occurrences, n);
        assert forall|i: int| 0 <= i < all.len() implies !(
        #[trigger] all[i]).diagnostic.unnecessary by {
            if i < front.len() {
                assert(all[i] == front[i]);
            }
        }
    }
}

/// The namespaces and keys of the first `n` entries.
pub open spec fn keys_of(entries: Seq<dictionary::EntryView>, n: int) -> Set<
    (Option<Seq<char>>, Seq<char>),
> {
    Set::new(
        |pair: (Option<Seq<char>>, Seq<char>)|
            exists|i: int|
                0 <= i < n && (#[trigger] entries[i]).namespace == pair.0 && entries[i].key
                    == pair.1,
    )
}

/// Those of the keys of the first `n` entries that nothing uses.
pub open spec fn unused_keys_of(
    held: workspace::WorkspaceView,
    entries: Seq<dictionary::EntryView>,
    n: int,
) -> Set<(Option<Seq<char>>, Seq<char>)> {
    keys_of(entries, n).filter(
        |pair: (Option<Seq<char>>, Seq<char>)| !is_spoken_of(held, pair.0, pair.1),
    )
}

proof fn lemma_counts(
    held: workspace::WorkspaceView,
    entries: Seq<dictionary::EntryView>,
    n: int,
)
    requires
        0 <= n <= entries.len(),
    ensures
        keys_of(entries, n).finite(),
        keys_of(entries, n).len() == status::key_count(entries, n),
        unused_keys_of(held, entries, n).finite(),
        unused_keys_of(held, entries, n).len() == status::unused_count(held, entries, n),
    decreases n,
{
    let keys = keys_of(entries, n);
    let unused = unused_keys_of(held, entries, n);
    if n <= 0 {
        assert(keys =~= Set::empty());
        assert(unused =~= Set::empty());
    } else {
        lemma_counts(held, entries, n - 1);
        let before = keys_of(entries, n - 1);
        let unused_before = unused_keys_of(held, entries, n - 1);
        let entry = entries[n - 1];
        let pair = (entry.namespace, entry.key);
        lemma_use(held, entry.namespace, entry.key);
        assert(status::is_counted(entries, n - 1) == before.contains(pair));
        assert forall|other: (Option<Seq<char>>, Seq<char>)| keys.contains(other)
            == before.insert(pair).contains(other) by {
            if before.contains(other) {
                let i = choose|i: int|
                    0 <= i < n - 1 && (#[trigger] entries[i]).namespace == other.0
                        && entries[i].key == other.1;
                assert(entries[i].key == other.1);
            }
            if other == pair {
                assert(entries[n - 1].key == other.1);
            }
        }
        assert(keys =~= before.insert(pair));
        if is_spoken_of(held, pair.0, pair.1) {
            assert(unused =~= unused_before);
        } else {
            assert(unused =~= unused_before.insert(pair));
        }
    }
}

/// The status counts each key of the default locale once, and counts as unused those of them that
/// nothing uses.
pub proof fn counts_are_of_keys(
    held: workspace::WorkspaceView,
    config_path: Seq<char>,
    paths: Seq<Option<Seq<char>>>,
    pair: (Option<Seq<char>>, Seq<char>),
)
    ensures
        ({
            let told = status::status_of(held, config_path, paths);
            let leaves = index::default_leaves(held.snapshot, held.config.default_locale);
            let keys = keys_of(leaves, leaves.len() as int);
            let unused = unused_keys_of(held, leaves, leaves.len() as int);
            &&& keys.finite() && told.total_key_count == keys.len()
            &&& unused.finite() && told.unused_key_count == unused.len()
            &&& keys.contains(pair) <==> exists|entry: dictionary::EntryView| #[trigger]
                is_default_leaf(held, entry) && entry.namespace == pair.0 && entry.key == pair.1
            &&& unused.contains(pair) <==> keys.contains(pair) && !is_spoken_of(
                held,
                pair.0,
                pair.1,
            )
        }),
{
    let leaves = index::default_leaves(held.snapshot, held.config.default_locale);
    lemma_counts(held, leaves, leaves.len() as int);
    let keys = keys_of(leaves, leaves.len() as int);
    if keys.contains(pair) {
        let i = choose|i: int|
            0 <= i < leaves.len() && (#[trigger] leaves[i]).namespace == pair.0 && leaves[i].key
                == pair.1;
        assert(leaves.contains(leaves[i]));
        default_translations_are_looked_at(held, leaves[i]);
        assert(is_default_leaf(held, leaves[i]));
    }
    if exists|entry: dictionary::EntryView| #[trigger]
        is_default_leaf(held, entry) && entry.namespace == pair.0 && entry.key == pair.1 {
        let entry = choose|entry: dictionary::EntryView| #[trigger]
            is_default_leaf(held, entry) && entry.namespace == pair.0 && entry.key == pair.1;
        default_translations_are_looked_at(held, entry);
        let i = leaves.index_of(entry);
        assert(leaves[i].namespace == pair.0);
    }
}

/// Whether a finding warns of an occurrence in an ignored scope, at its place.
pub open spec fn warns_of(
    held: workspace::WorkspaceView,
    finding: diagnostics::FindingView,
    occurrence: source::OccurrenceView,
) -> bool {
    &&& finding.uri == occurrence.uri
    &&& finding.diagnostic.message == "Translation key \""@ + occurrence.key
        + "\" belongs to an ignored scope"@
    &&& finding.diagnostic.severity == diagnostics::Severity::Warning
    &&& finding.diagnostic.code is None
    &&& !finding.diagnostic.unnecessary
    &&& position::location_of(held.snapshot, occurrence.uri, occurrence.range) matches Some(place)
        && finding.diagnostic.range == place.range
}

/// Whether one of the first `n` of the ignored occurrences is worth a finding as a warning.
pub open spec fn is_warned_of(
    held: workspace::WorkspaceView,
    occurrences: Seq<source::OccurrenceView>,
    n: int,
    finding: diagnostics::FindingView,
) -> bool {
    exists|o: int|
        0 <= o < n && warns_of(held, finding, #[trigger] occurrences[o]) && is_telling(
            held,
            occurrences[o],
        )
}

/// Whether an occurrence in an ignored scope is spoken of: something is written there, and it
/// declares the scope or is in none that is ignored.
pub open spec fn is_telling(
    held: workspace::WorkspaceView,
    occurrence: source::OccurrenceView,
) -> bool {
    &&& occurrence.range.0 < occurrence.range.1
    &&& occurrence.kind == OccurrenceKind::ScopeDeclaration || occurrence.scope is None
        || !held.ignores(occurrence.scope->0)
}

proof fn lemma_warnings(
    held: workspace::WorkspaceView,
    occurrences: Seq<source::OccurrenceView>,
    n: int,
    finding: diagnostics::FindingView,
)
    requires
        0 <= n <= occurrences.len(),
    ensures
        diagnostics::ignored_findings(held, occurrences, n).contains(finding) <==> is_warned_of(
            held,
            occurrences,
            n,
            finding,
        ),
    decreases n,
{
    if n > 0 {
        lemma_warnings(held, occurrences, n - 1, finding);
        let front = diagnostics::ignored_findings(held, occurrences, n - 1);
        let all = diagnostics::ignored_findings(held, occurrences, n);
        let one = occurrences[n - 1];
        let scopes = diagnostics::scopes_of(held.config);
        let separator = held.config.key_separator;
        assert(workspace::is_notable(one, scopes, separator) == is_telling(held, one));
        if all.contains(finding) {
            let k = all.index_of(finding);
            if k < front.len() {
                assert(front[k] == finding);
            } else {
                assert(warns_of(held, finding, occurrences[n - 1]));
            }
        }
        if front.contains(finding) {
            assert(all[front.index_of(finding)] == finding);
        }
        if warns_of(held, finding, one) && is_telling(held, one) {
            if diagnostics::is_repeated(occurrences, n - 1, scopes, separator, one) {
                let o = choose|o: int|
                    0 <= o < n - 1 && workspace::is_notable(
                        #[trigger] occurrences[o],
                        scopes,
                        separator,
                    ) && diagnostics::same_place(occurrences[o], one);
                assert(warns_of(held, finding, occurrences[o]));
                assert(is_telling(held, occurrences[o]));
            } else {
                assert(all[front.len() as int] == finding);
            }
        }
        if is_warned_of(held, occurrences, n, finding) && !is_warned_of(
            held,
            occurrences,
            n - 1,
            finding,
        ) {
            let o = choose|o: int|
                0 <= o < n && warns_of(held, finding, #[trigger] occurrences[o]) && is_telling(
                    held,
                    occurrences[o],
                );
            assert(o == n - 1);
        }
    }
}

/// Exactly what is in an ignored scope and worth it is warned of, whether or not unused keys are to
/// be shown.
pub proof fn ignored_keys_are_warned_of(
    held: workspace::WorkspaceView,
    finding: diagnostics::FindingView,
)
    requires
        !finding.diagnostic.unnecessary,
    ensures
        diagnostics::findings(held).contains(finding) <==> is_warned_of(
            held,
            held.snapshot.ignored(),
            held.snapshot.ignored().len() as int,
            finding,
        ),
{
    let ignored = held.snapshot.ignored();
    let first = diagnostics::ignored_findings(held, ignored, ignored.len() as int);
    lemma_warnings(held, ignored, ignored.len() as int, finding);
    let all = diagnostics::findings(held);
    if first.contains(finding) {
        assert(all[first.index_of(finding)] == finding);
    }
    if all.contains(finding) {
        let k = all.index_of(finding);
        if k >= first.len() {
            lemma_behind_the_warnings(held, k);
        } else {
            assert(first[k] == finding);
        }
    }
}

proof fn lemma_behind_the_warnings(held: workspace::WorkspaceView, k: int)
    requires
        ({
            let ignored = held.snapshot.ignored();
            diagnostics::ignored_findings(held, ignored, ignored.len() as int).len() <= k
                < diagnostics::findings(held).len()
        }),
    ensures
        diagnostics::findings(held)[k].diagnostic.unnecessary,
{
    let ignored = held.snapshot.ignored();
    let first = diagnostics::ignored_findings(held, ignored, ignored.len() as int);
    let leaves = index::default_leaves(held.snapshot, held.config.default_locale);
    lemma_unused(held, leaves, leaves.len() as int);
    let unused = diagnostics::unused_findings(held, leaves, leaves.len() as int);
    let finding = diagnostics::findings(held)[k];
    assert(finding == unused[k - first.len()]);
    let e = choose|e: int|
        0 <= e < leaves.len() && blames(held, unused[k - first.len()], #[trigger] leaves[e]);
    assert(blames(held, finding, leaves[e]));
}

} // verus!
