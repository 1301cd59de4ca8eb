//! Finding the key under a cursor, and from there its definition, its uses and its translation.
use crate::dictionary;
use crate::dictionary::{DictionaryEntry, EntryKind};
use crate::index;
use crate::index::IndexSnapshot;
use crate::key;
use crate::key::{CanonicalKey, QualifiedKey};
use crate::position;
use crate::position::{Location, Position};
use crate::search;
use crate::sort;
use crate::sort::Ranked;
use crate::source;
use crate::source::{OccurrenceKind, SourceOccurrence};
use crate::text;
use crate::workspace;
use crate::workspace::WorkspaceIndex;
use vstd::prelude::*;

verus! {

/// How many translations a scope may have for the references deep in it to be listed.
pub const REFERENCE_LIMIT: usize = 32;

/// How many keys of a scope are shown.
pub const PREVIEW_LIMIT: usize = 5;

/// The key in an occurrence up to and with the segment under a cursor at `offset`.
pub open spec fn occurrence_key(
    occurrence: source::OccurrenceView,
    text: Seq<char>,
    offset: int,
    separator: Seq<char>,
) -> Option<key::QualifiedKeyView> {
    match text::byte_slice(text, occurrence.range.0 as int, occurrence.range.1 as int) {
        None => None,
        Some(literal) => {
            let into = if offset <= occurrence.range.0 {
                0
            } else {
                offset - occurrence.range.0
            };
            let cursor = if into <= text::byte_len(literal) {
                into
            } else {
                text::byte_len(literal) as int
            };
            match text::byte_slice(literal, 0, cursor) {
                None => None,
                Some(front) => {
                    let place = search::count(front, separator);
                    let whole = match (occurrence.scope, occurrence.relative_key) {
                        (Some(_), Some(relative)) => relative,
                        _ => occurrence.key,
                    };
                    let segments = search::segments(whole, separator);
                    let prefix = search::joined(
                        if place + 1 < segments.len() {
                            segments.take(place + 1)
                        } else {
                            segments
                        },
                        separator,
                    );
                    let key = match (occurrence.scope, occurrence.relative_key) {
                        (Some(scope), Some(_)) => key::joined_key(scope, prefix, separator),
                        _ => key::canonical(prefix, separator),
                    };
                    match key {
                        Some(key) => Some(
                            key::QualifiedKeyView { namespace: occurrence.namespace, key },
                        ),
                        None => None,
                    }
                },
            }
        },
    }
}

/// The occurrence in a file under a cursor.
pub open spec fn occurrence_under(
    snapshot: index::SnapshotView,
    uri: Seq<char>,
    offset: usize,
) -> Option<source::OccurrenceView> {
    match snapshot.file(uri) {
        Some(file) => index::touched(file.occurrences, offset, 0),
        None => None,
    }
}

/// The entry in a file under a cursor.
pub open spec fn entry_under(snapshot: index::SnapshotView, uri: Seq<char>, offset: usize) -> Option<
    dictionary::EntryView,
> {
    match snapshot.file(uri) {
        Some(file) => index::deepest(file.dictionaries, offset, file.dictionaries.len() as int),
        None => None,
    }
}

/// The key in a file under a cursor: of an occurrence, or else of a dictionary.
pub open spec fn key_under(
    snapshot: index::SnapshotView,
    uri: Seq<char>,
    offset: usize,
    separator: Seq<char>,
) -> Option<key::QualifiedKeyView> {
    let used = match (snapshot.file(uri), occurrence_under(snapshot, uri, offset)) {
        (Some(file), Some(occurrence)) => occurrence_key(
            occurrence,
            file.text,
            offset as int,
            separator,
        ),
        _ => None,
    };
    match used {
        Some(key) => Some(key),
        None => match entry_under(snapshot, uri, offset) {
            Some(entry) => Some(
                key::QualifiedKeyView { namespace: entry.namespace, key: entry.key },
            ),
            None => None,
        },
    }
}

/// The key in a file at a position.
pub open spec fn key_at(
    snapshot: index::SnapshotView,
    uri: Seq<char>,
    position: Position,
    separator: Seq<char>,
) -> Option<key::QualifiedKeyView> {
    match position::offset_in(snapshot, uri, position) {
        Some(offset) => key_under(snapshot, uri, offset as usize, separator),
        None => None,
    }
}

/// The places of the first `n` occurrences that have one.
pub open spec fn occurrence_places(
    snapshot: index::SnapshotView,
    occurrences: Seq<source::OccurrenceView>,
    n: int,
) -> Seq<position::LocationView>
    decreases n,
{
    if n <= 0 {
        Seq::empty()
    } else {
        let front = occurrence_places(snapshot, occurrences, n - 1);
        match position::location_of(
            snapshot,
            occurrences[n - 1].uri,
            occurrences[n - 1].range,
        ) {
            Some(location) => front.push(location),
            None => front,
        }
    }
}

/// The places of the keys of the first `n` entries that have one.
pub open spec fn entry_places(
    snapshot: index::SnapshotView,
    entries: Seq<dictionary::EntryView>,
    n: int,
) -> Seq<position::LocationView>
    decreases n,
{
    if n <= 0 {
        Seq::empty()
    } else {
        let front = entry_places(snapshot, entries, n - 1);
        match position::location_of(snapshot, entries[n - 1].uri, entries[n - 1].key_range) {
            Some(location) => front.push(location),
            None => front,
        }
    }
}

/// Whether one of the entries holds more keys.
pub open spec fn has_object(entries: Seq<dictionary::EntryView>) -> bool {
    exists|i: int| 0 <= i < entries.len() && (#[trigger] entries[i]).kind == EntryKind::Object
}

/// The occurrences of a key: of a scope those that refer to it, else those that name it or make it
/// used by way of a scope.
pub open spec fn uses_of(
    snapshot: index::SnapshotView,
    key: key::QualifiedKeyView,
    separator: Seq<char>,
    is_scope: bool,
) -> Seq<source::OccurrenceView> {
    if is_scope {
        index::scope_references(
            snapshot.entries_in(key.namespace),
            snapshot.occurrences_in(key.namespace),
            key.key,
            separator,
            REFERENCE_LIMIT,
        )
    } else {
        snapshot.occurrences_of(key.namespace, key.key) + sort::kept(
            snapshot.occurrences_in(key.namespace),
            |occurrence: source::OccurrenceView| index::covers(occurrence, key.key, separator),
        )
    }
}

/// The first of `entries[from..]` in a namespace and a locale.
pub open spec fn first_entry(
    entries: Seq<dictionary::EntryView>,
    namespace: Option<Seq<char>>,
    locale: Seq<char>,
    from: int,
) -> Option<dictionary::EntryView>
    decreases entries.len() - from,
{
    if from >= entries.len() {
        None
    } else if entries[from].namespace == namespace && entries[from].locale == locale {
        Some(entries[from])
    } else {
        first_entry(entries, namespace, locale, from + 1)
    }
}

/// The entries in a locale.
pub open spec fn in_locale(entries: Seq<dictionary::EntryView>, locale: Seq<char>) -> Seq<
    dictionary::EntryView,
> {
    sort::kept(entries, |entry: dictionary::EntryView| entry.locale == locale)
}

/// The places that define the key under a cursor: of a namespace its first key, of a key in a
/// dictionary its uses, and else its entries in the default locale.
pub open spec fn definition_places(
    workspace: workspace::WorkspaceView,
    uri: Seq<char>,
    offset: usize,
) -> Seq<position::LocationView> {
    let snapshot = workspace.snapshot;
    let locale = workspace.config.default_locale;
    let separator = workspace.config.key_separator;
    match key_under(snapshot, uri, offset, separator) {
        None => Seq::empty(),
        Some(key) => if occurrence_under(snapshot, uri, offset) matches Some(occurrence)
            && occurrence.kind == OccurrenceKind::NamespaceDeclaration {
            match first_entry(snapshot.entries(), key.namespace, locale, 0) {
                Some(entry) => entry_places(snapshot, seq![entry], 1),
                None => Seq::empty(),
            }
        } else if entry_under(snapshot, uri, offset) is Some {
            let found = uses_of(
                snapshot,
                key,
                separator,
                has_object(snapshot.entries_of(key.namespace, key.key)),
            );
            occurrence_places(snapshot, found, found.len() as int)
        } else {
            let found = in_locale(snapshot.entries_of(key.namespace, key.key), locale);
            entry_places(snapshot, found, found.len() as int)
        },
    }
}

/// The places that define the key at a position, where there are any.
pub open spec fn definition_at(
    workspace: workspace::WorkspaceView,
    uri: Seq<char>,
    position: Position,
) -> Option<Seq<position::LocationView>> {
    match position::offset_in(workspace.snapshot, uri, position) {
        None => None,
        Some(offset) => {
            let found = definition_places(workspace, uri, offset as usize);
            if found.len() == 0 {
                None
            } else {
                Some(found)
            }
        },
    }
}

/// The places that use the key at a position, and where they are asked for also its entries.
pub open spec fn references_at(
    workspace: workspace::WorkspaceView,
    uri: Seq<char>,
    position: Position,
    include_declaration: bool,
) -> Option<Seq<position::LocationView>> {
    let snapshot = workspace.snapshot;
    let separator = workspace.config.key_separator;
    match position::offset_in(snapshot, uri, position) {
        None => None,
        Some(offset) => match key_under(snapshot, uri, offset as usize, separator) {
            None => None,
            Some(key) => {
                let entries = snapshot.entries_of(key.namespace, key.key);
                let is_scope = has_object(entries) || (occurrence_under(
                    snapshot,
                    uri,
                    offset as usize,
                ) matches Some(occurrence) && occurrence.kind == OccurrenceKind::ScopeDeclaration);
                let found = uses_of(snapshot, key, separator, is_scope);
                let places = occurrence_places(snapshot, found, found.len() as int);
                Some(
                    if include_declaration {
                        places + entry_places(snapshot, entries, entries.len() as int)
                    } else {
                        places
                    },
                )
            },
        },
    }
}

/// An entry as it is shown under its scope: in the order of the files and of the text.
pub struct Child<'a>(pub &'a DictionaryEntry);

impl<'a> DeepView for Child<'a> {
    type V = dictionary::EntryView;

    open spec fn deep_view(&self) -> dictionary::EntryView {
        self.0.deep_view()
    }
}

impl<'a> Ranked for Child<'a> {
    open spec fn ahead(first: dictionary::EntryView, second: dictionary::EntryView) -> bool {
        text::precedes(first.uri, second.uri) || (first.uri == second.uri && first.key_range.0
            < second.key_range.0)
    }

    proof fn ahead_one_way(first: dictionary::EntryView, second: dictionary::EntryView) {
        text::precedes_total(first.uri, second.uri);
    }

    proof fn ahead_through(
        first: dictionary::EntryView,
        second: dictionary::EntryView,
        third: dictionary::EntryView,
    ) {
        text::precedes_total(first.uri, second.uri);
        text::precedes_total(second.uri, third.uri);
        text::precedes_total(first.uri, third.uri);
        if text::precedes(first.uri, second.uri) && text::precedes(second.uri, third.uri) {
            text::precedes_transitive(first.uri, second.uri, third.uri);
        }
    }

    fn is_ahead(&self, other: &Self) -> (found: bool) {
        if text::same(self.0.uri.as_str(), other.0.uri.as_str()) {
            proof {
                text::precedes_irreflexive(self.0.uri@);
            }
            self.0.key_range.0.start < other.0.key_range.0.start
        } else {
            text::less(self.0.uri.as_str(), other.0.uri.as_str())
        }
    }
}

/// Whether one of the entries has this key.
pub open spec fn has_entry_key(entries: Seq<dictionary::EntryView>, key: Seq<char>) -> bool {
    exists|i: int| 0 <= i < entries.len() && (#[trigger] entries[i]).key == key
}

/// The first `n` entries, each key once.
pub open spec fn once_each(entries: Seq<dictionary::EntryView>, n: int) -> Seq<
    dictionary::EntryView,
>
    decreases n,
{
    if n <= 0 {
        Seq::empty()
    } else if has_entry_key(once_each(entries, n - 1), entries[n - 1].key) {
        once_each(entries, n - 1)
    } else {
        once_each(entries, n - 1).push(entries[n - 1])
    }
}

/// The keys directly in a scope, in the default locale, as they are shown.
pub open spec fn shown_children(
    snapshot: index::SnapshotView,
    key: key::QualifiedKeyView,
    locale: Seq<char>,
    separator: Seq<char>,
) -> Seq<dictionary::EntryView> {
    let sorted = sort::sorted::<Child<'_>>(
        in_locale(
            sort::kept(
                snapshot.entries_in(key.namespace),
                |entry: dictionary::EntryView|
                    key::parent_of(entry.key, separator) == Some(key.key),
            ),
            locale,
        ),
    );
    once_each(sorted, sorted.len() as int)
}

/// The line that shows a key in a scope.
pub open spec fn child_line(
    child: dictionary::EntryView,
    scope: Seq<char>,
    separator: Seq<char>,
) -> Seq<char> {
    let name = match key::relative_key(child.key, scope, separator) {
        Some(relative) => relative,
        None => child.key,
    };
    match child.value {
        Some(value) => "- `"@ + name + "`: "@ + value,
        None => "- `"@ + name + "`"@,
    }
}

/// The lines that show the keys in a scope: the first few, and dots where there are more.
pub open spec fn preview_lines(
    children: Seq<dictionary::EntryView>,
    scope: Seq<char>,
    separator: Seq<char>,
) -> Seq<Seq<char>> {
    if children.len() > PREVIEW_LIMIT {
        children.take(PREVIEW_LIMIT as int).map_values(
            |child: dictionary::EntryView| child_line(child, scope, separator),
        ).push("..."@)
    } else {
        children.map_values(|child: dictionary::EntryView| child_line(child, scope, separator))
    }
}

/// The first of `entries[from..]` in a locale.
pub open spec fn first_in_locale(
    entries: Seq<dictionary::EntryView>,
    locale: Seq<char>,
    from: int,
) -> Option<dictionary::EntryView>
    decreases entries.len() - from,
{
    if from >= entries.len() {
        None
    } else if entries[from].locale == locale {
        Some(entries[from])
    } else {
        first_in_locale(entries, locale, from + 1)
    }
}

/// What is shown of a key: its translation, or the keys in it, or that it does not exist.
pub open spec fn hover_text(
    workspace: workspace::WorkspaceView,
    key: key::QualifiedKeyView,
) -> Seq<char> {
    let snapshot = workspace.snapshot;
    let locale = workspace.config.default_locale;
    let separator = workspace.config.key_separator;
    match first_in_locale(snapshot.entries_of(key.namespace, key.key), locale, 0) {
        None => "Translation key `"@ + key.key + "` does not exist."@,
        Some(entry) => match entry.kind {
            EntryKind::Leaf => match entry.value {
                Some(value) => value,
                None => Seq::empty(),
            },
            EntryKind::Object => search::joined(
                preview_lines(
                    shown_children(snapshot, key, locale, separator),
                    key.key,
                    separator,
                ),
                seq!['\n'],
            ),
        },
    }
}

/// What is shown of the key at a position.
pub open spec fn hover_at(
    workspace: workspace::WorkspaceView,
    uri: Seq<char>,
    position: Position,
) -> Option<Seq<char>> {
    match key_at(workspace.snapshot, uri, position, workspace.config.key_separator) {
        Some(key) => Some(hover_text(workspace, key)),
        None => None,
    }
}

/// The first `count` segments of a key.
fn leading_segments(whole: &str, separator: &str, count: usize) -> (prefix: String)
    ensures
        prefix@ == ({
            let segments = search::segments(whole@, separator@);
            search::joined(
                if count < segments.len() {
                    segments.take(count as int)
                } else {
                    segments
                },
                separator@,
            )
        }),
{
    let mut segments = search::split(whole, separator);
    let ghost all = segments.deep_view();
    assert(all.len() == segments@.len());
    if count < segments.len() {
        segments.truncate(count);
        assert(segments.deep_view() =~= all.take(count as int));
    }
    search::join(&segments, separator)
}

/// The key in an occurrence up to and with the segment under a cursor at `offset`.
pub fn key_in_occurrence(
    occurrence: &SourceOccurrence,
    text: &str,
    offset: usize,
    separator: &str,
) -> (key: Option<QualifiedKey>)
    ensures
        key.deep_view() == occurrence_key(
            occurrence.deep_view(),
            text@,
            offset as int,
            separator@,
        ),
{
    let start: usize = occurrence.range.0.start;
    let literal = match text::slice(text, start, occurrence.range.0.end) {
        Some(literal) => literal,
        None => {
            return None;
        },
    };
    let into: usize = if offset <= start {
        0
    } else {
        offset - start
    };
    let size: usize = text::size(literal);
    let cursor: usize = if into <= size {
        into
    } else {
        size
    };
    let front = match text::slice(literal, 0, cursor) {
        Some(front) => front,
        None => {
            return None;
        },
    };
    let place: usize = search::count_in(front, separator);
    let taken: usize = place + 1;
    let key = match (&occurrence.scope, &occurrence.relative_key) {
        (Some(scope), Some(relative)) => {
            let prefix = leading_segments(relative.as_str(), separator, taken);
            CanonicalKey::join(scope, prefix.as_str(), separator)
        },
        _ => {
            let prefix = leading_segments(occurrence.key.as_str(), separator, taken);
            CanonicalKey::new(prefix.as_str(), separator)
        },
    };
    match key {
        Some(key) => Some(QualifiedKey { namespace: text::copy(&occurrence.namespace), key }),
        None => None,
    }
}

/// The key in a file under a cursor.
fn find_key_under(snapshot: &IndexSnapshot, uri: &str, offset: usize, separator: &str) -> (key:
    Option<QualifiedKey>)
    ensures
        key.deep_view() == key_under(snapshot.deep_view(), uri@, offset, separator@),
{
    if let Some(text) = snapshot.text(uri) {
        if let Some(occurrence) = snapshot.occurrence_at(uri, offset) {
            let found = key_in_occurrence(occurrence, text, offset, separator);
            if found.is_some() {
                return found;
            }
        }
    }
    match snapshot.dictionary_at(uri, offset) {
        Some(entry) => Some(
            QualifiedKey { namespace: text::copy(&entry.namespace), key: entry.key.clone() },
        ),
        None => None,
    }
}

/// The key in a file at a position.
pub fn key_at_position(
    snapshot: &IndexSnapshot,
    uri: &str,
    position: Position,
    separator: &str,
) -> (key: Option<QualifiedKey>)
    ensures
        key.deep_view() == key_at(snapshot.deep_view(), uri@, position, separator@),
{
    match position::position_offset(snapshot, uri, position) {
        Some(offset) => find_key_under(snapshot, uri, offset, separator),
        None => None,
    }
}

/// The places of the occurrences that have one.
fn locate_occurrences(snapshot: &IndexSnapshot, occurrences: &[&SourceOccurrence]) -> (places: Vec<
    Location,
>)
    ensures
        places.deep_view() == occurrence_places(
            snapshot.deep_view(),
            occurrences.deep_view(),
            occurrences@.len() as int,
        ),
{
    let ghost view = snapshot.deep_view();
    let ghost all = occurrences.deep_view();
    let mut places: Vec<Location> = Vec::new();
    assert(places.deep_view() =~= Seq::<position::LocationView>::empty());
    let mut n: usize = 0;
    while n < occurrences.len()
        invariant
            n <= occurrences@.len(),
            view == snapshot.deep_view(),
            all == occurrences.deep_view(),
            places.deep_view() == occurrence_places(view, all, n as int),
        decreases occurrences@.len() - n,
    {
        let occurrence = occurrences[n];
        assert(all[n as int] == occurrence.deep_view());
        let ghost before = places.deep_view();
        if let Some(found) = position::location(
            snapshot,
            occurrence.uri.as_str(),
            &occurrence.range,
        ) {
            places.push(found);
            assert(places.deep_view() =~= before.push(found.deep_view()));
        }
        n += 1;
    }
    places
}

/// The places of the keys of the entries that have one.
fn locate_entries(snapshot: &IndexSnapshot, entries: &[&DictionaryEntry]) -> (places: Vec<Location>)
    ensures
        places.deep_view() == entry_places(
            snapshot.deep_view(),
            entries.deep_view(),
            entries@.len() as int,
        ),
{
    let ghost view = snapshot.deep_view();
    let ghost all = entries.deep_view();
    let mut places: Vec<Location> = Vec::new();
    assert(places.deep_view() =~= Seq::<position::LocationView>::empty());
    let mut n: usize = 0;
    while n < entries.len()
        invariant
            n <= entries@.len(),
            view == snapshot.deep_view(),
            all == entries.deep_view(),
            places.deep_view() == entry_places(view, all, n as int),
        decreases entries@.len() - n,
    {
        let entry = entries[n];
        assert(all[n as int] == entry.deep_view());
        let ghost before = places.deep_view();
        if let Some(found) = position::location(snapshot, entry.uri.as_str(), &entry.key_range) {
            places.push(found);
            assert(places.deep_view() =~= before.push(found.deep_view()));
        }
        n += 1;
    }
    places
}

/// Whether one of the entries holds more keys.
fn any_object(entries: &[&DictionaryEntry]) -> (found: bool)
    ensures
        found == has_object(entries.deep_view()),
{
    let ghost all = entries.deep_view();
    let mut n: usize = 0;
    while n < entries.len()
        invariant
            n <= entries@.len(),
            all == entries.deep_view(),
            forall|i: int| 0 <= i < n ==> (#[trigger] all[i]).kind != EntryKind::Object,
        decreases entries@.len() - n,
    {
        assert(all[n as int] == entries@[n as int].deep_view());
        if entries[n].kind == EntryKind::Object {
            return true;
        }
        n += 1;
    }
    false
}

/// The occurrences of a key.
fn find_uses<'a>(
    snapshot: &'a IndexSnapshot,
    key: &QualifiedKey,
    separator: &str,
    is_scope: bool,
) -> (found: Vec<&'a SourceOccurrence>)
    ensures
        found.deep_view() == uses_of(
            snapshot.deep_view(),
            key.deep_view(),
            separator@,
            is_scope,
        ),
{
    let namespace = text::borrowed(&key.namespace);
    if is_scope {
        return snapshot.qualified_scope_occurrences(
            namespace,
            &key.key,
            separator,
            REFERENCE_LIMIT,
        );
    }
    let mut found = snapshot.qualified_occurrences(namespace, &key.key);
    let mut more = snapshot.qualified_dynamic_occurrences(namespace, &key.key, separator);
    let ghost first = found.deep_view();
    let ghost second = more.deep_view();
    found.append(&mut more);
    assert(found.deep_view() =~= first + second);
    found
}

/// The first entry in a namespace and a locale.
fn find_first_entry<'a>(
    entries: &'a [DictionaryEntry],
    namespace: Option<&str>,
    locale: &str,
) -> (found: Option<&'a DictionaryEntry>)
    ensures
        found.deep_view() == first_entry(
            entries.deep_view(),
            namespace.deep_view(),
            locale@,
            0,
        ),
{
    let ghost all = entries.deep_view();
    let ghost wanted = namespace.deep_view();
    let mut n: usize = 0;
    while n < entries.len()
        invariant
            n <= entries@.len(),
            all == entries.deep_view(),
            wanted == namespace.deep_view(),
            first_entry(all, wanted, locale@, 0) == first_entry(all, wanted, locale@, n as int),
        decreases entries@.len() - n,
    {
        assert(all[n as int] == entries@[n as int].deep_view());
        if index::same_namespace(&entries[n].namespace, namespace) && text::same(
            entries[n].locale.as_str(),
            locale,
        ) {
            return Some(&entries[n]);
        }
        n += 1;
    }
    None
}

/// The entries in a locale.
fn keep_locale<'a>(entries: Vec<&'a DictionaryEntry>, locale: &str) -> (found: Vec<
    &'a DictionaryEntry,
>)
    ensures
        found.deep_view() == in_locale(entries.deep_view(), locale@),
{
    let ghost all = entries.deep_view();
    let ghost keep = |entry: dictionary::EntryView| entry.locale == locale@;
    let mut found: Vec<&'a DictionaryEntry> = Vec::new();
    assert(found.deep_view() =~= Seq::<dictionary::EntryView>::empty());
    assert(all.take(0) =~= Seq::<dictionary::EntryView>::empty());
    let mut n: usize = 0;
    while n < entries.len()
        invariant
            n <= entries@.len(),
            all == entries.deep_view(),
            keep == (|entry: dictionary::EntryView| entry.locale == locale@),
            found.deep_view() == sort::kept(all.take(n as int), keep),
        decreases entries@.len() - n,
    {
        let ghost before = found.deep_view();
        assert(all[n as int] == entries@[n as int].deep_view());
        assert(all.take(n + 1) =~= all.take(n as int).push(all[n as int]));
        proof {
            sort::lemma_kept_push(all.take(n as int), all[n as int], keep);
        }
        if text::same(entries[n].locale.as_str(), locale) {
            found.push(entries[n]);
            assert(found.deep_view() =~= before.push(all[n as int]));
        }
        n += 1;
    }
    assert(all.take(n as int) =~= all);
    found
}

/// The places that define the key at a position, where there are any.
pub fn definition(workspace: &WorkspaceIndex, uri: &str, position: Position) -> (found: Option<
    Vec<Location>,
>)
    ensures
        found.deep_view() == definition_at(workspace.deep_view(), uri@, position),
{
    let snapshot = workspace.snapshot();
    let offset: usize = match position::position_offset(snapshot, uri, position) {
        Some(offset) => offset,
        None => {
            return None;
        },
    };
    let places = define(workspace, uri, offset);
    assert(places.deep_view().len() == places@.len());
    if places.len() == 0 {
        None
    } else {
        Some(places)
    }
}

/// The places that define the key under a cursor.
fn define(workspace: &WorkspaceIndex, uri: &str, offset: usize) -> (places: Vec<Location>)
    ensures
        places.deep_view() == definition_places(workspace.deep_view(), uri@, offset),
{
    let snapshot = workspace.snapshot();
    let locale = workspace.config().default_locale.as_str();
    let separator = workspace.config().key_separator.as_str();
    let none: Vec<Location> = Vec::new();
    assert(none.deep_view() =~= Seq::<position::LocationView>::empty());
    let key = match find_key_under(snapshot, uri, offset, separator) {
        Some(key) => key,
        None => {
            return none;
        },
    };
    let namespace = text::borrowed(&key.namespace);
    if let Some(occurrence) = snapshot.occurrence_at(uri, offset) {
        if occurrence.kind == OccurrenceKind::NamespaceDeclaration {
            return match find_first_entry(
                snapshot.dictionary_entries_all(),
                namespace,
                locale,
            ) {
                Some(entry) => {
                    let one: [&DictionaryEntry; 1] = [entry];
                    assert(one@.len() == 1);
                    let entries: &[&DictionaryEntry] = &one;
                    assert(entries.deep_view() =~= seq![entry.deep_view()]);
                    locate_entries(snapshot, entries)
                },
                None => none,
            };
        }
    }
    let entries = snapshot.qualified_entries(namespace, &key.key);
    if snapshot.dictionary_at(uri, offset).is_some() {
        let is_scope = any_object(&entries);
        let found = find_uses(snapshot, &key, separator, is_scope);
        assert(found.deep_view().len() == found@.len());
        locate_occurrences(snapshot, &found)
    } else {
        let found = keep_locale(entries, locale);
        assert(found.deep_view().len() == found@.len());
        locate_entries(snapshot, &found)
    }
}

/// The places that use the key at a position, and where they are asked for also its entries.
pub fn references(
    workspace: &WorkspaceIndex,
    uri: &str,
    position: Position,
    include_declaration: bool,
) -> (found: Option<Vec<Location>>)
    ensures
        found.deep_view() == references_at(
            workspace.deep_view(),
            uri@,
            position,
            include_declaration,
        ),
{
    let snapshot = workspace.snapshot();
    let separator = workspace.config().key_separator.as_str();
    let offset: usize = match position::position_offset(snapshot, uri, position) {
        Some(offset) => offset,
        None => {
            return None;
        },
    };
    let key = match find_key_under(snapshot, uri, offset, separator) {
        Some(key) => key,
        None => {
            return None;
        },
    };
    let entries = snapshot.qualified_entries(text::borrowed(&key.namespace), &key.key);
    assert(entries.deep_view().len() == entries@.len());
    let declared: bool = match snapshot.occurrence_at(uri, offset) {
        Some(occurrence) => occurrence.kind == OccurrenceKind::ScopeDeclaration,
        None => false,
    };
    let is_scope = any_object(&entries) || declared;
    let found = find_uses(snapshot, &key, separator, is_scope);
    assert(found.deep_view().len() == found@.len());
    let mut places = locate_occurrences(snapshot, &found);
    if include_declaration {
        let mut more = locate_entries(snapshot, &entries);
        let ghost first = places.deep_view();
        let ghost second = more.deep_view();
        places.append(&mut more);
        assert(places.deep_view() =~= first + second);
    }
    Some(places)
}

/// The keys directly in a scope, as they are shown.
fn find_children<'a>(
    snapshot: &'a IndexSnapshot,
    key: &QualifiedKey,
    locale: &str,
    separator: &str,
) -> (children: Vec<Child<'a>>)
    ensures
        children.deep_view() == shown_children(
            snapshot.deep_view(),
            key.deep_view(),
            locale@,
            separator@,
        ),
{
    let direct = snapshot.qualified_children(
        text::borrowed(&key.namespace),
        &key.key,
        separator,
    );
    let found = keep_locale(direct, locale);
    let ghost all = found.deep_view();
    let mut children: Vec<Child<'a>> = Vec::new();
    assert(children.deep_view() =~= all.take(0));
    let mut n: usize = 0;
    while n < found.len()
        invariant
            n <= found@.len(),
            all == found.deep_view(),
            children.deep_view() == all.take(n as int),
        decreases found@.len() - n,
    {
        let ghost before = children.deep_view();
        children.push(Child(found[n]));
        assert(children.deep_view() =~= before.push(all[n as int]));
        assert(all.take(n + 1) =~= before.push(all[n as int]));
        n += 1;
    }
    assert(all.take(n as int) =~= all);
    let sorted = sort::sort(children);
    let ghost whole = sorted.deep_view();
    assert(whole.len() == sorted@.len());
    let mut once: Vec<Child<'a>> = Vec::new();
    assert(once.deep_view() =~= Seq::<dictionary::EntryView>::empty());
    let mut m: usize = 0;
    while m < sorted.len()
        invariant
            m <= sorted@.len(),
            whole == sorted.deep_view(),
            once.deep_view() == once_each(whole, m as int),
        decreases sorted@.len() - m,
    {
        assert(whole[m as int] == sorted@[m as int].deep_view());
        if !any_child_key(&once, &sorted[m].0.key) {
            let ghost before = once.deep_view();
            once.push(Child(sorted[m].0));
            assert(once.deep_view() =~= before.push(whole[m as int]));
        }
        m += 1;
    }
    once
}

/// Whether one of the children has this key.
fn any_child_key(children: &[Child<'_>], key: &CanonicalKey) -> (found: bool)
    ensures
        found == has_entry_key(children.deep_view(), key@),
{
    let ghost all = children.deep_view();
    let mut n: usize = 0;
    while n < children.len()
        invariant
            n <= children@.len(),
            all == children.deep_view(),
            forall|i: int| 0 <= i < n ==> (#[trigger] all[i]).key != key@,
        decreases children@.len() - n,
    {
        assert(all[n as int] == children@[n as int].deep_view());
        if children[n].0.key.same(key) {
            return true;
        }
        n += 1;
    }
    false
}

/// The line that shows a key in a scope.
fn write_child(child: &DictionaryEntry, scope: &CanonicalKey, separator: &str) -> (line: String)
    ensures
        line@ == child_line(child.deep_view(), scope@, separator@),
{
    let mut line = "- `".to_owned();
    match child.key.relative_to(scope, separator) {
        Some(relative) => line.append(relative),
        None => line.append(child.key.as_str()),
    }
    match &child.value {
        Some(value) => {
            line.append("`: ");
            line.append(value.as_str());
        },
        None => line.append("`"),
    }
    line
}

/// The lines that show the keys in a scope.
fn write_preview(children: &[Child<'_>], scope: &CanonicalKey, separator: &str) -> (lines: Vec<
    String,
>)
    ensures
        lines.deep_view() == preview_lines(children.deep_view(), scope@, separator@),
{
    let ghost all = children.deep_view();
    let ghost whole = all.map_values(
        |child: dictionary::EntryView| child_line(child, scope@, separator@),
    );
    let mut lines: Vec<String> = Vec::new();
    assert(lines.deep_view() =~= whole.take(0));
    let mut n: usize = 0;
    while n < children.len() && n < PREVIEW_LIMIT
        invariant
            n <= children@.len(),
            n <= PREVIEW_LIMIT,
            all == children.deep_view(),
            whole == all.map_values(
                |child: dictionary::EntryView| child_line(child, scope@, separator@),
            ),
            lines.deep_view() == whole.take(n as int),
        decreases children@.len() - n,
    {
        assert(all[n as int] == children@[n as int].deep_view());
        let ghost before = lines.deep_view();
        lines.push(write_child(children[n].0, scope, separator));
        assert(lines.deep_view() =~= before.push(whole[n as int]));
        assert(whole.take(n + 1) =~= before.push(whole[n as int]));
        n += 1;
    }
    if children.len() > PREVIEW_LIMIT {
        assert(whole.take(n as int) =~= all.take(PREVIEW_LIMIT as int).map_values(
            |child: dictionary::EntryView| child_line(child, scope@, separator@),
        ));
        let ghost before = lines.deep_view();
        lines.push("...".to_owned());
        assert(lines.deep_view() =~= before.push("..."@));
    } else {
        assert(whole.take(n as int) =~= whole);
    }
    lines
}

/// What is shown of a key.
fn describe(workspace: &WorkspaceIndex, key: &QualifiedKey) -> (text: String)
    ensures
        text@ == hover_text(workspace.deep_view(), key.deep_view()),
{
    let snapshot = workspace.snapshot();
    let locale = workspace.config().default_locale.as_str();
    let separator = workspace.config().key_separator.as_str();
    let entries = snapshot.qualified_entries(text::borrowed(&key.namespace), &key.key);
    let ghost all = entries.deep_view();
    let mut n: usize = 0;
    while n < entries.len()
        invariant
            n <= entries@.len(),
            all == entries.deep_view(),
            all == workspace.deep_view().snapshot.entries_of(key.deep_view().namespace, key.key@),
            snapshot.deep_view() == workspace.deep_view().snapshot,
            locale@ == workspace.deep_view().config.default_locale,
            separator@ == workspace.deep_view().config.key_separator,
            first_in_locale(all, locale@, 0) == first_in_locale(all, locale@, n as int),
        decreases entries@.len() - n,
    {
        let entry = entries[n];
        assert(all[n as int] == entry.deep_view());
        if text::same(entry.locale.as_str(), locale) {
            return match entry.kind {
                EntryKind::Leaf => match &entry.value {
                    Some(value) => value.clone(),
                    None => {
                        let nothing = String::new();
                        assert(nothing@ =~= Seq::<char>::empty());
                        nothing
                    },
                },
                EntryKind::Object => {
                    proof {
                        reveal_strlit("\n");
                    }
                    assert("\n"@ =~= seq!['\n']);
                    let children = find_children(snapshot, key, locale, separator);
                    let lines = write_preview(&children, &key.key, separator);
                    search::join(&lines, "\n")
                },
            };
        }
        n += 1;
    }
    let mut text = "Translation key `".to_owned();
    text.append(key.key.as_str());
    text.append("` does not exist.");
    text
}

/// What is shown of the key at a position.
pub fn hover(workspace: &WorkspaceIndex, uri: &str, position: Position) -> (text: Option<String>)
    ensures
        text.deep_view() == hover_at(workspace.deep_view(), uri@, position),
{
    match key_at_position(
        workspace.snapshot(),
        uri,
        position,
        workspace.config().key_separator.as_str(),
    ) {
        Some(key) => Some(describe(workspace, &key)),
        None => None,
    }
}

/// The key at a position as a reader writes it.
pub fn resolve_full_key(workspace: &WorkspaceIndex, uri: &str, position: Position) -> (text: Option<
    String,
>)
    ensures
        text.deep_view() == match key_at(
            workspace.deep_view().snapshot,
            uri@,
            position,
            workspace.deep_view().config.key_separator,
        ) {
            Some(key) => Some(key::qualified_text(key)),
            None => None,
        },
{
    match key_at_position(
        workspace.snapshot(),
        uri,
        position,
        workspace.config().key_separator.as_str(),
    ) {
        Some(key) => Some(key.display()),
        None => None,
    }
}

} // verus!
