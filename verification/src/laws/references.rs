//! Where the references and the definition of a key lead.
use crate::dictionary;
use crate::dictionary::EntryKind;
use crate::index;
use crate::key;
use crate::laws;
use crate::laws::members;
use crate::navigation;
use crate::position;
use crate::source;
use crate::source::OccurrenceKind;
use crate::workspace;
use vstd::prelude::*;

verus! {

/// Whether `key` is `scope`, a separator and more.
pub open spec fn lies_in(key: Seq<char>, scope: Seq<char>, separator: Seq<char>) -> bool {
    exists|rest: Seq<char>| key == #[trigger] (scope + separator + rest)
}

/// Whether an occurrence is a dynamic scope that is `key` or has it in it.
pub open spec fn sweeps(
    occurrence: source::OccurrenceView,
    key: Seq<char>,
    separator: Seq<char>,
) -> bool {
    occurrence.kind == OccurrenceKind::DynamicScope && (occurrence.key == key || lies_in(
        key,
        occurrence.key,
        separator,
    ))
}

/// Whether an occurrence declares a scope.
pub open spec fn declares(occurrence: source::OccurrenceView, scope: Seq<char>) -> bool {
    occurrence.kind == OccurrenceKind::ScopeDeclaration && occurrence.key == scope
}

/// Whether a key lies in a scope without a separator in what follows the scope.
pub open spec fn lies_directly_in(key: Seq<char>, scope: Seq<char>, separator: Seq<char>) -> bool {
    exists|rest: Seq<char>|
        key == #[trigger] (scope + separator + rest) && forall|j: int|
            scope.len() < j ==> !crate::search::occurs_at(key, separator, j)
}

/// The keys of a namespace that have a translation in a scope.
pub open spec fn translated_in(
    snapshot: index::SnapshotView,
    namespace: Option<Seq<char>>,
    scope: Seq<char>,
    separator: Seq<char>,
) -> Set<Seq<char>> {
    Set::new(
        |key: Seq<char>|
            lies_in(key, scope, separator) && exists|entry: dictionary::EntryView| #[trigger]
                members::is_entry(snapshot, entry) && entry.namespace == namespace && entry.key
                    == key && entry.kind == EntryKind::Leaf,
    )
}

proof fn lemma_lies_in(key: Seq<char>, scope: Seq<char>, separator: Seq<char>)
    ensures
        key::is_below(key, scope, separator) <==> lies_in(key, scope, separator),
{
    let lead = scope + separator;
    if key::is_below(key, scope, separator) {
        let rest = key.skip(lead.len() as int);
        assert(key =~= scope + separator + rest);
    }
    if lies_in(key, scope, separator) {
        let rest = choose|rest: Seq<char>| key == #[trigger] (scope + separator + rest);
        assert(key.subrange(0, lead.len() as int) =~= lead);
    }
}

proof fn lemma_leaf_keys(
    snapshot: index::SnapshotView,
    namespace: Option<Seq<char>>,
    scope: Seq<char>,
    separator: Seq<char>,
    n: int,
)
    requires
        0 <= n <= snapshot.entries_in(namespace).len(),
    ensures
        ({
            let entries = snapshot.entries_in(namespace);
            let keys = index::leaf_keys(entries, scope, separator, n);
            &&& keys.no_duplicates()
            &&& forall|key: Seq<char>| #[trigger]
                keys.contains(key) <==> key::is_below(key, scope, separator) && exists|e: int|
                    0 <= e < n && (#[trigger] entries[e]).kind == EntryKind::Leaf && entries[e].key
                        == key
        }),
    decreases n,
{
    let entries = snapshot.entries_in(namespace);
    let keys = index::leaf_keys(entries, scope, separator, n);
    if n > 0 {
        lemma_leaf_keys(snapshot, namespace, scope, separator, n - 1);
        let front = index::leaf_keys(entries, scope, separator, n - 1);
        let entry = entries[n - 1];
        assert forall|key: Seq<char>| #[trigger]
            keys.contains(key) <==> key::is_below(key, scope, separator) && exists|e: int|
                0 <= e < n && (#[trigger] entries[e]).kind == EntryKind::Leaf && entries[e].key
                    == key by {
            if keys.contains(key) {
                let k = keys.index_of(key);
                if k < front.len() {
                    assert(front[k] == key);
                    assert(front.contains(key));
                } else {
                    assert(entries[n - 1].key == key);
                }
            }
            if key::is_below(key, scope, separator) && exists|e: int|
                0 <= e < n && (#[trigger] entries[e]).kind == EntryKind::Leaf && entries[e].key
                    == key {
                if front.contains(key) {
                    assert(keys[front.index_of(key)] == key);
                } else {
                    assert(entry.key == key);
                    assert(keys == front.push(entry.key));
                    assert(keys[front.len() as int] == key);
                }
            }
        }
    }
}

/// How many keys of a scope have a translation.
proof fn lemma_scope_size(
    snapshot: index::SnapshotView,
    namespace: Option<Seq<char>>,
    scope: Seq<char>,
    separator: Seq<char>,
)
    ensures
        ({
            let entries = snapshot.entries_in(namespace);
            let found = translated_in(snapshot, namespace, scope, separator);
            &&& found.finite()
            &&& found.len() == index::leaf_keys(
                entries,
                scope,
                separator,
                entries.len() as int,
            ).len()
        }),
{
    let entries = snapshot.entries_in(namespace);
    let keys = index::leaf_keys(entries, scope, separator, entries.len() as int);
    let found = translated_in(snapshot, namespace, scope, separator);
    lemma_leaf_keys(snapshot, namespace, scope, separator, entries.len() as int);
    assert forall|key: Seq<char>| keys.to_set().contains(key) == found.contains(key) by {
        lemma_lies_in(key, scope, separator);
        if keys.contains(key) {
            let e = choose|e: int|
                0 <= e < entries.len() && (#[trigger] entries[e]).kind == EntryKind::Leaf
                    && entries[e].key == key;
            assert(entries.contains(entries[e]));
            members::entries_come_from_files(snapshot, namespace, entries[e]);
        }
        if found.contains(key) {
            let entry = choose|entry: dictionary::EntryView| #[trigger]
                members::is_entry(snapshot, entry) && entry.namespace == namespace && entry.key
                    == key && entry.kind == EntryKind::Leaf;
            members::entries_come_from_files(snapshot, namespace, entry);
            let e = entries.index_of(entry);
            assert(entries[e].key == key);
        }
    }
    assert(keys.to_set() =~= found);
    keys.unique_seq_to_set();
}

/// Whether the parent of a key is `scope`: the text before its last separator.
pub open spec fn is_child(key: Seq<char>, scope: Seq<char>, separator: Seq<char>) -> bool {
    &&& lies_directly_in(key, scope, separator)
    &&& key::is_key(scope, separator)
}

pub(crate) proof fn lemma_child(key: Seq<char>, scope: Seq<char>, separator: Seq<char>)
    ensures
        key::parent_of(key, separator) == Some(scope) <==> is_child(key, scope, separator),
{
    crate::search::lemma_rfind(key, separator, key.len() as int);
    if key::parent_of(key, separator) == Some(scope) {
        let i = crate::search::rfind_from(key, separator, key.len() as int)->0;
        let rest = key.skip(i + separator.len());
        assert(key =~= scope + separator + rest) by {
            assert(key.subrange(i, i + separator.len()) == separator);
            assert(key =~= key.take(i) + key.subrange(i, i + separator.len()) + rest);
        }
        assert forall|j: int| scope.len() < j implies !crate::search::occurs_at(
            key,
            separator,
            j,
        ) by {
            if j <= key.len() {
                assert(i < j <= key.len());
            }
        }
    }
    if is_child(key, scope, separator) {
        let rest = choose|rest: Seq<char>|
            key == #[trigger] (scope + separator + rest) && forall|j: int|
                scope.len() < j ==> !crate::search::occurs_at(key, separator, j);
        let at = scope.len() as int;
        assert(key.subrange(at, at + separator.len()) =~= separator);
        assert(crate::search::occurs_at(key, separator, at));
        let i = crate::search::rfind_from(key, separator, key.len() as int)->0;
        assert(i == at);
        assert(key.take(at) =~= scope);
    }
}

/// Whether an occurrence is to be listed with the references of a scope: it declares the scope, is
/// a dynamic scope with it, names a key directly in it, or, where the scope is small, any key in it.
pub open spec fn belongs_to_scope(
    snapshot: index::SnapshotView,
    occurrence: source::OccurrenceView,
    namespace: Option<Seq<char>>,
    scope: Seq<char>,
    separator: Seq<char>,
) -> bool {
    &&& members::is_occurrence(snapshot, occurrence)
    &&& occurrence.namespace == namespace
    &&& {
        ||| declares(occurrence, scope)
        ||| sweeps(occurrence, scope, separator)
        ||| if translated_in(snapshot, namespace, scope, separator).len() <= 32 {
            lies_in(occurrence.key, scope, separator)
        } else {
            is_child(occurrence.key, scope, separator)
        }
    }
}

/// Whether an occurrence is to be listed with the references of a translation: it names its key, or
/// is a dynamic scope with it.
pub open spec fn belongs_to_key(
    snapshot: index::SnapshotView,
    occurrence: source::OccurrenceView,
    namespace: Option<Seq<char>>,
    key: Seq<char>,
    separator: Seq<char>,
) -> bool {
    &&& members::is_occurrence(snapshot, occurrence)
    &&& occurrence.namespace == namespace
    &&& occurrence.key == key || sweeps(occurrence, key, separator)
}

/// What is found for a scope, and for a translation, is what belongs to it.
pub proof fn uses_are_what_belongs(
    snapshot: index::SnapshotView,
    key: key::QualifiedKeyView,
    separator: Seq<char>,
    occurrence: source::OccurrenceView,
)
    ensures
        navigation::uses_of(snapshot, key, separator, true).contains(occurrence)
            <==> belongs_to_scope(snapshot, occurrence, key.namespace, key.key, separator),
        navigation::uses_of(snapshot, key, separator, false).contains(occurrence)
            <==> belongs_to_key(snapshot, occurrence, key.namespace, key.key, separator),
{
    let all = snapshot.occurrences_in(key.namespace);
    let entries = snapshot.entries_in(key.namespace);
    let any_depth = index::leaf_keys(entries, key.key, separator, entries.len() as int).len()
        <= navigation::REFERENCE_LIMIT;
    lemma_scope_size(snapshot, key.namespace, key.key, separator);
    members::occurrences_come_from_files(snapshot, key.namespace, occurrence);
    members::kept_members(
        all,
        |one: source::OccurrenceView| index::refers_to(one, key.key, separator, any_depth),
        occurrence,
    );
    members::kept_members(
        all,
        |one: source::OccurrenceView| index::covers(one, key.key, separator),
        occurrence,
    );
    members::kept_members(
        all,
        crate::lookup::of_key::<source::SourceOccurrence>(key.key),
        occurrence,
    );
    members::lemma_added(
        snapshot.occurrences_of(key.namespace, key.key),
        crate::sort::kept(
            all,
            |one: source::OccurrenceView| index::covers(one, key.key, separator),
        ),
        occurrence,
    );
    lemma_lies_in(key.key, occurrence.key, separator);
    lemma_lies_in(occurrence.key, key.key, separator);
    lemma_child(occurrence.key, key.key, separator);
}

proof fn lemma_places(
    snapshot: index::SnapshotView,
    occurrences: Seq<source::OccurrenceView>,
    n: int,
    place: position::LocationView,
)
    requires
        0 <= n <= occurrences.len(),
    ensures
        navigation::occurrence_places(snapshot, occurrences, n).contains(place) <==> exists|i: int|
            0 <= i < n && position::location_of(
                snapshot,
                (#[trigger] occurrences[i]).uri,
                occurrences[i].range,
            ) == Some(place),
    decreases n,
{
    if n > 0 {
        lemma_places(snapshot, occurrences, n - 1, place);
        let front = navigation::occurrence_places(snapshot, occurrences, n - 1);
        let last = occurrences[n - 1];
        match position::location_of(snapshot, last.uri, last.range) {
            Some(one) => {
                members::lemma_added(front, seq![one], place);
                assert(front.push(one) =~= front + seq![one]);
                assert(seq![one].contains(place) <==> one == place) by {
                    assert(seq![one][0] == one);
                }
            },
            None => {},
        }
    }
}

proof fn lemma_entry_places(
    snapshot: index::SnapshotView,
    entries: Seq<dictionary::EntryView>,
    n: int,
    place: position::LocationView,
)
    requires
        0 <= n <= entries.len(),
    ensures
        navigation::entry_places(snapshot, entries, n).contains(place) <==> exists|i: int|
            0 <= i < n && position::location_of(
                snapshot,
                (#[trigger] entries[i]).uri,
                entries[i].key_range,
            ) == Some(place),
    decreases n,
{
    if n > 0 {
        lemma_entry_places(snapshot, entries, n - 1, place);
        let front = navigation::entry_places(snapshot, entries, n - 1);
        let last = entries[n - 1];
        match position::location_of(snapshot, last.uri, last.key_range) {
            Some(one) => {
                members::lemma_added(front, seq![one], place);
                assert(front.push(one) =~= front + seq![one]);
                assert(seq![one].contains(place) <==> one == place) by {
                    assert(seq![one][0] == one);
                }
            },
            None => {},
        }
    }
}

/// Whether an occurrence belongs to a key, taken as a scope or as a translation.
pub open spec fn belongs(
    held: workspace::WorkspaceView,
    occurrence: source::OccurrenceView,
    key: key::QualifiedKeyView,
    is_scope: bool,
) -> bool {
    let separator = held.config.key_separator;
    if is_scope {
        belongs_to_scope(held.snapshot, occurrence, key.namespace, key.key, separator)
    } else {
        belongs_to_key(held.snapshot, occurrence, key.namespace, key.key, separator)
    }
}

/// Whether `place` is where an occurrence stands that belongs to a key.
pub open spec fn is_use(
    held: workspace::WorkspaceView,
    key: key::QualifiedKeyView,
    is_scope: bool,
    place: position::LocationView,
) -> bool {
    exists|occurrence: source::OccurrenceView| #[trigger]
        belongs(held, occurrence, key, is_scope) && position::location_of(
            held.snapshot,
            occurrence.uri,
            occurrence.range,
        ) == Some(place)
}

/// Whether `place` is where a dictionary has a key.
pub open spec fn is_definition(
    held: workspace::WorkspaceView,
    key: key::QualifiedKeyView,
    locale: Option<Seq<char>>,
    place: position::LocationView,
) -> bool {
    exists|entry: dictionary::EntryView| #[trigger]
        members::is_entry(held.snapshot, entry) && entry.namespace == key.namespace && entry.key
            == key.key && (locale matches Some(locale) ==> entry.locale == locale)
            && position::location_of(held.snapshot, entry.uri, entry.key_range) == Some(place)
}

/// Whether a dictionary has more keys under a key.
pub open spec fn is_object(held: workspace::WorkspaceView, key: key::QualifiedKeyView) -> bool {
    exists|entry: dictionary::EntryView| #[trigger]
        members::is_entry(held.snapshot, entry) && entry.namespace == key.namespace && entry.key
            == key.key && entry.kind == EntryKind::Object
}

proof fn lemma_object(held: workspace::WorkspaceView, key: key::QualifiedKeyView)
    ensures
        navigation::has_object(held.snapshot.entries_of(key.namespace, key.key)) <==> is_object(
            held,
            key,
        ),
{
    let entries = held.snapshot.entries_of(key.namespace, key.key);
    let any = arbitrary::<source::OccurrenceView>();
    if navigation::has_object(entries) {
        let i = choose|i: int|
            0 <= i < entries.len() && (#[trigger] entries[i]).kind == EntryKind::Object;
        assert(entries.contains(entries[i]));
        members::lookups_are_exact(held.snapshot, key.namespace, key.key, entries[i], any);
    }
    if is_object(held, key) {
        let entry = choose|entry: dictionary::EntryView| #[trigger]
            members::is_entry(held.snapshot, entry) && entry.namespace == key.namespace
                && entry.key == key.key && entry.kind == EntryKind::Object;
        members::lookups_are_exact(held.snapshot, key.namespace, key.key, entry, any);
        let i = entries.index_of(entry);
        assert(entries[i].kind == EntryKind::Object);
    }
}

proof fn lemma_uses(
    held: workspace::WorkspaceView,
    key: key::QualifiedKeyView,
    is_scope: bool,
    place: position::LocationView,
)
    ensures
        ({
            let found = navigation::uses_of(
                held.snapshot,
                key,
                held.config.key_separator,
                is_scope,
            );
            navigation::occurrence_places(held.snapshot, found, found.len() as int).contains(place)
                <==> is_use(held, key, is_scope, place)
        }),
{
    let separator = held.config.key_separator;
    let found = navigation::uses_of(held.snapshot, key, separator, is_scope);
    lemma_places(held.snapshot, found, found.len() as int, place);
    if exists|i: int|
        0 <= i < found.len() && position::location_of(
            held.snapshot,
            (#[trigger] found[i]).uri,
            found[i].range,
        ) == Some(place) {
        let i = choose|i: int|
            0 <= i < found.len() && position::location_of(
                held.snapshot,
                (#[trigger] found[i]).uri,
                found[i].range,
            ) == Some(place);
        assert(found.contains(found[i]));
        uses_are_what_belongs(held.snapshot, key, separator, found[i]);
        assert(belongs(held, found[i], key, is_scope));
    }
    if is_use(held, key, is_scope, place) {
        let occurrence = choose|occurrence: source::OccurrenceView| #[trigger]
            belongs(held, occurrence, key, is_scope) && position::location_of(
                held.snapshot,
                occurrence.uri,
                occurrence.range,
            ) == Some(place);
        uses_are_what_belongs(held.snapshot, key, separator, occurrence);
        let i = found.index_of(occurrence);
        assert(found[i] == occurrence);
    }
}

proof fn lemma_definitions(
    held: workspace::WorkspaceView,
    key: key::QualifiedKeyView,
    place: position::LocationView,
)
    ensures
        ({
            let entries = held.snapshot.entries_of(key.namespace, key.key);
            let local = navigation::in_locale(entries, held.config.default_locale);
            &&& navigation::entry_places(held.snapshot, entries, entries.len() as int).contains(
                place,
            ) <==> is_definition(held, key, None, place)
            &&& navigation::entry_places(held.snapshot, local, local.len() as int).contains(place)
                <==> is_definition(held, key, Some(held.config.default_locale), place)
        }),
{
    let locale = held.config.default_locale;
    let entries = held.snapshot.entries_of(key.namespace, key.key);
    let local = navigation::in_locale(entries, locale);
    let any = arbitrary::<source::OccurrenceView>();
    lemma_entry_places(held.snapshot, entries, entries.len() as int, place);
    lemma_entry_places(held.snapshot, local, local.len() as int, place);
    assert forall|entry: dictionary::EntryView| entries.contains(entry) == (members::is_entry(
        held.snapshot,
        entry,
    ) && entry.namespace == key.namespace && entry.key == key.key) && local.contains(entry) == (
    entries.contains(entry) && entry.locale == locale) by {
        members::lookups_are_exact(held.snapshot, key.namespace, key.key, entry, any);
        members::kept_members(
            entries,
            |one: dictionary::EntryView| one.locale == locale,
            entry,
        );
    }
    if is_definition(held, key, None, place) {
        let entry = choose|entry: dictionary::EntryView| #[trigger]
            members::is_entry(held.snapshot, entry) && entry.namespace == key.namespace
                && entry.key == key.key && position::location_of(
                held.snapshot,
                entry.uri,
                entry.key_range,
            ) == Some(place);
        assert(entries.contains(entry));
        assert(entries[entries.index_of(entry)] == entry);
    }
    if is_definition(held, key, Some(locale), place) {
        let entry = choose|entry: dictionary::EntryView| #[trigger]
            members::is_entry(held.snapshot, entry) && entry.namespace == key.namespace
                && entry.key == key.key && entry.locale == locale && position::location_of(
                held.snapshot,
                entry.uri,
                entry.key_range,
            ) == Some(place);
        assert(entries.contains(entry));
        assert(local.contains(entry));
        assert(local[local.index_of(entry)] == entry);
    }
    if navigation::entry_places(held.snapshot, entries, entries.len() as int).contains(place) {
        let i = choose|i: int|
            0 <= i < entries.len() && position::location_of(
                held.snapshot,
                (#[trigger] entries[i]).uri,
                entries[i].key_range,
            ) == Some(place);
        assert(entries.contains(entries[i]));
    }
    if navigation::entry_places(held.snapshot, local, local.len() as int).contains(place) {
        let i = choose|i: int|
            0 <= i < local.len() && position::location_of(
                held.snapshot,
                (#[trigger] local[i]).uri,
                local[i].key_range,
            ) == Some(place);
        assert(local.contains(local[i]));
        assert(entries.contains(local[i]));
    }
}

/// The references of the key at a position are exactly the places of what belongs to it: to a scope
/// its declarations, the dynamic scopes with it and the keys in it, to a translation what names it
/// and the dynamic scopes with it; and where they are asked for, the places of the key in the
/// dictionaries.
pub proof fn references_are_exact(
    held: workspace::WorkspaceView,
    uri: Seq<char>,
    position: position::Position,
    include_declaration: bool,
    key: key::QualifiedKeyView,
    place: position::LocationView,
)
    requires
        laws::key_stands_at(held, uri, position, key.namespace, key.key),
    ensures
        navigation::references_at(held, uri, position, include_declaration) matches Some(places)
            && (places.contains(place) <==> is_use(
            held,
            key,
            is_object(held, key) || (laws::occurrence_at(held, uri, position) matches Some(here)
                && here.kind == OccurrenceKind::ScopeDeclaration),
            place,
        ) || (include_declaration && is_definition(held, key, None, place))),
{
    let snapshot = held.snapshot;
    let is_scope = is_object(held, key) || (laws::occurrence_at(held, uri, position) matches Some(
        here,
    ) && here.kind == OccurrenceKind::ScopeDeclaration);
    lemma_object(held, key);
    lemma_uses(held, key, is_scope, place);
    lemma_definitions(held, key, place);
    let found = navigation::uses_of(snapshot, key, held.config.key_separator, is_scope);
    let places = navigation::occurrence_places(snapshot, found, found.len() as int);
    let entries = snapshot.entries_of(key.namespace, key.key);
    members::lemma_added(
        places,
        navigation::entry_places(snapshot, entries, entries.len() as int),
        place,
    );
}

/// From a key in a dictionary the definition leads to what belongs to the key, from a key in source
/// code to its places in the dictionaries of the default locale.
pub proof fn definitions_are_exact(
    held: workspace::WorkspaceView,
    uri: Seq<char>,
    position: position::Position,
    key: key::QualifiedKeyView,
    offset: int,
    place: position::LocationView,
)
    requires
        laws::key_stands_at(held, uri, position, key.namespace, key.key),
        position::offset_in(held.snapshot, uri, position) == Some(offset),
        laws::occurrence_at(held, uri, position) matches Some(here) ==> here.kind
            != OccurrenceKind::NamespaceDeclaration,
    ensures
        ({
            let leads_there = navigation::definition_at(held, uri, position) matches Some(places)
                && places.contains(place);
            if navigation::entry_under(held.snapshot, uri, offset as usize) is Some {
                leads_there <==> is_use(held, key, is_object(held, key), place)
            } else {
                leads_there <==> is_definition(
                    held,
                    key,
                    Some(held.config.default_locale),
                    place,
                )
            }
        }),
{
    lemma_object(held, key);
    lemma_uses(held, key, is_object(held, key), place);
    lemma_definitions(held, key, place);
    let places = navigation::definition_places(held, uri, offset as usize);
    if places.contains(place) {
        assert(places.len() > 0);
    }
}

} // verus!
