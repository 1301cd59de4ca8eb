//! What the key under a cursor is, and what is shown of it.
use crate::dictionary;
use crate::dictionary::EntryKind;
use crate::index;
use crate::key;
use crate::laws;
use crate::laws::members;
use crate::laws::references;
use crate::navigation;
use crate::position;
use crate::search;
use crate::sort;
use crate::source;
use crate::text;
use crate::workspace;
use vstd::prelude::*;

verus! {

/// Whether `end` is where the segment of `whole` ends that a cursor behind `at` characters stands
/// in: at the first separator that is not before the cursor, or at the end.
pub open spec fn ends_segment(whole: Seq<char>, separator: Seq<char>, at: int, end: int) -> bool {
    &&& 0 <= end <= whole.len()
    &&& at < end + separator.len()
    &&& end == whole.len() || search::occurs_at(whole, separator, end)
    &&& forall|j: int| at <= j < end ==> !search::occurs_at(whole, separator, j)
}

proof fn lemma_leading(whole: Seq<char>, separator: Seq<char>, at: int, from: int) -> (end: int)
    requires
        separator.len() > 0,
        0 <= from <= at <= whole.len(),
    ensures
        from <= end,
        ends_segment(whole, separator, at, end),
        ({
            let segments = search::segments_from(whole, separator, from);
            let count = search::segments_from(whole.take(at), separator, from).len() as int;
            &&& count > 0
            &&& search::joined(
                if count < segments.len() {
                    segments.take(count)
                } else {
                    segments
                },
                separator,
            ) == whole.subrange(from, end)
        }),
    decreases whole.len() - from,
{
    let front = whole.take(at);
    let width = separator.len() as int;
    let segments = search::segments_from(whole, separator, from);
    search::lemma_find(whole, separator, from);
    search::lemma_find(front, separator, from);
    assert forall|j: int| 0 <= j && j + width <= at implies search::occurs_at(front, separator, j)
        == search::occurs_at(whole, separator, j) by {
        assert(front.subrange(j, j + width) =~= whole.subrange(j, j + width));
    }
    match search::find_from(front, separator, from) {
        None => {
            match search::find_from(whole, separator, from) {
                None => {
                    let end = whole.len() as int;
                    assert(search::joined(segments, separator) == whole.subrange(from, end));
                    end
                },
                Some(i) => {
                    if i + width <= at {
                        assert(search::occurs_at(front, separator, i));
                    }
                    laws::lemma_segments_joined(whole, separator, i + width);
                    assert(segments.take(1) =~= seq![whole.subrange(from, i)]);
                    assert(segments.len() > 1);
                    i
                },
            }
        },
        Some(d) => {
            assert(search::occurs_at(whole, separator, d));
            let i = search::find_from(whole, separator, from)->0;
            if i < d {
                assert(search::occurs_at(front, separator, i));
            }
            assert(i == d);
            let end = lemma_leading(whole, separator, at, d + width);
            let rest = search::segments_from(whole, separator, d + width);
            let count = search::segments_from(front, separator, d + width).len() as int;
            let first = whole.subrange(from, d);
            assert(segments =~= seq![first] + rest);
            let kept = if count < rest.len() {
                rest.take(count)
            } else {
                rest
            };
            laws::lemma_segments_joined(whole, separator, d + width);
            laws::lemma_joined_front(first, kept, separator);
            let all = if count + 1 < segments.len() {
                segments.take(count + 1)
            } else {
                segments
            };
            assert(all =~= seq![first] + kept);
            assert(first + separator + whole.subrange(d + width, end) =~= whole.subrange(from, end)) by {
                assert(whole.subrange(d, d + width) == separator);
                assert(whole.subrange(from, end) =~= first + whole.subrange(d, d + width)
                    + whole.subrange(d + width, end));
            }
            end
        },
    }
}

/// What an occurrence has written in its place, where it is written as it is read: what follows
/// its scope, or else the whole key.
pub open spec fn written(occurrence: source::OccurrenceView) -> Seq<char> {
    if occurrence.scope is Some && occurrence.relative_key is Some {
        occurrence.relative_key->0
    } else {
        occurrence.key
    }
}

/// The key that `part` of what an occurrence has written stands for: `part` under its scope.
pub open spec fn completed(
    occurrence: source::OccurrenceView,
    part: Seq<char>,
    separator: Seq<char>,
) -> Seq<char> {
    if occurrence.scope is Some && occurrence.relative_key is Some {
        occurrence.scope->0 + separator + part
    } else {
        part
    }
}

/// Whether a cursor at `offset` stands in an occurrence behind `front`, with `back` after it.
pub open spec fn stands_between(
    occurrence: source::OccurrenceView,
    text: Seq<char>,
    offset: int,
    front: Seq<char>,
    back: Seq<char>,
) -> bool {
    &&& text::byte_slice(text, occurrence.range.0 as int, occurrence.range.1 as int) == Some(
        front + back,
    )
    &&& front + back == written(occurrence)
    &&& offset == occurrence.range.0 + text::byte_len(front)
}

/// A cursor in an occurrence is on the key up to the end of the segment that it stands in, under
/// the scope of the occurrence and in its namespace.
pub proof fn cursors_pick_the_key_so_far(
    occurrence: source::OccurrenceView,
    text: Seq<char>,
    offset: int,
    front: Seq<char>,
    back: Seq<char>,
    separator: Seq<char>,
) -> (end: int)
    requires
        separator.len() > 0,
        stands_between(occurrence, text, offset, front, back),
    ensures
        ends_segment(written(occurrence), separator, front.len() as int, end),
        ({
            let key = completed(occurrence, written(occurrence).take(end), separator);
            navigation::occurrence_key(occurrence, text, offset, separator) == if key::is_key(
                key,
                separator,
            ) {
                Some(key::QualifiedKeyView { namespace: occurrence.namespace, key })
            } else {
                None
            }
        }),
{
    let whole = front + back;
    text::lemma_encode_add(front, back);
    assert(whole.take(front.len() as int) =~= front);
    text::lemma_index_of_prefix(whole, front.len() as int);
    text::lemma_index_of_prefix(whole, 0);
    assert(whole.take(0) =~= Seq::<char>::empty());
    text::lemma_index_at(whole, 0);
    assert(whole.subrange(0, front.len() as int) =~= front);
    assert(text::byte_slice(whole, 0, text::byte_len(front) as int) == Some(front));
    let end = lemma_leading(whole, separator, front.len() as int, 0);
    assert(whole.subrange(0, end) =~= whole.take(end));
    end
}

/// In its last segment a cursor is on the key of the occurrence itself, whatever its kind.
pub proof fn last_segments_stand_for_the_key(
    occurrence: source::OccurrenceView,
    text: Seq<char>,
    offset: int,
    front: Seq<char>,
    back: Seq<char>,
    separator: Seq<char>,
)
    requires
        key::is_key(occurrence.key, separator),
        stands_between(occurrence, text, offset, front, back),
        occurrence.key == completed(occurrence, written(occurrence), separator),
        forall|j: int|
            search::occurs_at(front + back, separator, j) ==> j + separator.len() <= front.len(),
    ensures
        navigation::occurrence_key(occurrence, text, offset, separator) == Some(
            key::QualifiedKeyView { namespace: occurrence.namespace, key: occurrence.key },
        ),
{
    let end = cursors_pick_the_key_so_far(occurrence, text, offset, front, back, separator);
    let whole = written(occurrence);
    assert(end == whole.len());
    assert(whole.take(end) =~= whole);
}

/// In any segment a cursor is on the key of the occurrence or on one that this lies in, and that
/// lies in the scope of the occurrence.
pub proof fn earlier_segments_stand_for_ancestors(
    occurrence: source::OccurrenceView,
    text: Seq<char>,
    offset: int,
    front: Seq<char>,
    back: Seq<char>,
    separator: Seq<char>,
)
    requires
        separator.len() > 0,
        stands_between(occurrence, text, offset, front, back),
        occurrence.key == completed(occurrence, written(occurrence), separator),
    ensures
        navigation::occurrence_key(occurrence, text, offset, separator) matches Some(found) ==> {
            &&& found.namespace == occurrence.namespace
            &&& found.key == occurrence.key || references::lies_in(
                occurrence.key,
                found.key,
                separator,
            )
            &&& occurrence.scope is Some && occurrence.relative_key is Some ==> references::lies_in(
                found.key,
                occurrence.scope->0,
                separator,
            )
        },
{
    let end = cursors_pick_the_key_so_far(occurrence, text, offset, front, back, separator);
    let whole = written(occurrence);
    let part = whole.take(end);
    let key = completed(occurrence, part, separator);
    if occurrence.scope is Some && occurrence.relative_key is Some {
        assert(key == occurrence.scope->0 + separator + part);
        assert(references::lies_in(key, occurrence.scope->0, separator));
    }
    if end == whole.len() {
        assert(part =~= whole);
    } else {
        let rest = whole.skip(end + separator.len());
        assert(whole =~= part + separator + rest) by {
            assert(whole.subrange(end, end + separator.len()) == separator);
            assert(whole =~= part + whole.subrange(end, end + separator.len()) + rest);
        }
        assert(occurrence.key =~= key + separator + rest);
        assert(references::lies_in(occurrence.key, key, separator));
    }
}

proof fn lemma_touched(
    occurrences: Seq<source::OccurrenceView>,
    offset: usize,
    o: int,
    from: int,
)
    requires
        0 <= from <= o < occurrences.len(),
        occurrences[o].range.0 <= offset <= occurrences[o].range.1,
        forall|i: int|
            from <= i < o ==> !((#[trigger] occurrences[i]).range.0 <= offset
                <= occurrences[i].range.1),
    ensures
        index::touched(occurrences, offset, from) == Some(occurrences[o]),
    decreases o - from,
{
    if from < o {
        lemma_touched(occurrences, offset, o, from + 1);
    }
}

/// The key at a position in source code is the one that the first occurrence there stands for.
pub proof fn occurrences_give_the_key(
    held: workspace::WorkspaceView,
    uri: Seq<char>,
    position: position::Position,
    offset: int,
    file: index::FileView,
    o: int,
    key: key::QualifiedKeyView,
)
    requires
        position::offset_in(held.snapshot, uri, position) == Some(offset),
        0 <= offset <= usize::MAX,
        held.snapshot.file(uri) == Some(file),
        0 <= o < file.occurrences.len(),
        file.occurrences[o].range.0 <= offset <= file.occurrences[o].range.1,
        forall|i: int|
            0 <= i < o ==> !((#[trigger] file.occurrences[i]).range.0 <= offset
                <= file.occurrences[i].range.1),
        navigation::occurrence_key(
            file.occurrences[o],
            file.text,
            offset,
            held.config.key_separator,
        ) == Some(key),
    ensures
        laws::occurrence_at(held, uri, position) == Some(file.occurrences[o]),
        laws::key_stands_at(held, uri, position, key.namespace, key.key),
        navigation::hover_at(held, uri, position) == Some(navigation::hover_text(held, key)),
{
    lemma_touched(file.occurrences, offset as usize, o, 0);
}

proof fn lemma_deepest(entries: Seq<dictionary::EntryView>, offset: usize, n: int)
    requires
        0 <= n <= entries.len(),
    ensures
        match index::deepest(entries, offset, n) {
            Some(found) => {
                &&& found.key_range.0 <= offset <= found.key_range.1
                &&& exists|i: int| 0 <= i < n && #[trigger] entries[i] == found
                &&& forall|i: int|
                    0 <= i < n && (#[trigger] entries[i]).key_range.0 <= offset
                        <= entries[i].key_range.1 ==> text::byte_len(entries[i].key)
                        <= text::byte_len(found.key)
            },
            None => forall|i: int|
                0 <= i < n ==> !((#[trigger] entries[i]).key_range.0 <= offset
                    <= entries[i].key_range.1),
        },
    decreases n,
{
    if n > 0 {
        lemma_deepest(entries, offset, n - 1);
        assert(entries[n - 1] == entries[n - 1]);
    }
}

/// The key at a position in a dictionary is that of an entry whose name is there, of those the one
/// with the longest key; there is none where no name is.
pub proof fn dictionaries_give_the_key(
    held: workspace::WorkspaceView,
    uri: Seq<char>,
    position: position::Position,
    offset: int,
    file: index::FileView,
)
    requires
        position::offset_in(held.snapshot, uri, position) == Some(offset),
        0 <= offset <= usize::MAX,
        held.snapshot.file(uri) == Some(file),
        file.occurrences.len() == 0,
    ensures
        match navigation::key_at(held.snapshot, uri, position, held.config.key_separator) {
            Some(key) => exists|e: int|
                0 <= e < file.dictionaries.len() && (#[trigger] file.dictionaries[e]).key_range.0
                    <= offset <= file.dictionaries[e].key_range.1 && key.key
                    == file.dictionaries[e].key && key.namespace == file.dictionaries[e].namespace
                    && forall|i: int|
                    0 <= i < file.dictionaries.len() && (
                    #[trigger] file.dictionaries[i]).key_range.0 <= offset
                        <= file.dictionaries[i].key_range.1 ==> text::byte_len(
                        file.dictionaries[i].key,
                    ) <= text::byte_len(key.key),
            None => forall|e: int|
                0 <= e < file.dictionaries.len() ==> !((
                #[trigger] file.dictionaries[e]).key_range.0 <= offset
                    <= file.dictionaries[e].key_range.1),
        },
{
    lemma_deepest(file.dictionaries, offset as usize, file.dictionaries.len() as int);
}

/// Whether a dictionary of the default locale has an entry for a key.
pub open spec fn is_default_entry(
    held: workspace::WorkspaceView,
    key: key::QualifiedKeyView,
    entry: dictionary::EntryView,
) -> bool {
    &&& members::is_entry(held.snapshot, entry)
    &&& entry.namespace == key.namespace
    &&& entry.key == key.key
    &&& entry.locale == held.config.default_locale
}

proof fn lemma_first_in_locale(
    entries: Seq<dictionary::EntryView>,
    locale: Seq<char>,
    from: int,
)
    requires
        0 <= from,
    ensures
        match navigation::first_in_locale(entries, locale, from) {
            Some(entry) => entries.contains(entry) && entry.locale == locale,
            None => forall|i: int|
                from <= i < entries.len() ==> (#[trigger] entries[i]).locale != locale,
        },
    decreases entries.len() - from,
{
    if from < entries.len() && entries[from].locale != locale {
        lemma_first_in_locale(entries, locale, from + 1);
    } else if from < entries.len() {
        assert(entries.contains(entries[from]));
    }
}

/// What is shown of a key comes from an entry in the default locale: of a translation the
/// translation, of a scope what is in it. Where there is no such entry, that is said.
pub proof fn hovering_tells_of_the_default_locale(
    held: workspace::WorkspaceView,
    key: key::QualifiedKeyView,
)
    ensures
        ({
            let shown = navigation::hover_text(held, key);
            if exists|entry: dictionary::EntryView| is_default_entry(held, key, entry) {
                exists|entry: dictionary::EntryView| #[trigger]
                    is_default_entry(held, key, entry) && match entry.kind {
                        EntryKind::Leaf => match entry.value {
                            Some(value) => shown == value,
                            None => shown.len() == 0,
                        },
                        EntryKind::Object => shown == search::joined(
                            navigation::preview_lines(
                                navigation::shown_children(
                                    held.snapshot,
                                    key,
                                    held.config.default_locale,
                                    held.config.key_separator,
                                ),
                                key.key,
                                held.config.key_separator,
                            ),
                            seq!['\n'],
                        ),
                    }
            } else {
                shown == "Translation key `"@ + key.key + "` does not exist."@
            }
        }),
{
    let locale = held.config.default_locale;
    let entries = held.snapshot.entries_of(key.namespace, key.key);
    let any = arbitrary::<source::OccurrenceView>();
    lemma_first_in_locale(entries, locale, 0);
    match navigation::first_in_locale(entries, locale, 0) {
        Some(entry) => {
            members::lookups_are_exact(held.snapshot, key.namespace, key.key, entry, any);
            assert(is_default_entry(held, key, entry));
        },
        None => {
            if exists|entry: dictionary::EntryView| is_default_entry(held, key, entry) {
                let entry = choose|entry: dictionary::EntryView|
                    is_default_entry(held, key, entry);
                members::lookups_are_exact(held.snapshot, key.namespace, key.key, entry, any);
                assert(entries[entries.index_of(entry)].locale == locale);
            }
        },
    }
}

proof fn lemma_once_each(entries: Seq<dictionary::EntryView>, n: int)
    requires
        0 <= n <= entries.len(),
    ensures
        ({
            let kept = navigation::once_each(entries, n);
            &&& forall|i: int, j: int| 0 <= i < j < kept.len() ==> kept[i].key != kept[j].key
            &&& forall|i: int| 0 <= i < kept.len() ==> entries.contains(#[trigger] kept[i])
            &&& forall|i: int|
                0 <= i < n ==> navigation::has_entry_key(kept, (#[trigger] entries[i]).key)
        }),
    decreases n,
{
    if n > 0 {
        lemma_once_each(entries, n - 1);
        let front = navigation::once_each(entries, n - 1);
        let kept = navigation::once_each(entries, n);
        assert(entries.contains(entries[n - 1]));
        assert forall|i: int| 0 <= i < n implies navigation::has_entry_key(
            kept,
            (#[trigger] entries[i]).key,
        ) by {
            if i < n - 1 {
                let k = choose|k: int|
                    0 <= k < front.len() && (#[trigger] front[k]).key == entries[i].key;
                assert(kept[k].key == entries[i].key);
            } else if !navigation::has_entry_key(front, entries[i].key) {
                assert(kept[front.len() as int].key == entries[i].key);
            }
        }
        assert forall|i: int, j: int| 0 <= i < j < kept.len() implies kept[i].key
            != kept[j].key by {
            if j == front.len() {
                assert(kept[i] == front[i]);
            }
        }
    }
}

/// The keys that are shown of a scope are those directly in it that the default locale has, each
/// once.
pub proof fn scopes_show_their_children(
    held: workspace::WorkspaceView,
    scope: key::QualifiedKeyView,
    key: Seq<char>,
)
    ensures
        ({
            let shown = navigation::shown_children(
                held.snapshot,
                scope,
                held.config.default_locale,
                held.config.key_separator,
            );
            &&& forall|i: int, j: int| 0 <= i < j < shown.len() ==> shown[i].key != shown[j].key
            &&& navigation::has_entry_key(shown, key) <==> references::is_child(
                key,
                scope.key,
                held.config.key_separator,
            ) && exists|entry: dictionary::EntryView| #[trigger]
                members::is_entry(held.snapshot, entry) && entry.namespace == scope.namespace
                    && entry.key == key && entry.locale == held.config.default_locale
        }),
{
    let separator = held.config.key_separator;
    let locale = held.config.default_locale;
    let all = held.snapshot.entries_in(scope.namespace);
    let direct = sort::kept(
        all,
        |entry: dictionary::EntryView| key::parent_of(entry.key, separator) == Some(scope.key),
    );
    let local = navigation::in_locale(direct, locale);
    let sorted = sort::sorted::<navigation::Child<'_>>(local);
    let shown = navigation::once_each(sorted, sorted.len() as int);
    lemma_once_each(sorted, sorted.len() as int);
    references::lemma_child(key, scope.key, separator);
    assert forall|entry: dictionary::EntryView| #[trigger]
        sorted.contains(entry) == (members::is_entry(held.snapshot, entry) && entry.namespace
            == scope.namespace && entry.locale == locale && key::parent_of(entry.key, separator)
            == Some(scope.key)) by {
        members::entries_come_from_files(held.snapshot, scope.namespace, entry);
        members::kept_members(
            all,
            |entry: dictionary::EntryView| key::parent_of(entry.key, separator) == Some(scope.key),
            entry,
        );
        members::kept_members(
            direct,
            |entry: dictionary::EntryView| entry.locale == locale,
            entry,
        );
        members::sorted_members::<navigation::Child<'_>>(local, entry);
    }
    if navigation::has_entry_key(shown, key) {
        let i = choose|i: int| 0 <= i < shown.len() && (#[trigger] shown[i]).key == key;
        assert(sorted.contains(shown[i]));
        assert(members::is_entry(held.snapshot, shown[i]));
    }
    if references::is_child(key, scope.key, separator) && exists|entry: dictionary::EntryView|
     #[trigger]
        members::is_entry(held.snapshot, entry) && entry.namespace == scope.namespace && entry.key
            == key && entry.locale == locale {
        let entry = choose|entry: dictionary::EntryView| #[trigger]
            members::is_entry(held.snapshot, entry) && entry.namespace == scope.namespace
                && entry.key == key && entry.locale == locale;
        assert(sorted.contains(entry));
        assert(navigation::has_entry_key(shown, sorted[sorted.index_of(entry)].key));
    }
}

/// Of the keys in a scope the first five are shown, a line for each with its name in the scope and
/// its translation, and three dots where there are more.
pub proof fn previews_are_short(
    children: Seq<dictionary::EntryView>,
    scope: Seq<char>,
    separator: Seq<char>,
    i: int,
)
    requires
        0 <= i < children.len(),
    ensures
        ({
            let lines = navigation::preview_lines(children, scope, separator);
            &&& children.len() <= 5 ==> lines.len() == children.len()
            &&& children.len() > 5 ==> lines.len() == 6 && lines[5] == "..."@
            &&& i < 5 ==> forall|name: Seq<char>|
                children[i].key == #[trigger] (scope + separator + name) ==> lines[i]
                    == match children[i].value {
                    Some(value) => "- `"@ + name + "`: "@ + value,
                    None => "- `"@ + name + "`"@,
                }
        }),
{
    assert forall|name: Seq<char>| children[i].key == #[trigger] (scope + separator
        + name) implies key::relative_key(children[i].key, scope, separator) == Some(name) by {
        laws::what_follows_a_scope_is_relative(scope, name, separator);
    }
}

} // verus!
