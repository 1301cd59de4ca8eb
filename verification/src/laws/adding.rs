//! Where a key that is missing goes, and what is written for it.
use crate::chars;
use crate::chars::CharClass;
use crate::dictionary;
use crate::dictionary::EntryKind;
use crate::edit;
use crate::index;
use crate::json;
use crate::key;
use crate::laws;
use crate::laws::keys;
use crate::laws::members;
use crate::laws::writing;
use crate::position;
use crate::search;
use crate::sort;
use crate::source;
use crate::text;
use vstd::prelude::*;

verus! {

/// Whether `part` stands somewhere in `text`.
#[verifier::opaque]
pub open spec fn holds(text: Seq<char>, part: Seq<char>) -> bool {
    exists|lead: Seq<char>, tail: Seq<char>| text == #[trigger] (lead + part + tail)
}

/// Whether an entry of a namespace and a locale stands in some dictionary.
pub open spec fn is_entry_in(
    snapshot: index::SnapshotView,
    namespace: Option<Seq<char>>,
    locale: Seq<char>,
    entry: dictionary::EntryView,
) -> bool {
    members::is_entry(snapshot, entry) && entry.namespace == namespace && entry.locale == locale
}

proof fn lemma_files(
    snapshot: index::SnapshotView,
    namespace: Option<Seq<char>>,
    locale: Seq<char>,
    uri: Seq<char>,
)
    ensures
        edit::files_with(snapshot, namespace, locale).contains(uri) <==> exists|
            entry: dictionary::EntryView,
        | #[trigger]
            is_entry_in(snapshot, namespace, locale, entry) && entry.uri == uri,
{
    let all = snapshot.entries_in(namespace);
    let local = sort::kept(all, |entry: dictionary::EntryView| entry.locale == locale);
    let uris = local.map_values(|entry: dictionary::EntryView| entry.uri);
    crate::laws::lemma_distinct_members(uris, uris.len() as int);
    assert forall|entry: dictionary::EntryView| #[trigger]
        local.contains(entry) == is_entry_in(snapshot, namespace, locale, entry) by {
        members::entries_come_from_files(snapshot, namespace, entry);
        members::kept_members(
            all,
            |entry: dictionary::EntryView| entry.locale == locale,
            entry,
        );
    }
    assert(uris.take(uris.len() as int) =~= uris);
    if uris.contains(uri) {
        let k = uris.index_of(uri);
        assert(local.contains(local[k]));
        assert(is_entry_in(snapshot, namespace, locale, local[k]));
    }
    if exists|entry: dictionary::EntryView| #[trigger]
        is_entry_in(snapshot, namespace, locale, entry) && entry.uri == uri {
        let entry = choose|entry: dictionary::EntryView| #[trigger]
            is_entry_in(snapshot, namespace, locale, entry) && entry.uri == uri;
        assert(local.contains(entry));
        let k = local.index_of(entry);
        assert(uris[k] == uri);
    }
}

proof fn lemma_best(
    snapshot: index::SnapshotView,
    namespace: Option<Seq<char>>,
    scopes: Seq<Seq<char>>,
    locale: Seq<char>,
    separator: Seq<char>,
    files: Seq<Seq<char>>,
    n: int,
)
    requires
        0 <= n <= files.len(),
    ensures
        match edit::best_target(snapshot, namespace, scopes, locale, separator, files, n) {
            None => n == 0,
            Some(target) => {
                &&& files.contains(target.uri)
                &&& target.ancestor == edit::nearest_from(
                    snapshot,
                    namespace,
                    scopes,
                    locale,
                    target.uri,
                    0,
                )
                &&& forall|i: int|
                    0 <= i < n ==> {
                        let there = edit::depth_of(
                            edit::nearest_from(
                                snapshot,
                                namespace,
                                scopes,
                                locale,
                                #[trigger] files[i],
                                0,
                            ),
                            separator,
                        );
                        let here = edit::depth_of(target.ancestor, separator);
                        there < here || (there == here && !text::precedes(files[i], target.uri))
                    }
            },
        },
    decreases n,
{
    if n > 0 {
        lemma_best(snapshot, namespace, scopes, locale, separator, files, n - 1);
        assert(files.contains(files[n - 1]));
        text::precedes_irreflexive(files[n - 1]);
        if let Some(other) = edit::best_target(
            snapshot,
            namespace,
            scopes,
            locale,
            separator,
            files,
            n - 1,
        ) {
            let found = edit::best_target(
                snapshot,
                namespace,
                scopes,
                locale,
                separator,
                files,
                n,
            )->0;
            assert forall|i: int| 0 <= i < n implies {
                let there = edit::depth_of(
                    edit::nearest_from(
                        snapshot,
                        namespace,
                        scopes,
                        locale,
                        #[trigger] files[i],
                        0,
                    ),
                    separator,
                );
                let here = edit::depth_of(found.ancestor, separator);
                there < here || (there == here && !text::precedes(files[i], found.uri))
            } by {
                text::precedes_total(files[n - 1], other.uri);
                if text::precedes(files[i], files[n - 1]) && text::precedes(
                    files[n - 1],
                    other.uri,
                ) {
                    text::precedes_transitive(files[i], files[n - 1], other.uri);
                }
            }
        }
    }
}

proof fn lemma_object(
    entries: Seq<dictionary::EntryView>,
    locale: Seq<char>,
    uri: Seq<char>,
    from: int,
)
    requires
        0 <= from,
    ensures
        match edit::object_from(entries, locale, uri, from) {
            Some(entry) => entries.contains(entry) && entry.locale == locale && entry.uri == uri
                && entry.kind == EntryKind::Object,
            None => forall|i: int|
                from <= i < entries.len() ==> !((#[trigger] entries[i]).locale == locale
                    && entries[i].uri == uri && entries[i].kind == EntryKind::Object),
        },
    decreases entries.len() - from,
{
    if from < entries.len() {
        lemma_object(entries, locale, uri, from + 1);
        assert(entries.contains(entries[from]));
    }
}

/// Whether an entry is an object for a scope, of a locale and in a file.
pub open spec fn is_object_in(
    snapshot: index::SnapshotView,
    namespace: Option<Seq<char>>,
    locale: Seq<char>,
    uri: Seq<char>,
    scope: Seq<char>,
    entry: dictionary::EntryView,
) -> bool {
    is_entry_in(snapshot, namespace, locale, entry) && entry.uri == uri && entry.key == scope
        && entry.kind == EntryKind::Object
}

proof fn lemma_nearest(
    snapshot: index::SnapshotView,
    namespace: Option<Seq<char>>,
    scopes: Seq<Seq<char>>,
    locale: Seq<char>,
    uri: Seq<char>,
    from: int,
)
    requires
        0 <= from,
    ensures
        match edit::nearest_from(snapshot, namespace, scopes, locale, uri, from) {
            Some(found) => exists|s: int|
                from <= s < scopes.len() && is_object_in(
                    snapshot,
                    namespace,
                    locale,
                    uri,
                    #[trigger] scopes[s],
                    found,
                ) && forall|r: int, entry: dictionary::EntryView|
                    from <= r < s ==> !#[trigger] is_object_in(
                        snapshot,
                        namespace,
                        locale,
                        uri,
                        scopes[r],
                        entry,
                    ),
            None => forall|r: int, entry: dictionary::EntryView|
                from <= r < scopes.len() ==> !#[trigger] is_object_in(
                    snapshot,
                    namespace,
                    locale,
                    uri,
                    scopes[r],
                    entry,
                ),
        },
    decreases scopes.len() - from,
{
    if from < scopes.len() {
        let entries = snapshot.entries_of(namespace, scopes[from]);
        let any = arbitrary::<source::OccurrenceView>();
        lemma_object(entries, locale, uri, 0);
        lemma_nearest(snapshot, namespace, scopes, locale, uri, from + 1);
        match edit::object_from(entries, locale, uri, 0) {
            Some(entry) => {
                members::lookups_are_exact(snapshot, namespace, scopes[from], entry, any);
                assert(is_object_in(snapshot, namespace, locale, uri, scopes[from], entry));
            },
            None => {
                assert forall|entry: dictionary::EntryView|
                    !#[trigger] is_object_in(snapshot, namespace, locale, uri, scopes[from], entry) by {
                    members::lookups_are_exact(snapshot, namespace, scopes[from], entry, any);
                    if is_object_in(snapshot, namespace, locale, uri, scopes[from], entry) {
                        assert(entries[entries.index_of(entry)] == entry);
                    }
                }
            },
        }
    }
}

/// How many segments the key of an object has, and none where there is no object.
pub open spec fn levels(object: Option<dictionary::EntryView>, separator: Seq<char>) -> int {
    match object {
        Some(entry) => search::segments(entry.key, separator).len() as int,
        None => 0,
    }
}

/// A key can be added where a dictionary of the locale has keys of its namespace, and none of the
/// scopes around it is a translation. It goes into one of those dictionaries, into the object for
/// the innermost of the scopes that the dictionary has; no other dictionary has a deeper one, and of
/// those with one as deep it is the first by its URI.
pub proof fn keys_go_into_the_deepest_object(
    snapshot: index::SnapshotView,
    namespace: Option<Seq<char>>,
    key: Seq<char>,
    locale: Seq<char>,
    separator: Seq<char>,
    uri: Seq<char>,
)
    ensures
        ({
            let scopes = edit::ancestors(key, separator);
            let blocked = exists|s: int, entry: dictionary::EntryView|
                0 <= s < scopes.len() && #[trigger] is_entry_in(snapshot, namespace, locale, entry)
                    && entry.kind == EntryKind::Leaf && entry.key == #[trigger] scopes[s];
            let target = edit::target_for(snapshot, namespace, key, locale, separator);
            &&& target is Some <==> !blocked && exists|entry: dictionary::EntryView|
                is_entry_in(snapshot, namespace, locale, entry)
            &&& target matches Some(target) ==> {
                &&& exists|entry: dictionary::EntryView| #[trigger]
                    is_entry_in(snapshot, namespace, locale, entry) && entry.uri == target.uri
                &&& match target.ancestor {
                    Some(found) => exists|s: int|
                        0 <= s < scopes.len() && is_object_in(
                            snapshot,
                            namespace,
                            locale,
                            target.uri,
                            #[trigger] scopes[s],
                            found,
                        ) && forall|r: int, entry: dictionary::EntryView|
                            0 <= r < s ==> !#[trigger] is_object_in(
                                snapshot,
                                namespace,
                                locale,
                                target.uri,
                                scopes[r],
                                entry,
                            ),
                    None => forall|r: int, entry: dictionary::EntryView|
                        0 <= r < scopes.len() ==> !#[trigger] is_object_in(
                            snapshot,
                            namespace,
                            locale,
                            target.uri,
                            scopes[r],
                            entry,
                        ),
                }
                &&& (exists|entry: dictionary::EntryView| #[trigger]
                    is_entry_in(snapshot, namespace, locale, entry) && entry.uri == uri)
                    ==> {
                    let there = levels(
                        edit::nearest_from(snapshot, namespace, scopes, locale, uri, 0),
                        separator,
                    );
                    let here = levels(target.ancestor, separator);
                    there < here || (there == here && !text::precedes(uri, target.uri))
                }
            }
        }),
{
    let scopes = edit::ancestors(key, separator);
    let files = edit::files_with(snapshot, namespace, locale);
    let any = arbitrary::<source::OccurrenceView>();
    lemma_best(snapshot, namespace, scopes, locale, separator, files, files.len() as int);
    lemma_files(snapshot, namespace, locale, uri);
    if edit::is_blocked(snapshot, namespace, scopes, locale) {
        let s = choose|s: int|
            0 <= s < scopes.len() && edit::has_leaf(
                snapshot.entries_of(namespace, #[trigger] scopes[s]),
                locale,
            );
        let entries = snapshot.entries_of(namespace, scopes[s]);
        let i = choose|i: int|
            0 <= i < entries.len() && (#[trigger] entries[i]).locale == locale && entries[i].kind
                == EntryKind::Leaf;
        assert(entries.contains(entries[i]));
        members::lookups_are_exact(snapshot, namespace, scopes[s], entries[i], any);
        assert(is_entry_in(snapshot, namespace, locale, entries[i]));
    }
    if exists|s: int, entry: dictionary::EntryView|
        0 <= s < scopes.len() && #[trigger] is_entry_in(snapshot, namespace, locale, entry)
            && entry.kind == EntryKind::Leaf && entry.key == #[trigger] scopes[s] {
        let (s, entry) = choose|s: int, entry: dictionary::EntryView|
            0 <= s < scopes.len() && #[trigger] is_entry_in(snapshot, namespace, locale, entry)
                && entry.kind == EntryKind::Leaf && entry.key == #[trigger] scopes[s];
        let entries = snapshot.entries_of(namespace, scopes[s]);
        members::lookups_are_exact(snapshot, namespace, scopes[s], entry, any);
        let i = entries.index_of(entry);
        assert(entries[i].kind == EntryKind::Leaf);
        assert(edit::has_leaf(snapshot.entries_of(namespace, scopes[s]), locale));
    }
    if exists|entry: dictionary::EntryView| is_entry_in(snapshot, namespace, locale, entry) {
        let entry = choose|entry: dictionary::EntryView|
            is_entry_in(snapshot, namespace, locale, entry);
        lemma_files(snapshot, namespace, locale, entry.uri);
        assert(files.len() > 0);
    }
    if let Some(target) = edit::target_for(snapshot, namespace, key, locale, separator) {
        lemma_files(snapshot, namespace, locale, target.uri);
        lemma_nearest(snapshot, namespace, scopes, locale, target.uri, 0);
        if files.contains(uri) {
            let i = files.index_of(uri);
            assert(files[i] == uri);
            let other = edit::nearest_from(snapshot, namespace, scopes, locale, uri, 0);
            assert(edit::depth_of(other, separator) == levels(other, separator));
            assert(edit::depth_of(target.ancestor, separator) == levels(
                target.ancestor,
                separator,
            ));
        }
    }
}

proof fn lemma_holds(lead: Seq<char>, part: Seq<char>, tail: Seq<char>)
    ensures
        holds(lead + part + tail, part),
{
    reveal(holds);
}

proof fn lemma_holds_in(lead: Seq<char>, inner: Seq<char>, tail: Seq<char>, part: Seq<char>)
    requires
        holds(inner, part),
    ensures
        holds(lead + inner + tail, part),
{
    reveal(holds);
    let (a, b) = choose|a: Seq<char>, b: Seq<char>| inner == #[trigger] (a + part + b);
    assert(lead + inner + tail =~= (lead + a) + part + (b + tail));
}

proof fn lemma_first_ink(all: Seq<char>, at: int, from: int)
    requires
        0 <= from <= at < all.len(),
        !chars::is_space(all[at]),
        forall|i: int| from <= i < at ==> chars::is_space(#[trigger] all[i]),
    ensures
        chars::first_in(all, CharClass::Ink, from) == Some(at),
    decreases at - from,
{
    if from < at {
        lemma_first_ink(all, at, from + 1);
    }
}

proof fn lemma_ink(indent: Seq<char>, shown: Seq<char>)
    requires
        shown.len() > 0,
        !chars::is_space(shown[0]),
        writing::is_blank(indent),
    ensures
        chars::trimmed_start(indent + shown) == shown,
{
    let all = indent + shown;
    let at = indent.len() as int;
    assert(all[at] == shown[0]);
    assert forall|i: int| 0 <= i < at implies chars::is_space(#[trigger] all[i]) by {
        assert(all[i] == indent[i]);
    }
    lemma_first_ink(all, at, 0);
    assert(all.skip(at) =~= shown);
}

/// Whether each of the texts begins with something that is no white space.
pub open spec fn all_begin_with_ink(names: Seq<Seq<char>>) -> bool {
    forall|n: int|
        0 <= n < names.len() ==> (#[trigger] names[n]).len() > 0 && !chars::is_space(names[n][0])
}

proof fn lemma_blank(first: Seq<char>, second: Seq<char>)
    requires
        writing::is_blank(first),
        writing::is_blank(second),
    ensures
        writing::is_blank(first + second),
{
    let all = first + second;
    assert forall|i: int| 0 <= i < all.len() implies chars::is_space(#[trigger] all[i]) by {
        if i < first.len() {
            assert(all[i] == first[i]);
        } else {
            assert(all[i] == second[i - first.len()]);
        }
    }
}

proof fn lemma_last_name(indent: Seq<char>, name: Seq<char>, value: Seq<char>)
    ensures
        indent + name + ": "@ + value == indent + (name + (": "@ + value)),
        holds(name + (": "@ + value), name + ": "@ + value),
{
    let none = Seq::<char>::empty();
    let wanted = name + ": "@ + value;
    assert(indent + name + ": "@ + value =~= indent + (name + (": "@ + value)));
    assert(name + (": "@ + value) =~= none + wanted + none);
    lemma_holds(none, wanted, none);
}

proof fn lemma_on_lines(
    indent: Seq<char>,
    name: Seq<char>,
    newline: Seq<char>,
    deeper: Seq<char>,
    shown: Seq<char>,
)
    ensures
        ({
            let rest = ": {"@ + newline + deeper + shown + (newline + indent + "}"@);
            &&& indent + name + ": {"@ + newline + (deeper + shown) + newline + indent + "}"@
                == indent + (name + rest)
            &&& name + rest == (name + ": {"@ + newline + deeper) + shown + (newline + indent
                + "}"@)
        }),
{
    let back = newline + indent + "}"@;
    let rest = ": {"@ + newline + deeper + shown + back;
    assert(name + rest =~= (name + ": {"@ + newline + deeper) + shown + back);
    assert(indent + name + ": {"@ + newline + (deeper + shown) + newline + indent + "}"@
        =~= indent + (name + rest));
}

proof fn lemma_on_one_line(indent: Seq<char>, name: Seq<char>, shown: Seq<char>)
    ensures
        ({
            let rest = ": {"@ + shown + "}"@;
            &&& indent + name + ": {"@ + shown + "}"@ == indent + (name + rest)
            &&& name + rest == (name + ": {"@) + shown + "}"@
        }),
{
    let rest = ": {"@ + shown + "}"@;
    assert(name + rest =~= (name + ": {"@) + shown + "}"@);
    assert(indent + name + ": {"@ + shown + "}"@ =~= indent + (name + rest));
}

proof fn lemma_opened(name: Seq<char>, more: Seq<char>)
    ensures
        holds(name + ": {"@ + more, name + ": {"@),
{
    let none = Seq::<char>::empty();
    let opened = name + ": {"@;
    assert(name + ": {"@ + more =~= none + opened + more);
    lemma_holds(none, opened, more);
}

/// Whether the names of a property from `from` on stand in a text, each before an object, and the
/// last before the value.
pub open spec fn holds_all(
    shown: Seq<char>,
    names: Seq<Seq<char>>,
    value: Seq<char>,
    from: int,
) -> bool {
    &&& holds(shown, names.last() + ": "@ + value)
    &&& forall|n: int|
        from <= n < names.len() - 1 ==> holds(shown, #[trigger] names[n] + ": {"@)
}

proof fn lemma_holds_all(
    lead: Seq<char>,
    shown: Seq<char>,
    back: Seq<char>,
    names: Seq<Seq<char>>,
    value: Seq<char>,
    from: int,
)
    requires
        holds_all(shown, names, value, from + 1),
        holds(lead + shown + back, names[from] + ": {"@),
    ensures
        holds_all(lead + shown + back, names, value, from),
{
    lemma_holds_in(lead, shown, back, names.last() + ": "@ + value);
    assert forall|n: int| from <= n < names.len() - 1 implies holds(
        lead + shown + back,
        #[trigger] names[n] + ": {"@,
    ) by {
        if n > from {
            lemma_holds_in(lead, shown, back, names[n] + ": {"@);
        }
    }
}

/// What follows the first name of a property.
proof fn lemma_property(
    names: Seq<Seq<char>>,
    value: Seq<char>,
    indent: Seq<char>,
    layout: edit::LayoutView,
    from: int,
) -> (rest: Seq<char>)
    requires
        0 <= from < names.len(),
        all_begin_with_ink(names),
        writing::is_blank(indent),
        writing::is_blank(layout.unit),
    ensures
        edit::property_text(names, value, indent, layout, from) == indent + (names[from] + rest),
        holds_all(names[from] + rest, names, value, from),
    decreases names.len() - from,
{
    let name = names[from];
    if from + 1 >= names.len() {
        lemma_last_name(indent, name, value);
        ": "@ + value
    } else {
        let deeper = indent + layout.unit;
        lemma_blank(indent, layout.unit);
        let after = lemma_property(names, value, deeper, layout, from + 1);
        let shown = names[from + 1] + after;
        assert(names[from + 1].len() > 0 && !chars::is_space(names[from + 1][0]));
        assert(shown[0] == names[from + 1][0]);
        if layout.multiline {
            let back = layout.newline + indent + "}"@;
            let lead = name + ": {"@ + layout.newline + deeper;
            lemma_on_lines(indent, name, layout.newline, deeper, shown);
            assert(lead + shown + back =~= name + ": {"@ + (layout.newline + deeper + shown
                + back));
            lemma_opened(name, layout.newline + deeper + shown + back);
            lemma_holds_all(lead, shown, back, names, value, from);
            ": {"@ + layout.newline + deeper + shown + back
        } else {
            lemma_ink(deeper, shown);
            lemma_on_one_line(indent, name, shown);
            assert((name + ": {"@) + shown + "}"@ =~= name + ": {"@ + (shown + "}"@));
            lemma_opened(name, shown + "}"@);
            lemma_holds_all(name + ": {"@, shown, "}"@, names, value, from);
            ": {"@ + shown + "}"@
        }
    }
}

/// A property is written with the value behind the last of its names, with a colon and a space
/// between, and for each of the others an object behind it; and nothing but the indentation stands
/// before the first.
pub proof fn properties_hold_their_value(
    names: Seq<Seq<char>>,
    value: Seq<char>,
    indent: Seq<char>,
    layout: edit::LayoutView,
)
    requires
        names.len() > 0,
        all_begin_with_ink(names),
        writing::is_blank(indent),
        writing::is_blank(layout.unit),
    ensures
        ({
            let written = edit::property_text(names, value, indent, layout, 0);
            let shown = chars::trimmed_start(written);
            &&& written == indent + shown
            &&& names[0].is_prefix_of(shown)
            &&& holds_all(shown, names, value, 0)
        }),
{
    let rest = lemma_property(names, value, indent, layout, 0);
    let shown = names[0] + rest;
    assert(names[0].len() > 0 && !chars::is_space(names[0][0]));
    assert(shown[0] == names[0][0]);
    lemma_ink(indent, shown);
    assert(shown.take(names[0].len() as int) =~= names[0]);
}

/// What is put into an object for a property goes between its braces. A comma stands before it
/// where something is in the object already, and only there.
pub proof fn properties_go_between_the_braces(
    text: Seq<char>,
    start: int,
    end: int,
    names: Seq<Seq<char>>,
    value: Seq<char>,
    inner: Seq<char>,
)
    requires
        names.len() > 0,
        all_begin_with_ink(names),
        forall|n: int| 0 <= n < names.len() ==> (#[trigger] names[n])[0] != ',',
        text::byte_slice(text, start + 1, end - 1) == Some(inner),
        text::byte_slice(text, 0, end - 1) is Some,
    ensures
        edit::insertion(text, start, end, names, value) matches Some(insert) && {
            &&& start + 1 <= insert.offset <= end - 1
            &&& insert.text.len() > 0
            &&& (insert.text[0] == ',') == !writing::is_blank(inner)
            &&& holds_all(insert.text, names, value, 0)
        },
{
    let front = text::byte_slice(text, 0, end - 1)->0;
    let indent = edit::indent_of(front);
    let unit = match edit::unit_of(text) {
        Some(unit) => unit,
        None => "  "@,
    };
    let newline = if search::contains(text, "\r\n"@) {
        "\r\n"@
    } else {
        "\n"@
    };
    let multiline = chars::first_in(inner, CharClass::LineBreak, 0) is Some;
    let layout = edit::LayoutView { unit, newline, multiline };
    lemma_indent(front);
    lemma_unit(text);
    reveal_strlit("  ");
    reveal_strlit("\r\n");
    reveal_strlit("\n");
    reveal_strlit(",");
    assert(writing::is_blank(unit)) by {
        if edit::unit_of(text) is None {
            assert forall|i: int| 0 <= i < unit.len() implies chars::is_space(
                #[trigger] unit[i],
            ) by {
                assert(unit[i] == ' ');
            }
        }
    }
    let deeper = indent + unit;
    lemma_blank(indent, unit);
    let property = edit::property_text(names, value, deeper, layout, 0);
    properties_hold_their_value(names, value, deeper, layout);
    let shown = chars::trimmed_start(property);
    assert(names[0].len() > 0 && !chars::is_space(names[0][0]) && names[0][0] != ',');
    assert(shown[0] == names[0][0]);
    lemma_blank_ink(inner);
    text::lemma_index_at(text, start + 1);
    text::lemma_index_at(text, end - 1);
    let a = text::index_at(text, start + 1)->0;
    let b = text::index_at(text, end - 1)->0;
    assert(text.take(b) =~= text.take(a) + inner);
    text::lemma_encode_add(text.take(a), inner);
    let none = Seq::<char>::empty();
    if chars::is_blank(inner) {
        if multiline {
            let all = newline + property + newline + indent;
            assert(all =~= (newline + deeper) + shown + (newline + indent));
            lemma_holds_all_in(newline + deeper, shown, newline + indent, names, value);
            assert(all[0] == newline[0]);
        }
    } else {
        chars::lemma_last_in(inner, CharClass::Ink, inner.len() as int);
        if multiline {
            lemma_some_ink(inner);
            let last = chars::last_in(inner, CharClass::Ink, inner.len() as int)->0;
            text::lemma_byte_len_take(inner, last, inner.len() as int);
            assert(inner.take(inner.len() as int) =~= inner);
            let all = ","@ + newline + property;
            assert(all =~= (","@ + newline + deeper) + shown + none);
            lemma_holds_all_in(","@ + newline + deeper, shown, none, names, value);
            assert(all[0] == ',');
        } else {
            let all = ","@ + shown;
            assert(all =~= ","@ + shown + none);
            lemma_holds_all_in(","@, shown, none, names, value);
            assert(all[0] == ',');
        }
    }
}

proof fn lemma_holds_all_in(
    lead: Seq<char>,
    shown: Seq<char>,
    back: Seq<char>,
    names: Seq<Seq<char>>,
    value: Seq<char>,
)
    requires
        holds_all(shown, names, value, 0),
    ensures
        holds_all(lead + shown + back, names, value, 0),
{
    lemma_holds_in(lead, shown, back, names.last() + ": "@ + value);
    assert forall|n: int| 0 <= n < names.len() - 1 implies holds(
        lead + shown + back,
        #[trigger] names[n] + ": {"@,
    ) by {
        lemma_holds_in(lead, shown, back, names[n] + ": {"@);
    }
}

proof fn lemma_blank_ink(inner: Seq<char>)
    ensures
        chars::is_blank(inner) == writing::is_blank(inner),
{
    chars::lemma_first_in(inner, CharClass::Ink, 0);
    if chars::is_blank(inner) {
        assert forall|i: int| 0 <= i < inner.len() implies chars::is_space(#[trigger] inner[i]) by {
            assert(!chars::belongs(inner[i], CharClass::Ink));
        }
    } else {
        let i = chars::first_in(inner, CharClass::Ink, 0)->0;
        assert(!chars::is_space(inner[i]));
    }
}

proof fn lemma_some_ink(inner: Seq<char>)
    requires
        !chars::is_blank(inner),
    ensures
        chars::last_in(inner, CharClass::Ink, inner.len() as int) is Some,
{
    chars::lemma_first_in(inner, CharClass::Ink, 0);
    let i = chars::first_in(inner, CharClass::Ink, 0)->0;
    lemma_last_ink(inner, i, inner.len() as int);
}

proof fn lemma_last_ink(inner: Seq<char>, i: int, end: int)
    requires
        0 <= i < end <= inner.len(),
        chars::belongs(inner[i], CharClass::Ink),
    ensures
        chars::last_in(inner, CharClass::Ink, end) is Some,
    decreases end,
{
    if i < end - 1 && !chars::belongs(inner[end - 1], CharClass::Ink) {
        lemma_last_ink(inner, i, end - 1);
    }
}

proof fn lemma_leading_space(line: Seq<char>)
    ensures
        0 <= chars::ink_start(line) <= line.len(),
        writing::is_blank(line.take(chars::ink_start(line))),
{
    chars::lemma_first_in(line, CharClass::Ink, 0);
    let count = chars::ink_start(line);
    lemma_before_ink(line, 0);
    assert forall|i: int| 0 <= i < line.take(count).len() implies chars::is_space(
        #[trigger] line.take(count)[i],
    ) by {
        assert(!chars::belongs(line[i], CharClass::Ink));
    }
}

proof fn lemma_before_ink(line: Seq<char>, from: int)
    requires
        0 <= from,
    ensures
        chars::first_in(line, CharClass::Ink, from) matches Some(k) ==> forall|i: int|
            from <= i < k ==> !chars::belongs(#[trigger] line[i], CharClass::Ink),
    decreases line.len() - from,
{
    if from < line.len() && !chars::belongs(line[from], CharClass::Ink) {
        lemma_before_ink(line, from + 1);
    }
}

proof fn lemma_indent(front: Seq<char>)
    ensures
        writing::is_blank(edit::indent_of(front)),
{
    let line = match search::rfind_from(front, seq!['\n'], front.len() as int) {
        Some(i) => front.skip(i + 1),
        None => front,
    };
    lemma_leading_space(line);
}

proof fn lemma_unit(text: Seq<char>)
    ensures
        edit::unit_of(text) matches Some(unit) ==> writing::is_blank(unit),
{
    let lines = search::segments(text, seq!['\n']);
    lemma_units(lines, lines.len() as int);
}

proof fn lemma_units(lines: Seq<Seq<char>>, n: int)
    ensures
        edit::shortest_unit(lines, n) matches Some(unit) ==> writing::is_blank(unit),
    decreases n,
{
    if n > 0 {
        lemma_units(lines, n - 1);
        let line = edit::bare_line(lines, n - 1);
        lemma_leading_space(line);
        let count = chars::ink_start(line);
        if let Some(unit) = edit::line_unit(line) {
            text::lemma_index_at(line, count);
            let i = text::index_at(line, count)->0;
            assert(text::index_at(line, 0) == Some(0int));
            text::lemma_byte_len_take(line, 0, i);
            assert(line.take(0) =~= Seq::<char>::empty());
            assert(i <= count);
            assert forall|k: int| 0 <= k < unit.len() implies chars::is_space(
                #[trigger] unit[k],
            ) by {
                assert(unit[k] == line.take(count)[k]);
            }
        }
    }
}

proof fn lemma_front_is_key(key: Seq<char>, separator: Seq<char>, at: int)
    requires
        key::is_key(key, separator),
        laws::is_unbordered(separator),
        search::occurs_at(key, separator, at),
    ensures
        key::is_key(key.take(at), separator),
{
    let front = key.take(at);
    let width = separator.len() as int;
    keys::keys_have_no_empty_segments(key, separator);
    keys::keys_have_no_empty_segments(front, separator);
    assert forall|j: int| 0 <= j && #[trigger] search::occurs_at(
        front,
        separator,
        j,
    ) implies search::occurs_at(key, separator, j) by {
        assert(front.subrange(j, j + width) =~= key.subrange(j, j + width));
    }
    if at == 0 {
        assert(search::occurs_at(key, separator, 0));
    }
    assert forall|j: int| 0 <= j implies !#[trigger] keys::leaves_a_gap(front, separator, j) by {
        if keys::leaves_a_gap(front, separator, j) {
            assert(search::occurs_at(key, separator, j));
            assert(keys::leaves_a_gap(key, separator, j));
        }
    }
}

/// The scopes around a key are all the keys that it lies in, for a separator that cannot overlap
/// itself.
pub proof fn every_scope_is_around(
    key: Seq<char>,
    scope: Seq<char>,
    rest: Seq<char>,
    separator: Seq<char>,
)
    requires
        key::is_key(key, separator),
        laws::is_unbordered(separator),
        key == scope + separator + rest,
    ensures
        edit::ancestors(key, separator).contains(scope),
    decreases key.len(),
{
    let at = scope.len() as int;
    let width = separator.len() as int;
    assert(key.subrange(at, at + width) =~= separator);
    assert(search::occurs_at(key, separator, at));
    search::lemma_rfind(key, separator, key.len() as int);
    let i = search::rfind_from(key, separator, key.len() as int)->0;
    lemma_front_is_key(key, separator, i);
    let parent = key.take(i);
    let all = edit::ancestors(key, separator);
    let more = edit::ancestors(parent, separator);
    key::parent_is_shorter(key, separator);
    assert(all == seq![parent] + more);
    if i == at {
        assert(parent =~= scope);
        assert(all[0] == scope);
    } else {
        assert(at < i);
        keys::lemma_apart(key, separator, at, i);
        let less = key.subrange(at + width, i);
        assert(parent =~= scope + separator + less) by {
            assert(key.subrange(at, at + width) == separator);
            assert(parent =~= scope + key.subrange(at, at + width) + less);
        }
        every_scope_is_around(parent, scope, less, separator);
        assert(all[more.index_of(scope) + 1] == scope);
    }
}

/// Whether texts begin with a quotation mark, as JSON strings do.
pub open spec fn are_quoted(names: Seq<Seq<char>>) -> bool {
    forall|n: int| 0 <= n < names.len() ==> (#[trigger] names[n]).len() > 0 && names[n][0] == '"'
}

/// Whether `body` with white space behind it stands between the braces of an object, and ends in a
/// character of ASCII.
pub open spec fn is_body(
    text: Seq<char>,
    start: int,
    end: int,
    body: Seq<char>,
    gap: Seq<char>,
) -> bool {
    &&& text::byte_slice(text, start + 1, end - 1) == Some(body + gap)
    &&& text::byte_slice(text, 0, end - 1) is Some
    &&& writing::is_blank(gap)
    &&& body.len() == 0 || ((body.last() as u32) < 0x80 && !chars::is_space(body.last()))
}

proof fn lemma_offset(
    text: Seq<char>,
    start: int,
    end: int,
    names: Seq<Seq<char>>,
    value: Seq<char>,
    body: Seq<char>,
    gap: Seq<char>,
)
    requires
        is_body(text, start, end, body, gap),
    ensures
        edit::insertion(text, start, end, names, value) matches Some(insert) && text::index_at(
            text,
            insert.offset,
        ) is Some,
{
    let inner = body + gap;
    let insert = edit::insertion(text, start, end, names, value);
    text::lemma_index_at(text, start + 1);
    text::lemma_index_at(text, end - 1);
    let a = text::index_at(text, start + 1)->0;
    let b = text::index_at(text, end - 1)->0;
    lemma_blank_ink(inner);
    if body.len() == 0 {
        assert(inner =~= gap);
    } else {
        let last = body.len() - 1;
        assert(inner[last] == body.last());
        assert(!writing::is_blank(inner)) by {
            assert(!chars::is_space(inner[last]));
        }
        assert forall|i: int| last < i < inner.len() implies !chars::belongs(
            #[trigger] inner[i],
            CharClass::Ink,
        ) by {
            assert(inner[i] == gap[i - body.len()]);
        }
        writing::lemma_last(inner, CharClass::Ink, last, inner.len() as int);
        assert(inner.take(last).push(body.last()) =~= body);
        text::lemma_byte_len_push(inner.take(last), body.last());
        let m = a + body.len();
        assert(text.subrange(a, b) == inner);
        assert(text.take(m) =~= text.take(a) + body) by {
            assert forall|i: int| 0 <= i < m implies text.take(m)[i] == (text.take(a) + body)[i] by {
                if i >= a {
                    assert(text.subrange(a, b)[i - a] == inner[i - a]);
                }
            }
        }
        text::lemma_encode_add(text.take(a), body);
        text::lemma_index_of_prefix(text, m);
    }
}

/// Where a key goes into an object, an edit puts the rest of the key there, as names one in the
/// other around the translation, and changes nothing else: behind the object's own key where the
/// object has one.
pub proof fn edits_write_the_rest_of_the_key(
    snapshot: index::SnapshotView,
    namespace: Option<Seq<char>>,
    key: Seq<char>,
    locale: Seq<char>,
    separator: Seq<char>,
    value: Seq<char>,
    object: dictionary::EntryView,
    rest: Seq<char>,
    file: index::FileView,
    body: Seq<char>,
    gap: Seq<char>,
)
    requires
        separator.len() > 0,
        edit::target_for(snapshot, namespace, key, locale, separator) matches Some(target)
            && target.ancestor == Some(object) && snapshot.file(target.uri) == Some(file),
        key == object.key + separator + rest,
        is_body(
            file.text,
            object.value_range.0 as int,
            object.value_range.1 as int,
            body,
            gap,
        ),
        are_quoted(edit::literals_of(search::segments(rest, separator))),
        text::byte_len(file.text) <= u32::MAX,
    ensures
        edit::edit_for(snapshot, namespace, key, locale, separator, value) matches Some(edit) && {
            &&& edit.uri == edit::target_for(snapshot, namespace, key, locale, separator)->0.uri
            &&& edit.version == file.version
            &&& edit.range.start == edit.range.end
            &&& position::offset_at(file.text, edit.range.start) matches Some(at)
                && object.value_range.0 < at < object.value_range.1
            &&& holds_all(
                edit.new_text,
                edit::literals_of(search::segments(rest, separator)),
                json::string_literal(value),
                0,
            )
            &&& (edit.new_text[0] == ',') == (body.len() > 0)
        },
{
    let target = edit::target_for(snapshot, namespace, key, locale, separator)->0;
    let start = object.value_range.0 as int;
    let end = object.value_range.1 as int;
    let names = edit::literals_of(search::segments(rest, separator));
    let literal = json::string_literal(value);
    laws::what_follows_a_scope_is_relative(object.key, rest, separator);
    assert(edit::segments_below(key, target.ancestor, separator) == search::segments(
        rest,
        separator,
    ));
    laws::lemma_segments_joined(rest, separator, 0);
    assert(names.len() > 0);
    assert(all_begin_with_ink(names)) by {
        assert forall|n: int| 0 <= n < names.len() implies (#[trigger] names[n]).len() > 0
            && !chars::is_space(names[n][0]) by {
            assert(names[n][0] == '"');
        }
    }
    assert forall|n: int| 0 <= n < names.len() implies (#[trigger] names[n])[0] != ',' by {
        assert(names[n][0] == '"');
    }
    properties_go_between_the_braces(file.text, start, end, names, literal, body + gap);
    lemma_offset(file.text, start, end, names, literal, body, gap);
    let insert = edit::insertion(file.text, start, end, names, literal)->0;
    position::position_and_back(file.text, insert.offset);
    if body.len() == 0 {
        assert(body + gap =~= gap);
    } else {
        assert((body + gap)[body.len() - 1] == body.last());
    }
}

} // verus!
