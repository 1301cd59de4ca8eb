//! Adding a key to a dictionary, in the way in which its text is laid out; and what editors change.
use crate::chars;
use crate::chars::CharClass;
use crate::dictionary;
use crate::dictionary::{DictionaryEntry, EntryKind};
use crate::index;
use crate::index::IndexSnapshot;
use crate::json;
use crate::key;
use crate::key::CanonicalKey;
use crate::line_index::LineIndex;
use crate::position;
use crate::position::Range;
use crate::search;
use crate::sort;
use crate::text;
use vstd::prelude::*;

verus! {

/// The scopes around a key, the innermost first.
pub open spec fn ancestors(key: Seq<char>, separator: Seq<char>) -> Seq<Seq<char>>
    decreases key.len(),
{
    match key::parent_of(key, separator) {
        None => Seq::empty(),
        Some(parent) => {
            proof {
                key::parent_is_shorter(key, separator);
            }
            if parent.len() < key.len() {
                seq![parent] + ancestors(parent, separator)
            } else {
                Seq::empty()
            }
        },
    }
}

/// Whether one of the entries is a translation in the locale.
pub open spec fn has_leaf(entries: Seq<dictionary::EntryView>, locale: Seq<char>) -> bool {
    exists|i: int|
        0 <= i < entries.len() && (#[trigger] entries[i]).locale == locale && entries[i].kind
            == EntryKind::Leaf
}

/// Whether a scope around a key is a translation itself.
pub open spec fn is_blocked(
    snapshot: index::SnapshotView,
    namespace: Option<Seq<char>>,
    scopes: Seq<Seq<char>>,
    locale: Seq<char>,
) -> bool {
    exists|i: int|
        0 <= i < scopes.len() && has_leaf(
            snapshot.entries_of(namespace, #[trigger] scopes[i]),
            locale,
        )
}

/// The first of `entries[from..]` that is an object of the locale in a file.
pub open spec fn object_from(
    entries: Seq<dictionary::EntryView>,
    locale: Seq<char>,
    uri: Seq<char>,
    from: int,
) -> Option<dictionary::EntryView>
    decreases entries.len() - from,
{
    if from >= entries.len() {
        None
    } else if entries[from].locale == locale && entries[from].uri == uri && entries[from].kind
        == EntryKind::Object {
        Some(entries[from])
    } else {
        object_from(entries, locale, uri, from + 1)
    }
}

/// The innermost of `scopes[from..]` that is an object of the locale in a file.
pub open spec fn nearest_from(
    snapshot: index::SnapshotView,
    namespace: Option<Seq<char>>,
    scopes: Seq<Seq<char>>,
    locale: Seq<char>,
    uri: Seq<char>,
    from: int,
) -> Option<dictionary::EntryView>
    decreases scopes.len() - from,
{
    if from >= scopes.len() {
        None
    } else {
        match object_from(snapshot.entries_of(namespace, scopes[from]), locale, uri, 0) {
            Some(entry) => Some(entry),
            None => nearest_from(snapshot, namespace, scopes, locale, uri, from + 1),
        }
    }
}

/// How deep a scope lies.
pub open spec fn depth_of(ancestor: Option<dictionary::EntryView>, separator: Seq<char>) -> int {
    match ancestor {
        Some(entry) => search::count(entry.key, separator) + 1,
        None => 0,
    }
}

/// The files with entries of a locale in a namespace.
pub open spec fn files_with(
    snapshot: index::SnapshotView,
    namespace: Option<Seq<char>>,
    locale: Seq<char>,
) -> Seq<Seq<char>> {
    let uris = sort::kept(
        snapshot.entries_in(namespace),
        |entry: dictionary::EntryView| entry.locale == locale,
    ).map_values(|entry: dictionary::EntryView| entry.uri);
    text::distinct(uris, uris.len() as int)
}

/// Where a key goes: a file, and the object in it.
pub struct TargetView {
    pub uri: Seq<char>,
    pub ancestor: Option<dictionary::EntryView>,
}

/// Of the first `n` files that with the deepest object for the key, and of those the first by URI.
pub open spec fn best_target(
    snapshot: index::SnapshotView,
    namespace: Option<Seq<char>>,
    scopes: Seq<Seq<char>>,
    locale: Seq<char>,
    separator: Seq<char>,
    files: Seq<Seq<char>>,
    n: int,
) -> Option<TargetView>
    decreases n,
{
    if n <= 0 {
        None
    } else {
        let best = best_target(snapshot, namespace, scopes, locale, separator, files, n - 1);
        let uri = files[n - 1];
        let ancestor = nearest_from(snapshot, namespace, scopes, locale, uri, 0);
        let found = TargetView { uri, ancestor };
        match best {
            None => Some(found),
            Some(other) => {
                let here = depth_of(ancestor, separator);
                let there = depth_of(other.ancestor, separator);
                if here > there || (here == there && text::precedes(uri, other.uri)) {
                    Some(found)
                } else {
                    best
                }
            },
        }
    }
}

/// Where a key goes that is not in the dictionaries yet; nowhere below a translation.
pub open spec fn target_for(
    snapshot: index::SnapshotView,
    namespace: Option<Seq<char>>,
    key: Seq<char>,
    locale: Seq<char>,
    separator: Seq<char>,
) -> Option<TargetView> {
    let scopes = ancestors(key, separator);
    if is_blocked(snapshot, namespace, scopes, locale) {
        None
    } else {
        let files = files_with(snapshot, namespace, locale);
        best_target(
            snapshot,
            namespace,
            scopes,
            locale,
            separator,
            files,
            files.len() as int,
        )
    }
}

/// The white space with which the line begins that `front` ends in.
pub open spec fn indent_of(front: Seq<char>) -> Seq<char> {
    let line = match search::rfind_from(front, seq!['\n'], front.len() as int) {
        Some(i) => front.skip(i + 1),
        None => front,
    };
    line.take(chars::ink_start(line))
}

/// One of the lines between line feeds, without the carriage return before a line feed.
pub open spec fn bare_line(lines: Seq<Seq<char>>, i: int) -> Seq<char> {
    if i + 1 < lines.len() && lines[i].len() > 0 && lines[i].last() == '\r' {
        lines[i].drop_last()
    } else {
        lines[i]
    }
}

/// The indentation of a line, where it has one and something behind it.
pub open spec fn line_unit(line: Seq<char>) -> Option<Seq<char>> {
    let count = chars::ink_start(line);
    if 0 < count && count < text::byte_len(line) {
        text::byte_slice(line, 0, count)
    } else {
        None
    }
}

/// The shortest indentation among the first `n` lines, the first of those.
pub open spec fn shortest_unit(lines: Seq<Seq<char>>, n: int) -> Option<Seq<char>>
    decreases n,
{
    if n <= 0 {
        None
    } else {
        let best = shortest_unit(lines, n - 1);
        match line_unit(bare_line(lines, n - 1)) {
            None => best,
            Some(unit) => if best matches Some(other) && text::byte_len(other) <= text::byte_len(
                unit,
            ) {
                best
            } else {
                Some(unit)
            },
        }
    }
}

/// The unit of indentation of a text.
pub open spec fn unit_of(text: Seq<char>) -> Option<Seq<char>> {
    let lines = search::segments(text, seq!['\n']);
    shortest_unit(lines, lines.len() as int)
}

/// How a property is laid out.
pub struct LayoutView {
    pub unit: Seq<char>,
    pub newline: Seq<char>,
    pub multiline: bool,
}

/// Texts as JSON strings.
pub open spec fn literals_of(texts: Seq<Seq<char>>) -> Seq<Seq<char>> {
    texts.map_values(|text: Seq<char>| json::string_literal(text))
}

/// The text of a property with the JSON strings from `from` on as names, one in the other, around
/// a JSON value.
pub open spec fn property_text(
    names: Seq<Seq<char>>,
    value: Seq<char>,
    indent: Seq<char>,
    layout: LayoutView,
    from: int,
) -> Seq<char>
    decreases names.len() - from,
{
    if from + 1 >= names.len() {
        indent + names[from] + ": "@ + value
    } else {
        let child = property_text(names, value, indent + layout.unit, layout, from + 1);
        let name = indent + names[from];
        if layout.multiline {
            name + ": {"@ + layout.newline + child + layout.newline + indent + "}"@
        } else {
            name + ": {"@ + chars::trimmed_start(child) + "}"@
        }
    }
}

/// What is put into a text, and where.
pub struct InsertView {
    pub offset: int,
    pub text: Seq<char>,
}

/// What is put into an object whose braces stand at the bytes `start` and `end - 1` of a text for
/// the property with the JSON strings `names` and a JSON value.
pub open spec fn insertion(
    text: Seq<char>,
    start: int,
    end: int,
    names: Seq<Seq<char>>,
    value: Seq<char>,
) -> Option<InsertView> {
    let closing = end - 1;
    match (text::byte_slice(text, start + 1, closing), text::byte_slice(text, 0, closing)) {
        (Some(inner), Some(front)) => {
            let indent = indent_of(front);
            let layout = LayoutView {
                unit: match unit_of(text) {
                    Some(unit) => unit,
                    None => "  "@,
                },
                newline: if search::contains(text, "\r\n"@) {
                    "\r\n"@
                } else {
                    "\n"@
                },
                multiline: chars::first_in(inner, CharClass::LineBreak, 0) is Some,
            };
            let property = property_text(names, value, indent + layout.unit, layout, 0);
            if chars::is_blank(inner) {
                if layout.multiline {
                    Some(
                        InsertView {
                            offset: start + 1,
                            text: layout.newline + property + layout.newline + indent,
                        },
                    )
                } else {
                    Some(InsertView { offset: closing, text: chars::trimmed_start(property) })
                }
            } else if layout.multiline {
                match chars::last_in(inner, CharClass::Ink, inner.len() as int) {
                    Some(last) => Some(
                        InsertView {
                            offset: start + 1 + text::byte_len(inner.take(last)) + 1,
                            text: ","@ + layout.newline + property,
                        },
                    ),
                    None => None,
                }
            } else {
                Some(InsertView { offset: closing, text: ","@ + chars::trimmed_start(property) })
            }
        },
        _ => None,
    }
}

/// What an editor is to put into a file.
pub struct EditView {
    pub uri: Seq<char>,
    pub version: Option<i32>,
    pub range: Range,
    pub new_text: Seq<char>,
}

/// The bytes of the object that a property goes into.
pub open spec fn object_range(text: Seq<char>, ancestor: Option<dictionary::EntryView>) -> Option<
    (int, int),
> {
    match ancestor {
        Some(entry) => Some((entry.value_range.0 as int, entry.value_range.1 as int)),
        None => match (
            chars::first_in(text, CharClass::OpenBrace, 0),
            chars::last_in(text, CharClass::CloseBrace, text.len() as int),
        ) {
            (Some(open), Some(close)) => Some(
                (
                    text::byte_len(text.take(open)) as int,
                    text::byte_len(text.take(close)) as int + 1,
                ),
            ),
            _ => None,
        },
    }
}

/// The segments of a key below the object that it goes into.
pub open spec fn segments_below(
    key: Seq<char>,
    ancestor: Option<dictionary::EntryView>,
    separator: Seq<char>,
) -> Seq<Seq<char>> {
    let relative = match ancestor {
        Some(entry) => match key::relative_key(key, entry.key, separator) {
            Some(relative) => relative,
            None => key,
        },
        None => key,
    };
    search::segments(relative, separator)
}

/// The edit that adds a key with a translation.
pub open spec fn edit_for(
    snapshot: index::SnapshotView,
    namespace: Option<Seq<char>>,
    key: Seq<char>,
    locale: Seq<char>,
    separator: Seq<char>,
    value: Seq<char>,
) -> Option<EditView> {
    match target_for(snapshot, namespace, key, locale, separator) {
        None => None,
        Some(target) => match snapshot.file(target.uri) {
            None => None,
            Some(file) => match object_range(file.text, target.ancestor) {
                None => None,
                Some((start, end)) => match insertion(
                    file.text,
                    start,
                    end,
                    literals_of(segments_below(key, target.ancestor, separator)),
                    json::string_literal(value),
                ) {
                    None => None,
                    Some(insert) => match position::position_at(file.text, insert.offset) {
                        None => None,
                        Some(at) => Some(
                            EditView {
                                uri: target.uri,
                                version: file.version,
                                range: Range { start: at, end: at },
                                new_text: insert.text,
                            },
                        ),
                    },
                },
            },
        },
    }
}

/// The scopes around a key, the innermost first.
fn find_ancestors(key: &CanonicalKey, separator: &str) -> (scopes: Vec<CanonicalKey>)
    ensures
        scopes.deep_view() == ancestors(key@, separator@),
{
    let ghost all = ancestors(key@, separator@);
    let mut scopes: Vec<CanonicalKey> = Vec::new();
    let mut at = key.clone();
    assert(scopes.deep_view() + all =~= all);
    loop
        invariant
            all == ancestors(key@, separator@),
            scopes.deep_view() + ancestors(at@, separator@) == all,
        decreases at@.len(),
    {
        proof {
            key::parent_is_shorter(at@, separator@);
        }
        match at.parent(separator) {
            None => {
                assert(scopes.deep_view() =~= all);
                return scopes;
            },
            Some(parent) => {
                let ghost before = scopes.deep_view();
                let ghost rest = ancestors(parent@, separator@);
                scopes.push(parent.clone());
                assert(scopes.deep_view() =~= before.push(parent@));
                assert(before + (seq![parent@] + rest) =~= scopes.deep_view() + rest);
                at = parent;
            },
        }
    }
}

/// Whether a scope around a key is a translation itself.
fn find_blocked(
    snapshot: &IndexSnapshot,
    namespace: Option<&str>,
    scopes: &[CanonicalKey],
    locale: &str,
) -> (found: bool)
    ensures
        found == is_blocked(
            snapshot.deep_view(),
            namespace.deep_view(),
            scopes.deep_view(),
            locale@,
        ),
{
    let ghost view = snapshot.deep_view();
    let ghost wanted = namespace.deep_view();
    let ghost all = scopes.deep_view();
    let mut n: usize = 0;
    while n < scopes.len()
        invariant
            n <= scopes@.len(),
            view == snapshot.deep_view(),
            wanted == namespace.deep_view(),
            all == scopes.deep_view(),
            forall|i: int|
                0 <= i < n ==> !has_leaf(view.entries_of(wanted, #[trigger] all[i]), locale@),
        decreases scopes@.len() - n,
    {
        assert(all[n as int] == scopes@[n as int]@);
        let entries = snapshot.qualified_entries(namespace, &scopes[n]);
        let ghost here = entries.deep_view();
        let mut k: usize = 0;
        while k < entries.len()
            invariant
                k <= entries@.len(),
                n < scopes@.len(),
                here == entries.deep_view(),
                view == snapshot.deep_view(),
                wanted == namespace.deep_view(),
                all == scopes.deep_view(),
                here == view.entries_of(wanted, all[n as int]),
                forall|i: int|
                    0 <= i < k ==> !((#[trigger] here[i]).locale == locale@ && here[i].kind
                        == EntryKind::Leaf),
            decreases entries@.len() - k,
        {
            assert(here[k as int] == entries@[k as int].deep_view());
            if entries[k].kind == EntryKind::Leaf && text::same(
                entries[k].locale.as_str(),
                locale,
            ) {
                assert(has_leaf(here, locale@));
                return true;
            }
            k += 1;
        }
        assert(!has_leaf(here, locale@));
        n += 1;
    }
    false
}

/// The innermost of the scopes that is an object of the locale in a file.
fn find_nearest(
    snapshot: &IndexSnapshot,
    namespace: Option<&str>,
    scopes: &[CanonicalKey],
    locale: &str,
    uri: &str,
) -> (found: Option<DictionaryEntry>)
    ensures
        found.deep_view() == nearest_from(
            snapshot.deep_view(),
            namespace.deep_view(),
            scopes.deep_view(),
            locale@,
            uri@,
            0,
        ),
{
    let ghost view = snapshot.deep_view();
    let ghost wanted = namespace.deep_view();
    let ghost all = scopes.deep_view();
    let mut n: usize = 0;
    while n < scopes.len()
        invariant
            n <= scopes@.len(),
            view == snapshot.deep_view(),
            wanted == namespace.deep_view(),
            all == scopes.deep_view(),
            nearest_from(view, wanted, all, locale@, uri@, 0) == nearest_from(
                view,
                wanted,
                all,
                locale@,
                uri@,
                n as int,
            ),
        decreases scopes@.len() - n,
    {
        assert(all[n as int] == scopes@[n as int]@);
        let entries = snapshot.qualified_entries(namespace, &scopes[n]);
        let ghost here = entries.deep_view();
        let mut k: usize = 0;
        while k < entries.len()
            invariant
                k <= entries@.len(),
                n < scopes@.len(),
                here == entries.deep_view(),
                here == view.entries_of(wanted, all[n as int]),
                all == scopes.deep_view(),
                view == snapshot.deep_view(),
                wanted == namespace.deep_view(),
                nearest_from(view, wanted, all, locale@, uri@, 0) == nearest_from(
                    view,
                    wanted,
                    all,
                    locale@,
                    uri@,
                    n as int,
                ),
                object_from(here, locale@, uri@, 0) == object_from(
                    here,
                    locale@,
                    uri@,
                    k as int,
                ),
            decreases entries@.len() - k,
        {
            let entry = entries[k];
            assert(here[k as int] == entry.deep_view());
            if entry.kind == EntryKind::Object && text::same(entry.locale.as_str(), locale)
                && text::same(entry.uri.as_str(), uri) {
                return Some(entry.clone());
            }
            k += 1;
        }
        n += 1;
    }
    None
}

/// The files with entries of a locale in a namespace.
fn find_files(snapshot: &IndexSnapshot, namespace: Option<&str>, locale: &str) -> (files: Vec<
    String,
>)
    ensures
        files.deep_view() == files_with(snapshot.deep_view(), namespace.deep_view(), locale@),
{
    let entries = snapshot.entries_in(namespace);
    let ghost all = entries.deep_view();
    let ghost keep = |entry: dictionary::EntryView| entry.locale == locale@;
    let ghost name = |entry: dictionary::EntryView| entry.uri;
    let ghost mut uris = Seq::<Seq<char>>::empty();
    let mut files: Vec<String> = Vec::new();
    assert(files.deep_view() =~= Seq::<Seq<char>>::empty());
    assert(all.take(0) =~= Seq::<dictionary::EntryView>::empty());
    assert(uris =~= sort::kept(all.take(0), keep).map_values(name));
    let mut n: usize = 0;
    while n < entries.len()
        invariant
            n <= entries@.len(),
            all == entries.deep_view(),
            keep == (|entry: dictionary::EntryView| entry.locale == locale@),
            name == (|entry: dictionary::EntryView| entry.uri),
            uris == sort::kept(all.take(n as int), keep).map_values(name),
            files.deep_view() == text::distinct(uris, uris.len() as int),
        decreases entries@.len() - n,
    {
        let entry = entries[n];
        assert(all[n as int] == entry.deep_view());
        assert(all.take(n + 1) =~= all.take(n as int).push(all[n as int]));
        proof {
            sort::lemma_kept_push(all.take(n as int), all[n as int], keep);
        }
        if text::same(entry.locale.as_str(), locale) {
            let ghost before = uris;
            proof {
                uris = uris.push(entry.uri@);
                assert(uris =~= sort::kept(all.take(n + 1), keep).map_values(name));
                lemma_distinct_prefix(before, entry.uri@, before.len() as int);
            }
            if !text::any_is(&files, entry.uri.as_str()) {
                let ghost front = files.deep_view();
                files.push(entry.uri.clone());
                assert(files.deep_view() =~= front.push(entry.uri@));
            }
        }
        n += 1;
    }
    assert(all.take(n as int) =~= all);
    files
}

proof fn lemma_distinct_prefix(values: Seq<Seq<char>>, more: Seq<char>, n: int)
    requires
        n <= values.len(),
    ensures
        text::distinct(values.push(more), n) == text::distinct(values, n),
    decreases n,
{
    if n > 0 {
        lemma_distinct_prefix(values, more, n - 1);
    }
}

/// Where a key goes: a file, and the object in it.
#[derive(Debug)]
pub struct InsertionTarget {
    pub uri: String,
    pub ancestor: Option<DictionaryEntry>,
}

impl DeepView for InsertionTarget {
    type V = TargetView;

    open spec fn deep_view(&self) -> TargetView {
        TargetView { uri: self.uri@, ancestor: self.ancestor.deep_view() }
    }
}

/// How deep a scope lies.
fn measure_depth(ancestor: &Option<DictionaryEntry>, separator: &str) -> (depth: usize)
    ensures
        depth == depth_of(ancestor.deep_view(), separator@),
{
    match ancestor {
        Some(entry) => search::count_in(entry.key.as_str(), separator) + 1,
        None => 0,
    }
}

/// Where a key goes that is not in the dictionaries yet; nowhere below a translation.
pub fn insertion_target(
    snapshot: &IndexSnapshot,
    namespace: Option<&str>,
    key: &CanonicalKey,
    locale: &str,
    separator: &str,
) -> (target: Option<InsertionTarget>)
    ensures
        target.deep_view() == target_for(
            snapshot.deep_view(),
            namespace.deep_view(),
            key@,
            locale@,
            separator@,
        ),
{
    let ghost view = snapshot.deep_view();
    let ghost wanted = namespace.deep_view();
    let scopes = find_ancestors(key, separator);
    let ghost outer = scopes.deep_view();
    if find_blocked(snapshot, namespace, &scopes, locale) {
        return None;
    }
    let files = find_files(snapshot, namespace, locale);
    let ghost all = files.deep_view();
    assert(all.len() == files@.len());
    let mut best: Option<InsertionTarget> = None;
    let mut n: usize = 0;
    while n < files.len()
        invariant
            n <= files@.len(),
            view == snapshot.deep_view(),
            wanted == namespace.deep_view(),
            outer == scopes.deep_view(),
            all == files.deep_view(),
            best.deep_view() == best_target(
                view,
                wanted,
                outer,
                locale@,
                separator@,
                all,
                n as int,
            ),
        decreases files@.len() - n,
    {
        assert(all[n as int] == files@[n as int]@);
        let uri = files[n].as_str();
        let ancestor = find_nearest(snapshot, namespace, &scopes, locale, uri);
        let better: bool = match &best {
            None => true,
            Some(other) => {
                let here: usize = measure_depth(&ancestor, separator);
                let there: usize = measure_depth(&other.ancestor, separator);
                here > there || (here == there && text::less(uri, other.uri.as_str()))
            },
        };
        if better {
            best = Some(InsertionTarget { uri: uri.to_owned(), ancestor });
        }
        n += 1;
    }
    best
}

/// The white space with which the line begins that `front` ends in.
fn line_indent(front: &str) -> (indent: String)
    ensures
        indent@ == indent_of(front@),
{
    let all = text::chars_of(front);
    let total: usize = all.len();
    let feed: [char; 1] = ['\n'];
    assert(feed@ =~= seq!['\n']);
    let start: usize = match search::rfind(&all, &feed) {
        Some(i) => {
            proof {
                search::lemma_rfind(front@, seq!['\n'], front@.len() as int);
            }
            i + 1
        },
        None => 0,
    };
    let line = text::chars_of(text::string_of(&all, start, total).as_str());
    assert(line@ =~= front@.skip(start as int));
    assert(front@.skip(0) =~= front@);
    let count: usize = match chars::find_first(&line, CharClass::Ink, 0) {
        Some(i) => i,
        None => line.len(),
    };
    let indent = text::string_of(&line, 0, count);
    assert(indent@ =~= line@.take(count as int));
    indent
}

/// The unit of indentation of a text.
fn detect_indent(text: &str) -> (unit: Option<String>)
    ensures
        unit.deep_view() == unit_of(text@),
{
    proof {
        reveal_strlit("\n");
    }
    assert("\n"@ =~= seq!['\n']);
    let lines = search::split(text, "\n");
    let ghost all = lines.deep_view();
    let mut best: Option<String> = None;
    let mut n: usize = 0;
    while n < lines.len()
        invariant
            n <= lines@.len(),
            all == lines.deep_view(),
            best.deep_view() == shortest_unit(all, n as int),
        decreases lines@.len() - n,
    {
        assert(all[n as int] == lines@[n as int]@);
        let whole = text::chars_of(lines[n].as_str());
        let total: usize = whole.len();
        let end: usize = if n + 1 < lines.len() && total > 0 && whole[total - 1] == '\r' {
            total - 1
        } else {
            total
        };
        let line = text::string_of(&whole, 0, end);
        assert(line@ =~= bare_line(all, n as int));
        let ink = text::chars_of(line.as_str());
        let count: usize = match chars::find_first(&ink, CharClass::Ink, 0) {
            Some(i) => i,
            None => ink.len(),
        };
        if 0 < count && count < text::size(line.as_str()) {
            if let Some(unit) = text::slice(line.as_str(), 0, count) {
                let longer: bool = match &best {
                    Some(other) => text::size(other.as_str()) <= text::size(unit),
                    None => false,
                };
                if !longer {
                    best = Some(unit.to_owned());
                }
            }
        }
        n += 1;
    }
    assert(all.len() == lines@.len());
    best
}

/// The text of a property with the JSON strings from `from` on as names, one in the other, around
/// a JSON value.
pub fn nested_property(
    names: &[String],
    value: &str,
    indent: &str,
    unit: &str,
    newline: &str,
    multiline: bool,
    from: usize,
) -> (text: String)
    requires
        from < names@.len(),
    ensures
        text@ == property_text(
            names.deep_view(),
            value@,
            indent@,
            (LayoutView { unit: unit@, newline: newline@, multiline }),
            from as int,
        ),
    decreases names@.len() - from,
{
    let count: usize = names.len();
    assert(names.deep_view()[from as int] == names@[from as int]@);
    let mut text = indent.to_owned();
    text.append(names[from].as_str());
    if from + 1 == count {
        text.append(": ");
        text.append(value);
        return text;
    }
    let mut deeper = indent.to_owned();
    deeper.append(unit);
    let child = nested_property(
        names,
        value,
        deeper.as_str(),
        unit,
        newline,
        multiline,
        from + 1,
    );
    text.append(": {");
    if multiline {
        text.append(newline);
        text.append(child.as_str());
        text.append(newline);
        text.append(indent);
    } else {
        text.append(chars::trim_start(child.as_str()).as_str());
    }
    text.append("}");
    text
}

/// Texts as JSON strings.
fn encode_all(texts: &[String]) -> (literals: Vec<String>)
    ensures
        literals.deep_view() == literals_of(texts.deep_view()),
        literals@.len() == texts@.len(),
{
    let ghost all = literals_of(texts.deep_view());
    assert(texts.deep_view().len() == texts@.len());
    let mut literals: Vec<String> = Vec::new();
    assert(literals.deep_view() =~= all.take(0));
    let mut n: usize = 0;
    while n < texts.len()
        invariant
            n <= texts@.len(),
            all == literals_of(texts.deep_view()),
            all.len() == texts@.len(),
            literals@.len() == n,
            literals.deep_view() == all.take(n as int),
        decreases texts@.len() - n,
    {
        assert(texts.deep_view()[n as int] == texts@[n as int]@);
        let ghost before = literals.deep_view();
        literals.push(json::encode_string(texts[n].as_str()));
        assert(literals.deep_view() =~= before.push(all[n as int]));
        assert(all.take(n + 1) =~= before.push(all[n as int]));
        n += 1;
    }
    assert(all.take(n as int) =~= all);
    literals
}

/// What is put into an object, and where.
pub fn plan_insertion(
    text: &str,
    start: usize,
    end: usize,
    names: &[String],
    value: &str,
) -> (plan: Option<(usize, String)>)
    requires
        names@.len() > 0,
    ensures
        match plan {
            Some((offset, added)) => insertion(
                text@,
                start as int,
                end as int,
                names.deep_view(),
                value@,
            ) == Some(InsertView { offset: offset as int, text: added@ }),
            None => insertion(
                text@,
                start as int,
                end as int,
                names.deep_view(),
                value@,
            ) is None,
        },
{
    let size: usize = text::size(text);
    if end == 0 {
        assert(text::index_at(text@, -1) is None);
        return None;
    }
    let closing: usize = end - 1;
    if start >= closing {
        proof {
            lemma_slice_order(text@, start + 1, closing as int);
        }
        return None;
    }
    let inner = match text::slice(text, start + 1, closing) {
        Some(inner) => inner,
        None => {
            return None;
        },
    };
    let front = match text::slice(text, 0, closing) {
        Some(front) => front,
        None => {
            return None;
        },
    };
    let indent = line_indent(front);
    let found = detect_indent(text);
    let unit = match &found {
        Some(unit) => unit.as_str(),
        None => "  ",
    };
    let newline = if search::holds(text, "\r\n") {
        "\r\n"
    } else {
        "\n"
    };
    let ink = text::chars_of(inner);
    let multiline = chars::find_first(&ink, CharClass::LineBreak, 0).is_some();
    let mut deeper = indent.clone();
    deeper.append(unit);
    let property = nested_property(names, value, deeper.as_str(), unit, newline, multiline, 0);
    if chars::blank(inner) {
        if multiline {
            let mut added = newline.to_owned();
            added.append(property.as_str());
            added.append(newline);
            added.append(indent.as_str());
            Some((start + 1, added))
        } else {
            Some((closing, chars::trim_start(property.as_str())))
        }
    } else if multiline {
        match chars::find_last(&ink, CharClass::Ink, ink.len()) {
            None => None,
            Some(last) => {
                let lead = text::string_of(&ink, 0, last);
                assert(lead@ =~= inner@.take(last as int));
                let width: usize = text::size(lead.as_str());
                proof {
                    crate::line_index::lemma_slice_size(text@, start + 1, closing as int);
                    text::lemma_byte_len_take(inner@, last as int, last + 1);
                }
                let mut added = ",".to_owned();
                added.append(newline);
                added.append(property.as_str());
                Some((start + 1 + width + 1, added))
            },
        }
    } else {
        let mut added = ",".to_owned();
        added.append(chars::trim_start(property.as_str()).as_str());
        Some((closing, added))
    }
}

proof fn lemma_slice_order(text: Seq<char>, start: int, end: int)
    requires
        end < start,
    ensures
        text::byte_slice(text, start, end) is None,
{
    text::lemma_index_at(text, start);
    text::lemma_index_at(text, end);
    if let (Some(i), Some(j)) = (text::index_at(text, start), text::index_at(text, end)) {
        if i <= j {
            text::lemma_byte_len_take(text, i, j);
        }
    }
}

/// What an editor is to put into a file.
#[derive(Debug)]
pub struct PreparedEdit {
    pub uri: String,
    pub version: Option<i32>,
    pub range: Range,
    pub new_text: String,
}

impl DeepView for PreparedEdit {
    type V = EditView;

    open spec fn deep_view(&self) -> EditView {
        EditView {
            uri: self.uri@,
            version: self.version,
            range: self.range,
            new_text: self.new_text@,
        }
    }
}

/// The bytes of the object that a property goes into.
fn find_object(text: &str, ancestor: &Option<DictionaryEntry>) -> (range: Option<(usize, usize)>)
    ensures
        match range {
            Some((start, end)) => object_range(text@, ancestor.deep_view()) == Some(
                (start as int, end as int),
            ),
            None => object_range(text@, ancestor.deep_view()) is None,
        },
{
    if let Some(entry) = ancestor {
        return Some((entry.value_range.0.start, entry.value_range.0.end));
    }
    let all = text::chars_of(text);
    let total: usize = all.len();
    match (
        chars::find_first(&all, CharClass::OpenBrace, 0),
        chars::find_last(&all, CharClass::CloseBrace, total),
    ) {
        (Some(open), Some(close)) => {
            let before = text::string_of(&all, 0, open);
            let inside = text::string_of(&all, 0, close);
            assert(before@ =~= text@.take(open as int));
            assert(inside@ =~= text@.take(close as int));
            let size: usize = text::size(text);
            proof {
                text::lemma_byte_len_take(text@, close as int, close + 1);
            }
            Some((text::size(before.as_str()), text::size(inside.as_str()) + 1))
        },
        _ => None,
    }
}

/// The edit that adds a key with a translation.
pub fn prepare_insertion(
    snapshot: &IndexSnapshot,
    namespace: Option<&str>,
    key: &CanonicalKey,
    locale: &str,
    separator: &str,
    value: &str,
) -> (edit: Option<PreparedEdit>)
    ensures
        edit.deep_view() == edit_for(
            snapshot.deep_view(),
            namespace.deep_view(),
            key@,
            locale@,
            separator@,
            value@,
        ),
        // What is written for the translation reads as the translation.
        edit is Some ==> json::string_value(json::string_literal(value@)) == Some(value@),
{
    let target = match insertion_target(snapshot, namespace, key, locale, separator) {
        Some(target) => target,
        None => {
            return None;
        },
    };
    let uri = target.uri.as_str();
    let text = match snapshot.text(uri) {
        Some(text) => text,
        None => {
            return None;
        },
    };
    let (start, end): (usize, usize) = match find_object(text, &target.ancestor) {
        Some(range) => range,
        None => {
            return None;
        },
    };
    let relative = match &target.ancestor {
        Some(entry) => match key.relative_to(&entry.key, separator) {
            Some(relative) => relative,
            None => key.as_str(),
        },
        None => key.as_str(),
    };
    let segments = search::split(relative, separator);
    assert(segments.deep_view().len() == segments@.len());
    assert(search::segments(relative@, separator@).len() > 0);
    let names = encode_all(&segments);
    let literal = json::encode_string(value);
    let (offset, new_text) = match plan_insertion(text, start, end, &names, literal.as_str()) {
        Some(plan) => plan,
        None => {
            return None;
        },
    };
    match position::find_position(text, &LineIndex::new(text), offset) {
        None => None,
        Some(at) => Some(
            PreparedEdit {
                uri: target.uri.clone(),
                version: snapshot.version(uri),
                range: Range { start: at, end: at },
                new_text,
            },
        ),
    }
}

/// A change that an editor made: of a range, or of all of a text.
#[derive(Debug)]
pub struct TextChange {
    pub range: Option<Range>,
    pub text: String,
}

/// What a `TextChange` holds.
pub struct ChangeView {
    pub range: Option<Range>,
    pub text: Seq<char>,
}

impl DeepView for TextChange {
    type V = ChangeView;

    open spec fn deep_view(&self) -> ChangeView {
        ChangeView { range: self.range, text: self.text@ }
    }
}

/// A text after one change; a range without a place in the text, or from a later place to an
/// earlier one, changes nothing.
pub open spec fn changed(text: Seq<char>, change: ChangeView) -> Seq<char> {
    match change.range {
        None => change.text,
        Some(range) => match (
            position::offset_at(text, range.start),
            position::offset_at(text, range.end),
        ) {
            (Some(start), Some(end)) => match (
                text::index_at(text, start),
                text::index_at(text, end),
            ) {
                (Some(i), Some(j)) => if i <= j {
                    text.take(i) + change.text + text.skip(j)
                } else {
                    text
                },
                _ => text,
            },
            _ => text,
        },
    }
}

/// A text after the first `n` changes, one after the other.
pub open spec fn changed_by(text: Seq<char>, changes: Seq<ChangeView>, n: int) -> Seq<char>
    decreases n,
{
    if n <= 0 {
        text
    } else {
        changed(changed_by(text, changes, n - 1), changes[n - 1])
    }
}

/// A text after one change.
fn apply_change(text: String, change: &TextChange) -> (result: String)
    ensures
        result@ == changed(text@, change.deep_view()),
{
    let range = match change.range {
        None => {
            return change.text.clone();
        },
        Some(range) => range,
    };
    let index = LineIndex::new(text.as_str());
    let start: usize = match position::find_offset(text.as_str(), &index, range.start) {
        Some(start) => start,
        None => {
            return text;
        },
    };
    let end: usize = match position::find_offset(text.as_str(), &index, range.end) {
        Some(end) => end,
        None => {
            return text;
        },
    };
    let size: usize = text::size(text.as_str());
    proof {
        text::lemma_index_at(text@, start as int);
        text::lemma_index_at(text@, end as int);
        text::lemma_index_of_prefix(text@, text@.len() as int);
        assert(text@.take(text@.len() as int) =~= text@);
    }
    match (text::slice(text.as_str(), start, end), text::slice(text.as_str(), 0, start)) {
        (Some(_), Some(front)) => {
            let mut result = front.to_owned();
            result.append(change.text.as_str());
            match text::slice(text.as_str(), end, size) {
                Some(back) => {
                    result.append(back);
                    proof {
                        let i = text::index_at(text@, start as int)->0;
                        let j = text::index_at(text@, end as int)->0;
                        assert(text@.subrange(0, i) =~= text@.take(i));
                        assert(text@.subrange(j, text@.len() as int) =~= text@.skip(j));
                    }
                    result
                },
                None => text,
            }
        },
        _ => text,
    }
}

/// A text after changes, one after the other.
pub fn apply_changes(text: String, changes: &[TextChange]) -> (result: String)
    ensures
        result@ == changed_by(text@, changes.deep_view(), changes@.len() as int),
{
    let ghost all = changes.deep_view();
    let ghost first = text@;
    let mut result = text;
    let mut n: usize = 0;
    while n < changes.len()
        invariant
            n <= changes@.len(),
            all == changes.deep_view(),
            result@ == changed_by(first, all, n as int),
        decreases changes@.len() - n,
    {
        assert(all[n as int] == changes@[n as int].deep_view());
        result = apply_change(result, &changes[n]);
        n += 1;
    }
    result
}

} // verus!
